//! Golden-section search for the rotation at which a shape is nearest to a
//! template.
//!
//! The search runs over a fixed bracket of angles. It asks for the distance
//! at one angle at a time and narrows the bracket toward the lower of its two
//! probes. The distance itself is computed by the caller: a
//! [`BestAngleSearch`] says which angle it needs next, and is told the score
//! found there.
//!
//! Angles are integers in nanoradians. Scores are ordered integers, lower
//! being nearer.

use vstd::prelude::*;

verus! {

/// Angle units per radian.
pub const ANGLE_UNIT: i64 = 1_000_000_000;

/// Upper end of the search range: 45 degrees.
pub const THETA_MAX: i64 = 785_398_163;

/// Lower end of the search range: minus 45 degrees.
pub const THETA_MIN: i64 = -785_398_163;

/// Bracket width at which the search stops: 2 degrees.
pub const DELTA_THETA: i64 = 34_906_585;

/// The golden ratio's conjugate, in parts of `ANGLE_UNIT`.
pub const INVERSE_PHI: i64 = 618_033_989;

/// What `INVERSE_PHI` leaves of the whole: `ANGLE_UNIT - INVERSE_PHI`.
pub const INVERSE_PHI_REST: i64 = 381_966_011;

/// The lower interior probe of the bracket from `lo` to `hi`: the weighted
/// mean that gives `lo` the weight `INVERSE_PHI`, rounded down.
pub open spec fn lower_probe(lo: int, hi: int) -> int {
    (INVERSE_PHI * lo + INVERSE_PHI_REST * hi) / (ANGLE_UNIT as int)
}

/// The upper interior probe of the bracket from `lo` to `hi`: the weighted
/// mean that gives `hi` the weight `INVERSE_PHI`, rounded down.
pub open spec fn upper_probe(lo: int, hi: int) -> int {
    (INVERSE_PHI_REST * lo + INVERSE_PHI * hi) / (ANGLE_UNIT as int)
}

/// A search in progress: the bracket, its two probes, and the scores known
/// at them. A probe whose score is `None` is still to be evaluated.
pub struct SearchState {
    pub lo: int,
    pub hi: int,
    pub x1: int,
    pub x2: int,
    pub f1: Option<u32>,
    pub f2: Option<u32>,
}

impl SearchState {
    /// The start: the full range, nothing evaluated.
    pub open spec fn initial() -> SearchState {
        SearchState {
            lo: THETA_MIN as int,
            hi: THETA_MAX as int,
            x1: lower_probe(THETA_MIN as int, THETA_MAX as int),
            x2: upper_probe(THETA_MIN as int, THETA_MAX as int),
            f1: None,
            f2: None,
        }
    }

    /// The angle whose score the search needs next; `None` once it has
    /// finished.
    pub open spec fn pending(self) -> Option<int> {
        if self.f1 is None {
            Some(self.x1)
        } else if self.f2 is None {
            Some(self.x2)
        } else {
            None
        }
    }

    /// The score of the search: the lower of the two last scores, once
    /// nothing is pending.
    pub open spec fn result(self) -> Option<u32> {
        match (self.f1, self.f2) {
            (Some(f1), Some(f2)) => Some(if f1 <= f2 { f1 } else { f2 }),
            _ => None,
        }
    }

    /// The bracket narrowed toward the lower-scoring probe. That probe and
    /// its score are kept; the other probe is placed anew and awaits its
    /// score. On equal scores the bracket moves up.
    pub open spec fn narrowed(self) -> SearchState
        recommends
            self.f1 is Some,
            self.f2 is Some,
    {
        if self.f1->Some_0 < self.f2->Some_0 {
            SearchState {
                lo: self.lo,
                hi: self.x2,
                x1: lower_probe(self.lo, self.x2),
                x2: self.x1,
                f1: None,
                f2: self.f1,
            }
        } else {
            SearchState {
                lo: self.x1,
                hi: self.hi,
                x1: self.x2,
                x2: upper_probe(self.x1, self.hi),
                f1: self.f2,
                f2: None,
            }
        }
    }

    /// The state once both probes have their scores: narrowed while the
    /// bracket is wider than `DELTA_THETA`, and finished as it stands otherwise.
    pub open spec fn settled(self) -> SearchState {
        if self.f1 is Some && self.f2 is Some && self.hi - self.lo > DELTA_THETA {
            self.narrowed()
        } else {
            self
        }
    }

    /// The state after `score` was found at the pending angle. A finished
    /// search ignores further scores.
    pub open spec fn observe(self, score: u32) -> SearchState {
        if self.f1 is None {
            (SearchState { f1: Some(score), ..self }).settled()
        } else if self.f2 is None {
            (SearchState { f2: Some(score), ..self }).settled()
        } else {
            self
        }
    }

    /// The state after the scores of `scores` were observed in order.
    pub open spec fn observe_all(self, scores: Seq<u32>) -> SearchState
        decreases scores.len(),
    {
        if scores.len() == 0 {
            self
        } else {
            self.observe_all(scores.drop_last()).observe(scores.last())
        }
    }

    /// Whether the bracket and both probes lie in the search range.
    pub open spec fn in_range(self) -> bool {
        &&& THETA_MIN <= self.lo <= THETA_MAX
        &&& THETA_MIN <= self.hi <= THETA_MAX
        &&& THETA_MIN <= self.x1 <= THETA_MAX
        &&& THETA_MIN <= self.x2 <= THETA_MAX
    }
}

/// Number of scores that a search takes from its start to its end.
pub const EVALUATIONS: usize = 10;

/// The least score of a non-empty sequence.
pub open spec fn least_score(scores: Seq<u32>) -> u32
    recommends
        scores.len() > 0,
    decreases scores.len(),
{
    if scores.len() <= 1 {
        scores[0]
    } else {
        let rest = least_score(scores.drop_last());
        if scores.last() < rest {
            scores.last()
        } else {
            rest
        }
    }
}

/// Bounds on a bracket that has been narrowed `k` times: the least and the
/// greatest width, then the least and the greatest distance of a probe from
/// the bracket end next to it.
spec fn bracket_bounds(k: nat) -> (int, int, int, int) {
    if k == 0 {
        (1_570_796_326, 1_570_796_326, 599_990_806, 599_990_807)
    } else if k == 1 {
        (970_805_519, 970_805_520, 370_814_711, 370_814_714)
    } else if k == 2 {
        (599_990_805, 599_990_809, 229_176_091, 229_176_098)
    } else if k == 3 {
        (370_814_707, 370_814_718, 141_638_609, 141_638_627)
    } else if k == 4 {
        (229_176_080, 229_176_109, 87_537_453, 87_537_500)
    } else if k == 5 {
        (141_638_580, 141_638_656, 54_101_080, 54_101_203)
    } else if k == 6 {
        (87_537_377, 87_537_576, 33_436_174, 33_436_496)
    } else if k == 7 {
        (54_100_881, 54_101_402, 20_664_385, 20_665_228)
    } else {
        (33_435_653, 33_437_017, 12_770_425, 12_772_632)
    }
}

/// Whether `state` has the bracket of a search that has narrowed `k` times.
spec fn narrowed_times(state: SearchState, k: nat) -> bool {
    let (least_width, greatest_width, least_offset, greatest_offset) = bracket_bounds(k);
    &&& THETA_MIN <= state.lo
    &&& state.hi <= THETA_MAX
    &&& least_width <= state.hi - state.lo <= greatest_width
    &&& least_offset <= state.x1 - state.lo <= greatest_offset
    &&& least_offset <= state.hi - state.x2 <= greatest_offset
}

/// The least of the scores that `state` knows.
spec fn least_known(state: SearchState) -> Option<u32> {
    match (state.f1, state.f2) {
        (Some(f1), Some(f2)) => Some(if f1 <= f2 { f1 } else { f2 }),
        (Some(f1), None) => Some(f1),
        (None, Some(f2)) => Some(f2),
        (None, None) => None,
    }
}

/// What holds of a search that started afresh and was told `scores`.
spec fn reached(state: SearchState, scores: Seq<u32>) -> bool {
    let n = scores.len();
    if n == 0 {
        state == SearchState::initial()
    } else if n == 1 {
        state == (SearchState { f1: Some(scores[0]), ..SearchState::initial() })
    } else if n < EVALUATIONS {
        &&& narrowed_times(state, (n - 1) as nat)
        &&& (state.f1 is None) != (state.f2 is None)
        &&& least_known(state) == Some(least_score(scores))
    } else {
        &&& narrowed_times(state, 8)
        &&& state.f1 is Some
        &&& state.f2 is Some
        &&& least_known(state) == Some(least_score(scores.take(EVALUATIONS as int)))
    }
}

proof fn lemma_narrowing_step(state: SearchState, k: nat)
    requires
        narrowed_times(state, k),
        k < 8,
        state.f1 is Some,
        state.f2 is Some,
    ensures
        state.settled() == state.narrowed(),
        narrowed_times(state.narrowed(), k + 1),
{
}

proof fn lemma_reached(scores: Seq<u32>)
    ensures
        reached(SearchState::initial().observe_all(scores), scores),
    decreases scores.len(),
{
    let n = scores.len();
    let start = SearchState::initial();
    if n == 0 {
    } else {
        let front = scores.drop_last();
        let before = start.observe_all(front);
        let after = before.observe(scores.last());
        lemma_reached(front);
        assert(start.observe_all(scores) == after);
        if n == 1 {
            assert(scores.last() == scores[0]);
        } else if n == 2 {
            assert(front[0] == scores[0]);
            let told = SearchState { f2: Some(scores.last()), ..before };
            assert(narrowed_times(told, 0));
            lemma_narrowing_step(told, 0);
            reveal_with_fuel(least_score, 2);
        } else if n < EVALUATIONS {
            let told = if before.f1 is None {
                SearchState { f1: Some(scores.last()), ..before }
            } else {
                SearchState { f2: Some(scores.last()), ..before }
            };
            assert(narrowed_times(told, (n - 2) as nat));
            lemma_narrowing_step(told, (n - 2) as nat);
        } else if n == EVALUATIONS {
            assert(scores.take(EVALUATIONS as int) =~= scores);
        } else {
            assert(scores.take(EVALUATIONS as int) =~= front.take(EVALUATIONS as int));
        }
    }
}

/// A search takes exactly `EVALUATIONS` scores, whatever they are: until
/// then an angle is pending, and from then on none is. Its probes lie in
/// order inside its bracket, and its bracket inside the search range.
pub proof fn lemma_search_takes_ten_scores(scores: Seq<u32>)
    ensures
        ({
            let state = SearchState::initial().observe_all(scores);
            &&& state.pending() is Some <==> scores.len() < EVALUATIONS
            &&& state.result() is Some <==> scores.len() >= EVALUATIONS
            &&& THETA_MIN <= state.lo < state.x1 < state.x2 < state.hi <= THETA_MAX
        }),
{
    lemma_reached(scores);
}

/// The score of a finished search is the least of the scores it was told.
pub proof fn lemma_result_is_least_score(scores: Seq<u32>)
    requires
        scores.len() >= EVALUATIONS,
    ensures
        SearchState::initial().observe_all(scores).result() == Some(
            least_score(scores.take(EVALUATIONS as int)),
        ),
{
    lemma_reached(scores);
}

impl SearchState {
    /// The scores that the search is told in its next `steps` steps when the
    /// score at every angle is given by `score_at`.
    pub open spec fn told_by(self, score_at: spec_fn(int) -> u32, steps: nat) -> Seq<u32>
        decreases steps,
    {
        if steps == 0 {
            Seq::empty()
        } else {
            let told = self.told_by(score_at, (steps - 1) as nat);
            match self.observe_all(told).pending() {
                Some(angle) => told.push(score_at(angle)),
                None => told,
            }
        }
    }

    /// The state after `steps` steps of a search in which the score at every
    /// angle is given by `score_at`.
    pub open spec fn driven_by(self, score_at: spec_fn(int) -> u32, steps: nat) -> SearchState {
        self.observe_all(self.told_by(score_at, steps))
    }
}

/// Whether the scores of `score_at` over the search range never rise on the
/// way to the angle `best` and rise strictly from it.
pub open spec fn has_valley_at(score_at: spec_fn(int) -> u32, best: int) -> bool {
    &&& THETA_MIN <= best <= THETA_MAX
    &&& forall|a: int, b: int|
        THETA_MIN <= a < b <= best ==> #[trigger] score_at(a) >= #[trigger] score_at(b)
    &&& forall|a: int, b: int|
        best <= a < b <= THETA_MAX ==> #[trigger] score_at(a) < #[trigger] score_at(b)
}

/// What holds of a search over a valley at `best` after `steps` steps.
spec fn follows_valley(
    state: SearchState,
    score_at: spec_fn(int) -> u32,
    best: int,
    steps: nat,
) -> bool {
    let told = SearchState::initial().told_by(score_at, steps);
    &&& state == SearchState::initial().observe_all(told)
    &&& told.len() == if steps < EVALUATIONS { steps } else { EVALUATIONS as nat }
    &&& state.lo <= best <= state.hi
    &&& state.f1 is Some ==> state.f1 == Some(score_at(state.x1))
    &&& state.f2 is Some ==> state.f2 == Some(score_at(state.x2))
}

proof fn lemma_follows_valley(score_at: spec_fn(int) -> u32, best: int, steps: nat)
    requires
        has_valley_at(score_at, best),
    ensures
        follows_valley(SearchState::initial().driven_by(score_at, steps), score_at, best, steps),
    decreases steps,
{
    let start = SearchState::initial();
    if steps > 0 {
        let told = start.told_by(score_at, (steps - 1) as nat);
        let before = start.observe_all(told);
        lemma_follows_valley(score_at, best, (steps - 1) as nat);
        lemma_search_takes_ten_scores(told);
        match before.pending() {
            Some(angle) => {
                let score = score_at(angle);
                let after = before.observe(score);
                assert(told.push(score).drop_last() =~= told);
                assert(start.observe_all(told.push(score)) == after);
                lemma_search_takes_ten_scores(told.push(score));
                let heard = if before.f1 is None {
                    SearchState { f1: Some(score), ..before }
                } else {
                    SearchState { f2: Some(score), ..before }
                };
                if heard.f1 is Some && heard.f2 is Some && heard.hi - heard.lo > DELTA_THETA {
                    if heard.f1->Some_0 < heard.f2->Some_0 {
                        if best >= heard.x2 {
                            assert(score_at(heard.x1) >= score_at(heard.x2));
                        }
                    } else {
                        if best <= heard.x1 {
                            assert(score_at(heard.x1) < score_at(heard.x2));
                        }
                    }
                }
            },
            None => {},
        }
    }
}

/// Where the scores form a valley, a finished search has bracketed its
/// lowest point: the best angle lies in the last bracket, which is no wider
/// than `DELTA_THETA`, and so do both of the probes whose lower score is the
/// result.
pub proof fn lemma_search_brackets_the_valley(score_at: spec_fn(int) -> u32, best: int, steps: nat)
    requires
        has_valley_at(score_at, best),
        steps >= EVALUATIONS,
    ensures
        ({
            let state = SearchState::initial().driven_by(score_at, steps);
            &&& state.lo <= best <= state.hi
            &&& state.hi - state.lo <= DELTA_THETA
            &&& state.lo < state.x1 < state.x2 < state.hi
            &&& state.result() == Some(
                if score_at(state.x1) <= score_at(state.x2) {
                    score_at(state.x1)
                } else {
                    score_at(state.x2)
                },
            )
        }),
{
    lemma_follows_valley(score_at, best, steps);
    let told = SearchState::initial().told_by(score_at, steps);
    lemma_search_takes_ten_scores(told);
    lemma_reached(told);
}

/// A golden-section search for the lowest score over the angles from
/// `THETA_MIN` to `THETA_MAX`.
pub struct BestAngleSearch {
    lo: i64,
    hi: i64,
    x1: i64,
    x2: i64,
    f1: Option<u32>,
    f2: Option<u32>,
}

impl View for BestAngleSearch {
    type V = SearchState;

    closed spec fn view(&self) -> SearchState {
        SearchState {
            lo: self.lo as int,
            hi: self.hi as int,
            x1: self.x1 as int,
            x2: self.x2 as int,
            f1: self.f1,
            f2: self.f2,
        }
    }
}

/// The lower interior probe of the bracket from `lo` to `hi`.
fn lower_probe_of(lo: i64, hi: i64) -> (probe: i64)
    requires
        THETA_MIN <= lo <= THETA_MAX,
        THETA_MIN <= hi <= THETA_MAX,
    ensures
        probe == lower_probe(lo as int, hi as int),
        THETA_MIN <= probe <= THETA_MAX,
{
    let from_min: i64 = lo - THETA_MIN;
    let to_max: i64 = hi - THETA_MIN;
    let near: i64 = INVERSE_PHI * from_min;
    let far: i64 = INVERSE_PHI_REST * to_max;
    let weighted: i64 = near + far;
    weighted / ANGLE_UNIT + THETA_MIN
}

/// The upper interior probe of the bracket from `lo` to `hi`.
fn upper_probe_of(lo: i64, hi: i64) -> (probe: i64)
    requires
        THETA_MIN <= lo <= THETA_MAX,
        THETA_MIN <= hi <= THETA_MAX,
    ensures
        probe == upper_probe(lo as int, hi as int),
        THETA_MIN <= probe <= THETA_MAX,
{
    let from_min: i64 = lo - THETA_MIN;
    let to_max: i64 = hi - THETA_MIN;
    let near: i64 = INVERSE_PHI_REST * from_min;
    let far: i64 = INVERSE_PHI * to_max;
    let weighted: i64 = near + far;
    weighted / ANGLE_UNIT + THETA_MIN
}

impl BestAngleSearch {
    #[verifier::type_invariant]
    spec fn stays_in_range(self) -> bool {
        self@.in_range()
    }

    /// A search at its start.
    pub fn new() -> (search: BestAngleSearch)
        ensures
            search@ == SearchState::initial(),
    {
        BestAngleSearch {
            lo: THETA_MIN,
            hi: THETA_MAX,
            x1: lower_probe_of(THETA_MIN, THETA_MAX),
            x2: upper_probe_of(THETA_MIN, THETA_MAX),
            f1: None,
            f2: None,
        }
    }

    /// The angle whose score the search needs next; `None` once it has
    /// finished.
    pub fn pending(&self) -> (angle: Option<i64>)
        ensures
            angle is Some == self@.pending() is Some,
            angle is Some ==> angle->Some_0 == self@.pending()->Some_0 && THETA_MIN
                <= angle->Some_0 <= THETA_MAX,
    {
        proof {
            use_type_invariant(self);
        }
        if self.f1.is_none() {
            Some(self.x1)
        } else if self.f2.is_none() {
            Some(self.x2)
        } else {
            None
        }
    }

    /// The score of the search, once nothing is pending.
    pub fn result(&self) -> (score: Option<u32>)
        ensures
            score == self@.result(),
    {
        match (self.f1, self.f2) {
            (Some(f1), Some(f2)) => Some(if f1 <= f2 { f1 } else { f2 }),
            _ => None,
        }
    }

    /// Tells the search the score found at the pending angle.
    pub fn observe(&mut self, score: u32)
        ensures
            final(self)@ == old(self)@.observe(score),
    {
        proof {
            use_type_invariant(&*self);
        }
        if self.f1.is_none() {
            self.f1 = Some(score);
        } else if self.f2.is_none() {
            self.f2 = Some(score);
        } else {
            return ;
        }
        match (self.f1, self.f2) {
            (Some(f1), Some(f2)) => {
                if self.hi - self.lo > DELTA_THETA {
                    if f1 < f2 {
                        let probe = lower_probe_of(self.lo, self.x2);
                        self.hi = self.x2;
                        self.x2 = self.x1;
                        self.f2 = self.f1;
                        self.x1 = probe;
                        self.f1 = None;
                    } else {
                        let probe = upper_probe_of(self.x1, self.hi);
                        self.lo = self.x1;
                        self.x1 = self.x2;
                        self.f1 = self.f2;
                        self.x2 = probe;
                        self.f2 = None;
                    }
                }
            },
            _ => {},
        }
    }
}

} // verus!
