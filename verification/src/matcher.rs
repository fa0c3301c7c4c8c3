//! Matching a shape against the template library.
//!
//! Every template gets one score, the lowest that a [`BestAngleSearch`]
//! finds for it, and the template with the lowest score wins.

use crate::library::{Template, TemplateKey, TemplateLibrary};
use crate::score::WORST_SCORE;
use crate::search::{
    lemma_result_is_least_score, lemma_search_takes_ten_scores, least_score, BestAngleSearch,
    SearchState, EVALUATIONS, THETA_MAX, THETA_MIN,
};
use crate::shape::{NormalizedShape, Point};
use vstd::prelude::*;

verus! {

/// The label that stands for no match.
pub open spec fn not_recognized() -> Seq<char> {
    "not recognized"@
}

/// Whether position `i` holds the least score of `scores` and is the first
/// to do so.
pub open spec fn first_least(scores: Seq<u32>, i: int) -> bool {
    &&& 0 <= i < scores.len()
    &&& forall|j: int| 0 <= j < i ==> scores[j] > scores[i]
    &&& forall|j: int| i <= j < scores.len() ==> scores[j] >= scores[i]
}

/// The position that wins among `scores`: the first one with the least
/// score, if that score is lower than `WORST_SCORE`, and none otherwise.
pub open spec fn winner(scores: Seq<u32>) -> Option<int> {
    if exists|i: int| first_least(scores, i) && scores[i] < WORST_SCORE {
        Some(choose|i: int| first_least(scores, i) && scores[i] < WORST_SCORE)
    } else {
        None
    }
}

/// At most one position is the first with the least score.
pub proof fn lemma_first_least_is_unique(scores: Seq<u32>, i: int, j: int)
    requires
        first_least(scores, i),
        first_least(scores, j),
    ensures
        i == j,
{
    if i < j {
        assert(scores[i] > scores[j]);
        assert(scores[j] >= scores[i]);
    } else if j < i {
        assert(scores[j] > scores[i]);
        assert(scores[i] >= scores[j]);
    }
}

/// Every non-empty sequence of scores has a first position with its least
/// score.
pub proof fn lemma_first_least_exists(scores: Seq<u32>)
    requires
        scores.len() > 0,
    ensures
        exists|i: int| first_least(scores, i),
    decreases scores.len(),
{
    if scores.len() == 1 {
        assert(first_least(scores, 0));
    } else {
        let front = scores.drop_last();
        let last = scores.len() - 1;
        lemma_first_least_exists(front);
        let i = choose|i: int| first_least(front, i);
        assert forall|j: int| 0 <= j < last implies front[j] == scores[j] by {}
        if scores[last] < scores[i] {
            assert forall|j: int| 0 <= j < last implies scores[j] > scores[last] by {
                assert(front[j] >= front[i] || front[j] > front[i]);
            }
            assert(first_least(scores, last));
        } else {
            assert(first_least(scores, i));
        }
    }
}

/// The winner is the first position with the least score, and that score is
/// lower than `WORST_SCORE`; there is no winner exactly when no score is
/// lower than `WORST_SCORE`.
pub proof fn lemma_winner(scores: Seq<u32>)
    ensures
        match winner(scores) {
            Some(i) => first_least(scores, i) && scores[i] < WORST_SCORE,
            None => forall|j: int| 0 <= j < scores.len() ==> scores[j] >= WORST_SCORE,
        },
{
    if winner(scores) is None {
        assert forall|j: int| 0 <= j < scores.len() implies scores[j] >= WORST_SCORE by {
            lemma_first_least_exists(scores);
            let i = choose|i: int| first_least(scores, i);
            assert(scores[i] <= scores[j]);
        }
    }
}

/// The outcome of a recognition: a label and the score it was found with.
pub struct Recognition {
    pub label: String,
    pub score: u32,
}

/// What a recognition over `templates` yields when template `i` has the
/// score `scores[i]`: the label and score of the winner, or the label of no
/// match with `WORST_SCORE`.
pub open spec fn recognized(templates: Seq<TemplateKey>, scores: Seq<u32>) -> (Seq<char>, u32) {
    match winner(scores) {
        Some(i) => (templates[i].0, scores[i]),
        None => (not_recognized(), WORST_SCORE),
    }
}

/// The scores that count in a recognition over `templates`: one for each
/// template, as far as there are templates.
pub open spec fn counted(templates: Seq<TemplateKey>, scores: Seq<u32>) -> Seq<u32> {
    if scores.len() <= templates.len() {
        scores
    } else {
        scores.take(templates.len() as int)
    }
}

/// The position that wins among the first `limit` of `scores`.
fn best_among(scores: &Vec<u32>, limit: usize) -> (best: Option<usize>)
    requires
        limit <= scores@.len(),
    ensures
        best is Some ==> winner(scores@.take(limit as int)) == Some(best->Some_0 as int),
        best is None ==> winner(scores@.take(limit as int)) is None,
        best is Some ==> best->Some_0 < limit,
{
    let ghost counted = scores@.take(limit as int);
    let mut best: Option<usize> = None;
    let mut nearest: u32 = WORST_SCORE;
    let mut i: usize = 0;
    while i < limit
        invariant
            i <= limit <= scores@.len(),
            counted == scores@.take(limit as int),
            best is None ==> nearest == WORST_SCORE && forall|j: int|
                0 <= j < i ==> counted[j] >= WORST_SCORE,
            best is Some ==> best->Some_0 < i && nearest == counted[best->Some_0 as int] && nearest
                < WORST_SCORE && first_least(counted.take(i as int), best->Some_0 as int),
        decreases limit - i,
    {
        assert(counted[i as int] == scores@[i as int]);
        if scores[i] < nearest {
            nearest = scores[i];
            best = Some(i);
        }
        i += 1;
    }
    proof {
        assert(counted.take(i as int) =~= counted);
        match best {
            Some(b) => {
                let w = choose|k: int| first_least(counted, k) && counted[k] < WORST_SCORE;
                lemma_first_least_is_unique(counted, w, b as int);
            },
            None => {
                assert forall|k: int| !(first_least(counted, k) && counted[k] < WORST_SCORE) by {}
            },
        }
    }
    best
}

/// The position that wins among `scores`: the first one with the least
/// score, if that score is lower than `WORST_SCORE`.
pub fn best_match(scores: &Vec<u32>) -> (best: Option<usize>)
    ensures
        best is Some ==> winner(scores@) == Some(best->Some_0 as int),
        best is None ==> winner(scores@) is None,
        best is Some ==> first_least(scores@, best->Some_0 as int) && scores@[best->Some_0 as int]
            < WORST_SCORE,
        best is None ==> forall|j: int| 0 <= j < scores@.len() ==> scores@[j] >= WORST_SCORE,
{
    proof {
        assert(scores@.take(scores@.len() as int) =~= scores@);
        lemma_winner(scores@);
    }
    best_among(scores, scores.len())
}

/// Names the template of `library` that `scores` favours, where `scores[i]`
/// is the score of the template at position `i` of the scan order. The first
/// template with the least score wins, if that score is lower than
/// `WORST_SCORE`; with no winner, and so with an empty library, the outcome
/// is the label of no match with `WORST_SCORE`. Scores past the last
/// template are not counted.
pub fn recognize(library: &TemplateLibrary, scores: &Vec<u32>) -> (outcome: Recognition)
    ensures
        (outcome.label@, outcome.score) == recognized(
            library.scan(),
            counted(library.scan(), scores@),
        ),
{
    let limit = if scores.len() <= library.len() {
        scores.len()
    } else {
        library.len()
    };
    proof {
        if scores@.len() <= library.scan().len() {
            assert(scores@.take(limit as int) =~= scores@);
        }
    }
    match best_among(scores, limit) {
        Some(i) => {
            match library.template(i) {
                Some(template) => Recognition { label: template.label().clone(), score: scores[i] },
                None => Recognition { label: "not recognized".to_owned(), score: WORST_SCORE },
            }
        },
        None => Recognition { label: "not recognized".to_owned(), score: WORST_SCORE },
    }
}

/// A recognition in progress: the scores of the templates done so far, in
/// scan order, and the search for the score of the next one.
pub struct MatcherState {
    pub scores: Seq<u32>,
    pub search: SearchState,
}

impl MatcherState {
    /// The start: no template scored, and a fresh search.
    pub open spec fn initial() -> MatcherState {
        MatcherState { scores: Seq::empty(), search: SearchState::initial() }
    }

    /// The template, by its position in the scan order, and the angle whose
    /// score is needed next in a recognition over `total` templates; `None`
    /// once every template has its score.
    pub open spec fn pending(self, total: nat) -> Option<(int, int)> {
        if self.scores.len() < total && self.search.pending() is Some {
            Some((self.scores.len() as int, self.search.pending()->Some_0))
        } else {
            None
        }
    }

    /// The state after `score` was found for the pending template at the
    /// pending angle. When that ends the template's search, its result
    /// becomes the template's score and a fresh search begins. Once every
    /// template has its score, further scores are ignored.
    pub open spec fn observe(self, total: nat, score: u32) -> MatcherState {
        if self.scores.len() < total {
            let search = self.search.observe(score);
            match search.result() {
                Some(result) => MatcherState {
                    scores: self.scores.push(result),
                    search: SearchState::initial(),
                },
                None => MatcherState { scores: self.scores, search },
            }
        } else {
            self
        }
    }

    /// The state after the scores of `scores` were observed in order.
    pub open spec fn observe_all(self, total: nat, scores: Seq<u32>) -> MatcherState
        decreases scores.len(),
    {
        if scores.len() == 0 {
            self
        } else {
            self.observe_all(total, scores.drop_last()).observe(total, scores.last())
        }
    }

    /// The outcome over `templates`, once every template has its score.
    pub open spec fn outcome(self, templates: Seq<TemplateKey>) -> Option<(Seq<char>, u32)> {
        if self.scores.len() == templates.len() {
            Some(recognized(templates, self.scores))
        } else {
            None
        }
    }
}

/// Without templates nothing is recognized, whatever the scores.
pub proof fn lemma_no_template_no_match(scores: Seq<u32>)
    ensures
        recognized(Seq::empty(), counted(Seq::empty(), scores)) == (not_recognized(), WORST_SCORE),
        MatcherState::initial().pending(0) is None,
        MatcherState::initial().outcome(Seq::empty()) == Some((not_recognized(), WORST_SCORE)),
{
    assert(counted(Seq::<TemplateKey>::empty(), scores) =~= Seq::<u32>::empty());
}

/// The scores that a recognition was told for the template at position `t`:
/// the `t`-th run of `EVALUATIONS` scores.
pub open spec fn scores_for(scores: Seq<u32>, t: int) -> Seq<u32> {
    scores.subrange(t * EVALUATIONS, t * EVALUATIONS + EVALUATIONS)
}

/// What holds of a recognition over `total` templates that started afresh
/// and was told `scores`.
spec fn reached(state: MatcherState, total: nat, scores: Seq<u32>) -> bool {
    let done = scores.len() / (EVALUATIONS as nat);
    &&& forall|t: int|
        0 <= t < state.scores.len() ==> #[trigger] state.scores[t] == least_score(
            scores_for(scores, t),
        )
    &&& if done >= total {
        &&& state.scores.len() == total
        &&& state.search == SearchState::initial()
    } else {
        &&& state.scores.len() == done
        &&& state.search == SearchState::initial().observe_all(
            scores.subrange(done * EVALUATIONS, scores.len() as int),
        )
    }
}

proof fn lemma_reached(total: nat, scores: Seq<u32>)
    ensures
        reached(MatcherState::initial().observe_all(total, scores), total, scores),
    decreases scores.len(),
{
    let n = scores.len() as int;
    let start = MatcherState::initial();
    if n == 0 {
        assert(scores.subrange(0, 0) =~= Seq::<u32>::empty());
    } else {
        let front = scores.drop_last();
        let before = start.observe_all(total, front);
        let after = before.observe(total, scores.last());
        lemma_reached(total, front);
        assert(start.observe_all(total, scores) == after);
        let done_before = (n - 1) / (EVALUATIONS as int);
        let done = n / (EVALUATIONS as int);
        assert forall|t: int| 0 <= t < done_before implies scores_for(front, t) == scores_for(
            scores,
            t,
        ) by {
            assert(scores_for(front, t) =~= scores_for(scores, t));
        }
        if done_before >= total {
        } else {
            let chunk_before = front.subrange(done_before * EVALUATIONS, n - 1);
            let chunk = scores.subrange(done_before * EVALUATIONS, n);
            assert(chunk.drop_last() =~= chunk_before);
            assert(chunk.last() == scores.last());
            assert(SearchState::initial().observe_all(chunk) == before.search.observe(
                scores.last(),
            ));
            lemma_search_takes_ten_scores(chunk);
            if done > done_before {
                assert(chunk.len() == EVALUATIONS);
                assert(chunk.take(EVALUATIONS as int) =~= chunk);
                lemma_result_is_least_score(chunk);
                assert(chunk =~= scores_for(scores, done_before));
                assert(scores.subrange(done * EVALUATIONS, n) =~= Seq::<u32>::empty());
            } else {
                assert(chunk.len() < EVALUATIONS);
            }
        }
    }
}

/// A recognition over `total` templates takes `EVALUATIONS` scores for each
/// template, whatever they are: until then a score is pending, and from then
/// on none is. The score of each template is the least of the scores told for
/// it.
pub proof fn lemma_matcher_scores_each_template(total: nat, scores: Seq<u32>)
    ensures
        ({
            let state = MatcherState::initial().observe_all(total, scores);
            &&& state.pending(total) is Some <==> scores.len() < total * EVALUATIONS
            &&& state.scores.len() == total <==> scores.len() >= total * EVALUATIONS
            &&& state.scores.len() <= total
            &&& forall|t: int|
                0 <= t < state.scores.len() ==> #[trigger] state.scores[t] == least_score(
                    scores_for(scores, t),
                )
        }),
{
    lemma_reached(total, scores);
    let done = scores.len() / (EVALUATIONS as nat);
    if done < total {
        lemma_search_takes_ten_scores(
            scores.subrange(done * EVALUATIONS, scores.len() as int),
        );
    }
}

/// What a matcher asks for: the score of `shape`, turned by `angle` about
/// its centroid, against `template`, which stands at position `index` of the
/// scan order.
pub struct Probe<'a> {
    pub shape: &'a NormalizedShape,
    pub index: usize,
    pub template: &'a Template,
    pub angle: i64,
}

/// Recognition of one shape against a library. The matcher asks for one
/// score at a time, with `pending`, is told it with `observe`, and names the
/// winner with `outcome` once it has asked for all it needs.
pub struct Matcher<'a> {
    shape: &'a NormalizedShape,
    library: &'a TemplateLibrary,
    scores: Vec<u32>,
    search: BestAngleSearch,
}

impl<'a> View for Matcher<'a> {
    type V = MatcherState;

    closed spec fn view(&self) -> MatcherState {
        MatcherState { scores: self.scores@, search: self.search@ }
    }
}

impl<'a> Matcher<'a> {
    /// The shape that this matcher is to recognize.
    pub closed spec fn shape(&self) -> Seq<Point> {
        self.shape@
    }

    /// The templates of the library that this matcher works on, in scan
    /// order.
    pub closed spec fn templates(&self) -> Seq<TemplateKey> {
        self.library.scan()
    }

    #[verifier::type_invariant]
    spec fn keeps_pace(self) -> bool {
        &&& self.scores@.len() <= self.library.scan().len()
        &&& self.search@.pending() is Some
    }

    /// A matcher of `shape` against `library`, at its start.
    pub fn new(shape: &'a NormalizedShape, library: &'a TemplateLibrary) -> (matcher: Matcher<'a>)
        ensures
            matcher@ == MatcherState::initial(),
            matcher.shape() == shape@,
            matcher.templates() == library.scan(),
    {
        Matcher { shape, library, scores: Vec::new(), search: BestAngleSearch::new() }
    }

    /// The score that is needed next; `None` once every template has its
    /// score.
    pub fn pending(&self) -> (probe: Option<Probe<'a>>)
        ensures
            probe is Some == (self@.scores.len() < self.templates().len()),
            probe is Some == self@.pending(self.templates().len()) is Some,
            probe is Some ==> {
                let p = probe->Some_0;
                &&& (p.index as int, p.angle as int) == self@.pending(
                    self.templates().len(),
                )->Some_0
                &&& p.shape@ == self.shape()
                &&& p.template@ == self.templates()[p.index as int]
                &&& THETA_MIN <= p.angle <= THETA_MAX
            },
    {
        proof {
            use_type_invariant(self);
        }
        let index = self.scores.len();
        match (self.library.template(index), self.search.pending()) {
            (Some(template), Some(angle)) => Some(Probe { shape: self.shape, index, template, angle }),
            _ => None,
        }
    }

    /// Tells the matcher the score found for the pending template at the
    /// pending angle.
    pub fn observe(&mut self, score: u32)
        ensures
            final(self)@ == old(self)@.observe(old(self).templates().len(), score),
            final(self).shape() == old(self).shape(),
            final(self).templates() == old(self).templates(),
    {
        proof {
            use_type_invariant(&*self);
        }
        if self.scores.len() < self.library.len() {
            let mut search = BestAngleSearch::new();
            core::mem::swap(&mut self.search, &mut search);
            search.observe(score);
            match search.result() {
                Some(result) => {
                    let mut scores: Vec<u32> = Vec::new();
                    core::mem::swap(&mut self.scores, &mut scores);
                    scores.push(result);
                    core::mem::swap(&mut self.scores, &mut scores);
                },
                None => {
                    core::mem::swap(&mut self.search, &mut search);
                },
            }
        }
    }

    /// The outcome of the recognition, once every template has its score:
    /// the label and score of the winner, or the label of no match with
    /// `WORST_SCORE`.
    pub fn outcome(&self) -> (outcome: Option<Recognition>)
        ensures
            outcome is Some == self@.outcome(self.templates()) is Some,
            outcome is Some ==> (outcome->Some_0.label@, outcome->Some_0.score) == self@.outcome(
                self.templates(),
            )->Some_0,
    {
        proof {
            use_type_invariant(self);
        }
        if self.scores.len() == self.library.len() {
            Some(recognize(self.library, &self.scores))
        } else {
            None
        }
    }
}

} // verus!
