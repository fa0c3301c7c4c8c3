//! Capture of one stroke from pointer events.
//!
//! A stroke begins when the pointer goes down, grows with every move while
//! it is down, and is complete when the pointer goes up. A completed stroke
//! waits to be taken; taking it leaves the capture idle again.

use crate::shape::Point;
use vstd::prelude::*;

verus! {

/// What the pointer did.
#[derive(Clone, Copy, Debug, PartialEq, Eq, Structural)]
pub enum PointerEvent {
    /// The pointer went down at a position.
    Down(Point),
    /// The pointer, held down, is at a position.
    Move(Point),
    /// The pointer went up.
    Up,
    /// Drawing is suspended: whatever was captured is dropped.
    Cancel,
}

/// Where a capture stands.
pub enum CaptureState {
    /// No stroke is under way.
    Idle,
    /// A stroke is under way; these are its points so far.
    Capturing(Seq<Point>),
    /// A stroke is complete and waits to be taken.
    Completed(Seq<Point>),
}

impl CaptureState {
    /// The state that `event` leads to. A pointer going down begins a new
    /// stroke from any state. Outside a stroke, moves and the pointer going
    /// up change nothing.
    pub open spec fn next(self, event: PointerEvent) -> CaptureState {
        match event {
            PointerEvent::Down(p) => CaptureState::Capturing(seq![p]),
            PointerEvent::Move(p) => match self {
                CaptureState::Capturing(points) => CaptureState::Capturing(points.push(p)),
                _ => self,
            },
            PointerEvent::Up => match self {
                CaptureState::Capturing(points) => CaptureState::Completed(points),
                _ => self,
            },
            PointerEvent::Cancel => CaptureState::Idle,
        }
    }

    /// The state that the events of `events` lead to, in order.
    pub open spec fn next_all(self, events: Seq<PointerEvent>) -> CaptureState
        decreases events.len(),
    {
        if events.len() == 0 {
            self
        } else {
            self.next_all(events.drop_last()).next(events.last())
        }
    }

    /// The points held: those of the stroke under way or completed.
    pub open spec fn points(self) -> Seq<Point> {
        match self {
            CaptureState::Idle => Seq::empty(),
            CaptureState::Capturing(points) => points,
            CaptureState::Completed(points) => points,
        }
    }

    /// Whether a stroke that is under way or completed holds a point.
    pub open spec fn well_formed(self) -> bool {
        self is Idle || self.points().len() >= 1
    }
}

/// The pointer event that one reading of the input devices amounts to.
///
/// `mouse_just_pressed` and `mouse_pressed` tell of the mouse button,
/// `cursor` is the cursor position where there is one, `touch` is the first
/// active touch with whether it just began, and `released` tells whether the
/// button or a touch was just released. A release counts before all else.
/// The mouse counts before touch; without a cursor position a pressed mouse
/// button says nothing.
pub open spec fn event_of(
    mouse_just_pressed: bool,
    mouse_pressed: bool,
    cursor: Option<Point>,
    touch: Option<(bool, Point)>,
    released: bool,
) -> Option<PointerEvent> {
    if released {
        Some(PointerEvent::Up)
    } else if mouse_just_pressed {
        match cursor {
            Some(p) => Some(PointerEvent::Down(p)),
            None => None,
        }
    } else if mouse_pressed {
        match cursor {
            Some(p) => Some(PointerEvent::Move(p)),
            None => None,
        }
    } else {
        match touch {
            Some((true, p)) => Some(PointerEvent::Down(p)),
            Some((false, p)) => Some(PointerEvent::Move(p)),
            None => None,
        }
    }
}

/// The pointer event that one reading of the input devices amounts to.
pub fn pointer_event(
    mouse_just_pressed: bool,
    mouse_pressed: bool,
    cursor: Option<Point>,
    touch: Option<(bool, Point)>,
    released: bool,
) -> (event: Option<PointerEvent>)
    ensures
        event == event_of(mouse_just_pressed, mouse_pressed, cursor, touch, released),
{
    if released {
        Some(PointerEvent::Up)
    } else if mouse_just_pressed {
        match cursor {
            Some(p) => Some(PointerEvent::Down(p)),
            None => None,
        }
    } else if mouse_pressed {
        match cursor {
            Some(p) => Some(PointerEvent::Move(p)),
            None => None,
        }
    } else {
        match touch {
            Some((true, p)) => Some(PointerEvent::Down(p)),
            Some((false, p)) => Some(PointerEvent::Move(p)),
            None => None,
        }
    }
}

enum Phase {
    Idle,
    Capturing,
    Completed,
}

/// The capture of one stroke at a time.
pub struct StrokeCapture {
    phase: Phase,
    points: Vec<Point>,
}

impl View for StrokeCapture {
    type V = CaptureState;

    closed spec fn view(&self) -> CaptureState {
        match self.phase {
            Phase::Idle => CaptureState::Idle,
            Phase::Capturing => CaptureState::Capturing(self.points@),
            Phase::Completed => CaptureState::Completed(self.points@),
        }
    }
}

impl StrokeCapture {
    #[verifier::type_invariant]
    spec fn holds_a_point(self) -> bool {
        self@.well_formed()
    }

    /// An idle capture.
    pub fn new() -> (capture: StrokeCapture)
        ensures
            capture@ == CaptureState::Idle,
    {
        StrokeCapture { phase: Phase::Idle, points: Vec::new() }
    }

    /// Whether a stroke is under way.
    pub fn is_capturing(&self) -> (capturing: bool)
        ensures
            capturing == self@ is Capturing,
    {
        match self.phase {
            Phase::Capturing => true,
            _ => false,
        }
    }

    /// Whether a completed stroke waits to be taken.
    pub fn is_completed(&self) -> (completed: bool)
        ensures
            completed == self@ is Completed,
    {
        match self.phase {
            Phase::Completed => true,
            _ => false,
        }
    }

    /// The latest point of the stroke under way, or `None` where none is
    /// under way.
    pub fn last_point(&self) -> (p: Option<Point>)
        ensures
            self@ is Capturing ==> self@.points().len() >= 1 && p == Some(self@.points().last()),
            !(self@ is Capturing) ==> p is None,
    {
        proof {
            use_type_invariant(self);
        }
        match self.phase {
            Phase::Capturing => Some(self.points[self.points.len() - 1]),
            _ => None,
        }
    }

    /// Takes `event` into account.
    pub fn handle(&mut self, event: PointerEvent)
        ensures
            final(self)@ == old(self)@.next(event),
    {
        proof {
            use_type_invariant(&*self);
        }
        match event {
            PointerEvent::Down(p) => {
                let mut points: Vec<Point> = Vec::new();
                points.push(p);
                assert(points@ =~= seq![p]);
                core::mem::swap(&mut self.points, &mut points);
                self.phase = Phase::Capturing;
            },
            PointerEvent::Move(p) => {
                match self.phase {
                    Phase::Capturing => {
                        let mut points: Vec<Point> = Vec::new();
                        self.phase = Phase::Idle;
                        core::mem::swap(&mut self.points, &mut points);
                        points.push(p);
                        core::mem::swap(&mut self.points, &mut points);
                        self.phase = Phase::Capturing;
                    },
                    _ => {},
                }
            },
            PointerEvent::Up => {
                match self.phase {
                    Phase::Capturing => {
                        self.phase = Phase::Completed;
                    },
                    _ => {},
                }
            },
            PointerEvent::Cancel => {
                self.phase = Phase::Idle;
            },
        }
    }

    /// Takes the completed stroke, if there is one, and leaves the capture
    /// idle. A stroke holds at least one point, the one at which the pointer
    /// went down.
    pub fn take_stroke(&mut self) -> (stroke: Option<Vec<Point>>)
        ensures
            old(self)@ is Completed ==> stroke is Some && stroke->Some_0@ == old(self)@.points()
                && stroke->Some_0@.len() >= 1 && final(self)@ == CaptureState::Idle,
            !(old(self)@ is Completed) ==> stroke is None && final(self)@ == old(self)@,
    {
        proof {
            use_type_invariant(&*self);
        }
        match self.phase {
            Phase::Completed => {
                let mut points: Vec<Point> = Vec::new();
                self.phase = Phase::Idle;
                core::mem::swap(&mut self.points, &mut points);
                Some(points)
            },
            _ => None,
        }
    }
}

/// A capture never holds a stroke without a point.
pub proof fn lemma_next_well_formed(state: CaptureState, event: PointerEvent)
    requires
        state.well_formed(),
    ensures
        state.next(event).well_formed(),
{
}

/// The events of `moves`, each as a move of the held pointer.
pub open spec fn moves_of(moves: Seq<Point>) -> Seq<PointerEvent> {
    moves.map_values(|p: Point| PointerEvent::Move(p))
}

/// A pointer that goes down at `start`, moves through `moves` and goes up
/// leaves, from any state, the completed stroke of `start` followed by
/// `moves`.
pub proof fn lemma_stroke_of_events(state: CaptureState, start: Point, moves: Seq<Point>)
    ensures
        state.next(PointerEvent::Down(start)).next_all(moves_of(moves)) == CaptureState::Capturing(
            seq![start] + moves,
        ),
        state.next(PointerEvent::Down(start)).next_all(moves_of(moves)).next(PointerEvent::Up)
            == CaptureState::Completed(seq![start] + moves),
    decreases moves.len(),
{
    let down = state.next(PointerEvent::Down(start));
    if moves.len() == 0 {
        assert(seq![start] + moves =~= seq![start]);
    } else {
        lemma_stroke_of_events(state, start, moves.drop_last());
        assert(moves_of(moves).drop_last() =~= moves_of(moves.drop_last()));
        assert(moves_of(moves).last() == PointerEvent::Move(moves.last()));
        assert((seq![start] + moves.drop_last()).push(moves.last()) =~= seq![start] + moves);
    }
}

} // verus!
