use vstd::prelude::*;

use crate::geometry::{over_any, over_widget, WidgetRect};

verus! {

/// A pointer position in screen coordinates.
#[derive(Clone, Copy, Debug, PartialEq, Eq, Structural)]
pub struct Point {
    pub x: i32,
    pub y: i32,
}

/// Whether input should pass through when the pointer is at `p`: exactly
/// when it is over no widget.
pub open spec fn desired_ignoring(p: Point, rects: Seq<WidgetRect>) -> bool {
    !over_any(p.x as int, p.y as int, rects)
}

/// The pointer was read and is over some widget.
pub open spec fn read_over(cursor: Option<Point>, rects: Seq<WidgetRect>) -> bool {
    match cursor {
        Some(p) => over_any(p.x as int, p.y as int, rects),
        None => false,
    }
}

/// One sampling tick: the next tracked state, and the input-ignoring value
/// to apply, if the state changes. An unreadable pointer skips the tick.
pub open spec fn step(ignoring: bool, cursor: Option<Point>, rects: Seq<WidgetRect>) -> (bool, Option<bool>) {
    match cursor {
        None => (ignoring, None),
        Some(p) => {
            let want = desired_ignoring(p, rects);
            if want != ignoring {
                (want, Some(want))
            } else {
                (ignoring, None)
            }
        },
    }
}

/// The state after a sequence of ticks, and the changes issued on the way,
/// in order.
pub open spec fn run(ignoring: bool, path: Seq<Option<Point>>, rects: Seq<WidgetRect>) -> (bool, Seq<bool>)
    decreases path.len(),
{
    if path.len() == 0 {
        (ignoring, Seq::empty())
    } else {
        let (state, issued) = run(ignoring, path.drop_last(), rects);
        let (next, change) = step(state, path.last(), rects);
        match change {
            Some(v) => (next, issued.push(v)),
            None => (next, issued),
        }
    }
}

/// A pointer that stays over the widgets for one tick or more ends with
/// input taken, and issues at most one change: one that stops ignoring
/// input, where input was being ignored at the start, and none otherwise.
pub proof fn lemma_stay_inside(ignoring: bool, path: Seq<Option<Point>>, rects: Seq<WidgetRect>)
    requires
        path.len() > 0,
        forall|i: int| 0 <= i < path.len() ==> read_over(#[trigger] path[i], rects),
    ensures
        run(ignoring, path, rects).0 == false,
        run(ignoring, path, rects).1 == (if ignoring { seq![false] } else { Seq::<bool>::empty() }),
    decreases path.len(),
{
    let d = path.drop_last();
    assert(path.last() == path[path.len() - 1]);
    if d.len() == 0 {
        assert(run(ignoring, d, rects) == (ignoring, Seq::<bool>::empty()));
        assert(Seq::<bool>::empty().push(false) =~= seq![false]);
    } else {
        assert forall|i: int| 0 <= i < d.len() implies read_over(#[trigger] d[i], rects) by {
            assert(d[i] == path[i]);
        }
        lemma_stay_inside(ignoring, d, rects);
    }
}

/// The edge-triggered switch between letting input through and taking it.
pub struct InputGate {
    ignoring: bool,
}

impl View for InputGate {
    type V = bool;

    closed spec fn view(&self) -> bool {
        self.ignoring
    }
}

impl InputGate {
    /// A gate whose surfaces start in the given input mode.
    pub fn new(ignoring: bool) -> (r: InputGate)
        ensures
            r@ == ignoring,
    {
        InputGate { ignoring }
    }

    /// Whether input currently passes through.
    pub fn ignoring(&self) -> (r: bool)
        ensures
            r == self@,
    {
        self.ignoring
    }

    /// One sampling tick with the pointer at `cursor` (`None`: unreadable).
    /// Returns the input-ignoring value to apply, only where it changes.
    pub fn tick(&mut self, cursor: Option<Point>, rects: &Vec<WidgetRect>) -> (r: Option<bool>)
        ensures
            (final(self)@, r) == step(old(self)@, cursor, rects@),
    {
        match cursor {
            None => None,
            Some(p) => {
                let want = !over_widget(p.x, p.y, rects);
                if want != self.ignoring {
                    self.ignoring = want;
                    Some(want)
                } else {
                    None
                }
            },
        }
    }

    /// Runs one tick per position of the path, and returns the changes
    /// issued, in order.
    pub fn run_path(&mut self, path: &Vec<Option<Point>>, rects: &Vec<WidgetRect>) -> (r: Vec<bool>)
        ensures
            (final(self)@, r@) == run(old(self)@, path@, rects@),
    {
        let ghost start = self@;
        let mut issued: Vec<bool> = Vec::new();
        let mut i: usize = 0;
        while i < path.len()
            invariant
                i <= path@.len(),
                (self@, issued@) == run(start, path@.subrange(0, i as int), rects@),
            decreases path@.len() - i,
        {
            proof {
                assert(path@.subrange(0, i + 1).drop_last() =~= path@.subrange(0, i as int));
                assert(path@.subrange(0, i + 1).last() == path@[i as int]);
            }
            match self.tick(path[i], rects) {
                Some(v) => issued.push(v),
                None => {},
            }
            i = i + 1;
        }
        assert(path@.subrange(0, path@.len() as int) =~= path@);
        issued
    }
}

} // verus!
