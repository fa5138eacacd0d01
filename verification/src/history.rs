//! Bounded undo and redo over snapshots of a canvas.

use vstd::prelude::*;
use crate::view::CanvasView;
use crate::canvas::Canvas;

verus! {

/// Most snapshots that a history keeps; the oldest leaves first.
pub const MAX_HISTORY: usize = 50;

/// A copy of the two pixel buffers of a canvas, with the shape of the
/// composite buffer when it was taken.
pub struct HistoryState {
    pub pixels: Vec<u8>,
    pub drawing_layer: Vec<u8>,
    pub stride: usize,
    pub width: u32,
    pub height: u32,
}

/// What a snapshot is, as contracts see it.
#[verifier::ext_equal]
pub struct SnapshotView {
    pub pixels: Seq<u8>,
    pub layer: Seq<u8>,
    pub stride: int,
    pub width: int,
    pub height: int,
}

impl View for HistoryState {
    type V = SnapshotView;

    open spec fn view(&self) -> SnapshotView {
        SnapshotView {
            pixels: self.pixels@,
            layer: self.drawing_layer@,
            stride: self.stride as int,
            width: self.width as int,
            height: self.height as int,
        }
    }
}

/// The snapshot that a canvas gives.
pub open spec fn snapshot(canvas: CanvasView) -> SnapshotView {
    SnapshotView {
        pixels: canvas.pixels,
        layer: canvas.layer,
        stride: canvas.stride,
        width: canvas.width,
        height: canvas.height,
    }
}

impl SnapshotView {
    /// Whether the snapshot has the buffer sizes of the canvas, so that
    /// restoring it keeps the canvas well-formed.
    pub open spec fn fits(self, canvas: CanvasView) -> bool {
        self.pixels.len() == canvas.pixels.len() && self.layer.len() == canvas.layer.len()
    }
}

impl CanvasView {
    /// The canvas with both pixel buffers taken from a snapshot.
    pub open spec fn restore(self, state: SnapshotView) -> CanvasView {
        CanvasView { pixels: state.pixels, layer: state.layer, dirty: true, ..self }
    }
}

/// What a history is, as contracts see it: the snapshots from oldest to
/// newest, and the index of the one that the canvas shows.
#[verifier::ext_equal]
pub struct HistoryView {
    pub states: Seq<SnapshotView>,
    pub current: int,
}

impl HistoryView {
    /// The invariant of a history: at most `MAX_HISTORY` snapshots, and
    /// `current` is the index of one of them, or 0 when there is none.
    pub open spec fn wf(self) -> bool {
        &&& self.states.len() <= MAX_HISTORY
        &&& 0 <= self.current
        &&& self.states.len() > 0 ==> self.current < self.states.len()
        &&& self.states.len() == 0 ==> self.current == 0
    }

    pub open spec fn empty() -> HistoryView {
        HistoryView { states: Seq::empty(), current: 0 }
    }

    pub open spec fn can_undo(self) -> bool {
        self.current > 0
    }

    pub open spec fn can_redo(self) -> bool {
        self.current + 1 < self.states.len()
    }

    /// Takes a snapshot in: what lay after `current` is dropped, the oldest
    /// snapshot leaves if the history is full, and the new one becomes
    /// `current`.
    pub open spec fn push(self, state: SnapshotView) -> HistoryView {
        if self.states.len() == 0 {
            HistoryView { states: seq![state], current: 0 }
        } else {
            let kept = self.states.subrange(0, self.current + 1);
            if kept.len() >= MAX_HISTORY {
                HistoryView {
                    states: kept.subrange(1, kept.len() as int).push(state),
                    current: self.current,
                }
            } else {
                HistoryView { states: kept.push(state), current: self.current + 1 }
            }
        }
    }

    /// One step back, if there is one.
    pub open spec fn undo(self) -> HistoryView {
        if self.can_undo() {
            HistoryView { current: self.current - 1, ..self }
        } else {
            self
        }
    }

    /// One step forward, if there is one.
    pub open spec fn redo(self) -> HistoryView {
        if self.can_redo() {
            HistoryView { current: self.current + 1, ..self }
        } else {
            self
        }
    }

    /// All of `states` taken in, one after the other.
    pub open spec fn push_all(self, states: Seq<SnapshotView>) -> HistoryView
        decreases states.len(),
    {
        if states.len() == 0 {
            self
        } else {
            self.push_all(states.drop_last()).push(states.last())
        }
    }

    /// `n` steps back.
    pub open spec fn undo_times(self, n: nat) -> HistoryView
        decreases n,
    {
        if n == 0 {
            self
        } else {
            self.undo_times((n - 1) as nat).undo()
        }
    }
}

/// The views of a sequence of snapshots.
pub open spec fn views(states: Seq<HistoryState>) -> Seq<SnapshotView> {
    Seq::new(states.len(), |i: int| states[i]@)
}

/// A bounded stack of snapshots with a cursor.
pub struct History {
    states: Vec<HistoryState>,
    current: usize,
}

impl View for History {
    type V = HistoryView;

    closed spec fn view(&self) -> HistoryView {
        HistoryView { states: views(self.states@), current: self.current as int }
    }
}

impl History {
    /// The invariant that every operation keeps.
    pub open spec fn wf(&self) -> bool {
        self@.wf()
    }

    /// A history without snapshots.
    pub fn new() -> (history: History)
        ensures
            history.wf(),
            history@ == HistoryView::empty(),
    {
        let history = History { states: Vec::new(), current: 0 };
        assert(history@.states =~= Seq::empty());
        history
    }

    /// Takes a snapshot of the canvas in. What could be redone is dropped;
    /// if the history is full its oldest snapshot leaves. Afterwards the new
    /// snapshot is the newest and the current one.
    pub fn push(&mut self, canvas: &Canvas)
        requires
            old(self).wf(),
        ensures
            final(self).wf(),
            final(self)@ == old(self)@.push(snapshot(canvas@)),
            final(self)@.current == final(self)@.states.len() - 1,
            !final(self)@.can_redo(),
    {
        let ghost before = self@;
        let state = HistoryState {
            pixels: canvas.pixels.clone(),
            drawing_layer: canvas.drawing_layer.clone(),
            stride: canvas.stride,
            width: canvas.width,
            height: canvas.height,
        };
        assert(state@ == snapshot(canvas@));
        if self.states.len() == 0 {
            self.current = 0;
        } else {
            self.states.truncate(self.current + 1);
            if self.states.len() >= MAX_HISTORY {
                let _ = self.states.remove(0);
            } else {
                self.current += 1;
            }
        }
        self.states.push(state);
        assert(self@.states =~= before.push(snapshot(canvas@)).states);
    }

    /// Steps back to the snapshot before the current one and puts it into
    /// the canvas. Returns whether there was one; if not, nothing changes.
    pub fn undo(&mut self, canvas: &mut Canvas) -> (done: bool)
        requires
            old(self).wf(),
        ensures
            final(self).wf(),
            done == old(self)@.can_undo(),
            final(self)@ == old(self)@.undo(),
            done ==> final(canvas)@ == old(canvas)@.restore(
                final(self)@.states[final(self)@.current],
            ),
            !done ==> final(canvas)@ == old(canvas)@,
            done && old(canvas).wf() && final(self)@.states[final(self)@.current].fits(
                old(canvas)@,
            ) ==> final(canvas).wf(),
    {
        if self.current > 0 {
            self.current -= 1;
            self.show(canvas);
            true
        } else {
            false
        }
    }

    /// Steps forward to the snapshot after the current one and puts it into
    /// the canvas. Returns whether there was one; if not, nothing changes.
    pub fn redo(&mut self, canvas: &mut Canvas) -> (done: bool)
        requires
            old(self).wf(),
        ensures
            final(self).wf(),
            done == old(self)@.can_redo(),
            final(self)@ == old(self)@.redo(),
            done ==> final(canvas)@ == old(canvas)@.restore(
                final(self)@.states[final(self)@.current],
            ),
            !done ==> final(canvas)@ == old(canvas)@,
            done && old(canvas).wf() && final(self)@.states[final(self)@.current].fits(
                old(canvas)@,
            ) ==> final(canvas).wf(),
    {
        if self.current + 1 < self.states.len() {
            self.current += 1;
            self.show(canvas);
            true
        } else {
            false
        }
    }

    /// Puts the current snapshot into the canvas.
    fn show(&self, canvas: &mut Canvas)
        requires
            self.wf(),
            self@.states.len() > 0,
        ensures
            final(canvas)@ == old(canvas)@.restore(self@.states[self@.current]),
    {
        let state: &HistoryState = &self.states[self.current];
        self.restore(canvas, state);
    }

    /// Puts a snapshot into the canvas: both pixel buffers are replaced by
    /// copies, and the canvas is marked dirty. The snapshot is meant to be
    /// one of a canvas of the same size.
    pub fn restore(&self, canvas: &mut Canvas, state: &HistoryState)
        ensures
            final(canvas)@ == old(canvas)@.restore(state@),
            old(canvas).wf() && state@.fits(old(canvas)@) ==> final(canvas).wf(),
    {
        canvas.pixels = state.pixels.clone();
        canvas.drawing_layer = state.drawing_layer.clone();
        canvas.dirty = true;
    }

    /// Whether there is a snapshot before the current one.
    pub fn can_undo(&self) -> (can: bool)
        ensures
            can == self@.can_undo(),
    {
        self.current > 0
    }

    /// Whether there is a snapshot after the current one.
    pub fn can_redo(&self) -> (can: bool)
        ensures
            can == self@.can_redo(),
    {
        self.states.len() > 0 && self.current < self.states.len() - 1
    }

    /// Number of snapshots kept.
    pub fn len(&self) -> (n: usize)
        ensures
            n == self@.states.len(),
    {
        self.states.len()
    }

    /// Index of the current snapshot.
    pub fn current(&self) -> (i: usize)
        ensures
            i == self@.current,
    {
        self.current
    }
}

/// A history stays well-formed under `push`, and the snapshot taken in is
/// then the newest and the current one.
pub proof fn lemma_push_wf(h: HistoryView, state: SnapshotView)
    requires
        h.wf(),
    ensures
        h.push(state).wf(),
        h.push(state).states.len() > 0,
        h.push(state).current == h.push(state).states.len() - 1,
        h.push(state).states.last() == state,
{
}

/// After a snapshot is taken in, nothing can be redone; this holds in
/// particular after an `undo`.
pub proof fn lemma_push_drops_redo(h: HistoryView, state: SnapshotView)
    requires
        h.wf(),
    ensures
        !h.push(state).can_redo(),
        !h.undo().push(state).can_redo(),
{
    lemma_push_wf(h, state);
    lemma_push_wf(h.undo(), state);
}

/// Taking `n` snapshots into an empty history keeps the newest
/// `min(n, MAX_HISTORY)` of them, in order, and makes the last one current.
pub proof fn lemma_push_all(states: Seq<SnapshotView>)
    ensures
        HistoryView::empty().push_all(states).wf(),
        HistoryView::empty().push_all(states).states == (if states.len() <= MAX_HISTORY {
            states
        } else {
            states.subrange(states.len() - MAX_HISTORY, states.len() as int)
        }),
        states.len() > 0 ==> HistoryView::empty().push_all(states).current
            == HistoryView::empty().push_all(states).states.len() - 1,
    decreases states.len(),
{
    let h = HistoryView::empty().push_all(states);
    if states.len() > 0 {
        let front = states.drop_last();
        lemma_push_all(front);
        let prev = HistoryView::empty().push_all(front);
        lemma_push_wf(prev, states.last());
        if front.len() == 0 {
            assert(h.states =~= states);
        } else if front.len() < MAX_HISTORY {
            assert(prev.states.subrange(0, prev.current + 1) =~= prev.states);
            assert(h.states =~= states);
        } else {
            assert(prev.states.subrange(0, prev.current + 1) =~= prev.states);
            assert(h.states =~= states.subrange(
                states.len() - MAX_HISTORY,
                states.len() as int,
            ));
        }
    } else {
        assert(h.states =~= states);
    }
}

/// `n` steps back from `current`, as long as there are as many, lead to
/// `current - n`; after `current` of them no further step back is possible.
pub proof fn lemma_undo_times(h: HistoryView, n: nat)
    requires
        h.wf(),
        n <= h.current,
    ensures
        h.undo_times(n).wf(),
        h.undo_times(n).states == h.states,
        h.undo_times(n).current == h.current - n,
        h.undo_times(n).can_undo() <==> n < h.current,
    decreases n,
{
    if n > 0 {
        lemma_undo_times(h, (n - 1) as nat);
    }
}

/// A history that has taken in `MAX_HISTORY` snapshots or more holds exactly
/// the newest `MAX_HISTORY` of them, with the last one current. From there
/// `MAX_HISTORY - 1` steps back lead to the oldest snapshot kept, and no
/// further step back is possible.
pub proof fn lemma_history_capacity(states: Seq<SnapshotView>)
    requires
        states.len() >= MAX_HISTORY,
    ensures
        HistoryView::empty().push_all(states).states.len() == MAX_HISTORY,
        HistoryView::empty().push_all(states).current == MAX_HISTORY - 1,
        HistoryView::empty().push_all(states).states.last() == states.last(),
        HistoryView::empty().push_all(states).undo_times((MAX_HISTORY - 1) as nat).current == 0,
        !HistoryView::empty().push_all(states).undo_times((MAX_HISTORY - 1) as nat).can_undo(),
        HistoryView::empty().push_all(states).undo_times((MAX_HISTORY - 1) as nat).undo()
            == HistoryView::empty().push_all(states).undo_times((MAX_HISTORY - 1) as nat),
{
    lemma_push_all(states);
    let h = HistoryView::empty().push_all(states);
    lemma_undo_times(h, (MAX_HISTORY - 1) as nat);
}

} // verus!
