//! Output events: the mouse-button and key primitives that the translator
//! produces, each with the delay to wait before posting it.

use vstd::prelude::*;

use crate::config::{copy_modifiers, Modifier, MouseButtonKind};

verus! {

/// Mouse-button and keyboard output primitives.
#[derive(Debug, Clone, PartialEq)]
pub enum OutputEventKind {
    MouseDown(MouseButtonKind),
    MouseUp(MouseButtonKind),
    KeyDown { keycode: u16, modifiers: Vec<Modifier> },
    KeyUp { keycode: u16, modifiers: Vec<Modifier> },
}

/// An output primitive, as plain values.
pub enum EventKindView {
    MouseDown(MouseButtonKind),
    MouseUp(MouseButtonKind),
    KeyDown { keycode: u16, modifiers: Seq<Modifier> },
    KeyUp { keycode: u16, modifiers: Seq<Modifier> },
}

impl View for OutputEventKind {
    type V = EventKindView;

    open spec fn view(&self) -> EventKindView {
        match self {
            OutputEventKind::MouseDown(b) => EventKindView::MouseDown(*b),
            OutputEventKind::MouseUp(b) => EventKindView::MouseUp(*b),
            OutputEventKind::KeyDown { keycode, modifiers } => EventKindView::KeyDown {
                keycode: *keycode,
                modifiers: modifiers@,
            },
            OutputEventKind::KeyUp { keycode, modifiers } => EventKindView::KeyUp {
                keycode: *keycode,
                modifiers: modifiers@,
            },
        }
    }
}

/// A primitive output event with timing.
/// `delay_ms` is the time to wait *before* posting this event, relative to
/// the previous event in the batch. Zero means post immediately.
#[derive(Debug, Clone, PartialEq)]
pub struct OutputEvent {
    pub delay_ms: u32,
    pub kind: OutputEventKind,
}

/// An output event, as plain values.
pub struct OutputEventView {
    pub delay_ms: u32,
    pub kind: EventKindView,
}

impl View for OutputEvent {
    type V = OutputEventView;

    open spec fn view(&self) -> OutputEventView {
        OutputEventView { delay_ms: self.delay_ms, kind: self.kind@ }
    }
}

/// The view of an event posted without delay.
pub open spec fn now(kind: EventKindView) -> OutputEventView {
    OutputEventView { delay_ms: 0, kind }
}

impl OutputEvent {
    pub fn immediate(kind: OutputEventKind) -> (r: Self)
        ensures
            r.delay_ms == 0,
            r.kind == kind,
    {
        OutputEvent { delay_ms: 0, kind }
    }

    pub fn delayed(delay_ms: u32, kind: OutputEventKind) -> (r: Self)
        ensures
            r.delay_ms == delay_ms,
            r.kind == kind,
    {
        OutputEvent { delay_ms, kind }
    }

    /// A copy of this event.
    pub fn copy(&self) -> (r: Self)
        ensures
            r@ == self@,
    {
        let kind = match &self.kind {
            OutputEventKind::MouseDown(b) => OutputEventKind::MouseDown(*b),
            OutputEventKind::MouseUp(b) => OutputEventKind::MouseUp(*b),
            OutputEventKind::KeyDown { keycode, modifiers } => OutputEventKind::KeyDown {
                keycode: *keycode,
                modifiers: copy_modifiers(modifiers),
            },
            OutputEventKind::KeyUp { keycode, modifiers } => OutputEventKind::KeyUp {
                keycode: *keycode,
                modifiers: copy_modifiers(modifiers),
            },
        };
        OutputEvent { delay_ms: self.delay_ms, kind }
    }
}

/// The delays of a batch added up: the time after the batch starts at which
/// each event is due.
pub open spec fn due_times(delays: Seq<u32>) -> Seq<int>
    decreases delays.len(),
{
    if delays.len() == 0 {
        Seq::empty()
    } else {
        let before = due_times(delays.drop_last());
        let last_due = if before.len() == 0 {
            0
        } else {
            before.last()
        };
        before.push(last_due + delays.last())
    }
}

/// `due_times` gives one time per event, each no later than the one after it,
/// and none beyond the sum of all delays bound.
proof fn lemma_due_times_bound(delays: Seq<u32>)
    ensures
        due_times(delays).len() == delays.len(),
        forall|i: int| 0 <= i < delays.len() ==> 0 <= #[trigger] due_times(delays)[i] <= (i + 1)
            * 0xFFFF_FFFF,
    decreases delays.len(),
{
    if delays.len() > 0 {
        lemma_due_times_bound(delays.drop_last());
    }
}

/// The delays of a batch of events, in order.
pub open spec fn delays_of(events: Seq<OutputEvent>) -> Seq<u32> {
    events.map_values(|e: OutputEvent| e.delay_ms)
}

/// When each event of a batch is due, in milliseconds from the start of the
/// batch: the running sum of the delays. An event due at 0 is posted at once;
/// the others are scheduled.
pub fn schedule(events: &Vec<OutputEvent>) -> (r: Vec<u64>)
    requires
        events@.len() < 0x1_0000_0000,
    ensures
        r@.len() == events@.len(),
        forall|i: int|
            0 <= i < r@.len() ==> r@[i] as int == #[trigger] due_times(delays_of(events@))[i],
{
    let ghost delays = delays_of(events@);
    let mut r: Vec<u64> = Vec::new();
    let mut accumulated: u64 = 0;
    let n = events.len();
    let mut i: usize = 0;
    while i < n
        invariant
            n == events@.len(),
            n < 0x1_0000_0000,
            delays == delays_of(events@),
            i <= n,
            r@.len() == i,
            forall|j: int| 0 <= j < i ==> r@[j] as int == #[trigger] due_times(delays.take(i as int))[j],
            accumulated as int == (if i == 0 {
                0
            } else {
                due_times(delays.take(i as int)).last()
            }),
            accumulated as int <= i * 0xFFFF_FFFF,
        decreases n - i,
    {
        let d = events[i].delay_ms;
        proof {
            assert(i * 0xFFFF_FFFF + 0xFFFF_FFFF <= 0x1_0000_0000 * 0xFFFF_FFFF) by (nonlinear_arith)
                requires
                    i < 0x1_0000_0000,
            ;
        }
        accumulated = accumulated + d as u64;
        r.push(accumulated);
        proof {
            let t = delays.take(i + 1);
            assert(t.drop_last() =~= delays.take(i as int));
            assert(t.last() == d);
            lemma_due_times_bound(t.drop_last());
            assert forall|j: int| 0 <= j < i + 1 implies r@[j] as int == #[trigger] due_times(t)[j] by {
                if j < i {
                    assert(due_times(t)[j] == due_times(delays.take(i as int))[j]);
                }
            }
            assert((i + 1) * 0xFFFF_FFFF == i * 0xFFFF_FFFF + 0xFFFF_FFFF) by (nonlinear_arith);
        }
        i += 1;
    }
    assert(delays.take(n as int) =~= delays);
    r
}

} // verus!
