//! Click counting: a mouse-button press soon after the previous one of the
//! same button continues its click sequence (double click, triple click, ...).

use vstd::array::ArrayAdditionalExecFns;
use vstd::prelude::*;

use crate::config::{button_index, MouseButtonKind};

verus! {

/// System double-click interval (500ms is a safe default).
pub const DOUBLE_CLICK_INTERVAL_MS: u64 = 500;

/// Per button: when it was last pressed and the click count of that press.
pub struct ClickCounter {
    last_click_ms: [Option<u64>; 5],
    last_click_count: [Option<i64>; 5],
}

/// The click-count state, as plain values (indexed by `button_index`).
pub struct ClickCounterView {
    pub last_click_ms: Seq<Option<u64>>,
    pub last_click_count: Seq<Option<i64>>,
}

impl View for ClickCounter {
    type V = ClickCounterView;

    closed spec fn view(&self) -> ClickCounterView {
        ClickCounterView {
            last_click_ms: self.last_click_ms@,
            last_click_count: self.last_click_count@,
        }
    }
}

/// The click count of a press at `now_ms`: one more than the last count
/// (taken as 0 when there is none) when the button was last pressed less
/// than the double-click interval ago, else 1. Time never runs backwards:
/// a last press after `now_ms` counts as just now.
pub open spec fn next_click_count(last_ms: Option<u64>, last_count: Option<i64>, now_ms: u64) -> int {
    match last_ms {
        Some(last) => {
            let elapsed = if now_ms >= last {
                now_ms - last
            } else {
                0
            };
            if elapsed < DOUBLE_CLICK_INTERVAL_MS {
                (match last_count {
                    Some(c) => c as int,
                    None => 0,
                }) + 1
            } else {
                1
            }
        },
        None => 1,
    }
}

impl ClickCounter {
    pub fn new() -> (r: Self)
        ensures
            r@.last_click_ms == seq![None::<u64>, None, None, None, None],
            r@.last_click_count == seq![None::<i64>, None, None, None, None],
    {
        let r = ClickCounter {
            last_click_ms: [None, None, None, None, None],
            last_click_count: [None, None, None, None, None],
        };
        assert(r@.last_click_ms =~= seq![None::<u64>, None, None, None, None]);
        assert(r@.last_click_count =~= seq![None::<i64>, None, None, None, None]);
        r
    }

    /// The click count of the last press of `button`, if it was pressed.
    pub fn last_count(&self, button: MouseButtonKind) -> (r: Option<i64>)
        ensures
            r == self@.last_click_count[button_index(button)],
    {
        self.last_click_count[button.index()]
    }

    /// Records a press of `button` at `now_ms` and gives its click count.
    pub fn press(&mut self, button: MouseButtonKind, now_ms: u64) -> (count: i64)
        requires
            next_click_count(
                old(self)@.last_click_ms[button_index(button)],
                old(self)@.last_click_count[button_index(button)],
                now_ms,
            ) <= i64::MAX,
        ensures
            count == next_click_count(
                old(self)@.last_click_ms[button_index(button)],
                old(self)@.last_click_count[button_index(button)],
                now_ms,
            ),
            final(self)@.last_click_ms == old(self)@.last_click_ms.update(
                button_index(button),
                Some(now_ms),
            ),
            final(self)@.last_click_count == old(self)@.last_click_count.update(
                button_index(button),
                Some(count),
            ),
    {
        let b = button.index();
        let count: i64 = match self.last_click_ms[b] {
            Some(last) => {
                let elapsed = now_ms.saturating_sub(last);
                if elapsed < DOUBLE_CLICK_INTERVAL_MS {
                    match self.last_click_count[b] {
                        Some(c) => c + 1,
                        None => 1,
                    }
                } else {
                    1
                }
            },
            None => 1,
        };
        self.last_click_ms.set(b, Some(now_ms));
        self.last_click_count.set(b, Some(count));
        count
    }

    /// The click count of a release of `button`: that of its last press, or 1.
    pub fn release_count(&self, button: MouseButtonKind) -> (r: i64)
        ensures
            r == match self@.last_click_count[button_index(button)] {
                Some(c) => c,
                None => 1,
            },
    {
        match self.last_click_count[button.index()] {
            Some(c) => c,
            None => 1,
        }
    }
}

} // verus!
