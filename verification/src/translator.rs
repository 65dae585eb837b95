//! Edge detection for mapped buttons: turns the set of pressed gamepad
//! inputs, frame after frame, into mouse-button and key events.

use std::collections::HashSet;

use vstd::prelude::*;
use vstd::array::ArrayAdditionalExecFns;

use crate::assoc::{
    assoc_map, keys_distinct, lemma_assoc_absent, lemma_assoc_lookup, lemma_assoc_push,
    lemma_assoc_update,
};
use crate::config::{button_index, copy_modifiers, Action, ActionView, Modifier, MouseButtonKind};
use crate::events::{now, EventKindView, OutputEvent, OutputEventKind, OutputEventView};
use crate::mapping::ButtonMap;
use crate::text::{contains_str, str_eq, string_views};

verus! {

broadcast use vstd::std_specs::hash::group_hash_axioms;

/// Delay in ms between clicks in a double-click sequence.
pub const DOUBLE_CLICK_DELAY_MS: u32 = 50;

/// The edge-detection state of a translator, as plain values.
pub struct TranslatorView {
    /// For each mouse button (by `button_index`), how many sources hold it down.
    pub counts: Seq<u32>,
    /// Per source input: the mouse button it last drove and whether it was pressed.
    pub sources: Map<Seq<char>, (MouseButtonKind, bool)>,
    /// For each mouse button, whether its double click has fired for the current press.
    pub double_fired: Seq<bool>,
    /// The keycodes whose key press has fired for the current press.
    pub key_fired: Set<u16>,
}

/// Pure input-to-output translator. Owns all edge-detection state.
/// Call `translate_buttons` each frame with the pressed inputs and the button map.
pub struct InputTranslator {
    /// Tracks how many source buttons are actively pressing each MouseButtonKind.
    /// MouseDown emitted when count goes 0→1, MouseUp when count goes 1→0.
    button_press_count: [u32; 5],
    /// Per-source-button: which MouseButtonKind it was last contributing to.
    button_source_state: SourceStates,
    double_click_fired: [bool; 5],
    key_press_fired: HashSet<u16>,
}

/// Per source input, the mouse button it last drove and whether it was
/// pressed; one record per source.
struct SourceStates {
    records: Vec<(String, MouseButtonKind, bool)>,
}

/// The views of a batch of events.
pub open spec fn views_of(events: Seq<OutputEvent>) -> Seq<OutputEventView> {
    events.map_values(|e: OutputEvent| e@)
}

/// The view of a translator's state has room for each of the five buttons.
pub open spec fn view_wf(t: TranslatorView) -> bool {
    t.counts.len() == 5 && t.double_fired.len() == 5
}

/// A single-click source `source` changing to `pressed`, for button `b`: when
/// its pressed state is unchanged nothing happens; otherwise the source is
/// recorded with `b`, the button's count goes up (press) or down, not below
/// zero (release), and the button goes down when its count leaves zero and
/// up when it reaches zero.
pub open spec fn button_step(
    t: TranslatorView,
    source: Seq<char>,
    b: MouseButtonKind,
    pressed: bool,
) -> (TranslatorView, Seq<OutputEventView>) {
    let was = t.sources.contains_key(source) && t.sources[source].1;
    if pressed == was {
        (t, Seq::empty())
    } else {
        let i = button_index(b);
        let c = t.counts[i];
        let sources = t.sources.insert(source, (b, pressed));
        if pressed {
            (
                TranslatorView {
                    counts: t.counts.update(i, (c + 1) as u32),
                    sources,
                    double_fired: t.double_fired,
                    key_fired: t.key_fired,
                },
                if c == 0 {
                    seq![now(EventKindView::MouseDown(b))]
                } else {
                    Seq::empty()
                },
            )
        } else {
            let c2: u32 = if c == 0 {
                0
            } else {
                (c - 1) as u32
            };
            (
                TranslatorView {
                    counts: t.counts.update(i, c2),
                    sources,
                    double_fired: t.double_fired,
                    key_fired: t.key_fired,
                },
                if c2 == 0 {
                    seq![now(EventKindView::MouseUp(b))]
                } else {
                    Seq::empty()
                },
            )
        }
    }
}

/// The four events of a double click of `b`: down, up, then after the
/// double-click delay down and up again.
pub open spec fn double_click_events(b: MouseButtonKind) -> Seq<OutputEventView> {
    seq![
        now(EventKindView::MouseDown(b)),
        now(EventKindView::MouseUp(b)),
        OutputEventView { delay_ms: DOUBLE_CLICK_DELAY_MS, kind: EventKindView::MouseDown(b) },
        now(EventKindView::MouseUp(b)),
    ]
}

/// A double-click source for `b`: a press fires the double click once until a
/// release re-arms it.
pub open spec fn double_click_step(t: TranslatorView, b: MouseButtonKind, pressed: bool) -> (
    TranslatorView,
    Seq<OutputEventView>,
) {
    let i = button_index(b);
    if pressed {
        if !t.double_fired[i] {
            (
                TranslatorView {
                    counts: t.counts,
                    sources: t.sources,
                    double_fired: t.double_fired.update(i, true),
                    key_fired: t.key_fired,
                },
                double_click_events(b),
            )
        } else {
            (t, Seq::empty())
        }
    } else {
        (
            TranslatorView {
                counts: t.counts,
                sources: t.sources,
                double_fired: t.double_fired.update(i, false),
                key_fired: t.key_fired,
            },
            Seq::empty(),
        )
    }
}

/// A key-press source: a press emits key down and key up once until a
/// release of that keycode re-arms it.
pub open spec fn key_step(t: TranslatorView, keycode: u16, mods: Seq<Modifier>, pressed: bool) -> (
    TranslatorView,
    Seq<OutputEventView>,
) {
    if pressed {
        if !t.key_fired.contains(keycode) {
            (
                TranslatorView {
                    counts: t.counts,
                    sources: t.sources,
                    double_fired: t.double_fired,
                    key_fired: t.key_fired.insert(keycode),
                },
                seq![
                    now(EventKindView::KeyDown { keycode, modifiers: mods }),
                    now(EventKindView::KeyUp { keycode, modifiers: mods }),
                ],
            )
        } else {
            (t, Seq::empty())
        }
    } else {
        (
            TranslatorView {
                counts: t.counts,
                sources: t.sources,
                double_fired: t.double_fired,
                key_fired: t.key_fired.remove(keycode),
            },
            Seq::empty(),
        )
    }
}

/// One map entry (`source` mapped to `action`) in one frame.
pub open spec fn action_step(
    t: TranslatorView,
    source: Seq<char>,
    action: ActionView,
    pressed: bool,
) -> (TranslatorView, Seq<OutputEventView>) {
    match action {
        ActionView::NoAction => (t, Seq::empty()),
        ActionView::LeftClick => button_step(t, source, MouseButtonKind::Left, pressed),
        ActionView::RightClick => button_step(t, source, MouseButtonKind::Right, pressed),
        ActionView::MiddleClick => button_step(t, source, MouseButtonKind::Middle, pressed),
        ActionView::BackClick => button_step(t, source, MouseButtonKind::Back, pressed),
        ActionView::ForwardClick => button_step(t, source, MouseButtonKind::Forward, pressed),
        ActionView::DoubleLeftClick => double_click_step(t, MouseButtonKind::Left, pressed),
        ActionView::DoubleRightClick => double_click_step(t, MouseButtonKind::Right, pressed),
        ActionView::KeyPress(c) => key_step(t, c.keycode, c.modifiers, pressed),
    }
}

/// One frame: the map entries in order, each with whether its input is among
/// the pressed ones; the events of all entries, in that order.
pub open spec fn translate_fold(
    t: TranslatorView,
    m: Seq<(Seq<char>, ActionView)>,
    pressed: Seq<Seq<char>>,
) -> (TranslatorView, Seq<OutputEventView>)
    decreases m.len(),
{
    if m.len() == 0 {
        (t, Seq::empty())
    } else {
        let before = translate_fold(t, m.drop_last(), pressed);
        let e = m.last();
        let after = action_step(before.0, e.0, e.1, pressed.contains(e.0));
        (after.0, before.1 + after.1)
    }
}

impl View for SourceStates {
    type V = Map<Seq<char>, (MouseButtonKind, bool)>;

    closed spec fn view(&self) -> Map<Seq<char>, (MouseButtonKind, bool)> {
        assoc_map(self.pairs())
    }
}

impl SourceStates {
    /// The records as (source, (button, pressed)) pairs.
    closed spec fn pairs(&self) -> Seq<(Seq<char>, (MouseButtonKind, bool))> {
        self.records@.map_values(|e: (String, MouseButtonKind, bool)| (e.0@, (e.1, e.2)))
    }

    /// No source is recorded twice.
    #[verifier::type_invariant]
    closed spec fn sources_distinct(&self) -> bool {
        keys_distinct(self.pairs())
    }

    fn new() -> (r: Self)
        ensures
            r@ == Map::<Seq<char>, (MouseButtonKind, bool)>::empty(),
    {
        let r = SourceStates { records: Vec::new() };
        assert(r.pairs() =~= Seq::<(Seq<char>, (MouseButtonKind, bool))>::empty());
        assert(r@ =~= Map::<Seq<char>, (MouseButtonKind, bool)>::empty());
        r
    }

    /// Position of the record for `source`, if there is one.
    fn position(&self, source: &str) -> (r: Option<usize>)
        ensures
            match r {
                Some(i) => i < self.pairs().len() && self.pairs()[i as int].0 == source@,
                None => forall|j: int| 0 <= j < self.pairs().len() ==> self.pairs()[j].0 != source@,
            },
    {
        let n = self.records.len();
        let mut i: usize = 0;
        while i < n
            invariant
                n == self.records@.len(),
                n == self.pairs().len(),
                i <= n,
                forall|j: int| 0 <= j < i ==> self.pairs()[j].0 != source@,
            decreases n - i,
        {
            if str_eq(self.records[i].0.as_str(), source) {
                return Some(i);
            }
            i += 1;
        }
        None
    }

    /// Whether `source` is recorded as pressed.
    fn is_pressed(&self, source: &str) -> (r: bool)
        ensures
            r == (self@.contains_key(source@) && self@[source@].1),
    {
        proof {
            use_type_invariant(self);
        }
        match self.position(source) {
            Some(i) => {
                proof {
                    lemma_assoc_lookup(self.pairs(), i as int);
                }
                self.records[i].2
            },
            None => {
                proof {
                    lemma_assoc_absent(self.pairs(), source@);
                }
                false
            },
        }
    }

    /// Records `source` as driving `button`, pressed or not.
    fn record(&mut self, source: &str, button: MouseButtonKind, pressed: bool)
        ensures
            final(self)@ == old(self)@.insert(source@, (button, pressed)),
    {
        proof {
            use_type_invariant(&*self);
        }
        let ghost before = self.pairs();
        let ghost kv = (source@, (button, pressed));
        let entry = (String::from_str(source), button, pressed);
        let mut records: Vec<(String, MouseButtonKind, bool)> = Vec::new();
        match self.position(source) {
            Some(i) => {
                proof {
                    lemma_assoc_update(before, i as int, (button, pressed));
                }
                std::mem::swap(&mut records, &mut self.records);
                records.set(i, entry);
                assert(records@.map_values(
                    |e: (String, MouseButtonKind, bool)| (e.0@, (e.1, e.2)),
                ) =~= before.update(i as int, kv));
                self.records = records;
            },
            None => {
                proof {
                    lemma_assoc_push(before, kv);
                    assert(keys_distinct(before.push(kv)));
                }
                std::mem::swap(&mut records, &mut self.records);
                records.push(entry);
                assert(records@.map_values(
                    |e: (String, MouseButtonKind, bool)| (e.0@, (e.1, e.2)),
                ) =~= before.push(kv));
                self.records = records;
            },
        }
    }
}

impl View for InputTranslator {
    type V = TranslatorView;

    closed spec fn view(&self) -> TranslatorView {
        TranslatorView {
            counts: self.button_press_count@,
            sources: self.button_source_state@,
            double_fired: self.double_click_fired@,
            key_fired: self.key_press_fired@,
        }
    }
}

impl InputTranslator {
    /// Every translator's state has room for each of the five buttons, so
    /// the laws stated for `view_wf` states hold of every translator.
    pub proof fn lemma_view_wf(&self)
        ensures
            view_wf(self@),
    {
    }

    pub fn new() -> (r: Self)
        ensures
            r@ == new_view(),
    {
        let r = InputTranslator {
            button_press_count: [0u32, 0u32, 0u32, 0u32, 0u32],
            button_source_state: SourceStates::new(),
            double_click_fired: [false, false, false, false, false],
            key_press_fired: HashSet::new(),
        };
        assert(r@.counts =~= seq![0u32, 0u32, 0u32, 0u32, 0u32]);
        assert(r@.double_fired =~= seq![false, false, false, false, false]);
        r
    }

    /// Returns true if any mouse button is currently held down.
    pub fn has_buttons_pressed(&self) -> (r: bool)
        ensures
            r == exists|i: int| 0 <= i < 5 && self@.counts[i] > 0,
    {
        let mut i: usize = 0;
        while i < 5
            invariant
                self@.counts.len() == 5,
                i <= 5,
                forall|j: int| 0 <= j < i ==> self@.counts[j] == 0,
            decreases 5 - i,
        {
            if self.button_press_count[i] > 0 {
                assert(self@.counts[i as int] > 0);
                return true;
            }
            i += 1;
        }
        false
    }

    /// How many sources hold `button` down.
    pub fn press_count(&self, button: MouseButtonKind) -> (r: u32)
        ensures
            r == self@.counts[button_index(button)],
    {
        self.button_press_count[button.index()]
    }

    /// Translates the mapped buttons for one frame: every entry of
    /// `button_map`, in order, with whether its input is in `pressed_buttons`.
    /// Mouse buttons go down when their first source is pressed and up when
    /// their last source is released; double clicks and key presses fire once
    /// per press.
    pub fn translate_buttons(
        &mut self,
        pressed_buttons: &Vec<String>,
        button_map: &ButtonMap,
    ) -> (events: Vec<OutputEvent>)
        requires
            forall|i: int| 0 <= i < 5 ==> old(self)@.counts[i] + button_map@.len() <= u32::MAX,
        ensures
            (final(self)@, views_of(events@)) == translate_fold(
                old(self)@,
                button_map@,
                string_views(pressed_buttons@),
            ),
    {
        let mut events: Vec<OutputEvent> = Vec::new();
        let ghost pressed = string_views(pressed_buttons@);
        let n = button_map.len();
        let mut j: usize = 0;
        assert(button_map@.take(0) =~= Seq::<(Seq<char>, ActionView)>::empty());
        assert(views_of(events@) =~= Seq::<OutputEventView>::empty());
        while j < n
            invariant
                n == button_map@.len(),
                j <= n,
                pressed == string_views(pressed_buttons@),
                view_wf(self@),
                forall|i: int| 0 <= i < 5 ==> self@.counts[i] <= old(self)@.counts[i] + j,
                forall|i: int| 0 <= i < 5 ==> old(self)@.counts[i] + button_map@.len() <= u32::MAX,
                (self@, views_of(events@)) == translate_fold(
                    old(self)@,
                    button_map@.take(j as int),
                    pressed,
                ),
            decreases n - j,
        {
            let name = button_map.key_at(j);
            let action = button_map.action_at(j);
            let is_pressed = contains_str(pressed_buttons, name);
            proof {
                let m = button_map@.take(j + 1);
                assert(m.drop_last() =~= button_map@.take(j as int));
                assert(m.last() == button_map@[j as int]);
            }
            match action {
                Action::NoAction => {},
                Action::LeftClick => self.process_button(name, MouseButtonKind::Left, is_pressed, &mut events),
                Action::RightClick => self.process_button(name, MouseButtonKind::Right, is_pressed, &mut events),
                Action::MiddleClick => self.process_button(name, MouseButtonKind::Middle, is_pressed, &mut events),
                Action::BackClick => self.process_button(name, MouseButtonKind::Back, is_pressed, &mut events),
                Action::ForwardClick => self.process_button(name, MouseButtonKind::Forward, is_pressed, &mut events),
                Action::DoubleLeftClick => self.process_double_click(MouseButtonKind::Left, is_pressed, &mut events),
                Action::DoubleRightClick => self.process_double_click(MouseButtonKind::Right, is_pressed, &mut events),
                Action::KeyPress(combo) => self.process_key_press(combo.keycode, &combo.modifiers, is_pressed, &mut events),
            }
            proof {
                assert(views_of(events@) =~= translate_fold(
                    old(self)@,
                    button_map@.take(j + 1),
                    pressed,
                ).1);
            }
            j += 1;
        }
        assert(button_map@.take(n as int) =~= button_map@);
        events
    }

    fn process_button(
        &mut self,
        source: &str,
        button: MouseButtonKind,
        pressed: bool,
        events: &mut Vec<OutputEvent>,
    )
        requires
            old(self)@.counts[button_index(button)] < u32::MAX,
        ensures
            final(self)@ == button_step(old(self)@, source@, button, pressed).0,
            views_of(final(events)@) == views_of(old(events)@) + button_step(
                old(self)@,
                source@,
                button,
                pressed,
            ).1,
    {
        let was_pressed = self.button_source_state.is_pressed(source);
        if pressed == was_pressed {
            assert(views_of(events@) =~= views_of(events@) + Seq::<OutputEventView>::empty());
            return;
        }
        self.button_source_state.record(source, button, pressed);
        let b = button.index();
        let count = self.button_press_count[b];
        let ghost old_events = events@;
        if pressed {
            self.button_press_count.set(b, count + 1);
            if count == 0 {
                events.push(OutputEvent::immediate(OutputEventKind::MouseDown(button)));
            }
        } else {
            let new_count = count.saturating_sub(1);
            self.button_press_count.set(b, new_count);
            if new_count == 0 {
                events.push(OutputEvent::immediate(OutputEventKind::MouseUp(button)));
            }
        }
        assert(self@.counts =~= button_step(old(self)@, source@, button, pressed).0.counts);
        assert(views_of(events@) =~= views_of(old_events) + button_step(
            old(self)@,
            source@,
            button,
            pressed,
        ).1);
    }

    fn process_double_click(
        &mut self,
        button: MouseButtonKind,
        pressed: bool,
        events: &mut Vec<OutputEvent>,
    )
        ensures
            final(self)@ == double_click_step(old(self)@, button, pressed).0,
            views_of(final(events)@) == views_of(old(events)@) + double_click_step(
                old(self)@,
                button,
                pressed,
            ).1,
    {
        let b = button.index();
        let ghost old_events = events@;
        if pressed {
            if !self.double_click_fired[b] {
                self.double_click_fired.set(b, true);
                // First click
                events.push(OutputEvent::immediate(OutputEventKind::MouseDown(button)));
                events.push(OutputEvent::immediate(OutputEventKind::MouseUp(button)));
                // Second click after delay
                events.push(
                    OutputEvent::delayed(DOUBLE_CLICK_DELAY_MS, OutputEventKind::MouseDown(button)),
                );
                events.push(OutputEvent::immediate(OutputEventKind::MouseUp(button)));
            }
        } else {
            self.double_click_fired.set(b, false);
        }
        assert(self@.double_fired =~= double_click_step(old(self)@, button, pressed).0.double_fired);
        assert(views_of(events@) =~= views_of(old_events) + double_click_step(
            old(self)@,
            button,
            pressed,
        ).1);
    }

    fn process_key_press(
        &mut self,
        keycode: u16,
        modifiers: &Vec<Modifier>,
        pressed: bool,
        events: &mut Vec<OutputEvent>,
    )
        ensures
            final(self)@ == key_step(old(self)@, keycode, modifiers@, pressed).0,
            views_of(final(events)@) == views_of(old(events)@) + key_step(
                old(self)@,
                keycode,
                modifiers@,
                pressed,
            ).1,
    {
        let ghost old_events = events@;
        if pressed {
            if !self.key_press_fired.contains(&keycode) {
                self.key_press_fired.insert(keycode);
                events.push(
                    OutputEvent::immediate(
                        OutputEventKind::KeyDown { keycode, modifiers: copy_modifiers(modifiers) },
                    ),
                );
                events.push(
                    OutputEvent::immediate(
                        OutputEventKind::KeyUp { keycode, modifiers: copy_modifiers(modifiers) },
                    ),
                );
            }
        } else {
            self.key_press_fired.remove(&keycode);
        }
        assert(views_of(events@) =~= views_of(old_events) + key_step(
            old(self)@,
            keycode,
            modifiers@,
            pressed,
        ).1);
    }
}

/// The state of a new translator: no button held, no source recorded,
/// nothing fired.
pub open spec fn new_view() -> TranslatorView {
    TranslatorView {
        counts: seq![0u32, 0u32, 0u32, 0u32, 0u32],
        sources: Map::empty(),
        double_fired: seq![false, false, false, false, false],
        key_fired: Set::empty(),
    }
}

/// The mouse button that a single-click action drives, if it is one.
pub open spec fn click_button(a: ActionView) -> Option<MouseButtonKind> {
    match a {
        ActionView::LeftClick => Some(MouseButtonKind::Left),
        ActionView::RightClick => Some(MouseButtonKind::Right),
        ActionView::MiddleClick => Some(MouseButtonKind::Middle),
        ActionView::BackClick => Some(MouseButtonKind::Back),
        ActionView::ForwardClick => Some(MouseButtonKind::Forward),
        _ => None,
    }
}

/// Whether `s` is recorded as a pressed source.
pub open spec fn recorded_pressed(src: Map<Seq<char>, (MouseButtonKind, bool)>, s: Seq<char>) -> bool {
    src.contains_key(s) && src[s].1
}

/// How many entries of `m` click `b` and have a source recorded as pressed.
pub open spec fn held_count(
    src: Map<Seq<char>, (MouseButtonKind, bool)>,
    m: Seq<(Seq<char>, ActionView)>,
    b: MouseButtonKind,
) -> nat
    decreases m.len(),
{
    if m.len() == 0 {
        0
    } else {
        held_count(src, m.drop_last(), b) + if click_button(m.last().1) == Some(b)
            && recorded_pressed(src, m.last().0) {
            1nat
        } else {
            0nat
        }
    }
}

/// How many entries of `m` click `b` and have their input among `pressed`.
pub open spec fn pressed_count(
    m: Seq<(Seq<char>, ActionView)>,
    pressed: Seq<Seq<char>>,
    b: MouseButtonKind,
) -> nat
    decreases m.len(),
{
    if m.len() == 0 {
        0
    } else {
        pressed_count(m.drop_last(), pressed, b) + if click_button(m.last().1) == Some(b)
            && pressed.contains(m.last().0) {
            1nat
        } else {
            0nat
        }
    }
}

/// A translator state that agrees with the map `m`: every recorded source is
/// an input that `m` maps to a single click of the recorded button, and each
/// button's count is the number of such sources recorded as pressed.
pub open spec fn consistent(t: TranslatorView, m: Seq<(Seq<char>, ActionView)>) -> bool {
    &&& view_wf(t)
    &&& keys_distinct(m)
    &&& forall|s: Seq<char>|
        #[trigger] t.sources.contains_key(s) ==> exists|j: int|
            0 <= j < m.len() && m[j].0 == s && click_button(m[j].1) == Some(t.sources[s].0)
    &&& forall|b: MouseButtonKind| #[trigger] t.counts[button_index(b)] == held_count(t.sources, m, b)
}

/// Counts agree for two records that agree on every source of `m`.
proof fn lemma_held_count_frame(
    src1: Map<Seq<char>, (MouseButtonKind, bool)>,
    src2: Map<Seq<char>, (MouseButtonKind, bool)>,
    m: Seq<(Seq<char>, ActionView)>,
    b: MouseButtonKind,
)
    requires
        forall|j: int|
            0 <= j < m.len() && click_button(m[j].1) is Some ==> recorded_pressed(src1, m[j].0)
                == recorded_pressed(src2, #[trigger] m[j].0),
    ensures
        held_count(src1, m, b) == held_count(src2, m, b),
    decreases m.len(),
{
    if m.len() > 0 {
        let t = m.drop_last();
        assert forall|j: int| 0 <= j < t.len() && click_button(t[j].1) is Some implies recorded_pressed(
            src1,
            t[j].0,
        ) == recorded_pressed(src2, #[trigger] t[j].0) by {
            assert(t[j] == m[j]);
        }
        lemma_held_count_frame(src1, src2, t, b);
    }
}

/// Counts of recorded sources and of pressed inputs agree when each source
/// of `m` is recorded as pressed exactly when its input is pressed.
proof fn lemma_held_count_is_pressed_count(
    src: Map<Seq<char>, (MouseButtonKind, bool)>,
    m: Seq<(Seq<char>, ActionView)>,
    pressed: Seq<Seq<char>>,
    b: MouseButtonKind,
)
    requires
        forall|j: int|
            0 <= j < m.len() && click_button(m[j].1) is Some ==> recorded_pressed(src, m[j].0)
                == pressed.contains(#[trigger] m[j].0),
    ensures
        held_count(src, m, b) == pressed_count(m, pressed, b),
    decreases m.len(),
{
    if m.len() > 0 {
        let t = m.drop_last();
        assert forall|j: int| 0 <= j < t.len() && click_button(t[j].1) is Some implies recorded_pressed(
            src,
            t[j].0,
        ) == pressed.contains(#[trigger] t[j].0) by {
            assert(t[j] == m[j]);
        }
        lemma_held_count_is_pressed_count(src, t, pressed, b);
    }
}

/// Re-recording the source of entry `k` changes the count only by that entry.
proof fn lemma_held_count_insert(
    src: Map<Seq<char>, (MouseButtonKind, bool)>,
    m: Seq<(Seq<char>, ActionView)>,
    b: MouseButtonKind,
    k: int,
    v: (MouseButtonKind, bool),
)
    requires
        keys_distinct(m),
        0 <= k < m.len(),
    ensures
        held_count(src.insert(m[k].0, v), m, b) + (if click_button(m[k].1) == Some(b)
            && recorded_pressed(src, m[k].0) {
            1int
        } else {
            0int
        }) == held_count(src, m, b) + (if click_button(m[k].1) == Some(b) && v.1 {
            1int
        } else {
            0int
        }),
    decreases m.len(),
{
    let s = m[k].0;
    let src2 = src.insert(s, v);
    let t = m.drop_last();
    assert(keys_distinct(t)) by {
        assert forall|a: int, c: int|
            0 <= a < t.len() && 0 <= c < t.len() && a != c implies t[a].0 != t[c].0 by {
            assert(t[a] == m[a] && t[c] == m[c]);
        }
    }
    if k == m.len() - 1 {
        assert forall|j: int| 0 <= j < t.len() && click_button(t[j].1) is Some implies recorded_pressed(
            src,
            t[j].0,
        ) == recorded_pressed(src2, #[trigger] t[j].0) by {
            assert(t[j] == m[j]);
            assert(m[j].0 != s);
        }
        lemma_held_count_frame(src, src2, t, b);
    } else {
        assert(t[k] == m[k]);
        lemma_held_count_insert(src, t, b, k, v);
        assert(m.last().0 != s);
    }
}

/// No more sources are held than there are entries.
proof fn lemma_held_count_bound(
    src: Map<Seq<char>, (MouseButtonKind, bool)>,
    m: Seq<(Seq<char>, ActionView)>,
    b: MouseButtonKind,
)
    ensures
        held_count(src, m, b) <= m.len(),
    decreases m.len(),
{
    if m.len() > 0 {
        lemma_held_count_bound(src, m.drop_last(), b);
    }
}

/// What the fold over the first `k` entries keeps of a consistent state.
proof fn lemma_fold_prefix(
    t: TranslatorView,
    m: Seq<(Seq<char>, ActionView)>,
    pressed: Seq<Seq<char>>,
    k: int,
)
    requires
        consistent(t, m),
        m.len() <= u32::MAX,
        0 <= k <= m.len(),
    ensures
        ({
            let u = translate_fold(t, m.take(k), pressed).0;
            &&& view_wf(u)
            &&& forall|s: Seq<char>|
                #[trigger] u.sources.contains_key(s) ==> exists|j: int|
                    0 <= j < m.len() && m[j].0 == s && click_button(m[j].1) == Some(u.sources[s].0)
            &&& forall|j: int|
                0 <= j < k && click_button(m[j].1) is Some ==> recorded_pressed(u.sources, m[j].0)
                    == pressed.contains(#[trigger] m[j].0)
            &&& forall|j: int|
                k <= j < m.len() ==> recorded_pressed(u.sources, #[trigger] m[j].0)
                    == recorded_pressed(t.sources, m[j].0)
            &&& forall|b: MouseButtonKind|
                #[trigger] u.counts[button_index(b)] == held_count(u.sources, m, b)
        }),
    decreases k,
{
    if k == 0 {
        assert(m.take(0) =~= Seq::<(Seq<char>, ActionView)>::empty());
    } else {
        lemma_fold_prefix(t, m, pressed, k - 1);
        let mk = m.take(k);
        assert(mk.drop_last() =~= m.take(k - 1));
        assert(mk.last() == m[k - 1]);
        let u = translate_fold(t, m.take(k - 1), pressed).0;
        let s = m[k - 1].0;
        let a = m[k - 1].1;
        let p = pressed.contains(s);
        let w = action_step(u, s, a, p).0;
        assert(translate_fold(t, mk, pressed).0 == w);
        match click_button(a) {
            Some(b) => {
                assert(action_step(u, s, a, p) == button_step(u, s, b, p));
                let was = u.sources.contains_key(s) && u.sources[s].1;
                if p != was {
                    let i = button_index(b);
                    assert forall|bb: MouseButtonKind| #[trigger] w.counts[button_index(bb)]
                        == held_count(w.sources, m, bb) by {
                        lemma_held_count_insert(u.sources, m, bb, k - 1, (b, p));
                        lemma_held_count_bound(w.sources, m, bb);
                        if bb != b {
                            assert(button_index(bb) != i);
                        }
                    }
                    assert forall|j: int|
                        k <= j < m.len() implies recorded_pressed(w.sources, #[trigger] m[j].0)
                        == recorded_pressed(t.sources, m[j].0) by {
                        assert(m[j].0 != s);
                    }
                    assert forall|j: int|
                        0 <= j < k && click_button(m[j].1) is Some implies recorded_pressed(
                        w.sources,
                        m[j].0,
                    ) == pressed.contains(#[trigger] m[j].0) by {
                        if j < k - 1 {
                            assert(m[j].0 != s);
                        }
                    }
                    assert forall|s2: Seq<char>| #[trigger] w.sources.contains_key(s2) implies exists|
                        j: int,
                    |
                        0 <= j < m.len() && m[j].0 == s2 && click_button(m[j].1) == Some(
                            w.sources[s2].0,
                        ) by {
                        if s2 == s {
                            assert(m[k - 1].0 == s2);
                        } else {
                            assert(u.sources.contains_key(s2));
                        }
                    }
                } else {
                    assert forall|j: int|
                        0 <= j < k && click_button(m[j].1) is Some implies recorded_pressed(
                        w.sources,
                        m[j].0,
                    ) == pressed.contains(#[trigger] m[j].0) by {}
                }
            },
            None => {
                assert(w.sources == u.sources);
                assert(w.counts == u.counts);
                assert(view_wf(w));
            },
        }
    }
}

/// Law: translating a frame keeps a translator state consistent with a
/// fixed map, and afterwards each mouse button is held by exactly the mapped
/// single-click inputs that are pressed in that frame.
pub proof fn lemma_translate_counts(
    t: TranslatorView,
    m: Seq<(Seq<char>, ActionView)>,
    pressed: Seq<Seq<char>>,
)
    requires
        consistent(t, m),
        m.len() <= u32::MAX,
    ensures
        consistent(translate_fold(t, m, pressed).0, m),
        forall|b: MouseButtonKind|
            #[trigger] translate_fold(t, m, pressed).0.counts[button_index(b)] == pressed_count(
                m,
                pressed,
                b,
            ),
{
    lemma_fold_prefix(t, m, pressed, m.len() as int);
    assert(m.take(m.len() as int) =~= m);
    let u = translate_fold(t, m, pressed).0;
    assert forall|b: MouseButtonKind| #[trigger] u.counts[button_index(b)] == pressed_count(
        m,
        pressed,
        b,
    ) by {
        lemma_held_count_is_pressed_count(u.sources, m, pressed, b);
    }
}

/// With no input pressed, no entry counts.
proof fn lemma_pressed_count_none(m: Seq<(Seq<char>, ActionView)>, b: MouseButtonKind)
    ensures
        pressed_count(m, Seq::empty(), b) == 0,
    decreases m.len(),
{
    if m.len() > 0 {
        lemma_pressed_count_none(m.drop_last(), b);
    }
}

/// Law: a frame with no input pressed releases every mouse button, even
/// when nothing else moves on the gamepad.
pub proof fn lemma_idle_frame_releases(t: TranslatorView, m: Seq<(Seq<char>, ActionView)>)
    requires
        consistent(t, m),
        m.len() <= u32::MAX,
    ensures
        forall|b: MouseButtonKind|
            #[trigger] translate_fold(t, m, Seq::empty()).0.counts[button_index(b)] == 0,
{
    lemma_translate_counts(t, m, Seq::empty());
    assert forall|b: MouseButtonKind| #[trigger] translate_fold(t, m, Seq::empty()).0.counts[button_index(b)] == 0 by {
        lemma_pressed_count_none(m, b);
    }
}

/// Law: a new translator is consistent with every map without repeated inputs.
pub proof fn lemma_new_consistent(m: Seq<(Seq<char>, ActionView)>)
    requires
        keys_distinct(m),
    ensures
        consistent(new_view(), m),
{
    let src = Map::<Seq<char>, (MouseButtonKind, bool)>::empty();
    let zeros = seq![0u32, 0u32, 0u32, 0u32, 0u32];
    assert forall|b: MouseButtonKind| #[trigger] zeros[button_index(b)] == held_count(src, m, b) by {
        lemma_held_count_zero(m, b);
    }
}

/// No source is recorded, so no button is held.
proof fn lemma_held_count_zero(m: Seq<(Seq<char>, ActionView)>, b: MouseButtonKind)
    ensures
        held_count(Map::empty(), m, b) == 0,
    decreases m.len(),
{
    if m.len() > 0 {
        lemma_held_count_zero(m.drop_last(), b);
    }
}

/// The mouse button that a double-click action drives, if it is one.
pub open spec fn double_button(a: ActionView) -> Option<MouseButtonKind> {
    match a {
        ActionView::DoubleLeftClick => Some(MouseButtonKind::Left),
        ActionView::DoubleRightClick => Some(MouseButtonKind::Right),
        _ => None,
    }
}

/// The keycode that a key-press action sends, if it is one.
pub open spec fn key_code(a: ActionView) -> Option<u16> {
    match a {
        ActionView::KeyPress(c) => Some(c.keycode),
        _ => None,
    }
}

/// No two entries of `m` double-click the same button or press the same
/// keycode (such entries share one fired flag, which each of them re-arms).
pub open spec fn no_shared_latches(m: Seq<(Seq<char>, ActionView)>) -> bool {
    &&& forall|i: int, j: int|
        0 <= i < m.len() && 0 <= j < m.len() && i != j && #[trigger] double_button(m[i].1) is Some
            ==> double_button(m[i].1) != #[trigger] double_button(m[j].1)
    &&& forall|i: int, j: int|
        0 <= i < m.len() && 0 <= j < m.len() && i != j && #[trigger] key_code(m[i].1) is Some
            ==> key_code(m[i].1) != #[trigger] key_code(m[j].1)
}

/// Every entry of `m` is recorded as its input stands in `pressed`: single
/// clicks by their sources, double clicks and key presses by their fired flags.
pub open spec fn settled(
    u: TranslatorView,
    m: Seq<(Seq<char>, ActionView)>,
    pressed: Seq<Seq<char>>,
) -> bool {
    &&& view_wf(u)
    &&& forall|j: int|
        0 <= j < m.len() && click_button(m[j].1) is Some ==> recorded_pressed(u.sources, m[j].0)
            == pressed.contains(#[trigger] m[j].0)
    &&& forall|j: int|
        0 <= j < m.len() && double_button(m[j].1) is Some ==> u.double_fired[button_index(
            double_button(m[j].1)->0,
        )] == pressed.contains(#[trigger] m[j].0)
    &&& forall|j: int|
        0 <= j < m.len() && key_code(m[j].1) is Some ==> u.key_fired.contains(key_code(m[j].1)->0)
            == pressed.contains(#[trigger] m[j].0)
}

/// After the first `k` entries, their double-click and key-press flags stand
/// as their inputs do.
proof fn lemma_latch_prefix(
    t: TranslatorView,
    m: Seq<(Seq<char>, ActionView)>,
    pressed: Seq<Seq<char>>,
    k: int,
)
    requires
        view_wf(t),
        no_shared_latches(m),
        0 <= k <= m.len(),
    ensures
        ({
            let u = translate_fold(t, m.take(k), pressed).0;
            &&& view_wf(u)
            &&& forall|j: int|
                0 <= j < k && double_button(m[j].1) is Some ==> u.double_fired[button_index(
                    double_button(m[j].1)->0,
                )] == pressed.contains(#[trigger] m[j].0)
            &&& forall|j: int|
                0 <= j < k && key_code(m[j].1) is Some ==> u.key_fired.contains(
                    key_code(m[j].1)->0,
                ) == pressed.contains(#[trigger] m[j].0)
        }),
    decreases k,
{
    if k == 0 {
        assert(m.take(0) =~= Seq::<(Seq<char>, ActionView)>::empty());
    } else {
        lemma_latch_prefix(t, m, pressed, k - 1);
        let mk = m.take(k);
        assert(mk.drop_last() =~= m.take(k - 1));
        assert(mk.last() == m[k - 1]);
        let u = translate_fold(t, m.take(k - 1), pressed).0;
        let s = m[k - 1].0;
        let a = m[k - 1].1;
        let p = pressed.contains(s);
        let w = action_step(u, s, a, p).0;
        assert(translate_fold(t, mk, pressed).0 == w);
        assert forall|j: int|
            0 <= j < k && double_button(m[j].1) is Some implies w.double_fired[button_index(
            double_button(m[j].1)->0,
        )] == pressed.contains(#[trigger] m[j].0) by {
            if j < k - 1 {
                if double_button(a) is Some {
                    assert(double_button(m[j].1) != double_button(m[k - 1].1));
                }
            }
        }
        assert forall|j: int|
            0 <= j < k && key_code(m[j].1) is Some implies w.key_fired.contains(
            key_code(m[j].1)->0,
        ) == pressed.contains(#[trigger] m[j].0) by {
            if j < k - 1 {
                if key_code(a) is Some {
                    assert(key_code(m[j].1) != key_code(m[k - 1].1));
                }
            }
        }
    }
}

/// A settled state is left as it is by a frame with the same inputs, and
/// the frame emits nothing.
proof fn lemma_settled_fold(
    u: TranslatorView,
    m: Seq<(Seq<char>, ActionView)>,
    pressed: Seq<Seq<char>>,
    k: int,
)
    requires
        settled(u, m, pressed),
        0 <= k <= m.len(),
    ensures
        translate_fold(u, m.take(k), pressed) == (u, Seq::<OutputEventView>::empty()),
    decreases k,
{
    if k == 0 {
        assert(m.take(0) =~= Seq::<(Seq<char>, ActionView)>::empty());
    } else {
        lemma_settled_fold(u, m, pressed, k - 1);
        let mk = m.take(k);
        assert(mk.drop_last() =~= m.take(k - 1));
        assert(mk.last() == m[k - 1]);
        let s = m[k - 1].0;
        let a = m[k - 1].1;
        let p = pressed.contains(s);
        let r = action_step(u, s, a, p);
        if click_button(a) is Some {
            assert(recorded_pressed(u.sources, s) == p);
            assert(r == (u, Seq::<OutputEventView>::empty()));
        } else if double_button(a) is Some {
            let i = button_index(double_button(a)->0);
            assert(u.double_fired[i] == p);
            if !p {
                assert(u.double_fired.update(i, false) =~= u.double_fired);
            }
            assert(r == (u, Seq::<OutputEventView>::empty()));
        } else if key_code(a) is Some {
            let kc = key_code(a)->0;
            assert(u.key_fired.contains(kc) == p);
            if !p {
                assert(u.key_fired.remove(kc) =~= u.key_fired);
            }
            assert(r == (u, Seq::<OutputEventView>::empty()));
        } else {
            assert(r == (u, Seq::<OutputEventView>::empty()));
        }
        assert(Seq::<OutputEventView>::empty() + Seq::<OutputEventView>::empty() =~= Seq::<
            OutputEventView,
        >::empty());
    }
}

/// After the first `k` entries, every single-click source among them is
/// recorded as pressed exactly when its input is pressed, whatever the state
/// before.
proof fn lemma_sources_prefix(
    t: TranslatorView,
    m: Seq<(Seq<char>, ActionView)>,
    pressed: Seq<Seq<char>>,
    k: int,
)
    requires
        view_wf(t),
        keys_distinct(m),
        0 <= k <= m.len(),
    ensures
        ({
            let u = translate_fold(t, m.take(k), pressed).0;
            &&& view_wf(u)
            &&& forall|j: int|
                0 <= j < k && click_button(m[j].1) is Some ==> recorded_pressed(u.sources, m[j].0)
                    == pressed.contains(#[trigger] m[j].0)
        }),
    decreases k,
{
    if k == 0 {
        assert(m.take(0) =~= Seq::<(Seq<char>, ActionView)>::empty());
    } else {
        lemma_sources_prefix(t, m, pressed, k - 1);
        let mk = m.take(k);
        assert(mk.drop_last() =~= m.take(k - 1));
        assert(mk.last() == m[k - 1]);
        let u = translate_fold(t, m.take(k - 1), pressed).0;
        let s = m[k - 1].0;
        let a = m[k - 1].1;
        let p = pressed.contains(s);
        let w = action_step(u, s, a, p).0;
        assert(translate_fold(t, mk, pressed).0 == w);
        assert forall|j: int|
            0 <= j < k && click_button(m[j].1) is Some implies recorded_pressed(
            w.sources,
            m[j].0,
        ) == pressed.contains(#[trigger] m[j].0) by {
            if j < k - 1 {
                assert(m[j].0 != s);
            }
        }
    }
}

/// Law: held inputs do not repeat. Translating the same pressed inputs a
/// second time with the same map changes nothing and emits no event — from
/// any state (also one left by another map), for a map without repeated
/// inputs in which no two entries share a double-click button or a keycode.
pub proof fn lemma_translate_no_repeat(
    t: TranslatorView,
    m: Seq<(Seq<char>, ActionView)>,
    pressed: Seq<Seq<char>>,
)
    requires
        view_wf(t),
        keys_distinct(m),
        no_shared_latches(m),
    ensures
        translate_fold(translate_fold(t, m, pressed).0, m, pressed) == (
            translate_fold(t, m, pressed).0,
            Seq::<OutputEventView>::empty(),
        ),
{
    let n = m.len() as int;
    assert(m.take(n) =~= m);
    lemma_sources_prefix(t, m, pressed, n);
    lemma_latch_prefix(t, m, pressed, n);
    let u = translate_fold(t, m, pressed).0;
    assert(settled(u, m, pressed));
    lemma_settled_fold(u, m, pressed, n);
}

/// Law: a new translator holds no button, and a frame with nothing pressed
/// leaves it as it is and emits no event, for every map.
pub proof fn lemma_new_idle_frame_silent(m: Seq<(Seq<char>, ActionView)>)
    ensures
        forall|i: int| 0 <= i < 5 ==> new_view().counts[i] == 0,
        translate_fold(new_view(), m, Seq::empty()) == (
            new_view(),
            Seq::<OutputEventView>::empty(),
        ),
{
    let n = m.len() as int;
    assert(m.take(n) =~= m);
    assert(settled(new_view(), m, Seq::empty()));
    lemma_settled_fold(new_view(), m, Seq::empty(), n);
}

/// Several frames in a row with the same map, each with its pressed inputs;
/// the events of all frames, in order.
pub open spec fn frames_fold(
    t: TranslatorView,
    m: Seq<(Seq<char>, ActionView)>,
    frames: Seq<Seq<Seq<char>>>,
) -> (TranslatorView, Seq<OutputEventView>)
    decreases frames.len(),
{
    if frames.len() == 0 {
        (t, Seq::empty())
    } else {
        let before = frames_fold(t, m, frames.drop_last());
        let after = translate_fold(before.0, m, frames.last());
        (after.0, before.1 + after.1)
    }
}

/// The presses (`true`) and releases (`false`) of mouse button `b` among
/// `es`, in order.
pub open spec fn mouse_edges(es: Seq<OutputEventView>, b: MouseButtonKind) -> Seq<bool>
    decreases es.len(),
{
    if es.len() == 0 {
        Seq::empty()
    } else {
        let r = mouse_edges(es.drop_last(), b);
        match es.last().kind {
            EventKindView::MouseDown(x) => if x == b {
                r.push(true)
            } else {
                r
            },
            EventKindView::MouseUp(x) => if x == b {
                r.push(false)
            } else {
                r
            },
            _ => r,
        }
    }
}

/// Presses and releases alternate, starting from a button held (`held_before`)
/// or not, and leave it held (`held_after`) or not.
pub open spec fn edges_alternate(e: Seq<bool>, held_before: bool, held_after: bool) -> bool {
    &&& forall|i: int| 0 <= i < e.len() ==> #[trigger] e[i] == (held_before == (i % 2 == 1))
    &&& held_after == (if e.len() % 2 == 0 {
        held_before
    } else {
        !held_before
    })
}

/// No entry of `m` is a double click.
pub open spec fn no_double_clicks(m: Seq<(Seq<char>, ActionView)>) -> bool {
    forall|j: int| 0 <= j < m.len() ==> #[trigger] double_button(m[j].1) is None
}

/// The edges of two batches are those of each, in order.
proof fn lemma_mouse_edges_append(a: Seq<OutputEventView>, c: Seq<OutputEventView>, b: MouseButtonKind)
    ensures
        mouse_edges(a + c, b) == mouse_edges(a, b) + mouse_edges(c, b),
    decreases c.len(),
{
    if c.len() == 0 {
        assert(a + c =~= a);
        assert(mouse_edges(a, b) + mouse_edges(c, b) =~= mouse_edges(a, b));
    } else {
        assert((a + c).drop_last() =~= a + c.drop_last());
        assert((a + c).last() == c.last());
        lemma_mouse_edges_append(a, c.drop_last(), b);
        let r = mouse_edges(a, b);
        let q = mouse_edges(c.drop_last(), b);
        assert(r + q.push(true) =~= (r + q).push(true));
        assert(r + q.push(false) =~= (r + q).push(false));
    }
}

/// Alternating runs chain.
proof fn lemma_edges_alternate_append(e1: Seq<bool>, e2: Seq<bool>, h0: bool, h1: bool, h2: bool)
    requires
        edges_alternate(e1, h0, h1),
        edges_alternate(e2, h1, h2),
    ensures
        edges_alternate(e1 + e2, h0, h2),
{
    let e = e1 + e2;
    let n1 = e1.len() as int;
    assert forall|i: int| 0 <= i < e.len() implies #[trigger] e[i] == (h0 == (i % 2 == 1)) by {
        if i >= n1 {
            assert(e[i] == e2[i - n1]);
            assert(((i - n1) % 2 == 1) == ((i % 2 == 1) != (n1 % 2 == 1)));
        }
    }
}

/// The sources of a consistent state are recorded with the button of
/// their entry, and a pressed one is counted.
proof fn lemma_consistent_pressed_counted(t: TranslatorView, m: Seq<(Seq<char>, ActionView)>, k: int)
    requires
        consistent(t, m),
        0 <= k < m.len(),
        click_button(m[k].1) is Some,
        recorded_pressed(t.sources, m[k].0),
    ensures
        t.counts[button_index(click_button(m[k].1)->0)] >= 1,
{
    let b = click_button(m[k].1)->0;
    lemma_held_count_insert(t.sources, m, b, k, (b, false));
}

/// One entry of a frame, from a consistent state without double clicks in
/// the map: the presses and releases of each button alternate from its held
/// state before to its held state after.
proof fn lemma_step_alternates(
    u: TranslatorView,
    m: Seq<(Seq<char>, ActionView)>,
    k: int,
    p: bool,
    b: MouseButtonKind,
)
    requires
        consistent(u, m),
        no_double_clicks(m),
        0 <= k < m.len(),
        click_button(m[k].1) is Some && !recorded_pressed(u.sources, m[k].0) ==> u.counts[button_index(
            click_button(m[k].1)->0,
        )] < u32::MAX,
    ensures
        ({
            let r = action_step(u, m[k].0, m[k].1, p);
            edges_alternate(
                mouse_edges(r.1, b),
                u.counts[button_index(b)] > 0,
                r.0.counts[button_index(b)] > 0,
            )
        }),
{
    reveal_with_fuel(mouse_edges, 5);
    let s = m[k].0;
    let a = m[k].1;
    let r = action_step(u, s, a, p);
    let i = button_index(b);
    assert(double_button(m[k].1) is None);
    match click_button(a) {
        Some(bb) => {
            let was = u.sources.contains_key(s) && u.sources[s].1;
            if p != was && !p {
                if u.sources.contains_key(s) {
                    let j = choose|j: int|
                        0 <= j < m.len() && m[j].0 == s && click_button(m[j].1) == Some(
                            u.sources[s].0,
                        );
                    assert(j == k);
                }
                lemma_consistent_pressed_counted(u, m, k);
            }
            if bb != b {
                assert(button_index(bb) != i);
            }
            assert(edges_alternate(
                mouse_edges(r.1, b),
                u.counts[button_index(b)] > 0,
                r.0.counts[button_index(b)] > 0,
            ));
        },
        None => {
            assert(r.0.counts == u.counts);
            assert(mouse_edges(r.1, b) =~= Seq::<bool>::empty());
        },
    }
}

/// The presses and releases of a frame, from a consistent state, alternate
/// from each button's held state before the frame to its held state after.
proof fn lemma_frame_alternates(
    t: TranslatorView,
    m: Seq<(Seq<char>, ActionView)>,
    pressed: Seq<Seq<char>>,
    b: MouseButtonKind,
    k: int,
)
    requires
        consistent(t, m),
        no_double_clicks(m),
        m.len() <= u32::MAX,
        0 <= k <= m.len(),
    ensures
        edges_alternate(
            mouse_edges(translate_fold(t, m.take(k), pressed).1, b),
            t.counts[button_index(b)] > 0,
            translate_fold(t, m.take(k), pressed).0.counts[button_index(b)] > 0,
        ),
    decreases k,
{
    if k == 0 {
        assert(m.take(0) =~= Seq::<(Seq<char>, ActionView)>::empty());
    } else {
        lemma_frame_alternates(t, m, pressed, b, k - 1);
        lemma_fold_prefix(t, m, pressed, k - 1);
        let mk = m.take(k);
        assert(mk.drop_last() =~= m.take(k - 1));
        assert(mk.last() == m[k - 1]);
        let before = translate_fold(t, m.take(k - 1), pressed);
        let u = before.0;
        assert(consistent(u, m));
        let p = pressed.contains(m[k - 1].0);
        let r = action_step(u, m[k - 1].0, m[k - 1].1, p);
        if click_button(m[k - 1].1) is Some {
            let bb = click_button(m[k - 1].1)->0;
            if !recorded_pressed(u.sources, m[k - 1].0) {
                lemma_held_count_insert(u.sources, m, bb, k - 1, (bb, true));
                lemma_held_count_bound(u.sources.insert(m[k - 1].0, (bb, true)), m, bb);
                assert(u.counts[button_index(bb)] == held_count(u.sources, m, bb));
            }
        }
        lemma_step_alternates(u, m, k - 1, p, b);
        lemma_mouse_edges_append(before.1, r.1, b);
        lemma_edges_alternate_append(
            mouse_edges(before.1, b),
            mouse_edges(r.1, b),
            t.counts[button_index(b)] > 0,
            u.counts[button_index(b)] > 0,
            r.0.counts[button_index(b)] > 0,
        );
    }
}

/// Law: from a new translator, over any frames with one map without repeated
/// inputs or double clicks, each mouse button's presses and releases
/// strictly alternate, starting with a press; the translator stays
/// consistent with the map, and after the last frame each button's count is
/// the number of its single-click inputs pressed then (zero before any
/// frame), so the last edge is a press exactly when such an input is held.
pub proof fn lemma_frames_alternate(
    m: Seq<(Seq<char>, ActionView)>,
    frames: Seq<Seq<Seq<char>>>,
    b: MouseButtonKind,
)
    requires
        keys_distinct(m),
        no_double_clicks(m),
        m.len() <= u32::MAX,
    ensures
        consistent(frames_fold(new_view(), m, frames).0, m),
        frames_fold(new_view(), m, frames).0.counts[button_index(b)] == (if frames.len() == 0 {
            0
        } else {
            pressed_count(m, frames.last(), b)
        }),
        edges_alternate(
            mouse_edges(frames_fold(new_view(), m, frames).1, b),
            false,
            frames_fold(new_view(), m, frames).0.counts[button_index(b)] > 0,
        ),
    decreases frames.len(),
{
    lemma_new_consistent(m);
    if frames.len() == 0 {
        assert(mouse_edges(Seq::<OutputEventView>::empty(), b) =~= Seq::<bool>::empty());
    } else {
        lemma_frames_alternate(m, frames.drop_last(), b);
        let before = frames_fold(new_view(), m, frames.drop_last());
        let t = before.0;
        let after = translate_fold(t, m, frames.last());
        lemma_translate_counts(t, m, frames.last());
        assert(m.take(m.len() as int) =~= m);
        lemma_frame_alternates(t, m, frames.last(), b, m.len() as int);
        lemma_mouse_edges_append(before.1, after.1, b);
        lemma_edges_alternate_append(
            mouse_edges(before.1, b),
            mouse_edges(after.1, b),
            false,
            t.counts[button_index(b)] > 0,
            after.0.counts[button_index(b)] > 0,
        );
    }
}

/// Law: from a new translator, over any frames with one map without repeated
/// inputs, some mouse button is held down (as `has_buttons_pressed` reports)
/// exactly when there was a frame and, in the last one, some input mapped to
/// a single click is pressed.
pub proof fn lemma_frames_buttons_held(
    m: Seq<(Seq<char>, ActionView)>,
    frames: Seq<Seq<Seq<char>>>,
)
    requires
        keys_distinct(m),
        m.len() <= u32::MAX,
    ensures
        (exists|i: int| 0 <= i < 5 && frames_fold(new_view(), m, frames).0.counts[i] > 0) <==> (
        frames.len() > 0 && exists|j: int|
            0 <= j < m.len() && #[trigger] click_button(m[j].1) is Some && frames.last().contains(
                m[j].0,
            )),
    decreases frames.len(),
{
    lemma_new_consistent(m);
    let c = frames_fold(new_view(), m, frames).0.counts;
    if frames.len() == 0 {
        assert(!(exists|i: int| 0 <= i < 5 && c[i] > 0));
    } else {
        lemma_frames_buttons_held(m, frames.drop_last());
        let t = frames_fold(new_view(), m, frames.drop_last()).0;
        lemma_frames_counts(m, frames.drop_last());
        lemma_translate_counts(t, m, frames.last());
        let P = frames.last();
        if exists|j: int|
            0 <= j < m.len() && #[trigger] click_button(m[j].1) is Some && P.contains(m[j].0) {
            let j = choose|j: int|
                0 <= j < m.len() && #[trigger] click_button(m[j].1) is Some && P.contains(m[j].0);
            let bb = click_button(m[j].1)->0;
            lemma_pressed_count_positive(m, P, bb, j);
            assert(c[button_index(bb)] > 0);
        }
        if exists|i: int| 0 <= i < 5 && c[i] > 0 {
            let i = choose|i: int| 0 <= i < 5 && c[i] > 0;
            let bb = if i == 0 {
                MouseButtonKind::Left
            } else if i == 1 {
                MouseButtonKind::Right
            } else if i == 2 {
                MouseButtonKind::Middle
            } else if i == 3 {
                MouseButtonKind::Back
            } else {
                MouseButtonKind::Forward
            };
            assert(button_index(bb) == i);
            lemma_pressed_count_witness(m, P, bb);
        }
    }
}

/// Consistency is kept over frames from a new translator.
proof fn lemma_frames_counts(m: Seq<(Seq<char>, ActionView)>, frames: Seq<Seq<Seq<char>>>)
    requires
        keys_distinct(m),
        m.len() <= u32::MAX,
    ensures
        consistent(frames_fold(new_view(), m, frames).0, m),
    decreases frames.len(),
{
    lemma_new_consistent(m);
    if frames.len() > 0 {
        lemma_frames_counts(m, frames.drop_last());
        lemma_translate_counts(frames_fold(new_view(), m, frames.drop_last()).0, m, frames.last());
    }
}

/// A pressed single-click entry for `b` makes its count positive.
proof fn lemma_pressed_count_positive(
    m: Seq<(Seq<char>, ActionView)>,
    pressed: Seq<Seq<char>>,
    b: MouseButtonKind,
    j: int,
)
    requires
        0 <= j < m.len(),
        click_button(m[j].1) == Some(b),
        pressed.contains(m[j].0),
    ensures
        pressed_count(m, pressed, b) > 0,
    decreases m.len(),
{
    if j < m.len() - 1 {
        assert(m.drop_last()[j] == m[j]);
        lemma_pressed_count_positive(m.drop_last(), pressed, b, j);
    }
}

/// A positive count for `b` has a pressed single-click entry behind it.
proof fn lemma_pressed_count_witness(
    m: Seq<(Seq<char>, ActionView)>,
    pressed: Seq<Seq<char>>,
    b: MouseButtonKind,
)
    ensures
        pressed_count(m, pressed, b) > 0 ==> exists|j: int|
            0 <= j < m.len() && #[trigger] click_button(m[j].1) is Some && pressed.contains(m[j].0),
    decreases m.len(),
{
    if m.len() > 0 {
        lemma_pressed_count_witness(m.drop_last(), pressed, b);
        if pressed_count(m.drop_last(), pressed, b) > 0 {
            let j = choose|j: int|
                0 <= j < m.drop_last().len() && #[trigger] click_button(m.drop_last()[j].1) is Some
                    && pressed.contains(m.drop_last()[j].0);
            assert(m[j] == m.drop_last()[j]);
            assert(click_button(m[j].1) is Some);
        } else if pressed_count(m, pressed, b) > 0 {
            let j = m.len() - 1;
            assert(click_button(m[j].1) is Some);
        }
    }
}

} // verus!
