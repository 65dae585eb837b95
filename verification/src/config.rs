//! Identifiers and names of mouse buttons, key modifiers, key combos and
//! actions, with their string forms for persistence and display.

use vstd::prelude::*;
use vstd::string::*;

use crate::text::{
    all_hex_digits, has_prefix, hex_digit_value, hex_upper, hex_upper_02, is_hex_digit,
    lemma_hex_upper_02_round_trip, lemma_hex_upper_value, lemma_split_step, parse_hex_u16,
    push_hex_upper_02, spec_parse_hex_u16, split_on, split_exec, str_eq, strip_prefix,
};

verus! {

/// Which mouse button to press/release.
#[derive(Clone, Copy, PartialEq, Eq, Hash, Debug)]
pub enum MouseButtonKind {
    Left,
    Right,
    Middle,
    Back,
    Forward,
}

/// Position of a mouse button among the five kinds.
pub open spec fn button_index(b: MouseButtonKind) -> int {
    match b {
        MouseButtonKind::Left => 0,
        MouseButtonKind::Right => 1,
        MouseButtonKind::Middle => 2,
        MouseButtonKind::Back => 3,
        MouseButtonKind::Forward => 4,
    }
}

impl MouseButtonKind {
    /// Position of this button among the five kinds.
    pub fn index(&self) -> (r: usize)
        ensures
            r as int == button_index(*self),
            r < 5,
    {
        match self {
            MouseButtonKind::Left => 0,
            MouseButtonKind::Right => 1,
            MouseButtonKind::Middle => 2,
            MouseButtonKind::Back => 3,
            MouseButtonKind::Forward => 4,
        }
    }
}

/// Modifier flags for key combos.
#[derive(Debug, Clone, Copy, PartialEq, Eq, Hash)]
pub enum Modifier {
    Command,
    Control,
    Option,
    Shift,
}

/// The symbol that shows a modifier.
pub open spec fn modifier_symbol(m: Modifier) -> Seq<char> {
    match m {
        Modifier::Command => "⌘"@,
        Modifier::Control => "⌃"@,
        Modifier::Option => "⌥"@,
        Modifier::Shift => "⇧"@,
    }
}

/// The identifier that stores a modifier.
pub open spec fn modifier_id(m: Modifier) -> Seq<char> {
    match m {
        Modifier::Command => "cmd"@,
        Modifier::Control => "ctrl"@,
        Modifier::Option => "opt"@,
        Modifier::Shift => "shift"@,
    }
}

/// The modifier that an identifier names, if any.
pub open spec fn modifier_from_id(s: Seq<char>) -> Option<Modifier> {
    if s == "cmd"@ {
        Some(Modifier::Command)
    } else if s == "ctrl"@ {
        Some(Modifier::Control)
    } else if s == "opt"@ {
        Some(Modifier::Option)
    } else if s == "shift"@ {
        Some(Modifier::Shift)
    } else {
        None
    }
}

impl Modifier {
    pub fn display(&self) -> (r: &'static str)
        ensures
            r@ == modifier_symbol(*self),
    {
        match self {
            Modifier::Command => "⌘",
            Modifier::Control => "⌃",
            Modifier::Option => "⌥",
            Modifier::Shift => "⇧",
        }
    }

    pub fn to_id(&self) -> (r: &'static str)
        ensures
            r@ == modifier_id(*self),
    {
        match self {
            Modifier::Command => "cmd",
            Modifier::Control => "ctrl",
            Modifier::Option => "opt",
            Modifier::Shift => "shift",
        }
    }

    pub fn from_id(id: &str) -> (r: Option<Self>)
        ensures
            r == modifier_from_id(id@),
    {
        if str_eq(id, "cmd") {
            Some(Modifier::Command)
        } else if str_eq(id, "ctrl") {
            Some(Modifier::Control)
        } else if str_eq(id, "opt") {
            Some(Modifier::Option)
        } else if str_eq(id, "shift") {
            Some(Modifier::Shift)
        } else {
            None
        }
    }
}

/// Reading back the identifier of a modifier gives the modifier; no
/// identifier holds a `+`.
pub proof fn lemma_modifier_id(m: Modifier)
    ensures
        modifier_from_id(modifier_id(m)) == Some(m),
        forall|i: int| 0 <= i < modifier_id(m).len() ==> modifier_id(m)[i] != '+',
        modifier_id(m).len() > 0,
        modifier_id(m)[0] != '0',
{
    reveal_strlit("cmd");
    reveal_strlit("ctrl");
    reveal_strlit("opt");
    reveal_strlit("shift");
    assert("cmd"@.len() != "ctrl"@.len());
    assert("cmd"@.len() != "shift"@.len());
    assert("ctrl"@.len() != "opt"@.len());
    assert("ctrl"@.len() != "shift"@.len());
    assert("opt"@.len() != "shift"@.len());
    assert("cmd"@[0] != "opt"@[0]);
}

/// Human-readable names for common macOS virtual keycodes.
pub open spec fn keycode_name_spec(keycode: u16) -> Seq<char> {
    match keycode {
        0x00 => "A"@,
        0x01 => "S"@,
        0x02 => "D"@,
        0x03 => "F"@,
        0x04 => "H"@,
        0x05 => "G"@,
        0x06 => "Z"@,
        0x07 => "X"@,
        0x08 => "C"@,
        0x09 => "V"@,
        0x0B => "B"@,
        0x0C => "Q"@,
        0x0D => "W"@,
        0x0E => "E"@,
        0x0F => "R"@,
        0x10 => "Y"@,
        0x11 => "T"@,
        0x12 => "1"@,
        0x13 => "2"@,
        0x14 => "3"@,
        0x15 => "4"@,
        0x16 => "6"@,
        0x17 => "5"@,
        0x19 => "9"@,
        0x1A => "7"@,
        0x1C => "8"@,
        0x1D => "0"@,
        0x1E => "]"@,
        0x1F => "O"@,
        0x20 => "U"@,
        0x24 => "Return"@,
        0x30 => "Tab"@,
        0x31 => "Space"@,
        0x33 => "Delete"@,
        0x35 => "Escape"@,
        0x7B => "←"@,
        0x7C => "→"@,
        0x7D => "↓"@,
        0x7E => "↑"@,
        0x60 => "F5"@,
        0x61 => "F6"@,
        0x62 => "F7"@,
        0x63 => "F3"@,
        0x64 => "F8"@,
        0x65 => "F9"@,
        0x67 => "F11"@,
        0x6F => "F12"@,
        0x76 => "F4"@,
        0x78 => "F2"@,
        0x7A => "F1"@,
        _ => "?"@,
    }
}

/// Human-readable names for common macOS virtual keycodes.
pub fn keycode_name(keycode: u16) -> (r: &'static str)
    ensures
        r@ == keycode_name_spec(keycode),
{
    match keycode {
        0x00 => "A",
        0x01 => "S",
        0x02 => "D",
        0x03 => "F",
        0x04 => "H",
        0x05 => "G",
        0x06 => "Z",
        0x07 => "X",
        0x08 => "C",
        0x09 => "V",
        0x0B => "B",
        0x0C => "Q",
        0x0D => "W",
        0x0E => "E",
        0x0F => "R",
        0x10 => "Y",
        0x11 => "T",
        0x12 => "1",
        0x13 => "2",
        0x14 => "3",
        0x15 => "4",
        0x16 => "6",
        0x17 => "5",
        0x19 => "9",
        0x1A => "7",
        0x1C => "8",
        0x1D => "0",
        0x1E => "]",
        0x1F => "O",
        0x20 => "U",
        0x24 => "Return",
        0x30 => "Tab",
        0x31 => "Space",
        0x33 => "Delete",
        0x35 => "Escape",
        0x7B => "←",
        0x7C => "→",
        0x7D => "↓",
        0x7E => "↑",
        0x60 => "F5",
        0x61 => "F6",
        0x62 => "F7",
        0x63 => "F3",
        0x64 => "F8",
        0x65 => "F9",
        0x67 => "F11",
        0x6F => "F12",
        0x76 => "F4",
        0x78 => "F2",
        0x7A => "F1",
        _ => "?",
    }
}

/// The parts of a key combo, as plain values.
pub struct KeyComboView {
    pub modifiers: Seq<Modifier>,
    pub keycode: u16,
    pub key_name: Seq<char>,
}

/// A keyboard key combo: modifiers + a virtual keycode.
#[derive(Debug, Clone, PartialEq)]
pub struct KeyCombo {
    pub modifiers: Vec<Modifier>,
    /// macOS virtual keycode (e.g. 0x00 = A, 0x7C = Right arrow)
    pub keycode: u16,
    /// Human-readable key name for display
    pub key_name: String,
}

impl View for KeyCombo {
    type V = KeyComboView;

    open spec fn view(&self) -> KeyComboView {
        KeyComboView { modifiers: self.modifiers@, keycode: self.keycode, key_name: self.key_name@ }
    }
}

/// Each modifier's identifier followed by `+`, in order.
pub open spec fn modifiers_prefix(ms: Seq<Modifier>) -> Seq<char>
    decreases ms.len(),
{
    if ms.len() == 0 {
        Seq::empty()
    } else {
        modifier_id(ms[0]) + "+"@ + modifiers_prefix(ms.drop_first())
    }
}

/// The compact identifier of a key combo, such as `cmd+shift+0x00`: the
/// modifiers' identifiers, then `0x` and the keycode in upper-case
/// hexadecimal of at least two digits, all joined by `+`.
pub open spec fn key_combo_id(c: KeyComboView) -> Seq<char> {
    modifiers_prefix(c.modifiers) + "0x"@ + hex_upper_02(c.keycode as nat)
}

/// One part of a combo identifier read into the modifiers and keycode found so
/// far: a modifier identifier adds its modifier; a part that begins with `0x`
/// sets the keycode to what its hexadecimal rest reads as (nothing when it is
/// not a 16-bit hexadecimal number); any other part is ignored.
pub open spec fn combo_step(acc: (Seq<Modifier>, Option<u16>), part: Seq<char>) -> (
    Seq<Modifier>,
    Option<u16>,
) {
    match modifier_from_id(part) {
        Some(m) => (acc.0.push(m), acc.1),
        None => if has_prefix(part, "0x"@) {
            (acc.0, spec_parse_hex_u16(part.skip("0x"@.len() as int)))
        } else {
            acc
        },
    }
}

/// The parts of a combo identifier read from first to last.
pub open spec fn combo_fold(parts: Seq<Seq<char>>) -> (Seq<Modifier>, Option<u16>)
    decreases parts.len(),
{
    if parts.len() == 0 {
        (Seq::empty(), None)
    } else {
        combo_step(combo_fold(parts.drop_last()), parts.last())
    }
}

/// The key combo that an identifier describes: its parts between `+` read in
/// order; there is one when a keycode was read, and its key name is the
/// keycode's name.
pub open spec fn key_combo_from_id_spec(s: Seq<char>) -> Option<KeyComboView> {
    let acc = combo_fold(split_on(s, '+'));
    match acc.1 {
        Some(k) => Some(
            KeyComboView { modifiers: acc.0, keycode: k, key_name: keycode_name_spec(k) },
        ),
        None => None,
    }
}

/// The modifiers' symbols, in order.
pub open spec fn modifiers_symbols(ms: Seq<Modifier>) -> Seq<char>
    decreases ms.len(),
{
    if ms.len() == 0 {
        Seq::empty()
    } else {
        modifiers_symbols(ms.drop_last()) + modifier_symbol(ms.last())
    }
}

/// How a key combo is shown: the modifiers' symbols, then the key name.
pub open spec fn key_combo_display(c: KeyComboView) -> Seq<char> {
    modifiers_symbols(c.modifiers) + c.key_name
}

/// Adding a modifier at the end adds its identifier and a `+`.
proof fn lemma_modifiers_prefix_push(ms: Seq<Modifier>, m: Modifier)
    ensures
        modifiers_prefix(ms.push(m)) == modifiers_prefix(ms) + modifier_id(m) + "+"@,
    decreases ms.len(),
{
    if ms.len() == 0 {
        assert(ms.push(m).drop_first() =~= Seq::<Modifier>::empty());
        assert(ms.push(m)[0] == m);
        assert(modifiers_prefix(ms.push(m)) == modifier_id(m) + "+"@ + modifiers_prefix(
            Seq::<Modifier>::empty(),
        ));
        assert(modifiers_prefix(ms) =~= Seq::<char>::empty());
        assert(modifiers_prefix(ms.push(m)) =~= modifiers_prefix(ms) + modifier_id(m) + "+"@);
    } else {
        assert(ms.push(m).drop_first() =~= ms.drop_first().push(m));
        lemma_modifiers_prefix_push(ms.drop_first(), m);
        assert(modifiers_prefix(ms.push(m)) =~= modifiers_prefix(ms) + modifier_id(m) + "+"@);
    }
}

/// Splitting a combo identifier at `+` gives the modifiers' identifiers and
/// then the last part.
proof fn lemma_split_combo_id(ms: Seq<Modifier>, h: Seq<char>)
    requires
        forall|i: int| 0 <= i < h.len() ==> h[i] != '+',
    ensures
        split_on(modifiers_prefix(ms) + h, '+') == ms.map_values(|m: Modifier| modifier_id(m)).push(
            h,
        ),
    decreases ms.len(),
{
    reveal_strlit("+");
    if ms.len() == 0 {
        assert(modifiers_prefix(ms) + h =~= h);
        crate::text::lemma_first_index_at(h, '+', h.len() as int);
        assert(ms.map_values(|m: Modifier| modifier_id(m)).push(h) =~= seq![h]);
    } else {
        let id = modifier_id(ms[0]);
        lemma_modifier_id(ms[0]);
        let rest = modifiers_prefix(ms.drop_first()) + h;
        let s = modifiers_prefix(ms) + h;
        assert(s =~= id + "+"@ + rest);
        let k = id.len() as int;
        assert forall|j: int| 0 <= j < k implies s[j] != '+' by {
            assert(s[j] == id[j]);
        }
        assert(s[k] == '+');
        lemma_split_step(s, '+', k);
        assert(s.take(k) =~= id);
        assert(s.skip(k + 1) =~= rest);
        lemma_split_combo_id(ms.drop_first(), h);
        assert(ms.map_values(|m: Modifier| modifier_id(m)).push(h) =~= seq![id]
            + ms.drop_first().map_values(|m: Modifier| modifier_id(m)).push(h));
    }
}

/// Reading the identifiers of modifiers gives back the modifiers.
proof fn lemma_combo_fold_modifiers(ms: Seq<Modifier>)
    ensures
        combo_fold(ms.map_values(|m: Modifier| modifier_id(m))) == (ms, Option::<u16>::None),
    decreases ms.len(),
{
    let ids = ms.map_values(|m: Modifier| modifier_id(m));
    if ms.len() > 0 {
        assert(ids.drop_last() =~= ms.drop_last().map_values(|m: Modifier| modifier_id(m)));
        lemma_combo_fold_modifiers(ms.drop_last());
        lemma_modifier_id(ms.last());
        assert(ms.drop_last().push(ms.last()) =~= ms);
    } else {
        assert(ms =~= Seq::<Modifier>::empty());
    }
}

/// Law: reading back the identifier of a key combo gives the same modifiers
/// and keycode, with the keycode's name as the key name.
pub proof fn lemma_key_combo_round_trip(c: KeyComboView)
    ensures
        key_combo_from_id_spec(key_combo_id(c)) == Some(
            KeyComboView {
                modifiers: c.modifiers,
                keycode: c.keycode,
                key_name: keycode_name_spec(c.keycode),
            },
        ),
{
    reveal_strlit("0x");
    let k = c.keycode;
    let hx = hex_upper_02(k as nat);
    let h = "0x"@ + hx;
    lemma_hex_upper_02_round_trip(k);
    assert(all_hex_digits(hx)) by {
        if k >= 16 {
            lemma_hex_upper_value(k as nat);
        } else {
            crate::text::lemma_hex_char_upper_value(k as int);
            assert forall|i: int| 0 <= i < hx.len() implies is_hex_digit(#[trigger] hx[i]) by {
                assert(('0' as u32) == 0x30);
            }
        }
    }
    assert forall|i: int| 0 <= i < h.len() implies h[i] != '+' by {
        if i >= 2 {
            assert(h[i] == hx[i - 2]);
            assert(is_hex_digit(hx[i - 2]));
            assert(('+' as u32) == 0x2B);
        }
    }
    assert(key_combo_id(c) =~= modifiers_prefix(c.modifiers) + h);
    lemma_split_combo_id(c.modifiers, h);
    lemma_combo_fold_modifiers(c.modifiers);
    let ids = c.modifiers.map_values(|m: Modifier| modifier_id(m));
    assert(ids.push(h).drop_last() =~= ids);
    assert(modifier_from_id(h) is None) by {
        lemma_modifier_id(Modifier::Command);
        lemma_modifier_id(Modifier::Control);
        lemma_modifier_id(Modifier::Option);
        lemma_modifier_id(Modifier::Shift);
        assert(h[0] == '0');
    }
    assert(h.take(2) =~= "0x"@);
    assert(h.skip(2) =~= hx);
}

impl KeyCombo {
    /// Serialize to a compact string like "cmd+shift+0x00" or "ctrl+0x7C"
    pub fn to_id(&self) -> (r: String)
        ensures
            r@ == key_combo_id(self@),
    {
        let mut out = String::new();
        let n = self.modifiers.len();
        let mut i: usize = 0;
        assert(self.modifiers@.take(0) =~= Seq::<Modifier>::empty());
        while i < n
            invariant
                n == self.modifiers@.len(),
                i <= n,
                out@ == modifiers_prefix(self.modifiers@.take(i as int)),
            decreases n - i,
        {
            let m = self.modifiers[i];
            out.append(m.to_id());
            out.append("+");
            proof {
                lemma_modifiers_prefix_push(self.modifiers@.take(i as int), m);
                assert(self.modifiers@.take(i + 1) =~= self.modifiers@.take(i as int).push(m));
            }
            i += 1;
        }
        assert(self.modifiers@.take(n as int) =~= self.modifiers@);
        out.append("0x");
        push_hex_upper_02(&mut out, self.keycode);
        out
    }

    /// Deserialize from "cmd+shift+0x00" format
    pub fn from_id(id: &str) -> (r: Option<Self>)
        ensures
            match r {
                Some(c) => key_combo_from_id_spec(id@) == Some(c@),
                None => key_combo_from_id_spec(id@) is None,
            },
    {
        let parts = split_exec(id, '+');
        let ghost pv = parts@.map_values(|p: &str| p@);
        let mut modifiers: Vec<Modifier> = Vec::new();
        let mut keycode: Option<u16> = None;
        let n = parts.len();
        let mut i: usize = 0;
        assert(pv.take(0) =~= Seq::<Seq<char>>::empty());
        while i < n
            invariant
                n == parts@.len(),
                pv == parts@.map_values(|p: &str| p@),
                i <= n,
                (modifiers@, keycode) == combo_fold(pv.take(i as int)),
            decreases n - i,
        {
            let part = parts[i];
            assert(pv.take(i + 1).drop_last() =~= pv.take(i as int));
            assert(pv.take(i + 1).last() == part@);
            match Modifier::from_id(part) {
                Some(m) => {
                    modifiers.push(m);
                },
                None => {
                    match strip_prefix(part, "0x") {
                        Some(hex) => {
                            keycode = parse_hex_u16(hex);
                        },
                        None => {},
                    }
                },
            }
            i += 1;
        }
        assert(pv.take(n as int) =~= pv);
        match keycode {
            Some(k) => {
                let key_name = String::from_str(keycode_name(k));
                Some(KeyCombo { modifiers, keycode: k, key_name })
            },
            None => None,
        }
    }

    pub fn display(&self) -> (r: String)
        ensures
            r@ == key_combo_display(self@),
    {
        let mut out = String::new();
        let n = self.modifiers.len();
        let mut i: usize = 0;
        assert(self.modifiers@.take(0) =~= Seq::<Modifier>::empty());
        while i < n
            invariant
                n == self.modifiers@.len(),
                i <= n,
                out@ == modifiers_symbols(self.modifiers@.take(i as int)),
            decreases n - i,
        {
            let m = self.modifiers[i];
            out.append(m.display());
            assert(self.modifiers@.take(i + 1).drop_last() =~= self.modifiers@.take(i as int));
            i += 1;
        }
        assert(self.modifiers@.take(n as int) =~= self.modifiers@);
        out.append(self.key_name.as_str());
        out
    }
}

/// A copy of a list of modifiers.
pub fn copy_modifiers(ms: &Vec<Modifier>) -> (r: Vec<Modifier>)
    ensures
        r@ == ms@,
{
    let mut r: Vec<Modifier> = Vec::new();
    let n = ms.len();
    let mut i: usize = 0;
    while i < n
        invariant
            n == ms@.len(),
            i <= n,
            r@ == ms@.take(i as int),
        decreases n - i,
    {
        r.push(ms[i]);
        assert(ms@.take(i + 1) =~= ms@.take(i as int).push(ms@[i as int]));
        i += 1;
    }
    assert(ms@.take(n as int) =~= ms@);
    r
}

impl KeyCombo {
    /// A copy of this combo.
    pub fn copy(&self) -> (r: KeyCombo)
        ensures
            r@ == self@,
    {
        KeyCombo {
            modifiers: copy_modifiers(&self.modifiers),
            keycode: self.keycode,
            key_name: self.key_name.clone(),
        }
    }
}

/// What happens when a gamepad input is activated.
/// Each variant maps to a sequence of output events produced by the translator.
#[derive(Debug, Clone, PartialEq)]
pub enum Action {
    /// No action — input is ignored.
    NoAction,
    LeftClick,
    RightClick,
    MiddleClick,
    BackClick,
    ForwardClick,
    DoubleLeftClick,
    DoubleRightClick,
    /// Emit a keyboard key combo (modifiers + key).
    KeyPress(KeyCombo),
}

/// An action, as plain values.
pub enum ActionView {
    NoAction,
    LeftClick,
    RightClick,
    MiddleClick,
    BackClick,
    ForwardClick,
    DoubleLeftClick,
    DoubleRightClick,
    KeyPress(KeyComboView),
}

impl View for Action {
    type V = ActionView;

    open spec fn view(&self) -> ActionView {
        match self {
            Action::NoAction => ActionView::NoAction,
            Action::LeftClick => ActionView::LeftClick,
            Action::RightClick => ActionView::RightClick,
            Action::MiddleClick => ActionView::MiddleClick,
            Action::BackClick => ActionView::BackClick,
            Action::ForwardClick => ActionView::ForwardClick,
            Action::DoubleLeftClick => ActionView::DoubleLeftClick,
            Action::DoubleRightClick => ActionView::DoubleRightClick,
            Action::KeyPress(c) => ActionView::KeyPress(c@),
        }
    }
}

/// The string ID that stores an action.
pub open spec fn action_id(a: ActionView) -> Seq<char> {
    match a {
        ActionView::NoAction => "none"@,
        ActionView::LeftClick => "leftClick"@,
        ActionView::RightClick => "rightClick"@,
        ActionView::MiddleClick => "middleClick"@,
        ActionView::BackClick => "backClick"@,
        ActionView::ForwardClick => "forwardClick"@,
        ActionView::DoubleLeftClick => "doubleLeftClick"@,
        ActionView::DoubleRightClick => "doubleRightClick"@,
        ActionView::KeyPress(c) => "key:"@ + key_combo_id(c),
    }
}

/// The action that a string ID names: `key:` and a key combo ID give that
/// combo (and nothing when the rest is no combo ID); the other known IDs
/// give their action; anything else gives `NoAction`.
pub open spec fn action_from_id_spec(s: Seq<char>) -> ActionView {
    if has_prefix(s, "key:"@) {
        match key_combo_from_id_spec(s.skip("key:"@.len() as int)) {
            Some(c) => ActionView::KeyPress(c),
            None => ActionView::NoAction,
        }
    } else if s == "leftClick"@ {
        ActionView::LeftClick
    } else if s == "rightClick"@ {
        ActionView::RightClick
    } else if s == "middleClick"@ {
        ActionView::MiddleClick
    } else if s == "backClick"@ {
        ActionView::BackClick
    } else if s == "forwardClick"@ {
        ActionView::ForwardClick
    } else if s == "doubleLeftClick"@ {
        ActionView::DoubleLeftClick
    } else if s == "doubleRightClick"@ {
        ActionView::DoubleRightClick
    } else {
        ActionView::NoAction
    }
}

/// The human-readable name of an action.
pub open spec fn action_display_name(a: ActionView) -> Seq<char> {
    match a {
        ActionView::NoAction => "None"@,
        ActionView::LeftClick => "Left Click"@,
        ActionView::RightClick => "Right Click"@,
        ActionView::MiddleClick => "Middle Click"@,
        ActionView::BackClick => "Back"@,
        ActionView::ForwardClick => "Forward"@,
        ActionView::DoubleLeftClick => "Double Left Click"@,
        ActionView::DoubleRightClick => "Double Right Click"@,
        ActionView::KeyPress(c) => key_combo_display(c),
    }
}

/// The preset actions offered for selection, in order (every action but key presses).
pub open spec fn preset_actions() -> Seq<ActionView> {
    seq![
        ActionView::NoAction,
        ActionView::LeftClick,
        ActionView::RightClick,
        ActionView::MiddleClick,
        ActionView::BackClick,
        ActionView::ForwardClick,
        ActionView::DoubleLeftClick,
        ActionView::DoubleRightClick,
    ]
}

/// A key combo whose key name is the name of its keycode, as reading one
/// from its ID produces.
pub open spec fn key_name_matches(c: KeyComboView) -> bool {
    c.key_name == keycode_name_spec(c.keycode)
}

/// An action that its ID can describe in full: a key press must carry the
/// name of its keycode.
pub open spec fn action_well_named(a: ActionView) -> bool {
    match a {
        ActionView::KeyPress(c) => key_name_matches(c),
        _ => true,
    }
}

/// The characters of the preset IDs and of the key prefix.
proof fn lemma_action_id_chars()
    ensures
        "none"@ =~= seq!['n', 'o', 'n', 'e'],
        "leftClick"@ =~= seq!['l', 'e', 'f', 't', 'C', 'l', 'i', 'c', 'k'],
        "rightClick"@ =~= seq!['r', 'i', 'g', 'h', 't', 'C', 'l', 'i', 'c', 'k'],
        "middleClick"@ =~= seq!['m', 'i', 'd', 'd', 'l', 'e', 'C', 'l', 'i', 'c', 'k'],
        "backClick"@ =~= seq!['b', 'a', 'c', 'k', 'C', 'l', 'i', 'c', 'k'],
        "forwardClick"@ =~= seq!['f', 'o', 'r', 'w', 'a', 'r', 'd', 'C', 'l', 'i', 'c', 'k'],
        "doubleLeftClick"@ =~= seq![
            'd', 'o', 'u', 'b', 'l', 'e', 'L', 'e', 'f', 't', 'C', 'l', 'i', 'c', 'k'
        ],
        "doubleRightClick"@ =~= seq![
            'd', 'o', 'u', 'b', 'l', 'e', 'R', 'i', 'g', 'h', 't', 'C', 'l', 'i', 'c', 'k'
        ],
        "key:"@ =~= seq!['k', 'e', 'y', ':'],
{
    reveal_strlit("none");
    reveal_strlit("leftClick");
    reveal_strlit("rightClick");
    reveal_strlit("middleClick");
    reveal_strlit("backClick");
    reveal_strlit("forwardClick");
    reveal_strlit("doubleLeftClick");
    reveal_strlit("doubleRightClick");
    reveal_strlit("key:");
}

/// The ID of the preset at position `i`.
proof fn lemma_preset_id(i: int)
    requires
        0 <= i < 8,
    ensures
        action_id(preset_actions()[i]) == (if i == 0 {
            "none"@
        } else if i == 1 {
            "leftClick"@
        } else if i == 2 {
            "rightClick"@
        } else if i == 3 {
            "middleClick"@
        } else if i == 4 {
            "backClick"@
        } else if i == 5 {
            "forwardClick"@
        } else if i == 6 {
            "doubleLeftClick"@
        } else {
            "doubleRightClick"@
        }),
{
}

/// Law: the preset IDs are pairwise distinct, and none begins with `key:`.
pub proof fn lemma_preset_ids_distinct()
    ensures
        forall|i: int, j: int|
            0 <= i < preset_actions().len() && 0 <= j < preset_actions().len() && i != j
                ==> action_id(preset_actions()[i]) != action_id(preset_actions()[j]),
        forall|i: int|
            0 <= i < preset_actions().len() ==> !has_prefix(
                #[trigger] action_id(preset_actions()[i]),
                "key:"@,
            ),
{
    lemma_action_id_chars();
    let p = preset_actions();
    assert forall|i: int, j: int|
        0 <= i < p.len() && 0 <= j < p.len() && i != j implies action_id(p[i]) != action_id(
            p[j],
        ) by {
        lemma_preset_id(i);
        lemma_preset_id(j);
        let a = action_id(p[i]);
        let b = action_id(p[j]);
        if a.len() == b.len() {
            assert(a[0] != b[0]);
        }
    }
    assert forall|i: int| 0 <= i < p.len() implies !has_prefix(
        #[trigger] action_id(p[i]),
        "key:"@,
    ) by {
        lemma_preset_id(i);
        let a = action_id(p[i]);
        if a.len() >= 4 {
            assert(a.take(4)[0] == a[0]);
        }
    }
}

/// Law: reading back the ID of an action gives the action, for every action
/// whose key combo (if any) carries its keycode's name.
pub proof fn lemma_action_round_trip(a: ActionView)
    requires
        action_well_named(a),
    ensures
        action_from_id_spec(action_id(a)) == a,
{
    lemma_action_id_chars();
    lemma_preset_ids_distinct();
    match a {
        ActionView::KeyPress(c) => {
            let s = action_id(a);
            assert(s.take(4) =~= "key:"@);
            assert(s.skip(4) =~= key_combo_id(c));
            lemma_key_combo_round_trip(c);
        },
        _ => {
            let p = preset_actions();
            let i: int = match a {
                ActionView::NoAction => 0,
                ActionView::LeftClick => 1,
                ActionView::RightClick => 2,
                ActionView::MiddleClick => 3,
                ActionView::BackClick => 4,
                ActionView::ForwardClick => 5,
                ActionView::DoubleLeftClick => 6,
                _ => 7,
            };
            assert(p[i] == a);
            lemma_preset_id(i);
            assert(!has_prefix(action_id(p[i]), "key:"@));
            assert(action_id(p[i]) != action_id(p[1]) || i == 1);
            assert(action_id(p[i]) != action_id(p[2]) || i == 2);
            assert(action_id(p[i]) != action_id(p[3]) || i == 3);
            assert(action_id(p[i]) != action_id(p[4]) || i == 4);
            assert(action_id(p[i]) != action_id(p[5]) || i == 5);
            assert(action_id(p[i]) != action_id(p[6]) || i == 6);
            assert(action_id(p[i]) != action_id(p[7]) || i == 7);
            assert(action_id(p[0]) == "none"@);
        },
    }
}

impl Action {
    /// Preset actions for UI dropdown (does not include KeyPress which is dynamic).
    pub fn presets() -> (r: Vec<(&'static str, &'static str, Action)>)
        ensures
            r@.len() == preset_actions().len(),
            forall|i: int|
                0 <= i < r@.len() ==> {
                    &&& (#[trigger] r@[i]).0@ == action_id(preset_actions()[i])
                    &&& r@[i].1@ == action_display_name(preset_actions()[i])
                    &&& r@[i].2@ == preset_actions()[i]
                },
    {
        let r = vec![
            ("none", "None", Action::NoAction),
            ("leftClick", "Left Click", Action::LeftClick),
            ("rightClick", "Right Click", Action::RightClick),
            ("middleClick", "Middle Click", Action::MiddleClick),
            ("backClick", "Back", Action::BackClick),
            ("forwardClick", "Forward", Action::ForwardClick),
            ("doubleLeftClick", "Double Left Click", Action::DoubleLeftClick),
            ("doubleRightClick", "Double Right Click", Action::DoubleRightClick),
        ];
        r
    }

    /// Serialize to a string ID for persistence.
    pub fn to_id(&self) -> (r: String)
        ensures
            r@ == action_id(self@),
    {
        match self {
            Action::NoAction => String::from_str("none"),
            Action::LeftClick => String::from_str("leftClick"),
            Action::RightClick => String::from_str("rightClick"),
            Action::MiddleClick => String::from_str("middleClick"),
            Action::BackClick => String::from_str("backClick"),
            Action::ForwardClick => String::from_str("forwardClick"),
            Action::DoubleLeftClick => String::from_str("doubleLeftClick"),
            Action::DoubleRightClick => String::from_str("doubleRightClick"),
            Action::KeyPress(combo) => {
                let mut out = String::from_str("key:");
                let id = combo.to_id();
                out.append(id.as_str());
                out
            },
        }
    }

    /// Deserialize from a string ID. Unknown IDs become NoAction.
    pub fn from_id(id: &str) -> (r: Self)
        ensures
            r@ == action_from_id_spec(id@),
    {
        match strip_prefix(id, "key:") {
            Some(combo_str) => {
                match KeyCombo::from_id(combo_str) {
                    Some(combo) => {
                        return Action::KeyPress(combo);
                    },
                    None => {
                        return Action::NoAction;
                    },
                }
            },
            None => {},
        }
        if str_eq(id, "leftClick") {
            Action::LeftClick
        } else if str_eq(id, "rightClick") {
            Action::RightClick
        } else if str_eq(id, "middleClick") {
            Action::MiddleClick
        } else if str_eq(id, "backClick") {
            Action::BackClick
        } else if str_eq(id, "forwardClick") {
            Action::ForwardClick
        } else if str_eq(id, "doubleLeftClick") {
            Action::DoubleLeftClick
        } else if str_eq(id, "doubleRightClick") {
            Action::DoubleRightClick
        } else {
            Action::NoAction
        }
    }

    /// Human-readable display name.
    pub fn display_name(&self) -> (r: String)
        ensures
            r@ == action_display_name(self@),
    {
        match self {
            Action::NoAction => String::from_str("None"),
            Action::LeftClick => String::from_str("Left Click"),
            Action::RightClick => String::from_str("Right Click"),
            Action::MiddleClick => String::from_str("Middle Click"),
            Action::BackClick => String::from_str("Back"),
            Action::ForwardClick => String::from_str("Forward"),
            Action::DoubleLeftClick => String::from_str("Double Left Click"),
            Action::DoubleRightClick => String::from_str("Double Right Click"),
            Action::KeyPress(combo) => combo.display(),
        }
    }

    /// The display name, as the `Display` form of an action shows it.
    pub fn to_string(&self) -> (r: String)
        ensures
            r@ == action_display_name(self@),
    {
        self.display_name()
    }

    /// A copy of this action.
    pub fn copy(&self) -> (r: Action)
        ensures
            r@ == self@,
    {
        match self {
            Action::NoAction => Action::NoAction,
            Action::LeftClick => Action::LeftClick,
            Action::RightClick => Action::RightClick,
            Action::MiddleClick => Action::MiddleClick,
            Action::BackClick => Action::BackClick,
            Action::ForwardClick => Action::ForwardClick,
            Action::DoubleLeftClick => Action::DoubleLeftClick,
            Action::DoubleRightClick => Action::DoubleRightClick,
            Action::KeyPress(c) => Action::KeyPress(c.copy()),
        }
    }
}

/// Preset actions for UI dropdown (ID + display name).
pub fn all_actions() -> (r: Vec<(&'static str, &'static str)>)
    ensures
        r@.len() == preset_actions().len(),
        forall|i: int|
            0 <= i < r@.len() ==> {
                &&& (#[trigger] r@[i]).0@ == action_id(preset_actions()[i])
                &&& r@[i].1@ == action_display_name(preset_actions()[i])
            },
{
    vec![
        ("none", "None"),
        ("leftClick", "Left Click"),
        ("rightClick", "Right Click"),
        ("middleClick", "Middle Click"),
        ("backClick", "Back"),
        ("forwardClick", "Forward"),
        ("doubleLeftClick", "Double Left Click"),
        ("doubleRightClick", "Double Right Click"),
    ]
}

/// Gamepad input sources that can be mapped to actions, with their short
/// labels. D-pad directions are treated as discrete buttons when mapped.
pub open spec fn input_table() -> Seq<(Seq<char>, Seq<char>)> {
    seq![
        ("buttonA"@, "A"@),
        ("buttonB"@, "B"@),
        ("buttonX"@, "X"@),
        ("buttonY"@, "Y"@),
        ("leftShoulder"@, "LB"@),
        ("rightShoulder"@, "RB"@),
        ("leftTrigger"@, "LT"@),
        ("rightTrigger"@, "RT"@),
        ("buttonMenu"@, "Menu"@),
        ("buttonOptions"@, "Options"@),
        ("dpadUp"@, "D-pad Up"@),
        ("dpadDown"@, "D-pad Down"@),
        ("dpadLeft"@, "D-pad Left"@),
        ("dpadRight"@, "D-pad Right"@),
    ]
}

/// The characters of the input IDs.
proof fn lemma_input_id_chars()
    ensures
        "buttonA"@ =~= seq!['b', 'u', 't', 't', 'o', 'n', 'A'],
        "buttonB"@ =~= seq!['b', 'u', 't', 't', 'o', 'n', 'B'],
        "buttonX"@ =~= seq!['b', 'u', 't', 't', 'o', 'n', 'X'],
        "buttonY"@ =~= seq!['b', 'u', 't', 't', 'o', 'n', 'Y'],
        "leftShoulder"@ =~= seq!['l', 'e', 'f', 't', 'S', 'h', 'o', 'u', 'l', 'd', 'e', 'r'],
        "rightShoulder"@ =~= seq!['r', 'i', 'g', 'h', 't', 'S', 'h', 'o', 'u', 'l', 'd', 'e', 'r'],
        "leftTrigger"@ =~= seq!['l', 'e', 'f', 't', 'T', 'r', 'i', 'g', 'g', 'e', 'r'],
        "rightTrigger"@ =~= seq!['r', 'i', 'g', 'h', 't', 'T', 'r', 'i', 'g', 'g', 'e', 'r'],
        "buttonMenu"@ =~= seq!['b', 'u', 't', 't', 'o', 'n', 'M', 'e', 'n', 'u'],
        "buttonOptions"@ =~= seq!['b', 'u', 't', 't', 'o', 'n', 'O', 'p', 't', 'i', 'o', 'n', 's'],
        "dpadUp"@ =~= seq!['d', 'p', 'a', 'd', 'U', 'p'],
        "dpadDown"@ =~= seq!['d', 'p', 'a', 'd', 'D', 'o', 'w', 'n'],
        "dpadLeft"@ =~= seq!['d', 'p', 'a', 'd', 'L', 'e', 'f', 't'],
        "dpadRight"@ =~= seq!['d', 'p', 'a', 'd', 'R', 'i', 'g', 'h', 't'],
{
    reveal_strlit("buttonA");
    reveal_strlit("buttonB");
    reveal_strlit("buttonX");
    reveal_strlit("buttonY");
    reveal_strlit("leftShoulder");
    reveal_strlit("rightShoulder");
    reveal_strlit("leftTrigger");
    reveal_strlit("rightTrigger");
    reveal_strlit("buttonMenu");
    reveal_strlit("buttonOptions");
    reveal_strlit("dpadUp");
    reveal_strlit("dpadDown");
    reveal_strlit("dpadLeft");
    reveal_strlit("dpadRight");
}

/// The ID of the input at position `i`.
proof fn lemma_input_id(i: int)
    requires
        0 <= i < 14,
    ensures
        input_table()[i].0 == (if i == 0 {
            "buttonA"@
        } else if i == 1 {
            "buttonB"@
        } else if i == 2 {
            "buttonX"@
        } else if i == 3 {
            "buttonY"@
        } else if i == 4 {
            "leftShoulder"@
        } else if i == 5 {
            "rightShoulder"@
        } else if i == 6 {
            "leftTrigger"@
        } else if i == 7 {
            "rightTrigger"@
        } else if i == 8 {
            "buttonMenu"@
        } else if i == 9 {
            "buttonOptions"@
        } else if i == 10 {
            "dpadUp"@
        } else if i == 11 {
            "dpadDown"@
        } else if i == 12 {
            "dpadLeft"@
        } else {
            "dpadRight"@
        }),
{
}

/// The input IDs are pairwise distinct.
pub proof fn lemma_input_ids_distinct()
    ensures
        forall|i: int, j: int|
            0 <= i < input_table().len() && 0 <= j < input_table().len() && i != j
                ==> input_table()[i].0 != input_table()[j].0,
{
    lemma_input_id_chars();
    assert forall|i: int, j: int|
        0 <= i < input_table().len() && 0 <= j < input_table().len() && i != j implies input_table()[i].0
        != input_table()[j].0 by {
        lemma_input_id(i);
        lemma_input_id(j);
        let a = input_table()[i].0;
        let b = input_table()[j].0;
        if a.len() == b.len() {
            if a.len() == 7 {
                assert(a[6] != b[6]);
            } else if a.len() == 8 {
                assert(a[4] != b[4]);
            } else {
                assert(a[0] != b[0]);
            }
        }
    }
}

/// Gamepad input sources that can be mapped to actions (ID + label).
/// D-pad directions are treated as discrete buttons when mapped.
pub fn all_inputs() -> (r: Vec<(&'static str, &'static str)>)
    ensures
        r@.len() == input_table().len(),
        forall|i: int|
            0 <= i < r@.len() ==> (#[trigger] r@[i]).0@ == input_table()[i].0 && r@[i].1@
                == input_table()[i].1,
{
    vec![
        ("buttonA", "A"),
        ("buttonB", "B"),
        ("buttonX", "X"),
        ("buttonY", "Y"),
        ("leftShoulder", "LB"),
        ("rightShoulder", "RB"),
        ("leftTrigger", "LT"),
        ("rightTrigger", "RT"),
        ("buttonMenu", "Menu"),
        ("buttonOptions", "Options"),
        ("dpadUp", "D-pad Up"),
        ("dpadDown", "D-pad Down"),
        ("dpadLeft", "D-pad Left"),
        ("dpadRight", "D-pad Right"),
    ]
}

/// Law: the arrow keys' macOS virtual keycodes are named by their arrows:
/// 0x7B left, 0x7C right, 0x7D down, 0x7E up.
pub proof fn lemma_arrow_key_names()
    ensures
        keycode_name_spec(0x7B) == "←"@,
        keycode_name_spec(0x7C) == "→"@,
        keycode_name_spec(0x7D) == "↓"@,
        keycode_name_spec(0x7E) == "↑"@,
{
}

/// Law: one modifier alone is shown as its own symbol.
pub proof fn lemma_modifiers_symbols_single(m: Modifier)
    ensures
        modifiers_symbols(seq![m]) == modifier_symbol(m),
{
    let one = seq![m];
    assert(one.len() == 1);
    assert(one.last() == m);
    assert(one.drop_last() =~= Seq::<Modifier>::empty());
    assert(modifiers_symbols(one.drop_last()) == Seq::<char>::empty());
    assert(Seq::<char>::empty() + modifier_symbol(m) =~= modifier_symbol(m));
}

/// Law: the modifiers of two lists, shown one after the other, are shown as
/// the first list's symbols followed by the second's.
pub proof fn lemma_modifiers_symbols_concat(a: Seq<Modifier>, b: Seq<Modifier>)
    ensures
        modifiers_symbols(a + b) == modifiers_symbols(a) + modifiers_symbols(b),
    decreases b.len(),
{
    if b.len() == 0 {
        assert(a + b =~= a);
        assert(modifiers_symbols(a) + modifiers_symbols(b) =~= modifiers_symbols(a));
    } else {
        lemma_modifiers_symbols_concat(a, b.drop_last());
        assert((a + b).drop_last() =~= a + b.drop_last());
        assert((a + b).last() == b.last());
        assert(modifiers_symbols(a) + (modifiers_symbols(b.drop_last()) + modifier_symbol(
            b.last(),
        )) =~= (modifiers_symbols(a) + modifiers_symbols(b.drop_last())) + modifier_symbol(
            b.last(),
        ));
    }
}

/// Law: each modifier is shown as one symbol, so a combo is shown in as many
/// characters as it has modifiers, plus its key name.
pub proof fn lemma_key_combo_display_len(c: KeyComboView)
    ensures
        modifiers_symbols(c.modifiers).len() == c.modifiers.len(),
        key_combo_display(c).len() == c.modifiers.len() + c.key_name.len(),
{
    lemma_modifiers_symbols_len(c.modifiers);
}

proof fn lemma_modifiers_symbols_len(ms: Seq<Modifier>)
    ensures
        modifiers_symbols(ms).len() == ms.len(),
    decreases ms.len(),
{
    reveal_strlit("⌘");
    reveal_strlit("⌃");
    reveal_strlit("⌥");
    reveal_strlit("⇧");
    if ms.len() > 0 {
        lemma_modifiers_symbols_len(ms.drop_last());
    }
}

} // verus!
