//! The button map of a profile: which action each gamepad input triggers.

use vstd::prelude::*;

use crate::assoc::{
    assoc_map, keys_distinct, lemma_assoc_absent, lemma_assoc_lookup, lemma_assoc_push,
    lemma_assoc_update,
};
use crate::config::{action_from_id_spec, Action, ActionView};
use crate::text::str_eq;

verus! {

/// Maps input name → action (e.g. "buttonA" → `Action::LeftClick`).
/// Each input occurs at most once; the entries keep the order in which
/// their inputs were first inserted.
pub struct ButtonMap {
    entries: Vec<(String, Action)>,
}

/// What an input maps to in the entries `m`, if anything.
pub open spec fn lookup(m: Seq<(Seq<char>, ActionView)>, k: Seq<char>) -> Option<ActionView> {
    if assoc_map(m).contains_key(k) {
        Some(assoc_map(m)[k])
    } else {
        None
    }
}

/// Whether the input `k` maps to an action other than `NoAction`.
pub open spec fn is_mapped_spec(m: Seq<(Seq<char>, ActionView)>, k: Seq<char>) -> bool {
    match lookup(m, k) {
        Some(ActionView::NoAction) => false,
        None => false,
        _ => true,
    }
}

/// The map `m` after setting, in order, each saved input to the action its
/// saved ID names.
pub open spec fn apply_saved_spec(
    m: Map<Seq<char>, ActionView>,
    saved: Seq<(Seq<char>, Seq<char>)>,
) -> Map<Seq<char>, ActionView>
    decreases saved.len(),
{
    if saved.len() == 0 {
        m
    } else {
        apply_saved_spec(m, saved.drop_last()).insert(
            saved.last().0,
            action_from_id_spec(saved.last().1),
        )
    }
}

impl View for ButtonMap {
    type V = Seq<(Seq<char>, ActionView)>;

    closed spec fn view(&self) -> Seq<(Seq<char>, ActionView)> {
        self.entries@.map_values(|e: (String, Action)| (e.0@, e.1@))
    }
}

impl ButtonMap {
    /// No input occurs twice.
    #[verifier::type_invariant]
    pub open spec fn inputs_distinct(&self) -> bool {
        keys_distinct(self@)
    }

    pub fn new() -> (r: Self)
        ensures
            r@ == Seq::<(Seq<char>, ActionView)>::empty(),
    {
        let r = ButtonMap { entries: Vec::new() };
        assert(r@ =~= Seq::<(Seq<char>, ActionView)>::empty());
        r
    }

    /// The number of inputs in the map.
    pub fn len(&self) -> (r: usize)
        ensures
            r == self@.len(),
    {
        self.entries.len()
    }

    /// The input of the `i`-th entry.
    pub fn key_at(&self, i: usize) -> (r: &str)
        requires
            i < self@.len(),
        ensures
            r@ == self@[i as int].0,
    {
        self.entries[i].0.as_str()
    }

    /// The action of the `i`-th entry.
    pub fn action_at(&self, i: usize) -> (r: &Action)
        requires
            i < self@.len(),
        ensures
            r@ == self@[i as int].1,
    {
        &self.entries[i].1
    }

    /// Position of the entry for `key`, if there is one.
    fn position(&self, key: &str) -> (r: Option<usize>)
        ensures
            match r {
                Some(i) => i < self@.len() && self@[i as int].0 == key@,
                None => forall|j: int| 0 <= j < self@.len() ==> self@[j].0 != key@,
            },
    {
        let n = self.entries.len();
        let mut i: usize = 0;
        while i < n
            invariant
                n == self@.len(),
                n == self.entries@.len(),
                i <= n,
                forall|j: int| 0 <= j < i ==> self@[j].0 != key@,
            decreases n - i,
        {
            if str_eq(self.entries[i].0.as_str(), key) {
                return Some(i);
            }
            i += 1;
        }
        None
    }

    /// The action that `key` maps to, if any.
    pub fn get(&self, key: &str) -> (r: Option<&Action>)
        ensures
            match r {
                Some(a) => lookup(self@, key@) == Some(a@),
                None => lookup(self@, key@) is None,
            },
    {
        proof {
            use_type_invariant(self);
        }
        match self.position(key) {
            Some(i) => {
                proof {
                    lemma_assoc_lookup(self@, i as int);
                }
                Some(&self.entries[i].1)
            },
            None => {
                proof {
                    lemma_assoc_absent(self@, key@);
                }
                None
            },
        }
    }

    /// Whether `key` has an entry.
    pub fn contains_key(&self, key: &str) -> (r: bool)
        ensures
            r == assoc_map(self@).contains_key(key@),
    {
        match self.get(key) {
            Some(_) => true,
            None => false,
        }
    }

    /// Whether `key` maps to an action other than `NoAction`.
    pub fn is_mapped(&self, key: &str) -> (r: bool)
        ensures
            r == is_mapped_spec(self@, key@),
    {
        match self.get(key) {
            Some(Action::NoAction) => false,
            None => false,
            _ => true,
        }
    }

    /// Sets the action of `key`: an existing entry keeps its place, a new one
    /// goes last.
    pub fn insert(&mut self, key: String, action: Action)
        ensures
            assoc_map(final(self)@) == assoc_map(old(self)@).insert(key@, action@),
            (exists|i: int|
                0 <= i < old(self)@.len() && old(self)@[i].0 == key@ && final(self)@ == old(
                    self,
                )@.update(i, (key@, action@))) || ((forall|i: int|
                0 <= i < old(self)@.len() ==> old(self)@[i].0 != key@) && final(self)@ == old(
                self,
            )@.push((key@, action@))),
    {
        proof {
            use_type_invariant(&*self);
        }
        let ghost before = self@;
        match self.position(key.as_str()) {
            Some(i) => {
                proof {
                    lemma_assoc_update(before, i as int, action@);
                }
                let ghost kv = (key@, action@);
                let mut entries: Vec<(String, Action)> = Vec::new();
                std::mem::swap(&mut entries, &mut self.entries);
                entries.set(i, (key, action));
                assert(entries@.map_values(|e: (String, Action)| (e.0@, e.1@)) =~= before.update(
                    i as int,
                    kv,
                ));
                assert(keys_distinct(before.update(i as int, kv)));
                self.entries = entries;
                assert(self@ =~= before.update(i as int, kv));
            },
            None => {
                proof {
                    lemma_assoc_push(before, (key@, action@));
                    assert(keys_distinct(before.push((key@, action@))));
                }
                let ghost kv = (key@, action@);
                let mut entries: Vec<(String, Action)> = Vec::new();
                std::mem::swap(&mut entries, &mut self.entries);
                entries.push((key, action));
                assert(entries@.map_values(|e: (String, Action)| (e.0@, e.1@)) =~= before.push(kv));
                self.entries = entries;
                assert(self@ =~= before.push(kv));
            },
        }
    }

    /// Sets each saved input, in order, to the action that its saved ID names
    /// (an unknown ID names `NoAction`).
    pub fn apply_saved(&mut self, saved: &Vec<(String, String)>)
        ensures
            assoc_map(final(self)@) == apply_saved_spec(
                assoc_map(old(self)@),
                saved@.map_values(|e: (String, String)| (e.0@, e.1@)),
            ),
    {
        let ghost start = assoc_map(self@);
        let ghost sv = saved@.map_values(|e: (String, String)| (e.0@, e.1@));
        let n = saved.len();
        let mut i: usize = 0;
        while i < n
            invariant
                n == saved@.len(),
                i <= n,
                sv == saved@.map_values(|e: (String, String)| (e.0@, e.1@)),
                assoc_map(self@) == apply_saved_spec(start, sv.take(i as int)),
            decreases n - i,
        {
            let input = saved[i].0.clone();
            let action = Action::from_id(saved[i].1.as_str());
            self.insert(input, action);
            proof {
                let t = sv.take(i as int + 1);
                assert(t.drop_last() =~= sv.take(i as int));
                assert(t.last() == sv[i as int]);
            }
            i += 1;
        }
        proof {
            assert(sv.take(n as int) =~= sv);
        }
    }
}

/// Law: an input is mapped exactly when it has an entry and that entry's
/// action is not `NoAction`; an input without an entry is not mapped.
pub proof fn lemma_is_mapped_meaning(m: Seq<(Seq<char>, ActionView)>, k: Seq<char>)
    ensures
        is_mapped_spec(m, k) <==> (assoc_map(m).contains_key(k) && assoc_map(m)[k]
            != ActionView::NoAction),
        !assoc_map(m).contains_key(k) ==> !is_mapped_spec(m, k),
{
}

} // verus!
