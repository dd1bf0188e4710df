//! A list with a cursor that wraps around, and a map with a selected key.

use std::collections::HashMap;
use std::hash::Hash;
use vstd::arithmetic::div_mod::{
    lemma_fundamental_div_mod, lemma_fundamental_div_mod_converse, lemma_mod_bound,
};
use vstd::prelude::*;
use vstd::std_specs::hash::obeys_key_model;

verus! {

broadcast use vstd::std_specs::hash::group_hash_axioms;

/// The cursor after one step forward in a list of `len` elements.
pub open spec fn next_index(index: nat, len: nat) -> nat {
    if index + 1 >= len {
        0
    } else {
        index + 1
    }
}

/// The cursor after one step back in a list of `len` elements. In a list
/// without elements the cursor stays where it is.
pub open spec fn previous_index(index: nat, len: nat) -> nat {
    if len == 0 {
        index
    } else if index == 0 {
        (len - 1) as nat
    } else {
        (index - 1) as nat
    }
}

/// The cursor after `steps` steps forward in a list of `len` elements.
pub open spec fn advance(index: nat, len: nat, steps: nat) -> nat
    decreases steps,
{
    if steps == 0 {
        index
    } else {
        next_index(advance(index, len, (steps - 1) as nat), len)
    }
}

/// A list with a cursor on one of its elements. The cursor wraps around at
/// both ends.
pub struct CyclicList<T> {
    elements: Vec<T>,
    currently_selected: usize,
}

impl<T> CyclicList<T> {
    #[verifier::type_invariant]
    spec fn cursor_in_range(self) -> bool {
        self.currently_selected < self.elements@.len() || self.currently_selected == 0
    }

    /// The elements, in their order.
    pub closed spec fn elements(self) -> Seq<T> {
        self.elements@
    }

    /// The position of the cursor.
    pub closed spec fn index(self) -> nat {
        self.currently_selected as nat
    }

    /// The element under the cursor, if the list has any.
    pub open spec fn selected(self) -> Option<T> {
        if self.index() < self.elements().len() {
            Some(self.elements()[self.index() as int])
        } else {
            None
        }
    }

    pub fn new(elements: Vec<T>) -> (list: Self)
        ensures
            list.elements() == elements@,
            list.index() == 0,
    {
        Self { elements, currently_selected: 0 }
    }

    pub fn move_next(&mut self)
        ensures
            final(self).elements() == old(self).elements(),
            final(self).index() == next_index(old(self).index(), old(self).elements().len()),
    {
        proof {
            use_type_invariant(&*self);
        }
        if self.elements.len() == 0 || self.currently_selected >= self.elements.len() - 1 {
            self.currently_selected = 0;
        } else {
            self.currently_selected += 1;
        }
    }

    pub fn move_previous(&mut self)
        ensures
            final(self).elements() == old(self).elements(),
            final(self).index() == previous_index(old(self).index(), old(self).elements().len()),
    {
        proof {
            use_type_invariant(&*self);
        }
        if self.elements.len() == 0 {
        } else if self.currently_selected == 0 {
            self.currently_selected = self.elements.len() - 1;
        } else {
            self.currently_selected -= 1;
        }
    }

    pub fn current(&self) -> (element: Option<&T>)
        ensures
            element == match self.selected() {
                Some(e) => Some(&e),
                None => None,
            },
            self.elements().len() > 0 ==> self.index() < self.elements().len(),
    {
        proof {
            use_type_invariant(self);
        }
        if self.currently_selected < self.elements.len() {
            Some(&self.elements[self.currently_selected])
        } else {
            None
        }
    }

    pub fn reset(&mut self)
        ensures
            final(self).elements() == old(self).elements(),
            final(self).index() == 0,
    {
        self.currently_selected = 0;
    }

    /// The first element, if the list has any.
    pub fn first(&self) -> (element: Option<&T>)
        ensures
            element == if self.elements().len() > 0 {
                Some(&self.elements()[0])
            } else {
                None
            },
    {
        if self.elements.len() > 0 {
            Some(&self.elements[0])
        } else {
            None
        }
    }
}

/// A step forward and then a step back ends where it began, and so does a
/// step back and then a step forward.
pub proof fn lemma_next_and_previous_cancel(index: nat, len: nat)
    requires
        index < len,
    ensures
        previous_index(next_index(index, len), len) == index,
        next_index(previous_index(index, len), len) == index,
{
}

/// `steps` steps forward from a cursor in range move it by `steps`, modulo
/// the length.
pub proof fn lemma_advance_is_modular(index: nat, len: nat, steps: nat)
    requires
        index < len,
    ensures
        advance(index, len, steps) == (index as int + steps as int) % (len as int),
    decreases steps,
{
    let i = index as int;
    let n = len as int;
    let k = steps as int;
    if steps == 0 {
        assert(i % n == i) by (nonlinear_arith)
            requires
                0 <= i < n,
        ;
    } else {
        lemma_advance_is_modular(index, len, (steps - 1) as nat);
        let x = i + k - 1;
        let q = x / n;
        let r = x % n;
        lemma_fundamental_div_mod(x, n);
        lemma_mod_bound(x, n);
        assert(x == q * n + r) by (nonlinear_arith)
            requires
                x == n * q + r,
        ;
        if r + 1 < n {
            lemma_fundamental_div_mod_converse(x + 1, n, q, r + 1);
        } else {
            assert(x + 1 == (q + 1) * n + 0) by (nonlinear_arith)
                requires
                    x == q * n + r,
                    r + 1 == n,
            ;
            lemma_fundamental_div_mod_converse(x + 1, n, q + 1, 0);
        }
    }
}

/// As many steps forward as the list has elements end where they began.
pub proof fn lemma_full_cycle_returns(index: nat, len: nat)
    requires
        index < len,
    ensures
        advance(index, len, len) == index,
{
    lemma_advance_is_modular(index, len, len);
    let i = index as int;
    let n = len as int;
    assert((i + n) % n == i) by (nonlinear_arith)
        requires
            0 <= i < n,
    ;
}

/// Calls `std::collections::HashMap::get_mut`: the slot of `key`, if the map
/// has one. What is written through the slot is the key's new value, and no
/// other entry changes.
#[verifier::external_body]
fn slot_of<'a, K: Eq + Hash, V>(map: &'a mut HashMap<K, V>, key: &K) -> (slot: Option<&'a mut V>)
    ensures
        obeys_key_model::<K>() ==> match slot {
            Some(v) => old(map)@.contains_key(*key) && *v == old(map)@[*key] && final(map)@ == old(map)@.insert(*key, *final(v)),
            None => !old(map)@.contains_key(*key) && final(map)@ == old(map)@,
        },
{
    map.get_mut(key)
}

/// A map with one selected key, and a default key to go back to.
pub struct SelectableHashMap<K: Eq + PartialEq + Hash, V> {
    contents: HashMap<K, V>,
    current: K,
    default: K,
}

impl<K: Eq + PartialEq + Hash + Copy, V> SelectableHashMap<K, V> {
    /// The entries.
    pub closed spec fn contents(self) -> Map<K, V> {
        self.contents@
    }

    /// The selected key.
    pub closed spec fn current(self) -> K {
        self.current
    }

    /// The key that `reset` selects.
    pub closed spec fn default_key(self) -> K {
        self.default
    }

    /// Create a new selectable hash map using a key as the default selected element
    pub fn new(selected: K, contents: HashMap<K, V>) -> (map: Self)
        ensures
            map.contents() == contents@,
            map.current() == selected,
            map.default_key() == selected,
    {
        Self { contents, current: selected, default: selected }
    }

    /// The selected key.
    pub fn current_key(&self) -> (key: K)
        ensures
            key == self.current(),
    {
        self.current
    }

    pub fn get_current(&self) -> (value: Option<&V>)
        ensures
            obeys_key_model::<K>() ==> value == match self.contents().get(self.current()) {
                Some(v) => Some(&v),
                None => None,
            },
    {
        self.contents.get(&self.current)
    }

    pub fn get_current_mut(&mut self) -> (value: Option<&mut V>)
        ensures
            final(self).current() == old(self).current(),
            final(self).default_key() == old(self).default_key(),
            obeys_key_model::<K>() ==> match value {
                Some(v) => old(self).contents().contains_key(old(self).current()) && *v == old(self).contents()[old(self).current()] && final(self).contents() == old(self).contents().insert(old(self).current(), *final(v)),
                None => !old(self).contents().contains_key(old(self).current()) && final(self).contents() == old(self).contents(),
            },
    {
        slot_of(&mut self.contents, &self.current)
    }

    pub fn set_current(&mut self, key: K)
        ensures
            final(self).contents() == old(self).contents(),
            final(self).default_key() == old(self).default_key(),
            final(self).current() == key,
    {
        self.current = key;
    }

    pub fn get(&self, key: &K) -> (value: Option<&V>)
        ensures
            obeys_key_model::<K>() ==> value == match self.contents().get(*key) {
                Some(v) => Some(&v),
                None => None,
            },
    {
        self.contents.get(key)
    }

    pub fn get_mut(&mut self, key: &K) -> (value: Option<&mut V>)
        ensures
            final(self).current() == old(self).current(),
            final(self).default_key() == old(self).default_key(),
            obeys_key_model::<K>() ==> match value {
                Some(v) => old(self).contents().contains_key(*key) && *v == old(self).contents()[*key] && final(self).contents() == old(self).contents().insert(
                    *key,
                    *final(v),
                ),
                None => !old(self).contents().contains_key(*key) && final(self).contents() == old(self).contents(),
            },
    {
        slot_of(&mut self.contents, key)
    }

    /// Sets the currently selected element to the default one
    /// provided during creation
    pub fn reset(&mut self)
        ensures
            final(self).contents() == old(self).contents(),
            final(self).default_key() == old(self).default_key(),
            final(self).current() == old(self).default_key(),
    {
        self.current = self.default
    }
}

} // verus!
