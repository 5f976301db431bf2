//! A table with one slot per label selector, filled as selectors appear.

use vstd::prelude::*;
use vstd::string::StringExecFns;

verus! {

/// Values of `T` kept by key, in the order in which the keys appeared.
#[derive(Debug)]
pub struct LabelMap<T> {
    keys: Vec<String>,
    slots: Vec<T>,
}

/// The place of `key` among `keys`, or their number where it is not among
/// them.
pub open spec fn position_of(keys: Seq<Seq<char>>, key: Seq<char>) -> int
    decreases keys.len(),
{
    if keys.len() == 0 {
        0
    } else if keys[0] == key {
        0
    } else {
        1 + position_of(keys.drop_first(), key)
    }
}

/// The place that `position_of` gives is the first at which `key` stands.
pub proof fn lemma_position_of(keys: Seq<Seq<char>>, key: Seq<char>)
    ensures
        0 <= position_of(keys, key) <= keys.len(),
        position_of(keys, key) < keys.len() ==> keys[position_of(keys, key)] == key,
        forall|i: int| 0 <= i < position_of(keys, key) ==> keys[i] != key,
    decreases keys.len(),
{
    if keys.len() > 0 && keys[0] != key {
        let rest = keys.drop_first();
        lemma_position_of(rest, key);
        assert forall|i: int| 0 <= i < position_of(keys, key) implies keys[i] != key by {
            if i > 0 {
                assert(keys[i] == rest[i - 1]);
            }
        }
    }
}

impl<T> LabelMap<T> {
    /// The keys, in the order in which they appeared.
    pub closed spec fn keys(&self) -> Seq<Seq<char>> {
        Seq::new(self.keys@.len(), |i: int| self.keys@[i]@)
    }

    /// The values, each at the place of its key.
    pub closed spec fn slots(&self) -> Seq<T> {
        self.slots@
    }

    /// Every key has its value, and no key stands twice.
    pub open spec fn wf(&self) -> bool {
        &&& self.keys().len() == self.slots().len()
        &&& forall|i: int, j: int|
            0 <= i < j < self.keys().len() ==> self.keys()[i] != self.keys()[j]
    }

    /// Whether a value is kept for `key`.
    pub open spec fn contains_key(&self, key: Seq<char>) -> bool {
        position_of(self.keys(), key) < self.keys().len()
    }

    /// An empty table.
    pub fn new() -> (table: LabelMap<T>)
        ensures
            table.wf(),
            table.keys() == Seq::<Seq<char>>::empty(),
            table.slots() == Seq::<T>::empty(),
    {
        let table = LabelMap { keys: Vec::new(), slots: Vec::new() };
        assert(table.keys() =~= Seq::<Seq<char>>::empty());
        table
    }

    /// The place of `key` among the keys, or their number where it is not
    /// among them.
    fn find(&self, key: &str) -> (place: usize)
        requires
            self.wf(),
        ensures
            place == position_of(self.keys(), key@),
            place <= self.keys().len(),
    {
        let wanted = String::from_str(key);
        let mut i: usize = 0;
        proof {
            lemma_position_of(self.keys(), key@);
        }
        while i < self.keys.len()
            invariant
                i <= self.keys@.len(),
                wanted@ == key@,
                forall|j: int| 0 <= j < i ==> self.keys()[j] != key@,
                0 <= position_of(self.keys(), key@) <= self.keys().len(),
                position_of(self.keys(), key@) < self.keys().len() ==> self.keys()[position_of(
                    self.keys(),
                    key@,
                )] == key@,
                forall|j: int| 0 <= j < position_of(self.keys(), key@) ==> self.keys()[j] != key@,
            decreases self.keys@.len() - i,
        {
            if self.keys[i] == wanted {
                assert(self.keys()[i as int] == key@);
                return i;
            }
            i += 1;
        }
        i
    }

    /// The value kept for `key`, for changing it in place. Where none is
    /// kept yet, `builder` is asked for one, which is kept from now on.
    pub fn get_or_insert<F: FnOnce() -> T>(&mut self, key: &str, builder: F) -> (value: &mut T)
        requires
            old(self).wf(),
            builder.requires(()),
        ensures
            final(self).wf(),
            old(self).contains_key(key@) ==> {
                &&& *value == old(self).slots()[position_of(old(self).keys(), key@)]
                &&& final(self).keys() == old(self).keys()
                &&& final(self).slots() == old(self).slots().update(
                    position_of(old(self).keys(), key@),
                    *final(value),
                )
            },
            !old(self).contains_key(key@) ==> {
                &&& builder.ensures((), *value)
                &&& final(self).keys() == old(self).keys().push(key@)
                &&& final(self).slots() == old(self).slots().push(*final(value))
            },
    {
        let place = self.find(key);
        if place == self.keys.len() {
            proof {
                lemma_position_of(self.keys(), key@);
            }
            self.keys.push(String::from_str(key));
            self.slots.push(builder());
            assert(self.keys() =~= old(self).keys().push(key@));
        }
        &mut self.slots[place]
    }

    /// The value kept for `key`, if there is one.
    pub fn get(&self, key: &str) -> (value: Option<&T>)
        requires
            self.wf(),
        ensures
            value.is_some() == self.contains_key(key@),
            value matches Some(found) ==> *found == self.slots()[position_of(self.keys(), key@)],
    {
        let place = self.find(key);
        if place < self.keys.len() {
            Some(&self.slots[place])
        } else {
            None
        }
    }

    /// The values, in the order in which their keys appeared.
    pub fn values(&self) -> (values: &[T])
        ensures
            values@ == self.slots(),
    {
        self.slots.as_slice()
    }

    /// The values, for changing them in place.
    pub fn values_mut(&mut self) -> (values: &mut [T])
        ensures
            values@ == old(self).slots(),
            final(self).slots() == final(values)@,
            final(self).keys() == old(self).keys(),
            old(self).wf() && final(values)@.len() == values@.len() ==> final(self).wf(),
    {
        self.slots.as_mut_slice()
    }
}

} // verus!
