//! Values kept by address.
use vstd::prelude::*;

use crate::order::views;

verus! {

/// A value under the address that owns it.
pub struct Keyed<T> {
    pub address: Seq<char>,
    pub value: T,
}

/// The position of the first value under `address`, if there is one.
pub open spec fn position<T>(table: Seq<Keyed<T>>, address: Seq<char>) -> Option<int>
    decreases table.len(),
{
    if table.len() == 0 {
        None
    } else {
        match position(table.drop_last(), address) {
            Some(i) => Some(i),
            None => if table.last().address == address {
                Some(table.len() - 1)
            } else {
                None
            },
        }
    }
}

/// The value under `address`, if there is one.
pub open spec fn value_of<T>(table: Seq<Keyed<T>>, address: Seq<char>) -> Option<T> {
    match position(table, address) {
        Some(i) => Some(table[i].value),
        None => None,
    }
}

/// The table with `value` under `address`: in place of the value that was
/// there, or at the end where there was none.
pub open spec fn with_value<T>(table: Seq<Keyed<T>>, address: Seq<char>, value: T) -> Seq<Keyed<T>> {
    match position(table, address) {
        Some(i) => table.update(i, Keyed { address, value }),
        None => table.push(Keyed { address, value }),
    }
}

/// The addresses of a table, in its order.
pub open spec fn addresses_of<T>(table: Seq<Keyed<T>>) -> Seq<Seq<char>> {
    Seq::new(table.len(), |i: int| table[i].address)
}

/// What `position` finds is the first value under the address, and it finds
/// one wherever there is one.
pub proof fn lemma_position<T>(table: Seq<Keyed<T>>, address: Seq<char>)
    ensures
        match position(table, address) {
            Some(i) => {
                &&& 0 <= i < table.len()
                &&& table[i].address == address
                &&& forall|j: int| 0 <= j < i ==> table[j].address != address
            },
            None => forall|j: int| 0 <= j < table.len() ==> table[j].address != address,
        },
    decreases table.len(),
{
    if table.len() > 0 {
        let front = table.drop_last();
        lemma_position(front, address);
        assert(forall|j: int| 0 <= j < front.len() ==> front[j] == table[j]);
        match position(front, address) {
            Some(i) => {
                assert(front[i] == table[i]);
            },
            None => {
                assert forall|j: int| 0 <= j < table.len() - 1 implies table[j].address
                    != address by {
                    assert(front[j] == table[j]);
                }
            },
        }
    }
}

/// One slot of a table.
pub struct Slot<T> {
    pub address: String,
    pub value: T,
}

/// Values kept by address, in the order in which the addresses came.
pub struct Table<T> {
    slots: Vec<Slot<T>>,
}

impl<T> View for Table<T> {
    type V = Seq<Keyed<T>>;

    closed spec fn view(&self) -> Seq<Keyed<T>> {
        Seq::new(
            self.slots@.len(),
            |i: int| Keyed { address: self.slots@[i].address@, value: self.slots@[i].value },
        )
    }
}

impl<T> Table<T> {
    pub fn new() -> (r: Self)
        ensures
            r@ == Seq::<Keyed<T>>::empty(),
    {
        let r = Table { slots: Vec::new() };
        assert(r@ =~= Seq::<Keyed<T>>::empty());
        r
    }

    pub fn len(&self) -> (r: usize)
        ensures
            r == self@.len(),
    {
        self.slots.len()
    }

    /// The addresses, in the order of the table.
    pub fn addresses(&self) -> (r: Vec<&String>)
        ensures
            views(r@) == addresses_of(self@),
    {
        let mut found: Vec<&String> = Vec::new();
        let mut k: usize = 0;
        while k < self.slots.len()
            invariant
                k <= self.slots@.len(),
                found@.len() == k,
                forall|j: int| 0 <= j < k ==> (#[trigger] found@[j])@ == self@[j].address,
            decreases self.slots@.len() - k,
        {
            found.push(&self.slots[k].address);
            k += 1;
        }
        assert(views(found@) =~= addresses_of(self@));
        found
    }

    /// The position of the value under `address`.
    pub fn find(&self, address: &String) -> (r: Option<usize>)
        ensures
            match r {
                Some(i) => position(self@, address@) == Some(i as int) && i < self@.len(),
                None => position(self@, address@) is None,
            },
    {
        let mut k: usize = 0;
        while k < self.slots.len()
            invariant
                k <= self.slots@.len(),
                forall|j: int| 0 <= j < k ==> self@[j].address != address@,
            decreases self.slots@.len() - k,
        {
            if self.slots[k].address == *address {
                proof {
                    lemma_position(self@, address@);
                    assert(self@[k as int].address == address@);
                }
                return Some(k);
            }
            k += 1;
        }
        proof {
            lemma_position(self@, address@);
        }
        None
    }

    /// The value at a position.
    pub fn get(&self, i: usize) -> (r: &T)
        requires
            i < self@.len(),
        ensures
            *r == self@[i as int].value,
    {
        &self.slots[i].value
    }

    /// The address at a position.
    pub fn address_at(&self, i: usize) -> (r: &String)
        requires
            i < self@.len(),
        ensures
            r@ == self@[i as int].address,
    {
        &self.slots[i].address
    }

    /// The value at a position, to be changed in place.
    pub fn get_mut(&mut self, i: usize) -> (r: &mut T)
        requires
            i < old(self)@.len(),
        ensures
            *r == old(self)@[i as int].value,
            final(self)@ == old(self)@.update(
                i as int,
                Keyed { address: old(self)@[i as int].address, value: *final(r) },
            ),
    {
        &mut self.slots[i].value
    }

    /// Writes the value at a position.
    pub fn set(&mut self, i: usize, value: T)
        requires
            i < old(self)@.len(),
        ensures
            final(self)@ == old(self)@.update(
                i as int,
                Keyed { address: old(self)@[i as int].address, value },
            ),
    {
        self.slots[i].value = value;
        assert(self@ =~= old(self)@.update(
            i as int,
            Keyed { address: old(self)@[i as int].address, value },
        ));
    }

    /// Adds a value at the end.
    pub fn push(&mut self, address: String, value: T)
        ensures
            final(self)@ == old(self)@.push(Keyed { address: address@, value }),
    {
        self.slots.push(Slot { address, value });
        assert(self@ =~= old(self)@.push(Keyed { address: address@, value }));
    }

    /// Takes the value at a position out; those behind it move up.
    pub fn remove(&mut self, i: usize) -> (r: T)
        requires
            i < old(self)@.len(),
        ensures
            final(self)@ == old(self)@.remove(i as int),
            r == old(self)@[i as int].value,
    {
        let slot = self.slots.remove(i);
        assert(self@ =~= old(self)@.remove(i as int));
        slot.value
    }

    /// Puts `value` under `address`, in place of what was there if anything
    /// was.
    pub fn put(&mut self, address: &String, value: T)
        ensures
            final(self)@ == with_value(old(self)@, address@, value),
    {
        proof {
            lemma_position(self@, address@);
        }
        match self.find(address) {
            Some(i) => {
                self.set(i, value);
            },
            None => {
                self.push(address.clone(), value);
            },
        }
    }
}

} // verus!
