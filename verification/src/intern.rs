//! The identity layer: structurally deduplicated values behind small handles.

use vstd::prelude::*;

verus! {

/// Raw handles are below this bound; it is `salsa::InternId::MAX`.
pub const INTERN_ID_MAX: u32 = 0xFFFF_FF00;

/// A value that can be interned: it can be compared with another and copied,
/// both by its view.
pub trait Intern: View + Sized {
    fn same(&self, other: &Self) -> (b: bool)
        ensures
            b == (self@ == other@),
    ;

    fn duplicate(&self) -> (copy: Self)
        ensures
            copy@ == self@,
    ;
}

/// Makes the raw handle for a position in an interner's table with
/// `salsa::InternId::from(usize)` and reads its number with
/// `InternId::as_u32`. The contract claims that below `InternId::MAX` the
/// number read is the position given; at or above it salsa panics.
#[verifier::external_body]
fn raw_id_of_index(index: usize) -> (raw: u32)
    requires
        index < INTERN_ID_MAX,
    ensures
        raw == index,
{
    salsa::InternId::from(index).as_u32()
}

/// Turns a raw handle back into a position with
/// `salsa::InternId::from(u32)` and `InternId::as_usize`. The contract
/// claims that below `InternId::MAX` the position is the number given; at or
/// above it salsa panics.
#[verifier::external_body]
fn index_of_raw_id(raw: u32) -> (index: usize)
    requires
        raw < INTERN_ID_MAX,
    ensures
        index == raw,
{
    salsa::InternId::from(raw).as_usize()
}

/// The views of a list of values.
pub open spec fn views_of<T: View>(values: Seq<T>) -> Seq<T::V> {
    values.map_values(|v: T| v@)
}

/// A table of distinct values. The handle of a value is its position.
pub struct Interner<T: Intern> {
    values: Vec<T>,
}

impl<T: Intern> View for Interner<T> {
    type V = Seq<T::V>;

    closed spec fn view(&self) -> Seq<T::V> {
        views_of(self.values@)
    }
}

/// Whether no value stands at two positions.
pub open spec fn distinct<V>(table: Seq<V>) -> bool {
    forall|i: int, j: int|
        0 <= i < table.len() && 0 <= j < table.len() && #[trigger] table[i] == #[trigger] table[j]
            ==> i == j
}

/// What interning `item` makes of a table.
pub open spec fn interned<V>(table: Seq<V>, item: V) -> Seq<V> {
    if table.contains(item) {
        table
    } else {
        table.push(item)
    }
}

/// Interning keeps what is there, at its place, and keeps the values distinct.
pub proof fn lemma_interned<V>(table: Seq<V>, item: V)
    requires
        distinct(table),
    ensures
        distinct(interned(table, item)),
        interned(table, item).contains(item),
        table.len() <= interned(table, item).len() <= table.len() + 1,
        forall|i: int| 0 <= i < table.len() ==> interned(table, item)[i] == table[i],
{
    let after = interned(table, item);
    if !table.contains(item) {
        assert(after[table.len() as int] == item);
        assert forall|i: int, j: int|
            0 <= i < after.len() && 0 <= j < after.len() && #[trigger] after[i]
                == #[trigger] after[j] implies i == j by {
            if i < table.len() && j < table.len() {
                assert(table[i] == table[j]);
            } else if i < table.len() {
                assert(table[i] == item);
            } else if j < table.len() {
                assert(table[j] == item);
            }
        }
    }
}

/// Two handles are equal exactly if the values they stand for are equal.
pub proof fn lemma_handles_equal_iff_values_equal<V>(table: Seq<V>, a: int, b: int)
    requires
        distinct(table),
        0 <= a < table.len(),
        0 <= b < table.len(),
    ensures
        a == b <==> table[a] == table[b],
{
}

/// Interning a value twice yields one handle, and the second time adds
/// nothing.
pub proof fn lemma_intern_twice<V>(table: Seq<V>, item: V)
    requires
        distinct(table),
    ensures
        interned(interned(table, item), item) == interned(table, item),
{
    lemma_interned(table, item);
}

impl<T: Intern> Interner<T> {
    /// The table holds no value twice, and every position has a raw handle.
    pub open spec fn wf(&self) -> bool {
        &&& distinct(self@)
        &&& self@.len() <= INTERN_ID_MAX
    }

    /// Whether `item` can be interned: it is there already, or a handle is
    /// left for it.
    pub open spec fn has_room_for(&self, item: T::V) -> bool {
        self@.contains(item) || self@.len() < INTERN_ID_MAX
    }

    pub fn new() -> (table: Self)
        ensures
            table.wf(),
            table@ == Seq::<T::V>::empty(),
    {
        let table = Interner { values: Vec::new() };
        assert(table@ =~= Seq::empty());
        table
    }

    pub fn len(&self) -> (n: usize)
        ensures
            n == self@.len(),
    {
        self.values.len()
    }

    /// The handle of a value equal to `item`, if the table has one.
    pub fn find(&self, item: &T) -> (found: Option<u32>)
        requires
            self.wf(),
        ensures
            match found {
                Some(id) => id < self@.len() && self@[id as int] == item@,
                None => !self@.contains(item@),
            },
    {
        let mut i: usize = 0;
        while i < self.values.len()
            invariant
                self.wf(),
                i <= self.values.len(),
                forall|j: int| 0 <= j < i ==> #[trigger] self@[j] != item@,
            decreases self.values.len() - i,
        {
            if self.values[i].same(item) {
                return Some(raw_id_of_index(i));
            }
            i += 1;
        }
        None
    }

    /// The handle of `item`: that of the equal value interned before, or a
    /// fresh one, the next in line.
    pub fn intern(&mut self, item: T) -> (id: u32)
        requires
            old(self).wf(),
            old(self).has_room_for(item@),
        ensures
            final(self).wf(),
            final(self)@ == interned(old(self)@, item@),
            id < final(self)@.len(),
            final(self)@[id as int] == item@,
            !old(self)@.contains(item@) ==> id == old(self)@.len(),
            forall|i: int|
                0 <= i < old(self)@.len() && #[trigger] old(self)@[i] == item@ ==> id == i,
            forall|i: int|
                0 <= i < old(self)@.len() ==> final(self)@[i] == #[trigger] old(self)@[i],
    {
        proof {
            lemma_interned(self@, item@);
        }
        match self.find(&item) {
            Some(id) => id,
            None => {
                let id = raw_id_of_index(self.values.len());
                self.values.push(item);
                assert(self@ =~= old(self)@.push(item@));
                id
            },
        }
    }

    /// As `intern`, but says `None` and changes nothing where no handle is
    /// left for a new value.
    pub fn try_intern(&mut self, item: T) -> (res: Option<u32>)
        requires
            old(self).wf(),
        ensures
            final(self).wf(),
            match res {
                Some(id) => {
                    &&& old(self).has_room_for(item@)
                    &&& final(self)@ == interned(old(self)@, item@)
                    &&& id < final(self)@.len()
                    &&& final(self)@[id as int] == item@
                    &&& !old(self)@.contains(item@) ==> id == old(self)@.len()
                    &&& forall|i: int|
                        0 <= i < old(self)@.len() && #[trigger] old(self)@[i] == item@ ==> id == i
                    &&& forall|i: int|
                        0 <= i < old(self)@.len() ==> final(self)@[i] == #[trigger] old(self)@[i]
                },
                None => !old(self).has_room_for(item@) && final(self)@ == old(self)@,
            },
    {
        match self.find(&item) {
            Some(id) => {
                proof {
                    lemma_interned(self@, item@);
                }
                Some(id)
            },
            None => {
                if self.values.len() < INTERN_ID_MAX as usize {
                    Some(self.intern(item))
                } else {
                    None
                }
            },
        }
    }

    /// The value behind a handle.
    pub fn get(&self, id: u32) -> (item: &T)
        requires
            self.wf(),
            id < self@.len(),
        ensures
            item@ == self@[id as int],
    {
        &self.values[index_of_raw_id(id)]
    }

    /// A copy of the value behind a handle.
    pub fn lookup(&self, id: u32) -> (item: T)
        requires
            self.wf(),
            id < self@.len(),
        ensures
            item@ == self@[id as int],
    {
        self.get(id).duplicate()
    }
}

} // verus!
