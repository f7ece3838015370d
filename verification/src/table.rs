//! Tables that number their entries in the order in which they first came.

use vstd::prelude::*;

use crate::error::NuccError;
use crate::maps::text_index_contents;
use crate::maps::TextIndex;
use crate::nucc::views;

verus! {

/// The first position at which `item` stands in `items`, if it stands
/// there at all.
pub open spec fn spec_position<K>(items: Seq<K>, item: K) -> Option<int>
    decreases items.len(),
{
    if items.len() == 0 {
        None
    } else {
        match spec_position(items.drop_last(), item) {
            Some(i) => Some(i),
            None => if items.last() == item {
                Some(items.len() - 1)
            } else {
                None
            },
        }
    }
}

/// `spec_position` gives the first position of the item, and `None` only
/// for an item that stands nowhere.
pub proof fn lemma_position<K>(items: Seq<K>, item: K)
    ensures
        spec_position(items, item) matches Some(i) ==> 0 <= i < items.len() && items[i] == item
            && forall|j: int| 0 <= j < i ==> items[j] != item,
        spec_position(items, item) is None ==> forall|j: int|
            0 <= j < items.len() ==> items[j] != item,
    decreases items.len(),
{
    if items.len() > 0 {
        lemma_position(items.drop_last(), item);
        assert forall|j: int| 0 <= j < items.len() - 1 implies items[j] == items.drop_last()[j] by {}
    }
}

/// Whether nothing stands twice in `items`.
pub open spec fn spec_no_duplicates<K>(items: Seq<K>) -> bool {
    forall|i: int, j: int| 0 <= i < j < items.len() ==> items[i] != items[j]
}

/// What a table with `item` entered holds: the same as before where the
/// item stood in it, and the item behind all others where it did not.
pub open spec fn spec_interned<K>(items: Seq<K>, item: K) -> Seq<K> {
    if spec_position(items, item) is Some {
        items
    } else {
        items.push(item)
    }
}

/// The number of `item` in a table in which it stands, or of the place
/// behind all others.
pub open spec fn spec_number<K>(items: Seq<K>, item: K) -> int {
    match spec_position(items, item) {
        Some(i) => i,
        None => items.len() as int,
    }
}

/// Entering an item leaves a table without duplicates without duplicates,
/// and the item is found in it under its number.
pub proof fn lemma_interned<K>(items: Seq<K>, item: K)
    ensures
        spec_no_duplicates(items) ==> spec_no_duplicates(spec_interned(items, item)),
        0 <= spec_number(items, item) < spec_interned(items, item).len(),
        spec_interned(items, item)[spec_number(items, item)] == item,
        spec_position(spec_interned(items, item), item) == Some(spec_number(items, item)),
        forall|j: int| 0 <= j < items.len() ==> spec_interned(items, item)[j] == items[j],
{
    lemma_position(items, item);
    let after = spec_interned(items, item);
    if spec_position(items, item) is None {
        assert(after.drop_last() =~= items);
    }
}

/// What a table holds after each of `items` was entered in turn.
pub open spec fn spec_intern_all<K>(table: Seq<K>, items: Seq<K>) -> Seq<K>
    decreases items.len(),
{
    if items.len() == 0 {
        table
    } else {
        spec_interned(spec_intern_all(table, items.drop_last()), items.last())
    }
}

/// The numbers that `items` get when each is entered in turn.
pub open spec fn spec_numbers<K>(table: Seq<K>, items: Seq<K>) -> Seq<u32> {
    Seq::new(
        items.len(),
        |i: int| spec_number(spec_intern_all(table, items.subrange(0, i)), items[i]) as u32,
    )
}

/// Entering items never makes a table shorter, and leaves what it held
/// where it was.
pub proof fn lemma_intern_all_grows<K>(table: Seq<K>, items: Seq<K>)
    ensures
        table.len() <= spec_intern_all(table, items).len(),
        forall|j: int| 0 <= j < table.len() ==> spec_intern_all(table, items)[j] == table[j],
        spec_no_duplicates(table) ==> spec_no_duplicates(spec_intern_all(table, items)),
    decreases items.len(),
{
    if items.len() > 0 {
        lemma_intern_all_grows(table, items.drop_last());
        lemma_interned(spec_intern_all(table, items.drop_last()), items.last());
    }
}

/// Whether `front` opens `whole`.
pub open spec fn spec_is_prefix<K>(front: Seq<K>, whole: Seq<K>) -> bool {
    front.len() <= whole.len() && forall|j: int| 0 <= j < front.len() ==> front[j] == whole[j]
}

/// The number that an item gets points at the item in the table that
/// holds it, and stays with it when more items are entered.
pub proof fn lemma_numbers_in_range<K>(table: Seq<K>, items: Seq<K>)
    requires
        spec_intern_all(table, items).len() <= u32::MAX,
    ensures
        spec_numbers(table, items).len() == items.len(),
        forall|i: int|
            0 <= i < items.len() ==> (#[trigger] spec_numbers(table, items)[i])
                < spec_intern_all(table, items).len() && spec_intern_all(
                table,
                items,
            )[spec_numbers(table, items)[i] as int] == items[i],
    decreases items.len(),
{
    let all = spec_intern_all(table, items);
    assert forall|i: int| 0 <= i < items.len() implies (#[trigger] spec_numbers(table, items)[i])
        < all.len() && all[spec_numbers(table, items)[i] as int] == items[i] by {
        let part = items.subrange(0, i);
        let more = items.subrange(0, i + 1);
        assert(more.drop_last() =~= part);
        assert(more.last() == items[i]);
        let before = spec_intern_all(table, part);
        lemma_interned(before, items[i]);
        lemma_intern_all_from(table, items, i + 1);
        lemma_intern_all_keeps(table, items, i + 1);
    }
}

/// What the first `upto` of `items` left in a table stays where it is when
/// the others are entered.
pub proof fn lemma_intern_all_keeps<K>(table: Seq<K>, items: Seq<K>, upto: int)
    requires
        0 <= upto <= items.len(),
    ensures
        spec_is_prefix(spec_intern_all(table, items.subrange(0, upto)), spec_intern_all(table, items)),
    decreases items.len() - upto,
{
    if upto < items.len() {
        let more = items.subrange(0, upto + 1);
        assert(more.drop_last() =~= items.subrange(0, upto));
        lemma_interned(spec_intern_all(table, items.subrange(0, upto)), more.last());
        lemma_intern_all_keeps(table, items, upto + 1);
    } else {
        assert(items.subrange(0, upto) =~= items);
    }
}

/// Entering items adds no more entries than there are items.
pub proof fn lemma_intern_all_len<K>(table: Seq<K>, items: Seq<K>)
    ensures
        spec_intern_all(table, items).len() <= table.len() + items.len(),
    decreases items.len(),
{
    if items.len() > 0 {
        lemma_intern_all_len(table, items.drop_last());
    }
}

/// A table that opens a table which opens a third opens the third.
pub proof fn lemma_prefix_chain<K>(a: Seq<K>, b: Seq<K>, c: Seq<K>)
    requires
        spec_is_prefix(a, b),
        spec_is_prefix(b, c),
    ensures
        spec_is_prefix(a, c),
{
    assert forall|j: int| 0 <= j < a.len() implies a[j] == c[j] by {
        assert(a[j] == b[j]);
    }
}

/// An item whose entering leaves a table that opens another table is found
/// in the other under the same number, and entering it there changes
/// nothing.
pub proof fn lemma_interned_within<K>(table: Seq<K>, whole: Seq<K>, item: K)
    requires
        spec_is_prefix(table, whole),
        spec_is_prefix(spec_interned(table, item), whole),
    ensures
        spec_interned(whole, item) == whole,
        spec_number(whole, item) == spec_number(table, item),
{
    lemma_position(table, item);
    lemma_position(whole, item);
    lemma_interned(table, item);
    let n = spec_number(table, item);
    assert(whole[n] == spec_interned(table, item)[n]);
    let p = spec_position(whole, item)->Some_0;
    if p < n {
        assert(table[p] == whole[p]);
    }
}

/// Items whose entering leaves a table that opens another table are found
/// in the other under the same numbers, and entering them there changes
/// nothing.
pub proof fn lemma_intern_all_within<K>(table: Seq<K>, whole: Seq<K>, items: Seq<K>)
    requires
        spec_is_prefix(table, whole),
        spec_is_prefix(spec_intern_all(table, items), whole),
    ensures
        spec_intern_all(whole, items) == whole,
        spec_numbers(whole, items) == spec_numbers(table, items),
    decreases items.len(),
{
    if items.len() > 0 {
        let rest = items.drop_last();
        let before = spec_intern_all(table, rest);
        lemma_interned(before, items.last());
        lemma_intern_all_grows(table, rest);
        assert(spec_is_prefix(before, whole)) by {
            assert forall|j: int| 0 <= j < before.len() implies before[j] == whole[j] by {
                assert(spec_intern_all(table, items)[j] == before[j]);
            }
        }
        lemma_intern_all_within(table, whole, rest);
        lemma_interned_within(before, whole, items.last());
        assert forall|i: int| 0 <= i < items.len() implies spec_numbers(whole, items)[i]
            == spec_numbers(table, items)[i] by {
            if i < rest.len() {
                assert(items.subrange(0, i) =~= rest.subrange(0, i));
                assert(spec_numbers(whole, rest)[i] == spec_numbers(table, rest)[i]);
            } else {
                assert(items.subrange(0, i) =~= rest);
            }
        }
        assert(spec_numbers(whole, items) =~= spec_numbers(table, items));
    } else {
        assert(spec_numbers(whole, items) =~= spec_numbers(table, items));
    }
}

/// A table that holds what the first `upto` of `items` left in it is no
/// longer than the table that holds what all of them leave.
pub proof fn lemma_intern_all_from<K>(table: Seq<K>, items: Seq<K>, upto: int)
    requires
        0 <= upto <= items.len(),
    ensures
        spec_intern_all(table, items.subrange(0, upto)).len() <= spec_intern_all(
            table,
            items,
        ).len(),
    decreases items.len() - upto,
{
    if upto < items.len() {
        let more = items.subrange(0, upto + 1);
        assert(more.drop_last() =~= items.subrange(0, upto));
        lemma_interned(spec_intern_all(table, items.subrange(0, upto)), more.last());
        lemma_intern_all_from(table, items, upto + 1);
    } else {
        assert(items.subrange(0, upto) =~= items);
    }
}

/// What can be entered in a table: a value that a key of texts tells apart
/// from every other.
pub trait Keyed: View + Sized {
    /// The key of a value.
    spec fn spec_key(v: Self::V) -> Seq<Seq<char>>;

    fn key(&self) -> (r: Vec<String>)
        ensures
            views(r@) == Self::spec_key(self@),
    ;

    /// A copy of the value.
    fn duplicate(&self) -> (r: Self)
        ensures
            r@ == self@,
    ;

    /// Two values with one key are one value.
    proof fn lemma_key_injective(a: Self::V, b: Self::V)
        requires
            Self::spec_key(a) == Self::spec_key(b),
        ensures
            a == b,
    ;
}

impl Keyed for String {
    open spec fn spec_key(v: Seq<char>) -> Seq<Seq<char>> {
        seq![v]
    }

    fn key(&self) -> (r: Vec<String>) {
        let mut k: Vec<String> = Vec::new();
        k.push(self.clone());
        assert(views(k@) =~= seq![self@]);
        k
    }

    fn duplicate(&self) -> (r: Self) {
        self.clone()
    }

    proof fn lemma_key_injective(a: Seq<char>, b: Seq<char>) {
        assert(seq![a][0] == seq![b][0]);
    }
}

/// A list of values, with an index that finds the first place of each.
pub struct Table<T: Keyed> {
    items: Vec<T>,
    index: TextIndex,
}

impl<T: Keyed> View for Table<T> {
    type V = Seq<T::V>;

    closed spec fn view(&self) -> Seq<T::V> {
        views(self.items@)
    }
}

impl<T: Keyed> Table<T> {
    /// Whether the index finds the first place of every value of the
    /// list, and no place for any other value.
    pub closed spec fn wf(&self) -> bool {
        let found = text_index_contents(&self.index);
        &&& self@.len() <= u32::MAX
        &&& forall|v: T::V|
            found.contains_key(#[trigger] T::spec_key(v)) <==> spec_position(self@, v) is Some
        &&& forall|v: T::V|
            spec_position(self@, v) is Some ==> found[#[trigger] T::spec_key(v)] == spec_position(
                self@,
                v,
            )->Some_0
    }

    /// A table that holds nothing.
    pub fn new() -> (r: Table<T>)
        ensures
            r.wf(),
            r@ == Seq::<T::V>::empty(),
    {
        let r = Table { items: Vec::new(), index: TextIndex::new() };
        assert(r@ =~= Seq::<T::V>::empty());
        r
    }

    /// A table that holds `items` as they are, repetitions included. More
    /// items than a `u32` counts are a `CountMismatch`.
    pub fn from_items(items: &Vec<T>) -> (r: Result<Table<T>, NuccError>)
        ensures
            r matches Ok(table) ==> table.wf() && table@ == views(items@),
            r matches Err(e) ==> e == NuccError::CountMismatch,
            r is Err <==> items.len() > u32::MAX,
    {
        if items.len() > u32::MAX as usize {
            return Err(NuccError::CountMismatch);
        }
        let mut table: Table<T> = Table::new();
        let mut i: usize = 0;
        while i < items.len()
            invariant
                i <= items.len(),
                items.len() <= u32::MAX,
                table.wf(),
                table@ == views(items@).subrange(0, i as int),
            decreases items.len() - i,
        {
            match table.push(items[i].duplicate()) {
                Ok(()) => {},
                Err(_) => {
                    assert(false);
                },
            }
            assert(table@ =~= views(items@).subrange(0, i + 1));
            i += 1;
        }
        assert(views(items@).subrange(0, items.len() as int) =~= views(items@));
        Ok(table)
    }

    /// How many values the table holds.
    pub fn len(&self) -> (r: usize)
        ensures
            r == self@.len(),
            self.wf() ==> r <= u32::MAX,
    {
        self.items.len()
    }

    /// A table in order holds no more values than a `u32` counts.
    pub proof fn lemma_len(&self)
        requires
            self.wf(),
        ensures
            self@.len() <= u32::MAX,
    {
    }

    /// The values of the table, in order.
    pub fn items(&self) -> (r: &Vec<T>)
        ensures
            views(r@) == self@,
    {
        &self.items
    }

    /// The values of the table, in order.
    pub fn into_items(self) -> (r: Vec<T>)
        ensures
            views(r@) == self@,
    {
        self.items
    }

    /// The number of `item` in the table, if it stands in it.
    pub fn find(&self, item: &T) -> (r: Option<u32>)
        requires
            self.wf(),
        ensures
            r matches Some(i) ==> spec_position(self@, item@) == Some(i as int),
            r is None ==> spec_position(self@, item@) is None,
    {
        let k = item.key();
        self.index.get(&k)
    }

    /// Enters `item` unless it stands in the table, and gives its number.
    /// A table that is full stays as it is: `CountMismatch`.
    pub fn intern(&mut self, item: T) -> (r: Result<u32, NuccError>)
        requires
            old(self).wf(),
        ensures
            final(self).wf(),
            r matches Ok(i) ==> i == spec_number(old(self)@, item@) && final(self)@
                == spec_interned(old(self)@, item@),
            r matches Err(e) ==> e == NuccError::CountMismatch && final(self)@ == old(self)@,
            r is Err <==> spec_position(old(self)@, item@) is None && old(self)@.len()
                >= u32::MAX,
    {
        let k = item.key();
        match self.index.get(&k) {
            Some(i) => Ok(i),
            None => {
                let n = self.items.len();
                if n >= u32::MAX as usize {
                    return Err(NuccError::CountMismatch);
                }
                let ghost before = self@;
                let ghost found = text_index_contents(&self.index);
                self.index.insert(k, n as u32);
                self.items.push(item);
                proof {
                    let after = self@;
                    let found2 = text_index_contents(&self.index);
                    assert(after =~= before.push(item@));
                    assert(after.drop_last() =~= before);
                    assert forall|v: T::V|
                        found2.contains_key(#[trigger] T::spec_key(v)) <==> spec_position(
                            after,
                            v,
                        ) is Some by {
                        if T::spec_key(v) == T::spec_key(item@) {
                            T::lemma_key_injective(v, item@);
                        }
                    }
                    assert forall|v: T::V| spec_position(after, v) is Some implies found2[
                    #[trigger] T::spec_key(v)] == spec_position(after, v)->Some_0 by {
                        if T::spec_key(v) == T::spec_key(item@) {
                            T::lemma_key_injective(v, item@);
                        }
                    }
                }
                Ok(n as u32)
            },
        }
    }

    /// Enters each of `items` in turn and gives their numbers. When the
    /// table gets full on the way: `CountMismatch`.
    pub fn intern_all(&mut self, items: &Vec<T>) -> (r: Result<Vec<u32>, NuccError>)
        requires
            old(self).wf(),
        ensures
            final(self).wf(),
            r matches Ok(numbers) ==> final(self)@ == spec_intern_all(old(self)@, views(items@))
                && numbers@ == spec_numbers(old(self)@, views(items@)),
            r matches Err(e) ==> e == NuccError::CountMismatch,
            r is Err <==> spec_intern_all(old(self)@, views(items@)).len() > u32::MAX,
    {
        let mut numbers: Vec<u32> = Vec::new();
        let mut i: usize = 0;
        let ghost all = views(items@);
        assert(all.subrange(0, 0) =~= Seq::<T::V>::empty());
        while i < items.len()
            invariant
                i <= items.len(),
                all == views(items@),
                self.wf(),
                self@ == spec_intern_all(old(self)@, all.subrange(0, i as int)),
                numbers@ == spec_numbers(old(self)@, all.subrange(0, i as int)),
            decreases items.len() - i,
        {
            let ghost part = all.subrange(0, i as int);
            let ghost next = all.subrange(0, i + 1);
            let ghost before = self@;
            proof {
                assert(next.drop_last() =~= part);
                assert(next.last() == items@[i as int]@);
            }
            let number = match self.intern(items[i].duplicate()) {
                Ok(n) => n,
                Err(e) => {
                    proof {
                        lemma_position(before, items@[i as int]@);
                        assert(spec_intern_all(old(self)@, next).len() > u32::MAX);
                        lemma_intern_all_from(old(self)@, all, i + 1);
                    }
                    return Err(e);
                },
            };
            numbers.push(number);
            proof {
                assert forall|j: int| 0 <= j < next.len() implies numbers@[j] == spec_numbers(
                    old(self)@,
                    next,
                )[j] by {
                    assert(next.subrange(0, j) =~= all.subrange(0, j));
                    if j < i {
                        assert(part.subrange(0, j) =~= all.subrange(0, j));
                        assert(numbers@[j] == spec_numbers(old(self)@, part)[j]);
                    }
                }
                assert(numbers@ =~= spec_numbers(old(self)@, next));
            }
            i += 1;
        }
        assert(all.subrange(0, items.len() as int) =~= all);
        Ok(numbers)
    }

    /// Puts `item` behind all others, whether or not it stands in the
    /// table. A table that is full stays as it is: `CountMismatch`.
    pub fn push(&mut self, item: T) -> (r: Result<(), NuccError>)
        requires
            old(self).wf(),
        ensures
            final(self).wf(),
            r is Ok ==> final(self)@ == old(self)@.push(item@),
            r matches Err(e) ==> e == NuccError::CountMismatch && final(self)@ == old(self)@,
            r is Err <==> old(self)@.len() >= u32::MAX,
    {
        let n = self.items.len();
        if n >= u32::MAX as usize {
            return Err(NuccError::CountMismatch);
        }
        let k = item.key();
        let ghost before = self@;
        let ghost found = text_index_contents(&self.index);
        let known = self.index.get(&k).is_some();
        if !known {
            self.index.insert(k, n as u32);
        }
        self.items.push(item);
        proof {
            let after = self@;
            let found2 = text_index_contents(&self.index);
            assert(after =~= before.push(item@));
            assert(after.drop_last() =~= before);
            assert forall|v: T::V|
                found2.contains_key(#[trigger] T::spec_key(v)) <==> spec_position(
                    after,
                    v,
                ) is Some by {
                if T::spec_key(v) == T::spec_key(item@) {
                    T::lemma_key_injective(v, item@);
                }
            }
            assert forall|v: T::V| spec_position(after, v) is Some implies found2[
            #[trigger] T::spec_key(v)] == spec_position(after, v)->Some_0 by {
                if T::spec_key(v) == T::spec_key(item@) {
                    T::lemma_key_injective(v, item@);
                }
            }
        }
        Ok(())
    }
}

} // verus!
