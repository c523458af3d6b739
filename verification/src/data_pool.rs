//! A first-in first-out pool of pending work items.
use vstd::prelude::*;
use std::collections::VecDeque;
use crate::text::views;

verus! {

/// A `DataPool` is a set of data that is accessed for read/write by the
/// bots. Items leave the pool in the order they entered it.
pub struct DataPool<T> {
    dataset: VecDeque<T>,
}

impl<T> View for DataPool<T> {
    type V = Seq<T>;

    closed spec fn view(&self) -> Seq<T> {
        self.dataset@
    }
}

impl DataPool<String> {
    /// An empty pool.
    pub fn init() -> (pool: Self)
        ensures
            pool@ == Seq::<String>::empty(),
    {
        DataPool { dataset: VecDeque::new() }
    }

    /// Adds every item of `batch` at the back, in order.
    pub fn add_batch(&mut self, batch: Vec<String>)
        ensures
            views(final(self)@) == views(old(self)@) + views(batch@),
    {
        let n = batch.len();
        let mut i: usize = 0;
        while i < n
            invariant
                i <= n,
                n == batch@.len(),
                views(self@) == views(old(self)@) + views(batch@).take(i as int),
            decreases n - i,
        {
            let ghost before = self@;
            self.add_item(batch[i].clone());
            assert(views(self@) =~= views(before).push(batch@[i as int]@));
            assert(views(batch@).take(i + 1) =~= views(batch@).take(i as int).push(batch@[i as int]@));
            i = i + 1;
        }
        assert(views(batch@).take(n as int) =~= views(batch@));
    }

    /// Adds `item` at the back.
    pub fn add_item(&mut self, item: String)
        ensures
            final(self)@ == old(self)@.push(item),
    {
        self.dataset.push_back(item);
    }

    /// Takes the item at the front, if any.
    pub fn get_next(&mut self) -> (next: Option<String>)
        ensures
            old(self)@.len() == 0 ==> next is None && final(self)@ == old(self)@,
            old(self)@.len() > 0 ==> next == Some(old(self)@[0]) && final(self)@ == old(self)@.drop_first(),
    {
        self.dataset.pop_front()
    }

    /// The items of the pool, front first, left in place.
    pub fn get_content(&self) -> (content: Vec<String>)
        ensures
            views(content@) == views(self@),
    {
        let n = self.dataset.len();
        let mut content: Vec<String> = Vec::new();
        let mut i: usize = 0;
        while i < n
            invariant
                i <= n,
                n == self@.len(),
                views(content@) == views(self@).take(i as int),
            decreases n - i,
        {
            let ghost before = content@;
            content.push(self.dataset[i].clone());
            assert(views(content@) =~= views(before).push(self@[i as int]@));
            assert(views(self@).take(i + 1) =~= views(self@).take(i as int).push(self@[i as int]@));
            i = i + 1;
        }
        assert(views(self@).take(n as int) =~= views(self@));
        content
    }
}

/// Adding at the back and taking from the front commute: on a non-empty
/// pool, taking the front and then adding `item` leaves the same items as
/// adding `item` first and then taking the front, and the item taken is the
/// same; on an empty pool the item just added is the one taken next.
pub proof fn lemma_fifo(pending: Seq<String>, item: String)
    ensures
        pending.len() == 0 ==> pending.push(item)[0] == item
            && pending.push(item).drop_first() == pending,
        pending.len() > 0 ==> pending.push(item)[0] == pending[0]
            && pending.push(item).drop_first() == pending.drop_first().push(item),
{
    assert(pending.len() == 0 ==> pending.push(item).drop_first() =~= pending);
    assert(pending.len() > 0 ==> pending.push(item).drop_first() =~= pending.drop_first().push(item));
}

} // verus!
