//! Numbered places that are given out again once they are free.

use vstd::prelude::*;

verus! {

/// Values by their numbers.
#[derive(Debug)]
pub struct Slots<T> {
    pub items: Vec<Option<T>>,
    /// The numbers that are free, the one that became free last at the end.
    pub free: Vec<u32>,
}

impl<T> View for Slots<T> {
    type V = Map<u32, T>;

    open spec fn view(&self) -> Map<u32, T> {
        Map::new(
            |i: u32| i < self.items@.len() && self.items@[i as int] is Some,
            |i: u32| self.items@[i as int]->0,
        )
    }
}

/// Whether the free numbers are those of the empty places, each once.
pub open spec fn tells_free<T>(items: Seq<Option<T>>, free: Seq<u32>) -> bool {
    &&& forall|j: int|
        0 <= j < free.len() ==> (#[trigger] free[j]) < items.len() && items[free[j] as int] is None
    &&& forall|i: int, j: int|
        0 <= i < j < free.len() ==> (#[trigger] free[i]) != (#[trigger] free[j])
    &&& forall|i: int|
        0 <= i < items.len() && (#[trigger] items[i]) is None ==> free.contains(i as u32)
}

impl<T> Slots<T> {
    pub open spec fn wf(self) -> bool {
        &&& self.items@.len() <= u32::MAX
        &&& tells_free(self.items@, self.free@)
    }

    /// The number that the next value gets.
    pub open spec fn next(self) -> u32 {
        if self.free@.len() > 0 {
            self.free@.last()
        } else {
            self.items@.len() as u32
        }
    }

    /// The free numbers once a value was placed.
    pub open spec fn free_after_place(self) -> Seq<u32> {
        if self.free@.len() > 0 {
            self.free@.drop_last()
        } else {
            self.free@
        }
    }

    /// The free numbers once a number was given up.
    pub open spec fn free_after_remove(self, i: u32) -> Seq<u32> {
        if self@.dom().contains(i) {
            self.free@.push(i)
        } else {
            self.free@
        }
    }

    /// How many places there are once a value was placed.
    pub open spec fn places_after_place(self) -> nat {
        if self.free@.len() > 0 {
            self.items@.len()
        } else {
            self.items@.len() + 1
        }
    }

    pub fn new() -> (r: Self)
        ensures
            r.wf(),
            r@ == Map::<u32, T>::empty(),
            r.items@.len() == 0,
            r.free@.len() == 0,
    {
        let r = Slots { items: Vec::new(), free: Vec::new() };
        assert(r@ =~= Map::<u32, T>::empty());
        r
    }

    pub fn get(&self, i: u32) -> (r: Option<&T>)
        ensures
            match r {
                Some(x) => self@.dom().contains(i) && *x == self@[i],
                None => !self@.dom().contains(i),
            },
    {
        if (i as usize) < self.items.len() {
            match &self.items[i as usize] {
                Some(x) => Some(x),
                None => None,
            }
        } else {
            None
        }
    }

    /// Puts a value in the place that became free last, else in a new one.
    pub fn place(&mut self, x: T) -> (r: u32)
        requires
            old(self).wf(),
            old(self).items@.len() < u32::MAX,
        ensures
            final(self).wf(),
            r == old(self).next(),
            !old(self)@.dom().contains(r),
            final(self)@ == old(self)@.insert(r, x),
            final(self).items@.len() == old(self).places_after_place(),
            final(self).free@ == old(self).free_after_place(),
    {
        let ghost before = *self;
        let r = match self.free.pop() {
            Some(i) => {
                self.items.set(i as usize, Some(x));
                assert forall|k: int|
                    0 <= k < self.items@.len() && (
                    #[trigger] self.items@[k]) is None implies self.free@.contains(k as u32) by {
                    assert(before.items@[k] is None);
                    assert(before.free@.contains(k as u32));
                    let j = choose|j: int|
                        0 <= j < before.free@.len() && before.free@[j] == k as u32;
                    assert(self.free@[j] == k as u32);
                }
                i
            },
            None => {
                let i = self.items.len() as u32;
                self.items.push(Some(x));
                assert forall|k: int|
                    0 <= k < self.items@.len() && (
                    #[trigger] self.items@[k]) is None implies self.free@.contains(k as u32) by {
                    assert(before.items@[k] is None);
                }
                i
            },
        };
        assert(self@ =~= before@.insert(r, x));
        r
    }

    /// Puts another value in the place of one, which is handed out.
    pub fn exchange(&mut self, i: u32, x: T) -> (r: T)
        requires
            old(self).wf(),
            old(self)@.dom().contains(i),
        ensures
            final(self).wf(),
            final(self)@ == old(self)@.insert(i, x),
            r == old(self)@[i],
            final(self).items@.len() == old(self).items@.len(),
            final(self).free == old(self).free,
    {
        let ghost before = *self;
        let mut slot: Option<T> = Some(x);
        self.items.set_and_swap(i as usize, &mut slot);
        assert forall|k: int|
            0 <= k < self.items@.len() && (
            #[trigger] self.items@[k]) is None implies self.free@.contains(k as u32) by {
            assert(before.items@[k] is None);
        }
        assert(self@ =~= before@.insert(i, x));
        slot.unwrap()
    }

    /// Takes a value out; its number is free from here on. A number that is not in use stays
    /// so.
    pub fn remove(&mut self, i: u32) -> (r: Option<T>)
        requires
            old(self).wf(),
        ensures
            final(self).wf(),
            final(self)@ == old(self)@.remove(i),
            r == if old(self)@.dom().contains(i) {
                Some(old(self)@[i])
            } else {
                None
            },
            final(self).free@ == old(self).free_after_remove(i),
            final(self).items@.len() == old(self).items@.len(),
    {
        let ghost before = *self;
        if (i as usize) < self.items.len() {
            let mut slot: Option<T> = None;
            self.items.set_and_swap(i as usize, &mut slot);
            if slot.is_some() {
                self.free.push(i);
                assert forall|k: int|
                    0 <= k < self.items@.len() && (
                    #[trigger] self.items@[k]) is None implies self.free@.contains(k as u32) by {
                    if k == i {
                        assert(self.free@[self.free@.len() - 1] == i);
                    } else {
                        assert(before.items@[k] is None);
                        let j = choose|j: int|
                            0 <= j < before.free@.len() && before.free@[j] == k as u32;
                        assert(self.free@[j] == k as u32);
                    }
                }
            } else {
                assert(self.items@ =~= before.items@);
            }
            assert(self@ =~= before@.remove(i));
            slot
        } else {
            assert(self@ =~= before@.remove(i));
            None
        }
    }
}

} // verus!
