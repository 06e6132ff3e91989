//! Texts that are found again by binary search.

use vstd::prelude::*;
use vstd::string::*;

use crate::text::{
    comes_before, same, text_less, text_less_irreflexive, text_less_total, text_less_transitive,
    texts,
};

verus! {

/// Where `t` stands in `v`: the last of several places where `last`, else the first.
pub open spec fn place_of(v: Seq<Seq<char>>, t: Seq<char>, last: bool) -> Option<nat>
    decreases v.len(),
{
    if v.len() == 0 {
        None
    } else {
        let before = place_of(v.drop_last(), t, last);
        if v.last() == t && (last || before is None) {
            Some((v.len() - 1) as nat)
        } else {
            before
        }
    }
}

/// The place that [`place_of`] gives holds the text, and no place before it (behind it, where
/// the last counts) does.
pub proof fn place_is_right(v: Seq<Seq<char>>, t: Seq<char>, last: bool)
    ensures
        match place_of(v, t, last) {
            Some(i) => i < v.len() && v[i as int] == t && forall|j: int|
                0 <= j < v.len() && (if last {
                    j > i
                } else {
                    j < i
                }) ==> #[trigger] v[j] != t,
            None => forall|j: int| 0 <= j < v.len() ==> #[trigger] v[j] != t,
        },
    decreases v.len(),
{
    if v.len() > 0 {
        place_is_right(v.drop_last(), t, last);
        assert forall|j: int| 0 <= j < v.len() - 1 implies #[trigger] v[j] == v.drop_last()[j] by {}
    }
}

/// A list of texts with an order to search it by.
#[derive(Debug)]
pub struct Index {
    pub items: Vec<String>,
    /// Places in `items`, one for each different text, in ascending order of the texts.
    pub order: Vec<usize>,
    /// Whether a text that occurs several times is found at its last place.
    pub last: bool,
}

/// Whether `order` holds, for the first `n` texts of `v`, one place for each of them, in
/// ascending order.
pub open spec fn orders(v: Seq<Seq<char>>, order: Seq<usize>, last: bool, n: int) -> bool {
    &&& forall|k: int| 0 <= k < order.len() ==> (#[trigger] order[k]) < n
    &&& forall|j: int, k: int|
        0 <= j < k < order.len() ==> text_less(
            v[(#[trigger] order[j]) as int],
            v[(#[trigger] order[k]) as int],
        )
    &&& forall|k: int|
        0 <= k < order.len() ==> place_of(v.take(n), v[(#[trigger] order[k]) as int], last) == Some(
            order[k] as nat,
        )
    &&& forall|i: int|
        0 <= i < n ==> exists|k: int| 0 <= k < order.len() && v[order[k] as int] == #[trigger] v[i]
}

/// Where `t` is, or would be put.
fn locate(v: &Vec<String>, order: &Vec<usize>, t: &str, Ghost(last): Ghost<bool>, Ghost(n): Ghost<
    int,
>) -> (r: (bool, usize))
    requires
        0 <= n <= v@.len(),
        orders(texts(v@), order@, last, n),
    ensures
        r.1 <= order@.len(),
        r.0 ==> r.1 < order@.len() && texts(v@)[order@[r.1 as int] as int] == t@,
        !r.0 ==> (forall|k: int|
            0 <= k < r.1 ==> text_less(texts(v@)[(#[trigger] order@[k]) as int], t@)) && (forall|
            k: int,
        |
            r.1 <= k < order@.len() ==> text_less(t@, texts(v@)[(#[trigger] order@[k]) as int])),
{
    let ghost s = texts(v@);
    let mut lo: usize = 0;
    let mut hi: usize = order.len();
    while lo < hi
        invariant
            0 <= n <= v@.len(),
            s == texts(v@),
            orders(s, order@, last, n),
            0 <= lo <= hi <= order@.len(),
            forall|k: int| 0 <= k < lo ==> text_less(s[(#[trigger] order@[k]) as int], t@),
            forall|k: int|
                hi <= k < order@.len() ==> text_less(t@, s[(#[trigger] order@[k]) as int]),
        decreases hi - lo,
    {
        let mid = lo + (hi - lo) / 2;
        let at = order[mid];
        assert(s[at as int] == v@[at as int]@);
        if same(v[at].as_str(), t) {
            return (true, mid);
        }
        if comes_before(v[at].as_str(), t) {
            assert forall|k: int| 0 <= k < mid + 1 implies text_less(
                s[(#[trigger] order@[k]) as int],
                t@,
            ) by {
                if k < mid {
                    text_less_transitive(s[order@[k] as int], s[at as int], t@);
                }
            }
            lo = mid + 1;
        } else {
            proof {
                text_less_total(s[at as int], t@);
            }
            assert forall|k: int| mid <= k < order@.len() implies text_less(
                t@,
                s[(#[trigger] order@[k]) as int],
            ) by {
                if k > mid {
                    text_less_transitive(t@, s[at as int], s[order@[k] as int]);
                }
            }
            hi = mid;
        }
    }
    (false, lo)
}

impl Index {
    pub open spec fn wf(self) -> bool {
        orders(texts(self.items@), self.order@, self.last, self.items@.len() as int)
    }

    /// The index of `items`.
    pub fn new(items: Vec<String>, last: bool) -> (r: Index)
        ensures
            r.wf(),
            r.items == items,
            r.last == last,
    {
        let ghost v = texts(items@);
        let mut order: Vec<usize> = Vec::new();
        let mut i: usize = 0;
        while i < items.len()
            invariant
                i <= items@.len(),
                v == texts(items@),
                orders(v, order@, last, i as int),
            decreases items@.len() - i,
        {
            let ghost old_order = order@;
            let ghost t = v[i as int];
            let ghost shorter = v.take(i as int);
            let ghost longer = v.take(i + 1);
            let (found, p) = locate(
                &items,
                &order,
                items[i].as_str(),
                Ghost(last),
                Ghost(i as int),
            );
            assert(t == items@[i as int]@);
            proof {
                assert(longer.drop_last() =~= shorter);
                assert(longer.last() == t);
                place_is_right(shorter, t, last);
            }
            if found {
                if last {
                    order.set(p, i);
                }
                proof {
                    assert forall|k: int| 0 <= k < order@.len() implies place_of(
                        longer,
                        v[(#[trigger] order@[k]) as int],
                        last,
                    ) == Some(order@[k] as nat) by {
                        if k != p {
                            let u = v[order@[k] as int];
                            assert(order@[k] == old_order[k]);
                            text_less_irreflexive(t);
                            assert(u != t) by {
                                if k < p {
                                    assert(text_less(
                                        v[old_order[k] as int],
                                        v[old_order[p as int] as int],
                                    ));
                                } else {
                                    assert(text_less(
                                        v[old_order[p as int] as int],
                                        v[old_order[k] as int],
                                    ));
                                }
                            }
                        } else {
                            assert(place_of(shorter, v[old_order[k] as int], last) == Some(
                                old_order[k] as nat,
                            ));
                        }
                    }
                    assert forall|j: int| 0 <= j < i + 1 implies exists|k: int|
                        0 <= k < order@.len() && v[order@[k] as int] == #[trigger] v[j] by {
                        if j < i {
                            let k = choose|k: int|
                                0 <= k < old_order.len() && v[old_order[k] as int] == v[j];
                            assert(v[order@[k] as int] == v[j]);
                        } else {
                            assert(v[order@[p as int] as int] == v[j]);
                        }
                    }
                }
            } else {
                order.insert(p, i);
                proof {
                    assert forall|k: int| 0 <= k < order@.len() implies (#[trigger] order@[k]) < i
                        + 1 && place_of(longer, v[order@[k] as int], last) == Some(
                        order@[k] as nat,
                    ) by {
                        text_less_irreflexive(t);
                        if k == p {
                            if place_of(shorter, t, last) is Some {
                                let w = place_of(shorter, t, last)->0 as int;
                                assert(v[w] == t);
                                let z = choose|z: int|
                                    0 <= z < old_order.len() && v[old_order[z] as int] == v[w];
                                assert(text_less(v[old_order[z] as int], t) || text_less(
                                    t,
                                    v[old_order[z] as int],
                                ));
                            }
                        } else {
                            let z = if k < p {
                                k
                            } else {
                                k - 1
                            };
                            assert(order@[k] == old_order[z]);
                            assert(v[old_order[z] as int] != t);
                        }
                    }
                    assert forall|j: int, k: int| 0 <= j < k < order@.len() implies text_less(
                        v[(#[trigger] order@[j]) as int],
                        v[(#[trigger] order@[k]) as int],
                    ) by {
                        if j != p {
                            let a = if j < p {
                                j
                            } else {
                                j - 1
                            };
                            assert(order@[j] == old_order[a]);
                        }
                        if k != p {
                            let b = if k < p {
                                k
                            } else {
                                k - 1
                            };
                            assert(order@[k] == old_order[b]);
                        }
                    }
                    assert forall|j: int| 0 <= j < i + 1 implies exists|k: int|
                        0 <= k < order@.len() && v[order@[k] as int] == #[trigger] v[j] by {
                        if j < i {
                            let z = choose|z: int|
                                0 <= z < old_order.len() && v[old_order[z] as int] == v[j];
                            let k = if z < p {
                                z
                            } else {
                                z + 1
                            };
                            assert(order@[k] == old_order[z]);
                        } else {
                            assert(order@[p as int] == i);
                        }
                    }
                }
            }
            i = i + 1;
        }
        assert(v.take(v.len() as int) =~= v);
        Index { items, order, last }
    }

    /// Where `t` stands.
    pub fn find(&self, t: &str) -> (r: Option<usize>)
        requires
            self.wf(),
        ensures
            place_of(texts(self.items@), t@, self.last) == match r {
                Some(i) => Some(i as nat),
                None => None::<nat>,
            },
            r matches Some(i) ==> i < self.items@.len(),
    {
        let ghost v = texts(self.items@);
        let (found, p) = locate(
            &self.items,
            &self.order,
            t,
            Ghost(self.last),
            Ghost(self.items@.len() as int),
        );
        assert(v.take(v.len() as int) =~= v);
        if found {
            return Some(self.order[p]);
        }
        proof {
            place_is_right(v, t@, self.last);
            if place_of(v, t@, self.last) is Some {
                let w = place_of(v, t@, self.last)->0 as int;
                let z = choose|z: int|
                    0 <= z < self.order@.len() && v[self.order@[z] as int] == v[w];
                text_less_irreflexive(t@);
            }
        }
        None
    }
}

} // verus!
