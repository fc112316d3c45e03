use vstd::prelude::*;
use vstd::multiset::Multiset;
use crate::errors::WarehouseError;
use crate::price::Price;

verus! {

broadcast use {vstd::seq_lib::group_to_multiset_ensures, vstd::multiset::group_multiset_axioms};

/// One acquisition: a per-unit price and how many units of it remain.
#[derive(Clone, Copy, Debug, PartialEq, Eq, Structural)]
pub struct Inventory {
    pub price_per_item: Price,
    pub quantity: u64,
}

impl Inventory {
    /// A lot in a heap always has at least one unit left and a price in
    /// the decimal's domain.
    pub open spec fn wf(self) -> bool {
        self.price_per_item.valid() && self.quantity >= 1
    }
}

/// What an extraction reports to the caller: the price at which the
/// consumed unit was acquired.
#[derive(Clone, Copy, Debug, PartialEq, Eq, Structural)]
pub struct InventoryView {
    pub price_per_item: Price,
}

/// Index of the parent of heap slot `i`, for `i >= 1`.
pub open spec fn pidx(i: int) -> int {
    (i - 1) / 2
}

/// The heap order: `a` is no more expensive per unit than `b`.
pub open spec fn ple(a: Inventory, b: Inventory) -> bool {
    a.price_per_item.units() <= b.price_per_item.units()
}

pub open spec fn lots_wf(s: Seq<Inventory>) -> bool {
    forall|i: int| #![trigger s[i]] 0 <= i < s.len() ==> s[i].wf()
}

/// The binary min-heap property: every slot's price is at least its
/// parent's.
pub open spec fn heap_ordered(s: Seq<Inventory>) -> bool {
    forall|i: int| #![trigger s[i]] 1 <= i < s.len() ==> ple(s[pidx(i)], s[i])
}

/// The heap property everywhere except at slot `j` itself.
pub open spec fn ordered_except(s: Seq<Inventory>, j: int) -> bool {
    forall|i: int| #![trigger s[i]] 1 <= i < s.len() && i != j ==> ple(s[pidx(i)], s[i])
}

/// The heap property everywhere except on the links from slot `j` down
/// to its children.
pub open spec fn ordered_except_below(s: Seq<Inventory>, j: int) -> bool {
    forall|i: int| #![trigger s[i]] 1 <= i < s.len() && pidx(i) != j ==> ple(s[pidx(i)], s[i])
}

/// The children of slot `j` are no cheaper than `j`'s parent.
pub open spec fn holds_above(s: Seq<Inventory>, j: int) -> bool {
    forall|i: int| #![trigger s[i]] 1 <= i < s.len() && pidx(i) == j ==> ple(s[pidx(j)], s[i])
}

/// The number of units held across all lots.
pub open spec fn total_quantity(s: Seq<Inventory>) -> int
    decreases s.len(),
{
    if s.len() == 0 {
        0
    } else {
        total_quantity(s.drop_last()) + s.last().quantity
    }
}

/// What one call of `delete` does to a non-empty heap: one unit of the
/// cheapest lot goes, the lot itself only when that was its last unit,
/// and everything that stays is at least as expensive as the old root.
pub open spec fn delete_effect(pre: Seq<Inventory>, post: Seq<Inventory>) -> bool {
    &&& pre.len() > 0
    &&& total_quantity(post) == total_quantity(pre) - 1
    &&& (pre[0].quantity > 1 ==> post == pre.update(
        0,
        (Inventory {
            price_per_item: pre[0].price_per_item,
            quantity: (pre[0].quantity - 1) as u64,
        }),
    ))
    &&& (pre[0].quantity == 1 ==> post.len() == pre.len() - 1 && post.to_multiset()
        == pre.to_multiset().remove(pre[0]))
    &&& (forall|i: int|
        #![trigger post[i]]
        0 <= i < post.len() ==> pre[0].price_per_item.units() <= post[i].price_per_item.units())
}

/// What one successful call of `extract` does: it reports the root's
/// price, which is the minimum over the whole heap, and deletes one
/// unit of it.
pub open spec fn extract_ok(pre: Seq<Inventory>, post: Seq<Inventory>, v: InventoryView) -> bool {
    &&& pre.len() > 0
    &&& v.price_per_item == pre[0].price_per_item
    &&& delete_effect(pre, post)
    &&& (forall|i: int|
        #![trigger pre[i]]
        0 <= i < pre.len() ==> v.price_per_item.units() <= pre[i].price_per_item.units())
    &&& (forall|i: int|
        #![trigger post[i]]
        0 <= i < post.len() ==> v.price_per_item.units() <= post[i].price_per_item.units())
}

/// Monotonic extraction law: over any heap, two successive successful
/// extractions report non-decreasing prices; repeated extraction until
/// the heap is empty therefore yields a price sequence sorted from
/// cheapest up.
pub proof fn lemma_monotonic_extraction(
    s0: Seq<Inventory>,
    s1: Seq<Inventory>,
    s2: Seq<Inventory>,
    v1: InventoryView,
    v2: InventoryView,
)
    requires
        extract_ok(s0, s1, v1),
        extract_ok(s1, s2, v2),
    ensures
        v1.price_per_item.units() <= v2.price_per_item.units(),
{
    assert(v1.price_per_item.units() <= s1[0].price_per_item.units());
}

/// In a heap-ordered sequence the root is a cheapest lot.
pub proof fn lemma_root_min(s: Seq<Inventory>, i: int)
    requires
        heap_ordered(s),
        0 <= i < s.len(),
    ensures
        ple(s[0], s[i]),
    decreases i,
{
    if i >= 1 {
        assert(ple(s[pidx(i)], s[i]));
        lemma_root_min(s, pidx(i));
    }
}

proof fn lemma_total_quantity_update(s: Seq<Inventory>, i: int, v: Inventory)
    requires
        0 <= i < s.len(),
    ensures
        total_quantity(s.update(i, v)) == total_quantity(s) - s[i].quantity + v.quantity,
    decreases s.len(),
{
    let t = s.update(i, v);
    if i == s.len() - 1 {
        assert(t.drop_last() =~= s.drop_last());
        assert(t.last() == v);
    } else {
        assert(t.drop_last() =~= s.drop_last().update(i, v));
        lemma_total_quantity_update(s.drop_last(), i, v);
        assert(t.last() == s.last());
    }
}

proof fn lemma_total_quantity_push(s: Seq<Inventory>, v: Inventory)
    ensures
        total_quantity(s.push(v)) == total_quantity(s) + v.quantity,
{
    assert(s.push(v).drop_last() =~= s);
    assert(s.push(v).last() == v);
}

/// A binary min-heap of the open lots for one product, cheapest price
/// at the root.
pub struct InventoryHeap {
    pub heap: Vec<Inventory>,
}

impl View for InventoryHeap {
    type V = Seq<Inventory>;

    open spec fn view(&self) -> Seq<Inventory> {
        self.heap@
    }
}

impl InventoryHeap {
    /// The heap's invariant: the min-heap order holds and every lot
    /// still has units.
    pub open spec fn wf(self) -> bool {
        heap_ordered(self@) && lots_wf(self@)
    }

    pub fn new() -> (h: InventoryHeap)
        ensures
            h@ == Seq::<Inventory>::empty(),
            h.wf(),
    {
        InventoryHeap { heap: Vec::new() }
    }

    pub fn size(&self) -> (n: usize)
        ensures
            n == self@.len(),
    {
        self.heap.len()
    }

    pub fn is_empty(&self) -> (b: bool)
        ensures
            b == (self@.len() == 0),
    {
        self.size() == 0
    }

    fn parent(&self, index: usize) -> (p: usize)
        requires
            1 <= index,
        ensures
            p == pidx(index as int),
    {
        (index - 1) / 2
    }

    fn left_child(&self, index: usize) -> (c: usize)
        requires
            index < self@.len() / 2,
        ensures
            c == 2 * index + 1,
            c < self@.len(),
    {
        let n = self.heap.len();
        proof {
            assert(2 * ((n as int) / 2) <= n as int) by (nonlinear_arith);
            assert(2 * (index as int) + 1 < n as int);
        }
        (2 * index) + 1
    }

    fn right_child(&self, index: usize) -> (c: usize)
        requires
            index < (self@.len() - 1) / 2,
        ensures
            c == 2 * index + 2,
            c < self@.len(),
    {
        let n = self.heap.len();
        proof {
            assert(2 * (((n as int) - 1) / 2) <= (n as int) - 1) by (nonlinear_arith);
            assert(2 * (index as int) + 2 < n as int);
        }
        (2 * index) + 2
    }

    /// A read-only view of the cheapest lot's price.
    pub fn get_min(&self) -> (r: Result<InventoryView, WarehouseError>)
        ensures
            self@.len() > 0 ==> (r matches Ok(v) && v.price_per_item == self@[0].price_per_item),
            self@.len() == 0 ==> (r matches Err(e) && e == WarehouseError::EmptyHeap),
    {
        if self.heap.len() == 0 {
            return Err(WarehouseError::EmptyHeap);
        }
        let inventory = &self.heap[0];
        Ok(InventoryView { price_per_item: inventory.price_per_item })
    }

    fn swap_lots(&mut self, i: usize, j: usize)
        requires
            i < old(self)@.len(),
            j < old(self)@.len(),
            i != j,
        ensures
            final(self)@ == old(self)@.update(i as int, old(self)@[j as int]).update(
                j as int,
                old(self)@[i as int],
            ),
            final(self)@.len() == old(self)@.len(),
            final(self)@.to_multiset() == old(self)@.to_multiset(),
            total_quantity(final(self)@) == total_quantity(old(self)@),
    {
        let ghost s = self@;
        let tmp = self.heap[i];
        self.heap[i] = self.heap[j];
        self.heap[j] = tmp;
        proof {
            let s1 = s.update(i as int, s[j as int]);
            let s2 = s1.update(j as int, s[i as int]);
            assert(self@ == s2);
            vstd::seq_lib::to_multiset_update(s, i as int, s[j as int]);
            vstd::seq_lib::to_multiset_update(s1, j as int, s[i as int]);
            assert(s.contains(s[i as int]));
            assert(s1.contains(s1[i as int]));
            assert(s2.to_multiset() =~= s.to_multiset());
            lemma_total_quantity_update(s, i as int, s[j as int]);
            lemma_total_quantity_update(s1, j as int, s[i as int]);
        }
    }

    /// Appends the lot and sifts it up until its parent is no more
    /// expensive.
    #[verifier::loop_isolation(false)]
    pub fn insert(&mut self, inventory: Inventory)
        requires
            old(self).wf(),
            inventory.wf(),
        ensures
            final(self).wf(),
            final(self)@.len() == old(self)@.len() + 1,
            final(self)@.to_multiset() == old(self)@.to_multiset().insert(inventory),
            total_quantity(final(self)@) == total_quantity(old(self)@) + inventory.quantity,
    {
        let ghost s0 = self@;
        proof {
            lemma_total_quantity_push(s0, inventory);
        }
        self.heap.push(inventory);
        let mut index = self.size() - 1;
        proof {
            let s = self@;
            assert forall|c: int| 1 <= c < s.len() && c != index as int implies ple(
                s[pidx(c)],
                s[c],
            ) by {
                assert(s[c] == s0[c]);
                assert(s[pidx(c)] == s0[pidx(c)]);
                assert(ple(s0[pidx(c)], s0[c]));
            }
            assert forall|c: int| 1 <= c < s.len() && pidx(c) == index as int implies ple(
                s[pidx(index as int)],
                s[c],
            ) by {
                assert(c >= 2 * (index as int) + 1);
                assert(false);
            }
        }
        while index != 0
            invariant
                0 <= index < self@.len(),
                self@.len() == s0.len() + 1,
                lots_wf(self@),
                self@.to_multiset() == s0.to_multiset().insert(inventory),
                total_quantity(self@) == total_quantity(s0) + inventory.quantity,
                ordered_except(self@, index as int),
                index > 0 ==> holds_above(self@, index as int),
            decreases index,
        {
            let parent_index = self.parent(index);
            if self.heap[parent_index].price_per_item.le(&self.heap[index].price_per_item) {
                proof {
                    let s = self@;
                    assert forall|c: int| 1 <= c < s.len() implies ple(s[pidx(c)], s[c]) by {
                        if c != index as int {
                            assert(ple(s[pidx(c)], s[c]));
                        }
                    }
                }
                return ;
            }
            let ghost s = self@;
            let ghost j = index as int;
            let ghost p = parent_index as int;
            self.swap_lots(parent_index, index);
            proof {
                let t = self@;
                assert(t[p] == s[j] && t[j] == s[p]);
                assert forall|c: int| 1 <= c < t.len() && c != p implies ple(t[pidx(c)], t[c]) by {
                    if c == j {
                        assert(ple(s[j], s[p]));
                    } else if pidx(c) == j {
                        assert(ple(s[pidx(j)], s[c]));
                    } else if pidx(c) == p {
                        assert(ple(s[p], s[c]));
                        assert(ple(s[j], s[c]));
                    } else {
                        assert(ple(s[pidx(c)], s[c]));
                    }
                }
                if p > 0 {
                    assert forall|c: int| 1 <= c < t.len() && pidx(c) == p implies ple(
                        t[pidx(p)],
                        t[c],
                    ) by {
                        assert(t[pidx(p)] == s[pidx(p)]);
                        assert(ple(s[pidx(p)], s[p]));
                        if c == j {
                            assert(t[c] == s[p]);
                        } else {
                            assert(t[c] == s[c]);
                            assert(ple(s[p], s[c]));
                        }
                    }
                }
            }
            index = parent_index;
        }
        proof {
            let s = self@;
            assert forall|c: int| 1 <= c < s.len() implies ple(s[pidx(c)], s[c]) by {
                assert(c != 0);
            }
        }
    }

    /// Sifts the lot at `index` down until both children are no cheaper,
    /// restoring the heap order below `index`.
    #[verifier::loop_isolation(false)]
    fn heapify(&mut self, index: usize)
        requires
            lots_wf(old(self)@),
            (index as int) < old(self)@.len() || index == 0,
            ordered_except_below(old(self)@, index as int),
            index > 0 ==> holds_above(old(self)@, index as int),
        ensures
            final(self).wf(),
            final(self)@.len() == old(self)@.len(),
            final(self)@.to_multiset() == old(self)@.to_multiset(),
            total_quantity(final(self)@) == total_quantity(old(self)@),
    {
        if self.size() <= 1 {
            return ;
        }
        let mut index = index;
        let ghost s0 = self@;
        loop
            invariant
                2 <= self@.len(),
                0 <= index < self@.len(),
                self@.len() == s0.len(),
                lots_wf(self@),
                self@.to_multiset() == s0.to_multiset(),
                total_quantity(self@) == total_quantity(s0),
                ordered_except_below(self@, index as int),
                index > 0 ==> holds_above(self@, index as int),
            decreases self@.len() - index,
        {
            let n = self.heap.len();
            if index >= n / 2 {
                proof {
                    let s = self@;
                    assert forall|c: int| 1 <= c < s.len() implies ple(s[pidx(c)], s[c]) by {
                        if pidx(c) == index as int {
                            assert(c >= 2 * (index as int) + 1);
                            assert(2 * (index as int) + 1 >= s.len() as int);
                            assert(false);
                        }
                    }
                }
                return ;
            }
            let left = self.left_child(index);
            let mut smallest = index;
            if self.heap[left].price_per_item.lt(&self.heap[smallest].price_per_item) {
                smallest = left;
            }
            if index < (n - 1) / 2 {
                let right = self.right_child(index);
                if self.heap[right].price_per_item.lt(&self.heap[smallest].price_per_item) {
                    smallest = right;
                }
            }
            if smallest == index {
                proof {
                    let s = self@;
                    assert forall|c: int| 1 <= c < s.len() implies ple(s[pidx(c)], s[c]) by {
                        if pidx(c) == index as int {
                            assert(c == 2 * (index as int) + 1 || c == 2 * (index as int) + 2);
                        }
                    }
                }
                return ;
            }
            let ghost s = self@;
            let ghost j = index as int;
            let ghost m = smallest as int;
            proof {
                // the chosen child is at most the other child, where both exist
                assert(m == 2 * j + 1 || m == 2 * j + 2);
                assert(ple(s[m], s[j]) && !ple(s[j], s[m]));
                assert forall|c: int| 1 <= c < s.len() && pidx(c) == j && c != m implies ple(
                    s[m],
                    s[c],
                ) by {
                    assert(c == 2 * j + 1 || c == 2 * j + 2);
                }
            }
            self.swap_lots(index, smallest);
            proof {
                let t = self@;
                assert(t[j] == s[m] && t[m] == s[j]);
                assert forall|c: int| 1 <= c < t.len() && pidx(c) != m implies ple(
                    t[pidx(c)],
                    t[c],
                ) by {
                    if c == j {
                        assert(ple(s[pidx(j)], s[m]));
                    } else if c == m {
                        assert(ple(s[m], s[j]));
                    } else if pidx(c) == j {
                        assert(ple(s[m], s[c]));
                    } else {
                        assert(t[c] == s[c] && t[pidx(c)] == s[pidx(c)]);
                        assert(ple(s[pidx(c)], s[c]));
                    }
                }
                assert forall|c: int| 1 <= c < t.len() && pidx(c) == m implies ple(
                    t[pidx(m)],
                    t[c],
                ) by {
                    assert(c > m);
                    assert(t[c] == s[c]);
                    assert(ple(s[m], s[c]));
                }
            }
            index = smallest;
        }
    }

    /// Removes one unit of the cheapest lot; a no-op on an empty heap.
    /// The lot itself leaves the heap only when its last unit goes.
    pub fn delete(&mut self)
        requires
            old(self).wf(),
        ensures
            final(self).wf(),
            old(self)@.len() == 0 ==> final(self)@ == old(self)@,
            old(self)@.len() > 0 ==> delete_effect(old(self)@, final(self)@),
    {
        let ghost s0 = self@;
        if self.heap.len() == 0 {
            return ;
        }
        let root = self.heap[0];
        if root.quantity > 1 {
            let updated = Inventory {
                price_per_item: root.price_per_item,
                quantity: root.quantity - 1,
            };
            self.heap[0] = updated;
            proof {
                let t = self@;
                lemma_total_quantity_update(s0, 0, updated);
                assert forall|c: int| 1 <= c < t.len() implies ple(t[pidx(c)], t[c]) by {
                    assert(t[c].price_per_item == s0[c].price_per_item);
                    assert(t[pidx(c)].price_per_item == s0[pidx(c)].price_per_item);
                    assert(ple(s0[pidx(c)], s0[c]));
                }
                assert forall|i: int| 0 <= i < t.len() implies s0[0].price_per_item.units()
                    <= t[i].price_per_item.units() by {
                    lemma_root_min(s0, i);
                    assert(t[i].price_per_item == s0[i].price_per_item);
                }
            }
            return ;
        }
        let last_index = self.size() - 1;
        let last = self.heap[last_index];
        self.heap[0] = last;
        let _ = self.heap.pop();
        proof {
            let n = s0.len() as int;
            let s1 = s0.update(0, last);
            let s2 = self@;
            assert(s2 =~= s1.drop_last());
            vstd::seq_lib::to_multiset_update(s0, 0, last);
            assert(s0.contains(s0[0]));
            lemma_total_quantity_update(s0, 0, last);
            if n == 1 {
                assert(s0 =~= Seq::<Inventory>::empty().push(s0[0]));
                assert(Seq::<Inventory>::empty().push(s0[0]).to_multiset() =~= Multiset::<
                    Inventory,
                >::empty().insert(s0[0]));
                assert(s2.len() == 0);
                assert forall|x: Inventory| true implies s2.to_multiset().count(x) == 0 by {
                    if s2.to_multiset().count(x) > 0 {
                        assert(s2.contains(x));
                    }
                }
                assert(s2.to_multiset() =~= s0.to_multiset().remove(s0[0]));
            } else {
                assert(s1[n - 1] == last);
                assert(s2 =~= s1.remove(n - 1));
                vstd::seq_lib::to_multiset_remove(s1, n - 1);
                assert(s2.to_multiset() =~= s0.to_multiset().remove(s0[0]));
                assert(total_quantity(s1) == total_quantity(s2) + last.quantity);
            }
            assert(total_quantity(s2) == total_quantity(s0) - s0[0].quantity);
            // the heap order, away from the new root
            assert forall|c: int| 1 <= c < s2.len() && pidx(c) != 0 implies ple(
                s2[pidx(c)],
                s2[c],
            ) by {
                assert(s2[c] == s0[c]);
                assert(s2[pidx(c)] == s0[pidx(c)]);
                assert(ple(s0[pidx(c)], s0[c]));
            }
        }
        self.heapify(0);
        proof {
            let ghost t = self@;
            assert forall|i: int| 0 <= i < t.len() implies s0[0].price_per_item.units()
                <= t[i].price_per_item.units() by {
                let x = t[i];
                assert(t.contains(x));
                assert(t.to_multiset().count(x) > 0);
                assert(s0.to_multiset().count(x) > 0);
                assert(s0.contains(x));
                let j = choose|j: int| 0 <= j < s0.len() && s0[j] == x;
                lemma_root_min(s0, j);
            }
        }
    }

    /// Reports the cheapest lot's price, then removes one unit of it.
    /// Fails on an empty heap, before anything is deleted.
    pub fn extract(&mut self) -> (r: Result<InventoryView, WarehouseError>)
        requires
            old(self).wf(),
        ensures
            final(self).wf(),
            old(self)@.len() == 0 ==> final(self)@ == old(self)@ && (r matches Err(e) && e
                == WarehouseError::EmptyHeap),
            old(self)@.len() > 0 ==> (r matches Ok(v) && extract_ok(old(self)@, final(self)@, v)),
    {
        let min = match self.get_min() {
            Ok(v) => v,
            Err(e) => {
                return Err(e);
            },
        };
        proof {
            let s = self@;
            assert forall|i: int| 0 <= i < s.len() implies min.price_per_item.units()
                <= s[i].price_per_item.units() by {
                lemma_root_min(s, i);
            }
        }
        self.delete();
        Ok(min)
    }
}

} // verus!
