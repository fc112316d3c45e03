use vstd::prelude::*;
use vstd::multiset::Multiset;
use crate::errors::WarehouseError;
use crate::inventory_heap::{Inventory, InventoryHeap, InventoryView, extract_ok, total_quantity};
use crate::price::{Price, quot_of};

verus! {

broadcast use {vstd::seq_lib::group_to_multiset_ensures, vstd::multiset::group_multiset_axioms};

#[derive(Clone, Copy, Debug, PartialEq, Eq, Structural)]
pub enum TransactionType {
    Produce,
    Consume,
}

/// An immutable request: add lots of a product, or draw one unit of it.
pub struct Transaction {
    pub transaction_type: TransactionType,
    pub inventory_id: String,
    pub quantity: u64,
    pub total_cost: Option<Price>,
}

/// The per-unit price the decimal division reports for `cost / quantity`.
pub open spec fn unit_price(cost: Price, quantity: int) -> Price {
    Price {
        mantissa: quot_of(cost.mantissa as int, cost.scale as int, quantity).0 as u128,
        scale: quot_of(cost.mantissa as int, cost.scale as int, quantity).1 as u32,
    }
}

impl Transaction {
    /// A produce must carry a cost in the decimal's domain and a positive
    /// quantity no larger than the divisor the decimal type accepts; a
    /// consume must carry no cost.
    pub open spec fn valid(self) -> bool {
        match self.transaction_type {
            TransactionType::Produce => {
                &&& self.total_cost matches Some(c) && c.valid()
                &&& 1 <= self.quantity <= i64::MAX as u64
            },
            TransactionType::Consume => self.total_cost is None,
        }
    }

    /// The cost a produce carries.
    pub open spec fn cost(self) -> Price {
        match self.total_cost {
            Some(c) => c,
            None => Price { mantissa: 0, scale: 0 },
        }
    }

    /// The lot a valid produce creates: the cost spread over the quantity.
    pub open spec fn lot(self) -> Inventory {
        Inventory {
            price_per_item: unit_price(self.cost(), self.quantity as int),
            quantity: self.quantity,
        }
    }
}

pub fn create_transaction(
    inventory_id: String,
    total_cost: Option<Price>,
    transaction_type: TransactionType,
    quantity: u64,
) -> (t: Transaction)
    ensures
        t == (Transaction { transaction_type, inventory_id, quantity, total_cost }),
{
    Transaction { transaction_type, inventory_id, quantity, total_cost }
}

/// The transactions that were accepted, in call order.
pub struct TransactionHistory {
    pub history: Vec<Transaction>,
}

impl Default for TransactionHistory {
    fn default() -> (h: TransactionHistory)
        ensures
            h.history@.len() == 0,
    {
        TransactionHistory { history: Vec::new() }
    }
}

/// Assigns each product name a stable numeric key on first reference;
/// never forgets or reuses one.
pub struct InventoryIdMap {
    pub product_names: Vec<String>,
    pub next_id: u64,
}

impl InventoryIdMap {
    /// A name's key is its slot in `product_names`; names are distinct
    /// and `next_id` is the first key never handed out.
    pub open spec fn wf(self) -> bool {
        &&& self.next_id == self.product_names@.len()
        &&& forall|i: int, j: int|
            0 <= i < j < self.product_names@.len() ==> (#[trigger] self.product_names@[i])@ != (
            #[trigger] self.product_names@[j])@
    }

    pub open spec fn holds_key(self, k: int, name: Seq<char>) -> bool {
        0 <= k < self.product_names@.len() && self.product_names@[k]@ == name
    }

    pub open spec fn knows(self, name: Seq<char>) -> bool {
        exists|k: int| self.holds_key(k, name)
    }

    pub open spec fn key_of(self, name: Seq<char>) -> int {
        choose|k: int| self.holds_key(k, name)
    }

    /// A name's key is the one slot that holds it.
    pub proof fn lemma_key_of(self, k: int, name: Seq<char>)
        requires
            self.wf(),
            self.holds_key(k, name),
        ensures
            self.knows(name),
            self.key_of(name) == k,
    {
        assert(self.knows(name));
        let k2 = self.key_of(name);
        assert(self.holds_key(k2, name));
        if k2 != k {
            if k2 < k {
                assert(self.product_names@[k2]@ != self.product_names@[k]@);
            } else {
                assert(self.product_names@[k]@ != self.product_names@[k2]@);
            }
        }
    }

    pub fn new() -> (m: InventoryIdMap)
        ensures
            m.wf(),
            m.product_names@.len() == 0,
            m.next_id == 0,
    {
        InventoryIdMap { product_names: Vec::new(), next_id: 0 }
    }
}

impl Default for InventoryIdMap {
    fn default() -> (m: InventoryIdMap)
        ensures
            m.wf(),
            m.product_names@.len() == 0,
            m.next_id == 0,
    {
        InventoryIdMap::new()
    }
}

impl InventoryIdMap {

    /// Records a name never seen before under the next unused key.
    pub fn insert_new_key(&mut self, inventory: &String)
        requires
            old(self).wf(),
            !old(self).knows(inventory@),
        ensures
            final(self).wf(),
            final(self).product_names@ == old(self).product_names@.push(*inventory),
            final(self).next_id == old(self).next_id + 1,
    {
        self.product_names.push(inventory.clone());
        let n = self.product_names.len();
        proof {
            assert(self.next_id + 1 == n);
            let s = self.product_names@;
            assert forall|i: int, j: int| 0 <= i < j < s.len() implies (#[trigger] s[i])@ != (
            #[trigger] s[j])@ by {
                if j == s.len() - 1 {
                    assert(s[i] == old(self).product_names@[i]);
                    assert(s[j]@ == inventory@);
                    if s[i]@ == inventory@ {
                        assert(old(self).holds_key(i, inventory@));
                    }
                } else {
                    assert(s[i] == old(self).product_names@[i]);
                    assert(s[j] == old(self).product_names@[j]);
                }
            }
        }
        self.next_id = self.next_id + 1;
    }

    /// Looks a product name up, assigning the next unused key on first
    /// reference; the reported key always holds the name afterwards.
    #[verifier::loop_isolation(false)]
    pub fn get_inventory_key(&mut self, inventory: &String) -> (r: Result<u64, WarehouseError>)
        requires
            old(self).wf(),
        ensures
            final(self).wf(),
            r matches Ok(k) && final(self).holds_key(k as int, inventory@),
            old(self).knows(inventory@) ==> *final(self) == *old(self),
            !old(self).knows(inventory@) ==> {
                &&& final(self).product_names@ == old(self).product_names@.push(*inventory)
                &&& final(self).next_id == old(self).next_id + 1
                &&& (r matches Ok(k) && k == old(self).next_id)
            },
    {
        let n = self.product_names.len();
        let mut i: usize = 0;
        while i < n
            invariant
                0 <= i <= n,
                forall|j: int| 0 <= j < i ==> (#[trigger] self.product_names@[j])@ != inventory@,
            decreases n - i,
        {
            if self.product_names[i] == *inventory {
                proof {
                    assert(self.holds_key(i as int, inventory@));
                    self.lemma_key_of(i as int, inventory@);
                }
                return Ok(i as u64);
            }
            i += 1;
        }
        proof {
            if self.knows(inventory@) {
                let k = choose|k: int| self.holds_key(k, inventory@);
                assert(self.holds_key(k, inventory@));
                assert(self.product_names@[k]@ != inventory@);
            }
        }
        let key = self.next_id;
        self.insert_new_key(inventory);
        proof {
            assert(self.product_names@[key as int] == *inventory);
            assert(self.holds_key(key as int, inventory@));
        }
        Ok(key)
    }
}

/// Owns the product index, one lot heap per produced product, and the
/// append-only history; `transact` is the single entry point.
pub struct Warehouse {
    pub inventory_id_map: InventoryIdMap,
    pub inventory_heaps: Vec<Option<InventoryHeap>>,
    pub transaction_history: TransactionHistory,
}

impl Warehouse {
    /// Every assigned key has a slot, holding either no heap yet or a
    /// well-formed one.
    pub open spec fn wf(self) -> bool {
        &&& self.inventory_id_map.wf()
        &&& self.inventory_heaps@.len() == self.inventory_id_map.next_id
        &&& forall|k: int|
            #![trigger self.inventory_heaps@[k]]
            0 <= k < self.inventory_heaps@.len() ==> (self.inventory_heaps@[k] matches Some(h)
                ==> h.wf())
    }

    /// Whether a heap of lots exists for the product.
    pub open spec fn has_heap(self, name: Seq<char>) -> bool {
        &&& self.inventory_id_map.knows(name)
        &&& 0 <= self.inventory_id_map.key_of(name) < self.inventory_heaps@.len()
        &&& self.inventory_heaps@[self.inventory_id_map.key_of(name)] is Some
    }

    /// The product's open lots in heap order; empty where no heap exists.
    pub open spec fn lots_seq(self, name: Seq<char>) -> Seq<Inventory> {
        if self.has_heap(name) {
            match self.inventory_heaps@[self.inventory_id_map.key_of(name)] {
                Some(h) => h@,
                None => Seq::<Inventory>::empty(),
            }
        } else {
            Seq::<Inventory>::empty()
        }
    }

    /// The product's open lots, without order.
    pub open spec fn lots(self, name: Seq<char>) -> Multiset<Inventory> {
        self.lots_seq(name).to_multiset()
    }

    pub fn new() -> (w: Warehouse)
        ensures
            w.wf(),
            w.inventory_id_map.product_names@.len() == 0,
            w.inventory_heaps@.len() == 0,
            w.transaction_history.history@.len() == 0,
            forall|n: Seq<char>| #![trigger w.lots_seq(n)] w.lots_seq(n) == Seq::<Inventory>::empty(),
    {
        let w = Warehouse {
            inventory_id_map: InventoryIdMap::new(),
            inventory_heaps: Vec::new(),
            transaction_history: TransactionHistory { history: Vec::new() },
        };
        proof {
            assert forall|n: Seq<char>| #![trigger w.lots_seq(n)] w.lots_seq(n) == Seq::<
                Inventory,
            >::empty() by {
                if w.inventory_id_map.knows(n) {
                    let k = choose|k: int| w.inventory_id_map.holds_key(k, n);
                    assert(w.inventory_id_map.holds_key(k, n));
                }
            }
        }
        w
    }
}

impl Default for Warehouse {
    fn default() -> (w: Warehouse)
        ensures
            w.wf(),
            w.inventory_id_map.product_names@.len() == 0,
            w.inventory_heaps@.len() == 0,
            w.transaction_history.history@.len() == 0,
            forall|n: Seq<char>| #![trigger w.lots_seq(n)] w.lots_seq(n) == Seq::<Inventory>::empty(),
    {
        Warehouse::new()
    }
}

impl Warehouse {
    /// A produce must carry a cost and a consume must not; anything else
    /// is rejected before any state is touched.
    pub fn validate_transaction(&self, t: &Transaction) -> (r: Result<(), WarehouseError>)
        ensures
            t.valid() ==> r is Ok,
            !t.valid() ==> (r matches Err(e) && e == WarehouseError::InvalidTransaction),
    {
        match t.transaction_type {
            TransactionType::Produce => {
                match &t.total_cost {
                    None => Err(WarehouseError::InvalidTransaction),
                    Some(c) => {
                        if t.quantity == 0 || t.quantity > (i64::MAX as u64) {
                            Err(WarehouseError::InvalidTransaction)
                        } else if !c.is_valid() {
                            Err(WarehouseError::InvalidTransaction)
                        } else {
                            Ok(())
                        }
                    },
                }
            },
            TransactionType::Consume => {
                if t.total_cost.is_some() {
                    Err(WarehouseError::InvalidTransaction)
                } else {
                    Ok(())
                }
            },
        }
    }

    /// Resolves the product's key, creates its heap on first produce,
    /// and inserts one new lot priced at `total_cost / quantity`.
    pub fn produce(&mut self, t: &Transaction) -> (r: Result<(), WarehouseError>)
        requires
            old(self).wf(),
            t.transaction_type == TransactionType::Produce,
            t.valid(),
        ensures
            final(self).wf(),
            r is Ok,
            final(self).transaction_history == old(self).transaction_history,
            final(self).inventory_id_map.knows(t.inventory_id@),
            old(self).inventory_id_map.knows(t.inventory_id@) ==> final(self).inventory_id_map
                == old(self).inventory_id_map,
            !old(self).inventory_id_map.knows(t.inventory_id@) ==> final(self).inventory_id_map.product_names@ == old(self).inventory_id_map.product_names@.push(t.inventory_id),
            final(self).lots(t.inventory_id@) == old(self).lots(t.inventory_id@).insert(t.lot()),
            final(self).lots_seq(t.inventory_id@).len() == old(self).lots_seq(t.inventory_id@).len()
                + 1,
            total_quantity(final(self).lots_seq(t.inventory_id@)) == total_quantity(
                old(self).lots_seq(t.inventory_id@),
            ) + t.quantity,
            forall|n: Seq<char>|
                #![trigger final(self).lots_seq(n)]
                n != t.inventory_id@ ==> final(self).lots_seq(n) == old(self).lots_seq(n),
    {
        let ghost pre = *old(self);
        let ghost tn = t.inventory_id@;
        let id = match self.inventory_id_map.get_inventory_key(&t.inventory_id) {
            Ok(k) => k,
            Err(e) => {
                return Err(e);
            },
        };
        let hlen = self.inventory_heaps.len();
        proof {
            assert(self.inventory_id_map.holds_key(id as int, tn));
            if pre.inventory_id_map.knows(tn) {
                assert((id as int) < (hlen as int));
            } else {
                assert(id as int == hlen as int);
            }
        }
        if id == (hlen as u64) {
            self.inventory_heaps.push(None);
        }
        let idx = id as usize;
        let ghost hmid = self.inventory_heaps@;
        let ghost m1 = self.inventory_id_map;
        proof {
            assert(idx as int == id as int);
            assert((idx as int) < hmid.len());
            assert(hmid.len() == m1.next_id);
            if !pre.inventory_id_map.knows(tn) {
                assert(hmid[id as int] is None);
            } else {
                assert(hmid == pre.inventory_heaps@);
            }
        }
        let cost = match &t.total_cost {
            Some(c) => *c,
            None => {
                return Err(WarehouseError::InvalidTransaction);
            },
        };
        let price = crate::price::dec_div(&cost, t.quantity);
        let lot = Inventory { price_per_item: price, quantity: t.quantity };
        proof {
            assert(lot == t.lot());
            assert(lot.wf());
        }
        if self.inventory_heaps[idx].is_some() {
            let taken = self.inventory_heaps[idx].take();
            match taken {
                Some(mut h) => {
                    proof {
                        assert(h == hmid[id as int]->Some_0);
                        assert(h.wf());
                    }
                    h.insert(lot);
                    self.inventory_heaps[idx] = Some(h);
                },
                None => {},
            }
        } else {
            let mut h = InventoryHeap::new();
            h.insert(lot);
            self.inventory_heaps[idx] = Some(h);
        }
        proof {
            let post = *self;
            let k = id as int;
            let m0 = pre.inventory_id_map;
            lemma_empty_lots_multiset();
            m1.lemma_key_of(k, tn);
            assert(post.inventory_heaps@ =~= hmid.update(k, post.inventory_heaps@[k]));
            assert(post.inventory_heaps@[k] is Some);
            let hf = post.inventory_heaps@[k]->Some_0;
            // the new slot holds exactly the old lots plus the new one
            assert(hf.wf());
            if hmid[k] is Some {
                let h0 = hmid[k]->Some_0;
                assert(hf@.to_multiset() == h0@.to_multiset().insert(lot));
                assert(hf@.len() == h0@.len() + 1);
                assert(total_quantity(hf@) == total_quantity(h0@) + lot.quantity);
            } else {
                assert(hf@.to_multiset() == Seq::<Inventory>::empty().to_multiset().insert(lot));
                assert(hf@.len() == 1);
                assert(total_quantity(hf@) == lot.quantity);
            }
            // the warehouse invariant
            assert forall|j: int|
                #![trigger post.inventory_heaps@[j]]
                0 <= j < post.inventory_heaps@.len() implies (post.inventory_heaps@[j] matches Some(
                hh,
            ) ==> hh.wf()) by {
                if j != k {
                    assert(post.inventory_heaps@[j] == hmid[j]);
                    if m0.knows(tn) {
                        assert(hmid[j] == pre.inventory_heaps@[j]);
                    } else {
                        if j < pre.inventory_heaps@.len() {
                            assert(hmid[j] == pre.inventory_heaps@[j]);
                        } else {
                            assert(hmid[j] is None);
                        }
                    }
                }
            }
            assert(post.wf());
            // the produced product's lots
            assert(post.has_heap(tn));
            assert(post.lots_seq(tn) == hf@);
            if m0.knows(tn) {
                assert(m1 == m0);
                m0.lemma_key_of(k, tn);
                if pre.inventory_heaps@[k] is Some {
                    assert(pre.has_heap(tn));
                    assert(pre.lots_seq(tn) == pre.inventory_heaps@[k]->Some_0@);
                } else {
                    assert(!pre.has_heap(tn));
                    assert(pre.lots_seq(tn) == Seq::<Inventory>::empty());
                }
            } else {
                assert(!pre.has_heap(tn));
                assert(pre.lots_seq(tn) == Seq::<Inventory>::empty());
            }
            assert(post.lots(tn) == pre.lots(tn).insert(lot));
            // every other product's lots are untouched
            assert forall|n: Seq<char>|
                #![trigger post.lots_seq(n)]
                n != tn implies post.lots_seq(n) == pre.lots_seq(n) by {
                if m0.knows(n) {
                    let kn = choose|kk: int| m0.holds_key(kk, n);
                    assert(m0.holds_key(kn, n));
                    m0.lemma_key_of(kn, n);
                    assert(m1.product_names@[kn] == m0.product_names@[kn]);
                    assert(m1.holds_key(kn, n));
                    m1.lemma_key_of(kn, n);
                    assert(kn != k);
                    assert(kn < pre.inventory_heaps@.len());
                    assert(post.inventory_heaps@[kn] == pre.inventory_heaps@[kn]);
                } else {
                    if m1.knows(n) {
                        let kn = choose|kk: int| m1.holds_key(kk, n);
                        assert(m1.holds_key(kn, n));
                        if kn < m0.product_names@.len() {
                            assert(m0.holds_key(kn, n));
                        } else {
                            assert(m1.product_names@[kn]@ == tn);
                        }
                        assert(false);
                    }
                    assert(!pre.has_heap(n) && !post.has_heap(n));
                }
            }
        }
        Ok(())
    }

    /// Resolves the product's key and draws one unit of its cheapest
    /// lot; reports which lots exist for the product and how a missing
    /// or exhausted heap fails.
    pub fn consume(&mut self, t: &Transaction) -> (r: Result<InventoryView, WarehouseError>)
        requires
            old(self).wf(),
            t.transaction_type == TransactionType::Consume,
        ensures
            final(self).wf(),
            final(self).transaction_history == old(self).transaction_history,
            final(self).inventory_id_map.knows(t.inventory_id@),
            old(self).inventory_id_map.knows(t.inventory_id@) ==> final(self).inventory_id_map
                == old(self).inventory_id_map,
            !old(self).has_heap(t.inventory_id@) ==> (r matches Err(e) && e
                == WarehouseError::UnknownProduct) && (forall|n: Seq<char>|
                #![trigger final(self).lots_seq(n)]
                final(self).lots_seq(n) == old(self).lots_seq(n)),
            old(self).has_heap(t.inventory_id@) && old(self).lots_seq(t.inventory_id@).len() == 0
                ==> (r matches Err(e) && e == WarehouseError::InsufficientInventory) && (
            forall|n: Seq<char>|
                #![trigger final(self).lots_seq(n)]
                final(self).lots_seq(n) == old(self).lots_seq(n)),
            old(self).has_heap(t.inventory_id@) && old(self).lots_seq(t.inventory_id@).len() > 0
                ==> (r matches Ok(v) && extract_ok(
                old(self).lots_seq(t.inventory_id@),
                final(self).lots_seq(t.inventory_id@),
                v,
            )) && (forall|n: Seq<char>|
                #![trigger final(self).lots_seq(n)]
                n != t.inventory_id@ ==> final(self).lots_seq(n) == old(self).lots_seq(n)),
    {
        let ghost pre = *old(self);
        let ghost tn = t.inventory_id@;
        let id = match self.inventory_id_map.get_inventory_key(&t.inventory_id) {
            Ok(k) => k,
            Err(e) => {
                return Err(e);
            },
        };
        let hlen = self.inventory_heaps.len();
        proof {
            assert(self.inventory_id_map.holds_key(id as int, tn));
            if pre.inventory_id_map.knows(tn) {
                assert((id as int) < (hlen as int));
            } else {
                assert(id as int == hlen as int);
            }
        }
        if id == (hlen as u64) {
            self.inventory_heaps.push(None);
        }
        let idx = id as usize;
        let ghost hmid = self.inventory_heaps@;
        let ghost m1 = self.inventory_id_map;
        proof {
            assert(idx as int == id as int);
            assert((idx as int) < hmid.len());
            assert(hmid.len() == m1.next_id);
            m1.lemma_key_of(id as int, tn);
            if !pre.inventory_id_map.knows(tn) {
                assert(hmid[id as int] is None);
                assert(!pre.has_heap(tn));
            } else {
                assert(hmid == pre.inventory_heaps@);
                assert(m1 == pre.inventory_id_map);
                assert(pre.has_heap(tn) <==> hmid[id as int] is Some);
            }
        }
        if !self.inventory_heaps[idx].is_some() {
            proof {
                let post = *self;
                assert(!pre.has_heap(tn));
                assert(post.wf()) by {
                    assert forall|j: int|
                        #![trigger post.inventory_heaps@[j]]
                        0 <= j < post.inventory_heaps@.len() implies (post.inventory_heaps@[j]
                        matches Some(hh) ==> hh.wf()) by {
                        if j < pre.inventory_heaps@.len() {
                            assert(hmid[j] == pre.inventory_heaps@[j]);
                        }
                    }
                }
                Self::lemma_lots_unchanged(pre, post, tn);
            }
            return Err(WarehouseError::UnknownProduct);
        }
        let taken = self.inventory_heaps[idx].take();
        match taken {
            Some(mut h) => {
                proof {
                    assert(h == hmid[id as int]->Some_0);
                    assert(h.wf());
                    assert(pre.has_heap(tn));
                    assert(pre.lots_seq(tn) == h@);
                }
                let res = h.extract();
                self.inventory_heaps[idx] = Some(h);
                proof {
                    let post = *self;
                    let k = id as int;
                    assert(post.inventory_heaps@ =~= hmid.update(k, post.inventory_heaps@[k]));
                    assert(post.inventory_heaps@[k] is Some);
                    let hf = post.inventory_heaps@[k]->Some_0;
                    assert(hf.wf());
                    assert forall|j: int|
                        #![trigger post.inventory_heaps@[j]]
                        0 <= j < post.inventory_heaps@.len() implies (post.inventory_heaps@[j]
                        matches Some(hh) ==> hh.wf()) by {
                        if j != k {
                            assert(post.inventory_heaps@[j] == hmid[j]);
                            assert(hmid[j] == pre.inventory_heaps@[j]);
                        }
                    }
                    assert(post.wf());
                    assert(post.has_heap(tn));
                    assert(post.lots_seq(tn) == hf@);
                    // every other product's lots are untouched
                    let m0 = pre.inventory_id_map;
                    assert forall|n: Seq<char>|
                        #![trigger post.lots_seq(n)]
                        n != tn implies post.lots_seq(n) == pre.lots_seq(n) by {
                        if m0.knows(n) {
                            let kn = choose|kk: int| m0.holds_key(kk, n);
                            assert(m0.holds_key(kn, n));
                            m0.lemma_key_of(kn, n);
                            assert(m1.holds_key(kn, n));
                            m1.lemma_key_of(kn, n);
                            assert(kn != k);
                            assert(post.inventory_heaps@[kn] == pre.inventory_heaps@[kn]);
                        } else {
                            if m1.knows(n) {
                                let kn = choose|kk: int| m1.holds_key(kk, n);
                                assert(m1.holds_key(kn, n));
                                assert(m0.holds_key(kn, n));
                                assert(false);
                            }
                            assert(!pre.has_heap(n) && !post.has_heap(n));
                        }
                    }
                }
                match res {
                    Ok(v) => Ok(v),
                    Err(_) => Err(WarehouseError::InsufficientInventory),
                }
            },
            None => Err(WarehouseError::UnknownProduct),
        }
    }

    /// Two warehouse states that differ at most by registering one
    /// fresh name with an empty slot hold the same lots for every
    /// product.
    proof fn lemma_lots_unchanged(pre: Warehouse, post: Warehouse, fresh: Seq<char>)
        requires
            pre.wf(),
            post.wf(),
            !pre.has_heap(fresh),
            pre.inventory_id_map.knows(fresh) ==> post.inventory_id_map == pre.inventory_id_map
                && post.inventory_heaps@ == pre.inventory_heaps@,
            !pre.inventory_id_map.knows(fresh) ==> {
                &&& post.inventory_id_map.product_names@
                    == pre.inventory_id_map.product_names@.push(
                    post.inventory_id_map.product_names@.last(),
                )
                &&& post.inventory_id_map.product_names@.last()@ == fresh
                &&& post.inventory_heaps@ == pre.inventory_heaps@.push(None)
            },
        ensures
            forall|n: Seq<char>|
                #![trigger post.lots_seq(n)]
                post.lots_seq(n) == pre.lots_seq(n),
    {
        let m0 = pre.inventory_id_map;
        let m1 = post.inventory_id_map;
        assert forall|n: Seq<char>| #![trigger post.lots_seq(n)] post.lots_seq(n) == pre.lots_seq(
            n,
        ) by {
            if m0.knows(n) {
                let kn = choose|kk: int| m0.holds_key(kk, n);
                assert(m0.holds_key(kn, n));
                m0.lemma_key_of(kn, n);
                if !m0.knows(fresh) {
                    assert(m1.product_names@[kn] == m0.product_names@[kn]);
                }
                assert(m1.holds_key(kn, n));
                m1.lemma_key_of(kn, n);
                assert(kn < pre.inventory_heaps@.len());
                assert(post.inventory_heaps@[kn] == pre.inventory_heaps@[kn]);
            } else {
                if m1.knows(n) {
                    let kn = choose|kk: int| m1.holds_key(kk, n);
                    assert(m1.holds_key(kn, n));
                    if kn < m0.product_names@.len() {
                        assert(m0.holds_key(kn, n));
                    } else {
                        assert(n == fresh);
                        assert(!post.has_heap(n)) by {
                            m1.lemma_key_of(kn, n);
                            assert(post.inventory_heaps@[kn] is None);
                        }
                    }
                }
                if !m1.knows(n) {
                    assert(!post.has_heap(n));
                }
                assert(!pre.has_heap(n));
                assert(post.lots_seq(n) == Seq::<Inventory>::empty());
                assert(pre.lots_seq(n) == Seq::<Inventory>::empty());
            }
        }
    }

    /// The single entry point: validates, routes to produce or consume,
    /// and appends the transaction to the history only on success.  A
    /// successful consume reports the price of the unit that was drawn.
    pub fn transact(&mut self, t: Transaction) -> (r: Result<
        Option<InventoryView>,
        WarehouseError,
    >)
        requires
            old(self).wf(),
        ensures
            final(self).wf(),
            !t.valid() ==> (r matches Err(e) && e == WarehouseError::InvalidTransaction) && *final(self) == *old(self),
            t.valid() && t.transaction_type == TransactionType::Produce ==> {
                &&& r matches Ok(o) && o is None
                &&& final(self).transaction_history.history@ == old(self).transaction_history.history@.push(t)
                &&& final(self).lots(t.inventory_id@) == old(self).lots(t.inventory_id@).insert(
                    t.lot(),
                )
                &&& total_quantity(final(self).lots_seq(t.inventory_id@)) == total_quantity(
                    old(self).lots_seq(t.inventory_id@),
                ) + t.quantity
                &&& forall|n: Seq<char>|
                    #![trigger final(self).lots_seq(n)]
                    n != t.inventory_id@ ==> final(self).lots_seq(n) == old(self).lots_seq(n)
            },
            t.valid() && t.transaction_type == TransactionType::Consume && !old(self).has_heap(
                t.inventory_id@,
            ) ==> (r matches Err(e) && e == WarehouseError::UnknownProduct) && final(self).transaction_history.history@ == old(self).transaction_history.history@ && (
            forall|n: Seq<char>|
                #![trigger final(self).lots_seq(n)]
                final(self).lots_seq(n) == old(self).lots_seq(n)),
            t.valid() && t.transaction_type == TransactionType::Consume && old(self).has_heap(
                t.inventory_id@,
            ) && old(self).lots_seq(t.inventory_id@).len() == 0 ==> (r matches Err(e) && e
                == WarehouseError::InsufficientInventory) && final(self).transaction_history.history@ == old(self).transaction_history.history@ && (
            forall|n: Seq<char>|
                #![trigger final(self).lots_seq(n)]
                final(self).lots_seq(n) == old(self).lots_seq(n)),
            t.valid() && t.transaction_type == TransactionType::Consume && old(self).has_heap(
                t.inventory_id@,
            ) && old(self).lots_seq(t.inventory_id@).len() > 0 ==> (r matches Ok(o) && o matches
                Some(v) && extract_ok(
                old(self).lots_seq(t.inventory_id@),
                final(self).lots_seq(t.inventory_id@),
                v,
            )) && final(self).transaction_history.history@ == old(self).transaction_history.history@.push(t) && (forall|n: Seq<char>|
                #![trigger final(self).lots_seq(n)]
                n != t.inventory_id@ ==> final(self).lots_seq(n) == old(self).lots_seq(n)),
    {
        match self.validate_transaction(&t) {
            Err(e) => {
                return Err(e);
            },
            Ok(_) => {},
        }
        let view = match t.transaction_type {
            TransactionType::Produce => {
                match self.produce(&t) {
                    Ok(_) => None,
                    Err(e) => {
                        return Err(e);
                    },
                }
            },
            TransactionType::Consume => {
                match self.consume(&t) {
                    Ok(v) => Some(v),
                    Err(e) => {
                        return Err(e);
                    },
                }
            },
        };
        let ghost mid = *self;
        self.transaction_history.history.push(t);
        proof {
            let post = *self;
            assert(post.inventory_id_map == mid.inventory_id_map);
            assert(post.inventory_heaps@ == mid.inventory_heaps@);
            assert forall|n: Seq<char>| #![trigger post.lots_seq(n)] post.lots_seq(n)
                == mid.lots_seq(n) by {
                assert(post.has_heap(n) == mid.has_heap(n));
            }
            assert(post.lots_seq(t.inventory_id@) == mid.lots_seq(t.inventory_id@));
            assert(post.lots(t.inventory_id@) == mid.lots(t.inventory_id@));
        }
        Ok(view)
    }
}

/// A sequence with no lots holds the empty multiset.
proof fn lemma_empty_lots_multiset()
    ensures
        Seq::<Inventory>::empty().to_multiset() == Multiset::<Inventory>::empty(),
{
    let s = Seq::<Inventory>::empty();
    assert forall|x: Inventory| s.to_multiset().count(x) == 0 by {
        if s.to_multiset().count(x) > 0 {
            assert(s.contains(x));
        }
    }
    assert(s.to_multiset() =~= Multiset::<Inventory>::empty());
}

} // verus!
