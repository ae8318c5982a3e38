//! Inventory management: SKUs with stock on hand, reorder points and
//! receive / issue movements.
use vstd::prelude::*;
use crate::common::{Id, Money, fits_i64, lookup, sum, sum_fits};
use crate::errors::ErpError;

verus! {

/// Stock-Keeping Unit with inventory tracking.
#[derive(Debug, Clone, PartialEq, Eq)]
pub struct Sku {
    pub id: Id,
    pub name: String,
    pub description: String,
    pub unit: String,
    pub stock_on_hand: i64,
    pub reorder_point: i64,
    pub reorder_quantity: i64,
    pub standard_cost: Money,
}

impl Sku {
    /// Stock is at or below the reorder point.
    pub open spec fn spec_needs_reorder(self) -> bool {
        self.stock_on_hand <= self.reorder_point
    }

    /// The SKU after receiving `qty`, or the error that `receive` reports.
    pub open spec fn spec_receive(self, qty: int) -> Result<Sku, ErpError> {
        if qty < 0 {
            Err(ErpError::InvalidQuantity)
        } else {
            Ok(Sku { stock_on_hand: (self.stock_on_hand + qty) as i64, ..self })
        }
    }

    /// Receiving `qty` does not overflow the stock counter.
    pub open spec fn receive_fits(self, qty: int) -> bool {
        qty < 0 || fits_i64(self.stock_on_hand + qty)
    }

    /// The SKU after issuing `qty`, or the error that `issue` reports.
    pub open spec fn spec_issue(self, qty: int) -> Result<Sku, ErpError> {
        if qty < 0 {
            Err(ErpError::InvalidQuantity)
        } else if qty > self.stock_on_hand {
            Err(ErpError::InsufficientStock)
        } else {
            Ok(Sku { stock_on_hand: (self.stock_on_hand - qty) as i64, ..self })
        }
    }

    /// Value of the stock on hand at standard cost.
    pub open spec fn spec_value(self) -> int {
        self.standard_cost * self.stock_on_hand
    }

    /// A new SKU with no stock and an empty description.
    pub fn new(
        id: Id,
        name: &str,
        unit: &str,
        reorder_point: i64,
        reorder_quantity: i64,
        standard_cost: Money,
    ) -> (sku: Self)
        ensures
            sku.id == id,
            sku.name@ == name@,
            sku.description@ == Seq::<char>::empty(),
            sku.unit@ == unit@,
            sku.stock_on_hand == 0,
            sku.reorder_point == reorder_point,
            sku.reorder_quantity == reorder_quantity,
            sku.standard_cost == standard_cost,
    {
        Sku {
            id,
            name: name.to_owned(),
            description: String::new(),
            unit: unit.to_owned(),
            stock_on_hand: 0,
            reorder_point,
            reorder_quantity,
            standard_cost,
        }
    }

    /// Returns `true` if stock is at or below the reorder point.
    pub fn needs_reorder(&self) -> (r: bool)
        ensures
            r == self.spec_needs_reorder(),
    {
        self.stock_on_hand <= self.reorder_point
    }

    /// Receive stock (increase on-hand); a negative quantity is refused.
    pub fn receive(&mut self, qty: i64) -> (r: Result<(), ErpError>)
        requires
            old(self).receive_fits(qty as int),
        ensures
            match old(self).spec_receive(qty as int) {
                Ok(s) => r == Ok::<(), ErpError>(()) && *final(self) == s,
                Err(e) => r == Err::<(), ErpError>(e) && *final(self) == *old(self),
            },
    {
        if qty < 0 {
            return Err(ErpError::InvalidQuantity);
        }
        self.stock_on_hand = self.stock_on_hand + qty;
        Ok(())
    }

    /// Issue (consume) stock; a negative quantity or one above the stock on
    /// hand is refused.
    pub fn issue(&mut self, qty: i64) -> (r: Result<(), ErpError>)
        ensures
            match old(self).spec_issue(qty as int) {
                Ok(s) => r == Ok::<(), ErpError>(()) && *final(self) == s,
                Err(e) => r == Err::<(), ErpError>(e) && *final(self) == *old(self),
            },
    {
        if qty < 0 {
            return Err(ErpError::InvalidQuantity);
        }
        if qty > self.stock_on_hand {
            return Err(ErpError::InsufficientStock);
        }
        self.stock_on_hand = self.stock_on_hand - qty;
        Ok(())
    }
}

/// Whether `id` names a SKU of an inventory whose SKUs are `skus`; the SKU
/// with id `k` stands at position `k - 1`.
pub open spec fn has_sku(skus: Seq<Sku>, id: Id) -> bool {
    1 <= id <= skus.len()
}

/// Receiving `qty` of SKU `id`: the new SKUs and the error, if any. An
/// unknown SKU is skipped.
pub open spec fn receive_into(skus: Seq<Sku>, id: Id, qty: int) -> (Seq<Sku>, Option<ErpError>) {
    if has_sku(skus, id) {
        match skus[id - 1].spec_receive(qty) {
            Ok(s) => (skus.update(id - 1, s), None),
            Err(e) => (skus, Some(e)),
        }
    } else {
        (skus, None)
    }
}

/// Receiving `qty` of SKU `id` does not overflow.
pub open spec fn receive_into_fits(skus: Seq<Sku>, id: Id, qty: int) -> bool {
    has_sku(skus, id) ==> skus[id - 1].receive_fits(qty)
}

/// Issuing `qty` of SKU `id`: the new SKUs and the error, if any. An unknown
/// SKU is skipped.
pub open spec fn issue_from(skus: Seq<Sku>, id: Id, qty: int) -> (Seq<Sku>, Option<ErpError>) {
    if has_sku(skus, id) {
        match skus[id - 1].spec_issue(qty) {
            Ok(s) => (skus.update(id - 1, s), None),
            Err(e) => (skus, Some(e)),
        }
    } else {
        (skus, None)
    }
}

/// The SKUs at or below their reorder point, in id order.
pub open spec fn needing_reorder(skus: Seq<Sku>) -> Seq<Sku> {
    skus.filter(|s: Sku| s.spec_needs_reorder())
}

/// Values at standard cost of the SKUs, in id order.
pub open spec fn values_of(skus: Seq<Sku>) -> Seq<int> {
    Seq::new(skus.len(), |i: int| skus[i].spec_value())
}

/// Central inventory holding all SKUs; SKU ids are assigned 1, 2, 3, ...
/// in order of addition.
#[derive(Debug)]
pub struct Inventory {
    skus: Vec<Sku>,
}

impl View for Inventory {
    type V = Seq<Sku>;

    /// The SKUs in id order: the SKU with id `k` is at position `k - 1`.
    closed spec fn view(&self) -> Seq<Sku> {
        self.skus@
    }
}

impl Default for Inventory {
    /// An empty inventory.
    fn default() -> (inv: Self)
        ensures
            inv@ == Seq::<Sku>::empty(),
    {
        Inventory::new()
    }
}

impl Inventory {
    /// An empty inventory.
    pub fn new() -> (inv: Self)
        ensures
            inv@ == Seq::<Sku>::empty(),
    {
        Inventory { skus: Vec::new() }
    }

    /// Add a new SKU and return its assigned ID (one more than the number
    /// of SKUs before).
    pub fn add_sku(
        &mut self,
        name: &str,
        unit: &str,
        reorder_point: i64,
        reorder_quantity: i64,
        standard_cost: Money,
    ) -> (id: Id)
        requires
            old(self)@.len() < u64::MAX,
        ensures
            id == old(self)@.len() + 1,
            final(self)@.len() == id,
            final(self)@.take(old(self)@.len() as int) == old(self)@,
            final(self)@[id - 1].id == id,
            final(self)@[id - 1].name@ == name@,
            final(self)@[id - 1].description@ == Seq::<char>::empty(),
            final(self)@[id - 1].unit@ == unit@,
            final(self)@[id - 1].stock_on_hand == 0,
            final(self)@[id - 1].reorder_point == reorder_point,
            final(self)@[id - 1].reorder_quantity == reorder_quantity,
            final(self)@[id - 1].standard_cost == standard_cost,
    {
        let id: Id = self.skus.len() as u64 + 1;
        let sku = Sku::new(id, name, unit, reorder_point, reorder_quantity, standard_cost);
        self.skus.push(sku);
        assert(self.skus@.take(old(self)@.len() as int) == old(self)@);
        id
    }

    /// Get a reference to a SKU.
    pub fn get_sku(&self, id: Id) -> (r: Option<&Sku>)
        ensures
            match r {
                Some(s) => lookup(self@, id) == Some(*s),
                None => lookup(self@, id) is None,
            },
    {
        if id >= 1 && id <= self.skus.len() as u64 {
            Some(&self.skus[(id - 1) as usize])
        } else {
            None
        }
    }

    /// Get a mutable reference to a SKU.
    pub fn get_sku_mut(&mut self, id: Id) -> (r: Option<&mut Sku>)
        ensures
            match r {
                Some(s) => {
                    &&& lookup(old(self)@, id) == Some(*s)
                    &&& final(self)@ == old(self)@.update(id - 1, *final(s))
                },
                None => lookup(old(self)@, id) is None && final(self)@ == old(self)@,
            },
    {
        if id >= 1 && id <= self.skus.len() as u64 {
            Some(&mut self.skus[(id - 1) as usize])
        } else {
            None
        }
    }

    /// List all SKUs that need reordering, in id order.
    pub fn reorder_list(&self) -> (r: Vec<&Sku>)
        ensures
            r@.len() == needing_reorder(self@).len(),
            forall|i: int| 0 <= i < r@.len() ==> *#[trigger] r@[i] == needing_reorder(self@)[i],
    {
        let ghost pred = |s: Sku| s.spec_needs_reorder();
        assert(needing_reorder(self@) == self.skus@.filter(pred));
        let mut out: Vec<&Sku> = Vec::new();
        let n = self.skus.len();
        let mut i: usize = 0;
        while i < n
            invariant
                n == self.skus@.len(),
                pred == (|s: Sku| s.spec_needs_reorder()),
                0 <= i <= n,
                out@.len() == self.skus@.take(i as int).filter(pred).len(),
                forall|k: int|
                    0 <= k < out@.len() ==> *#[trigger] out@[k] == self.skus@.take(i as int).filter(
                        pred,
                    )[k],
            decreases n - i,
        {
            proof {
                let t = self.skus@.take(i + 1);
                reveal_with_fuel(Seq::<_>::filter, 1);
                assert(t.drop_last() =~= self.skus@.take(i as int));
                assert(t.last() == self.skus@[i as int]);
                assert(t.filter(pred) == if pred(t.last()) {
                    self.skus@.take(i as int).filter(pred).push(t.last())
                } else {
                    self.skus@.take(i as int).filter(pred)
                });
            }
            if self.skus[i].needs_reorder() {
                out.push(&self.skus[i]);
            }
            i = i + 1;
        }
        assert(self.skus@.take(n as int) =~= self.skus@);
        out
    }

    /// Number of distinct SKUs.
    pub fn sku_count(&self) -> (n: usize)
        ensures
            n == self@.len(),
    {
        self.skus.len()
    }

    /// Total value of inventory at standard cost: the sum over SKUs of
    /// standard cost times stock on hand.
    pub fn total_value(&self) -> (v: Money)
        requires
            forall|i: int| 0 <= i < self@.len() ==> fits_i64(#[trigger] self@[i].spec_value()),
            sum_fits(values_of(self@)),
        ensures
            v == sum(values_of(self@)),
    {
        let ghost vals = values_of(self.skus@);
        let mut total: i64 = 0;
        let n = self.skus.len();
        let mut i: usize = 0;
        while i < n
            invariant
                n == self.skus@.len(),
                vals == values_of(self.skus@),
                0 <= i <= n,
                total == sum(vals.take(i as int)),
                forall|k: int| 0 <= k < n ==> fits_i64(#[trigger] self.skus@[k].spec_value()),
                sum_fits(vals),
            decreases n - i,
        {
            let s = &self.skus[i];
            assert(vals.take(i + 1).drop_last() =~= vals.take(i as int));
            assert(fits_i64(sum(vals.take(i + 1))));
            total = total + s.standard_cost * s.stock_on_hand;
            i = i + 1;
        }
        assert(vals.take(n as int) =~= vals);
        total
    }
}

/// Issuing what was just received restores a SKU with non-negative stock.
pub proof fn lemma_receive_then_issue(sku: Sku, qty: int)
    requires
        sku.stock_on_hand >= 0,
        qty >= 0,
        sku.receive_fits(qty),
        fits_i64(qty),
    ensures
        sku.spec_receive(qty) is Ok,
        sku.spec_receive(qty)->Ok_0.spec_issue(qty) == Ok::<Sku, ErpError>(sku),
{
    let s1 = sku.spec_receive(qty)->Ok_0;
    assert(s1.stock_on_hand == sku.stock_on_hand + qty);
    assert(s1.spec_issue(qty)->Ok_0.stock_on_hand == sku.stock_on_hand);
    assert(s1.spec_issue(qty)->Ok_0 == sku);
}

/// A successful issue never leaves negative stock, and a successful
/// receipt never lowers the stock.
pub proof fn lemma_movement_bounds(sku: Sku, qty: int)
    ensures
        sku.spec_issue(qty) is Ok ==> sku.spec_issue(qty)->Ok_0.stock_on_hand >= 0,
        (sku.spec_receive(qty) is Ok && sku.receive_fits(qty)) ==> sku.spec_receive(qty)->Ok_0.stock_on_hand
            >= sku.stock_on_hand,
{
}

} // verus!
