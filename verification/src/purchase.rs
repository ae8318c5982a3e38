//! Purchase orders: creation, an approval workflow and goods receipt.
use vstd::prelude::*;
use crate::common::{Id, Money, Timestamp, fits_i64, lookup, sum, sum_fits};
use crate::errors::ErpError;
use crate::inventory::{Inventory, Sku, has_sku, receive_into, receive_into_fits};

verus! {

/// Status of a purchase order.
#[derive(Debug, Clone, Copy, PartialEq, Eq, Structural)]
pub enum PoStatus {
    Draft,
    Submitted,
    Approved,
    Received,
    Cancelled,
}

impl PoStatus {
    /// The status after `submit`: only a draft can be submitted.
    pub open spec fn spec_submit(self) -> Result<PoStatus, ErpError> {
        if self == PoStatus::Draft {
            Ok(PoStatus::Submitted)
        } else {
            Err(ErpError::InvalidStatusTransition)
        }
    }

    /// The status after `approve`: only a submitted order can be approved.
    pub open spec fn spec_approve(self) -> Result<PoStatus, ErpError> {
        if self == PoStatus::Submitted {
            Ok(PoStatus::Approved)
        } else {
            Err(ErpError::InvalidStatusTransition)
        }
    }

    /// The status after `cancel`: any order not yet received or cancelled
    /// can be cancelled.
    pub open spec fn spec_cancel(self) -> Result<PoStatus, ErpError> {
        if self == PoStatus::Received || self == PoStatus::Cancelled {
            Err(ErpError::InvalidStatusTransition)
        } else {
            Ok(PoStatus::Cancelled)
        }
    }
}

/// A line item on a purchase order.
#[derive(Debug, Clone, Copy, PartialEq, Eq, Structural)]
pub struct PoLine {
    pub sku_id: Id,
    pub quantity: i64,
    pub unit_cost: Money,
}

impl PoLine {
    /// Unit cost times quantity.
    pub open spec fn spec_total(self) -> int {
        self.unit_cost * self.quantity
    }

    /// Unit cost times quantity.
    pub fn line_total(&self) -> (t: Money)
        requires
            fits_i64(self.spec_total()),
        ensures
            t == self.spec_total(),
    {
        self.unit_cost * self.quantity
    }
}

/// The totals of the lines, in order.
pub open spec fn line_totals(lines: Seq<PoLine>) -> Seq<int> {
    Seq::new(lines.len(), |i: int| lines[i].spec_total())
}

/// Receiving the lines one after the other into the SKUs: the SKUs
/// afterwards and the first error, if any. A line for an unknown SKU is
/// skipped; after an error no further line is received.
pub open spec fn receive_lines(skus: Seq<Sku>, lines: Seq<PoLine>) -> (Seq<Sku>, Option<ErpError>)
    decreases lines.len(),
{
    if lines.len() == 0 {
        (skus, None)
    } else {
        let (s, e) = receive_lines(skus, lines.drop_last());
        if e is Some {
            (s, e)
        } else {
            receive_into(s, lines.last().sku_id, lines.last().quantity as int)
        }
    }
}

/// Receiving the lines one after the other keeps every stock within `i64`.
pub open spec fn receive_lines_fit(skus: Seq<Sku>, lines: Seq<PoLine>) -> bool
    decreases lines.len(),
{
    if lines.len() == 0 {
        true
    } else {
        let (s, e) = receive_lines(skus, lines.drop_last());
        &&& receive_lines_fit(skus, lines.drop_last())
        &&& e is None ==> receive_into_fits(s, lines.last().sku_id, lines.last().quantity as int)
    }
}

/// A purchase order.
#[derive(Debug, Clone)]
pub struct PurchaseOrder {
    pub id: Id,
    pub supplier: String,
    pub status: PoStatus,
    pub lines: Vec<PoLine>,
    pub created_at: Timestamp,
}

impl PurchaseOrder {
    /// A draft purchase order with no lines.
    pub fn new(id: Id, supplier: &str, created_at: Timestamp) -> (po: Self)
        ensures
            po.id == id,
            po.supplier@ == supplier@,
            po.status == PoStatus::Draft,
            po.lines@ == Seq::<PoLine>::empty(),
            po.created_at == created_at,
    {
        PurchaseOrder {
            id,
            supplier: supplier.to_owned(),
            status: PoStatus::Draft,
            lines: Vec::new(),
            created_at,
        }
    }

    /// Append a line item.
    pub fn add_line(&mut self, sku_id: Id, quantity: i64, unit_cost: Money)
        ensures
            final(self).lines@ == old(self).lines@.push(PoLine { sku_id, quantity, unit_cost }),
            final(self).id == old(self).id,
            final(self).supplier == old(self).supplier,
            final(self).status == old(self).status,
            final(self).created_at == old(self).created_at,
    {
        self.lines.push(PoLine { sku_id, quantity, unit_cost });
    }

    /// Sum of the line totals.
    pub fn total(&self) -> (t: Money)
        requires
            forall|i: int| 0 <= i < self.lines@.len() ==> fits_i64(#[trigger] self.lines@[i].spec_total()),
            sum_fits(line_totals(self.lines@)),
        ensures
            t == sum(line_totals(self.lines@)),
    {
        let ghost totals = line_totals(self.lines@);
        let mut acc: i64 = 0;
        let n = self.lines.len();
        let mut i: usize = 0;
        while i < n
            invariant
                n == self.lines@.len(),
                totals == line_totals(self.lines@),
                forall|k: int| 0 <= k < n ==> fits_i64(#[trigger] self.lines@[k].spec_total()),
                sum_fits(totals),
                0 <= i <= n,
                acc == sum(totals.take(i as int)),
            decreases n - i,
        {
            let t = self.lines[i].line_total();
            assert(totals.take(i + 1).drop_last() =~= totals.take(i as int));
            assert(fits_i64(sum(totals.take(i + 1))));
            acc = acc + t;
            i = i + 1;
        }
        assert(totals.take(n as int) =~= totals);
        acc
    }

    /// Submit a draft for approval; a refused submission changes nothing.
    pub fn submit(&mut self) -> (r: Result<(), ErpError>)
        ensures
            match old(self).status.spec_submit() {
                Ok(st) => {
                    &&& r == Ok::<(), ErpError>(())
                    &&& final(self).status == st
                },
                Err(e) => r == Err::<(), ErpError>(e) && final(self).status == old(self).status,
            },
            final(self).id == old(self).id,
            final(self).supplier == old(self).supplier,
            final(self).lines == old(self).lines,
            final(self).created_at == old(self).created_at,
            (r is Ok) == (old(self).status == PoStatus::Draft),
            r is Ok ==> final(self).status == PoStatus::Submitted,
            r is Err ==> r == Err::<(), ErpError>(ErpError::InvalidStatusTransition) && final(self).status == old(self).status,
    {
        if self.status != PoStatus::Draft {
            return Err(ErpError::InvalidStatusTransition);
        }
        self.status = PoStatus::Submitted;
        Ok(())
    }

    /// Approve a submitted order; a refused approval changes nothing.
    pub fn approve(&mut self) -> (r: Result<(), ErpError>)
        ensures
            match old(self).status.spec_approve() {
                Ok(st) => {
                    &&& r == Ok::<(), ErpError>(())
                    &&& final(self).status == st
                },
                Err(e) => r == Err::<(), ErpError>(e) && final(self).status == old(self).status,
            },
            final(self).id == old(self).id,
            final(self).supplier == old(self).supplier,
            final(self).lines == old(self).lines,
            final(self).created_at == old(self).created_at,
            (r is Ok) == (old(self).status == PoStatus::Submitted),
            r is Ok ==> final(self).status == PoStatus::Approved,
            r is Err ==> r == Err::<(), ErpError>(ErpError::InvalidStatusTransition) && final(self).status == old(self).status,
    {
        if self.status != PoStatus::Submitted {
            return Err(ErpError::InvalidStatusTransition);
        }
        self.status = PoStatus::Approved;
        Ok(())
    }

    /// Mark an approved order as received, receiving each line into the
    /// inventory (lines for unknown SKUs are skipped). On an error the
    /// order keeps its status and the inventory keeps the receipts made
    /// before the error.
    pub fn receive(&mut self, inventory: &mut Inventory) -> (r: Result<(), ErpError>)
        requires
            old(self).status == PoStatus::Approved ==> receive_lines_fit(
                old(inventory)@,
                old(self).lines@,
            ),
        ensures
            final(self).id == old(self).id,
            final(self).supplier == old(self).supplier,
            final(self).lines == old(self).lines,
            final(self).created_at == old(self).created_at,
            old(self).status != PoStatus::Approved ==> {
                &&& r == Err::<(), ErpError>(ErpError::InvalidStatusTransition)
                &&& final(self).status == old(self).status
                &&& final(inventory)@ == old(inventory)@
            },
            old(self).status == PoStatus::Approved ==> {
                let (skus, e) = receive_lines(old(inventory)@, old(self).lines@);
                &&& final(inventory)@ == skus
                &&& match e {
                    Some(err) => r == Err::<(), ErpError>(err) && final(self).status == old(self).status,
                    None => r == Ok::<(), ErpError>(()) && final(self).status == PoStatus::Received,
                }
            },
    {
        if self.status != PoStatus::Approved {
            return Err(ErpError::InvalidStatusTransition);
        }
        let ghost lines = self.lines@;
        let ghost skus0 = inventory@;
        let n = self.lines.len();
        let mut i: usize = 0;
        while i < n
            invariant
                n == self.lines@.len(),
                lines == self.lines@,
                *self == *old(self),
                self.status == PoStatus::Approved,
                skus0 == old(inventory)@,
                0 <= i <= n,
                receive_lines_fit(skus0, lines),
                receive_lines(skus0, lines.take(i as int)) == (inventory@, None::<ErpError>),
            decreases n - i,
        {
            let line = self.lines[i];
            proof {
                assert(lines.take(i + 1).drop_last() =~= lines.take(i as int));
                lemma_receive_lines_fit_prefix(skus0, lines, i + 1);
            }
            if let Some(sku) = inventory.get_sku_mut(line.sku_id) {
                let res = sku.receive(line.quantity);
                if let Err(e) = res {
                    proof {
                        lemma_receive_lines_error_sticks(skus0, lines, i + 1);
                    }
                    return Err(e);
                }
            }
            i = i + 1;
        }
        assert(lines.take(n as int) =~= lines);
        self.status = PoStatus::Received;
        Ok(())
    }

    /// Cancel the order unless it is already received or cancelled.
    pub fn cancel(&mut self) -> (r: Result<(), ErpError>)
        ensures
            match old(self).status.spec_cancel() {
                Ok(st) => {
                    &&& r == Ok::<(), ErpError>(())
                    &&& final(self).status == st
                },
                Err(e) => r == Err::<(), ErpError>(e) && final(self).status == old(self).status,
            },
            final(self).id == old(self).id,
            final(self).supplier == old(self).supplier,
            final(self).lines == old(self).lines,
            final(self).created_at == old(self).created_at,
            (r is Ok) == (old(self).status != PoStatus::Received && old(self).status != PoStatus::Cancelled),
            r is Ok ==> final(self).status == PoStatus::Cancelled,
            r is Err ==> r == Err::<(), ErpError>(ErpError::InvalidStatusTransition) && final(self).status == old(self).status,
    {
        if self.status == PoStatus::Received || self.status == PoStatus::Cancelled {
            return Err(ErpError::InvalidStatusTransition);
        }
        self.status = PoStatus::Cancelled;
        Ok(())
    }

    /// Number of line items.
    pub fn line_count(&self) -> (n: usize)
        ensures
            n == self.lines@.len(),
    {
        self.lines.len()
    }
}

/// Once receipt of a prefix of the lines fails, receiving all of them fails
/// the same way.
proof fn lemma_receive_lines_error_sticks(skus: Seq<Sku>, lines: Seq<PoLine>, k: int)
    requires
        0 <= k <= lines.len(),
        receive_lines(skus, lines.take(k)).1 is Some,
    ensures
        receive_lines(skus, lines) == receive_lines(skus, lines.take(k)),
    decreases lines.len() - k,
{
    if k < lines.len() {
        assert(lines.take(k + 1).drop_last() =~= lines.take(k));
        lemma_receive_lines_error_sticks(skus, lines, k + 1);
    } else {
        assert(lines.take(k) =~= lines);
    }
}

/// `receive_lines_fit` for all lines gives it for every prefix.
proof fn lemma_receive_lines_fit_prefix(skus: Seq<Sku>, lines: Seq<PoLine>, k: int)
    requires
        receive_lines_fit(skus, lines),
        0 <= k <= lines.len(),
    ensures
        receive_lines_fit(skus, lines.take(k)),
    decreases lines.len() - k,
{
    if k < lines.len() {
        assert(lines.take(k + 1).drop_last() =~= lines.take(k));
        lemma_receive_lines_fit_prefix(skus, lines, k + 1);
    } else {
        assert(lines.take(k) =~= lines);
    }
}

/// Total quantity of the lines for the SKU with the given id.
pub open spec fn line_quantity_for(lines: Seq<PoLine>, id: Id) -> int
    decreases lines.len(),
{
    if lines.len() == 0 {
        0
    } else {
        line_quantity_for(lines.drop_last(), id) + if lines.last().sku_id == id {
            lines.last().quantity as int
        } else {
            0
        }
    }
}

/// SKU `id` after receiving the total quantity of its lines.
pub open spec fn with_line_quantities(skus: Seq<Sku>, lines: Seq<PoLine>, id: Id) -> Sku {
    Sku {
        stock_on_hand: (skus[id - 1].stock_on_hand + line_quantity_for(lines, id)) as i64,
        ..skus[id - 1]
    }
}

/// A goods receipt that succeeds raises the stock of every SKU by the total
/// quantity of its lines and changes nothing else.
pub proof fn lemma_receipt_adds_line_quantities(skus: Seq<Sku>, lines: Seq<PoLine>)
    requires
        receive_lines_fit(skus, lines),
        receive_lines(skus, lines).1 is None,
    ensures
        receive_lines(skus, lines).0.len() == skus.len(),
        forall|id: Id|
            has_sku(skus, id) ==> {
                &&& fits_i64(skus[id - 1].stock_on_hand + line_quantity_for(lines, id))
                &&& #[trigger] lookup(receive_lines(skus, lines).0, id) == Some(
                    with_line_quantities(skus, lines, id),
                )
            },
    decreases lines.len(),
{
    if lines.len() > 0 {
        let prev = lines.drop_last();
        lemma_receipt_adds_line_quantities(skus, prev);
        assert forall|id: Id| has_sku(skus, id) implies {
            &&& fits_i64(skus[id - 1].stock_on_hand + line_quantity_for(lines, id))
            &&& #[trigger] lookup(receive_lines(skus, lines).0, id) == Some(
                with_line_quantities(skus, lines, id),
            )
        } by {
            assert(lookup(receive_lines(skus, prev).0, id) == Some(with_line_quantities(skus, prev, id)));
        }
    } else {
        assert forall|id: Id| has_sku(skus, id) implies #[trigger] lookup(
            receive_lines(skus, lines).0,
            id,
        ) == Some(with_line_quantities(skus, lines, id)) by {
            let s = skus[id - 1];
            assert((s.stock_on_hand + 0) as i64 == s.stock_on_hand);
        }
    }
}

/// The purchase orders with the given status, in id order.
pub open spec fn po_with_status(orders: Seq<PurchaseOrder>, status: PoStatus) -> Seq<PurchaseOrder> {
    orders.filter(|po: PurchaseOrder| po.status == status)
}

/// Purchase order manager; order ids are assigned 1, 2, 3, ... in order of
/// creation.
#[derive(Debug)]
pub struct PoManager {
    orders: Vec<PurchaseOrder>,
}

impl View for PoManager {
    type V = Seq<PurchaseOrder>;

    /// The purchase orders in id order: the order with id `k` is at
    /// position `k - 1`.
    closed spec fn view(&self) -> Seq<PurchaseOrder> {
        self.orders@
    }
}

impl Default for PoManager {
    /// A manager with no purchase orders.
    fn default() -> (m: Self)
        ensures
            m@ == Seq::<PurchaseOrder>::empty(),
    {
        PoManager::new()
    }
}

impl PoManager {
    /// A manager with no purchase orders.
    pub fn new() -> (m: Self)
        ensures
            m@ == Seq::<PurchaseOrder>::empty(),
    {
        PoManager { orders: Vec::new() }
    }

    /// Create a draft purchase order and return its id (one more than the
    /// number of orders before).
    pub fn create_order(&mut self, supplier: &str, created_at: Timestamp) -> (id: Id)
        requires
            old(self)@.len() < u64::MAX,
        ensures
            id == old(self)@.len() + 1,
            final(self)@.len() == id,
            final(self)@.take(old(self)@.len() as int) == old(self)@,
            final(self)@[id - 1].id == id,
            final(self)@[id - 1].supplier@ == supplier@,
            final(self)@[id - 1].status == PoStatus::Draft,
            final(self)@[id - 1].lines@ == Seq::<PoLine>::empty(),
            final(self)@[id - 1].created_at == created_at,
    {
        let id: Id = self.orders.len() as u64 + 1;
        let po = PurchaseOrder::new(id, supplier, created_at);
        self.orders.push(po);
        assert(self.orders@.take(old(self)@.len() as int) == old(self)@);
        id
    }

    /// The purchase order with the given id, if any.
    pub fn get(&self, id: Id) -> (r: Option<&PurchaseOrder>)
        ensures
            match r {
                Some(po) => lookup(self@, id) == Some(*po),
                None => lookup(self@, id) is None,
            },
    {
        if id >= 1 && id <= self.orders.len() as u64 {
            Some(&self.orders[(id - 1) as usize])
        } else {
            None
        }
    }

    /// A mutable reference to the purchase order with the given id, if any.
    pub fn get_mut(&mut self, id: Id) -> (r: Option<&mut PurchaseOrder>)
        ensures
            match r {
                Some(po) => {
                    &&& lookup(old(self)@, id) == Some(*po)
                    &&& final(self)@ == old(self)@.update(id - 1, *final(po))
                },
                None => lookup(old(self)@, id) is None && final(self)@ == old(self)@,
            },
    {
        if id >= 1 && id <= self.orders.len() as u64 {
            Some(&mut self.orders[(id - 1) as usize])
        } else {
            None
        }
    }

    /// Number of purchase orders.
    pub fn count(&self) -> (n: usize)
        ensures
            n == self@.len(),
    {
        self.orders.len()
    }

    /// List purchase orders with the given status, in id order.
    pub fn list_by_status(&self, status: PoStatus) -> (r: Vec<&PurchaseOrder>)
        ensures
            r@.len() == po_with_status(self@, status).len(),
            forall|i: int| 0 <= i < r@.len() ==> *#[trigger] r@[i] == po_with_status(self@, status)[i],
    {
        let ghost pred = |po: PurchaseOrder| po.status == status;
        assert(po_with_status(self@, status) == self.orders@.filter(pred));
        let mut out: Vec<&PurchaseOrder> = Vec::new();
        let n = self.orders.len();
        let mut i: usize = 0;
        while i < n
            invariant
                n == self.orders@.len(),
                pred == (|po: PurchaseOrder| po.status == status),
                0 <= i <= n,
                out@.len() == self.orders@.take(i as int).filter(pred).len(),
                forall|k: int|
                    0 <= k < out@.len() ==> *#[trigger] out@[k] == self.orders@.take(
                        i as int,
                    ).filter(pred)[k],
            decreases n - i,
        {
            proof {
                let t = self.orders@.take(i + 1);
                reveal_with_fuel(Seq::<_>::filter, 1);
                assert(t.drop_last() =~= self.orders@.take(i as int));
                assert(t.last() == self.orders@[i as int]);
            }
            if self.orders[i].status == status {
                out.push(&self.orders[i]);
            }
            i = i + 1;
        }
        assert(self.orders@.take(n as int) =~= self.orders@);
        out
    }
}

/// Received and cancelled purchase orders are final: submit, approve and
/// cancel all fail on them, and receipt requires an approved order.
pub proof fn lemma_po_final_states(status: PoStatus)
    requires
        status == PoStatus::Received || status == PoStatus::Cancelled,
    ensures
        status.spec_submit() == Err::<PoStatus, ErpError>(ErpError::InvalidStatusTransition),
        status.spec_approve() == Err::<PoStatus, ErpError>(ErpError::InvalidStatusTransition),
        status.spec_cancel() == Err::<PoStatus, ErpError>(ErpError::InvalidStatusTransition),
        status != PoStatus::Approved,
{
}

/// The approval workflow: a draft is submitted, a submitted order is
/// approved, and any order not yet received or cancelled can be cancelled.
pub proof fn lemma_po_lifecycle(status: PoStatus)
    ensures
        PoStatus::Draft.spec_submit() == Ok::<PoStatus, ErpError>(PoStatus::Submitted),
        PoStatus::Submitted.spec_approve() == Ok::<PoStatus, ErpError>(PoStatus::Approved),
        (status != PoStatus::Received && status != PoStatus::Cancelled) ==> status.spec_cancel()
            == Ok::<PoStatus, ErpError>(PoStatus::Cancelled),
{
}

/// Each workflow step succeeds from exactly one set of statuses: submit
/// only from Draft, approve only from Submitted, cancel from every status
/// but Received and Cancelled; a refused step reports an invalid status
/// transition.
pub proof fn lemma_po_transition_guards(status: PoStatus)
    ensures
        (status.spec_submit() is Ok) == (status == PoStatus::Draft),
        (status.spec_approve() is Ok) == (status == PoStatus::Submitted),
        (status.spec_cancel() is Ok) == (status == PoStatus::Draft || status == PoStatus::Submitted
            || status == PoStatus::Approved),
        status.spec_submit() is Ok ==> status.spec_submit() == Ok::<PoStatus, ErpError>(
            PoStatus::Submitted,
        ),
        status.spec_approve() is Ok ==> status.spec_approve() == Ok::<PoStatus, ErpError>(
            PoStatus::Approved,
        ),
        status.spec_cancel() is Ok ==> status.spec_cancel() == Ok::<PoStatus, ErpError>(
            PoStatus::Cancelled,
        ),
        status.spec_submit() is Err ==> status.spec_submit() == Err::<PoStatus, ErpError>(
            ErpError::InvalidStatusTransition,
        ),
        status.spec_approve() is Err ==> status.spec_approve() == Err::<PoStatus, ErpError>(
            ErpError::InvalidStatusTransition,
        ),
        status.spec_cancel() is Err ==> status.spec_cancel() == Err::<PoStatus, ErpError>(
            ErpError::InvalidStatusTransition,
        ),
{
}

} // verus!
