//! Work orders: production execution tracking with status transitions,
//! material consumption and a simple schedule.
use vstd::prelude::*;
use crate::bom::{
    Bom, BomLine, BomRegistry, all_available, availability_fits, component_need, line_available,
    need_fits,
};
use crate::common::{
    Id, Money, Timestamp, fits_i64, lemma_filter_count_monotone, lemma_filter_origin,
    lemma_filter_position, lookup,
};
use crate::errors::ErpError;
use crate::inventory::{Inventory, Sku, has_sku, issue_from, receive_into, receive_into_fits};
use crate::sort::{
    SortKey, is_permutation_of_range, lemma_sorted_order_correct, lemma_sorted_order_indices,
    sorted_order, stable_order,
};

verus! {

/// Status of a work order.
#[derive(Debug, Clone, Copy, PartialEq, Eq, Structural)]
pub enum WoStatus {
    Planned,
    Released,
    InProgress,
    Completed,
    Cancelled,
}

impl WoStatus {
    /// The status after `release`: only a planned order can be released.
    pub open spec fn spec_release(self) -> Result<WoStatus, ErpError> {
        if self == WoStatus::Planned {
            Ok(WoStatus::Released)
        } else {
            Err(ErpError::InvalidStatusTransition)
        }
    }

    /// The status after `start`: only a released order can be started.
    pub open spec fn spec_start(self) -> Result<WoStatus, ErpError> {
        if self == WoStatus::Released {
            Ok(WoStatus::InProgress)
        } else {
            Err(ErpError::InvalidStatusTransition)
        }
    }

    /// The status after `cancel`: any order not yet completed or cancelled
    /// can be cancelled.
    pub open spec fn spec_cancel(self) -> Result<WoStatus, ErpError> {
        if self == WoStatus::Completed || self == WoStatus::Cancelled {
            Err(ErpError::InvalidStatusTransition)
        } else {
            Ok(WoStatus::Cancelled)
        }
    }

    /// The order still takes part in scheduling.
    pub open spec fn spec_is_active(self) -> bool {
        self != WoStatus::Cancelled && self != WoStatus::Completed
    }
}

/// A work order for production.
#[derive(Debug, Clone)]
pub struct WorkOrder {
    pub id: Id,
    pub product_sku_id: Id,
    pub quantity: i64,
    pub status: WoStatus,
    pub scheduled_start: Timestamp,
    pub scheduled_end: Timestamp,
    pub actual_start: Option<Timestamp>,
    pub actual_end: Option<Timestamp>,
    pub actual_cost: Money,
}

/// Consuming the components of `lines` for `qty` units, line after line:
/// the SKUs afterwards and the first error, if any. Each line issues
/// quantity per unit times `qty` of its component; an unknown component is
/// skipped; after an error no further line is consumed.
pub open spec fn issue_lines(skus: Seq<Sku>, lines: Seq<BomLine>, qty: int) -> (Seq<Sku>, Option<ErpError>)
    decreases lines.len(),
{
    if lines.len() == 0 {
        (skus, None)
    } else {
        let (s, e) = issue_lines(skus, lines.drop_last(), qty);
        if e is Some {
            (s, e)
        } else {
            issue_from(s, lines.last().component_sku_id, lines.last().quantity_per * qty)
        }
    }
}

/// Consuming the components of `lines` stays within `i64`: each line's
/// requirement is computed only for a known component reached without
/// error.
pub open spec fn issue_lines_fit(skus: Seq<Sku>, lines: Seq<BomLine>, qty: int) -> bool
    decreases lines.len(),
{
    if lines.len() == 0 {
        true
    } else {
        let (s, e) = issue_lines(skus, lines.drop_last(), qty);
        &&& issue_lines_fit(skus, lines.drop_last(), qty)
        &&& (e is None && has_sku(s, lines.last().component_sku_id)) ==> fits_i64(
            lines.last().quantity_per * qty,
        )
    }
}

/// The components that completing `wo` consumes: the lines of the BOM of
/// its product, or none when the product has no BOM.
pub open spec fn consumed_lines(wo: WorkOrder, boms: Map<Id, Bom>) -> Seq<BomLine> {
    if boms.contains_key(wo.product_sku_id) {
        boms[wo.product_sku_id].lines@
    } else {
        Seq::empty()
    }
}

/// The inventory after completing `wo` (consumption, then receipt of the
/// finished goods) and the first error, if any.
pub open spec fn completion(wo: WorkOrder, boms: Map<Id, Bom>, skus: Seq<Sku>) -> (Seq<Sku>, Option<ErpError>) {
    let (s, e) = issue_lines(skus, consumed_lines(wo, boms), wo.quantity as int);
    if e is Some {
        (s, e)
    } else {
        receive_into(s, wo.product_sku_id, wo.quantity as int)
    }
}

/// Completing `wo` stays within `i64`.
pub open spec fn completion_fits(wo: WorkOrder, boms: Map<Id, Bom>, skus: Seq<Sku>) -> bool {
    let lines = consumed_lines(wo, boms);
    let (s, e) = issue_lines(skus, lines, wo.quantity as int);
    &&& issue_lines_fit(skus, lines, wo.quantity as int)
    &&& e is None ==> receive_into_fits(s, wo.product_sku_id, wo.quantity as int)
}

impl WorkOrder {
    /// A planned work order with no actual dates and no actual cost.
    pub fn new(
        id: Id,
        product_sku_id: Id,
        quantity: i64,
        scheduled_start: Timestamp,
        scheduled_end: Timestamp,
    ) -> (wo: Self)
        ensures
            wo == (WorkOrder {
                id,
                product_sku_id,
                quantity,
                status: WoStatus::Planned,
                scheduled_start,
                scheduled_end,
                actual_start: None,
                actual_end: None,
                actual_cost: 0,
            }),
    {
        WorkOrder {
            id,
            product_sku_id,
            quantity,
            status: WoStatus::Planned,
            scheduled_start,
            scheduled_end,
            actual_start: None,
            actual_end: None,
            actual_cost: 0,
        }
    }

    /// Release the work order for production; only a planned order can be
    /// released, and a refused release changes nothing.
    pub fn release(&mut self) -> (r: Result<(), ErpError>)
        ensures
            match old(self).status.spec_release() {
                Ok(st) => r == Ok::<(), ErpError>(()) && *final(self) == (WorkOrder { status: st, ..*old(self) }),
                Err(e) => r == Err::<(), ErpError>(e) && *final(self) == *old(self),
            },
            (r is Ok) == (old(self).status == WoStatus::Planned),
            r is Ok ==> final(self).status == WoStatus::Released,
            r is Err ==> r == Err::<(), ErpError>(ErpError::InvalidStatusTransition) && *final(self) == *old(self),
    {
        if self.status != WoStatus::Planned {
            return Err(ErpError::InvalidStatusTransition);
        }
        self.status = WoStatus::Released;
        Ok(())
    }

    /// Start production of a released order, recording the actual start.
    pub fn start(&mut self, actual_start: Timestamp) -> (r: Result<(), ErpError>)
        ensures
            match old(self).status.spec_start() {
                Ok(st) => r == Ok::<(), ErpError>(()) && *final(self) == (WorkOrder {
                    status: st,
                    actual_start: Some(actual_start),
                    ..*old(self)
                }),
                Err(e) => r == Err::<(), ErpError>(e) && *final(self) == *old(self),
            },
            (r is Ok) == (old(self).status == WoStatus::Released),
            r is Ok ==> final(self).status == WoStatus::InProgress && final(self).actual_start == Some(actual_start),
            r is Err ==> r == Err::<(), ErpError>(ErpError::InvalidStatusTransition) && *final(self) == *old(self),
    {
        if self.status != WoStatus::Released {
            return Err(ErpError::InvalidStatusTransition);
        }
        self.status = WoStatus::InProgress;
        self.actual_start = Some(actual_start);
        Ok(())
    }

    /// Complete production of an order in progress: consume the components
    /// of the product's BOM (if any), receive the finished goods, and record
    /// the actual end and cost. An error leaves the order unchanged; the
    /// inventory keeps the movements made before the error.
    pub fn complete(
        &mut self,
        actual_end: Timestamp,
        actual_cost: Money,
        bom_registry: &BomRegistry,
        inventory: &mut Inventory,
    ) -> (r: Result<(), ErpError>)
        requires
            old(self).status == WoStatus::InProgress ==> completion_fits(
                *old(self),
                bom_registry@,
                old(inventory)@,
            ),
        ensures
            old(self).status != WoStatus::InProgress ==> {
                &&& r == Err::<(), ErpError>(ErpError::InvalidStatusTransition)
                &&& *final(self) == *old(self)
                &&& final(inventory)@ == old(inventory)@
            },
            old(self).status == WoStatus::InProgress ==> {
                let (skus, e) = completion(*old(self), bom_registry@, old(inventory)@);
                &&& final(inventory)@ == skus
                &&& match e {
                    Some(err) => r == Err::<(), ErpError>(err) && *final(self) == *old(self),
                    None => r == Ok::<(), ErpError>(()) && *final(self) == (WorkOrder {
                        status: WoStatus::Completed,
                        actual_end: Some(actual_end),
                        actual_cost,
                        ..*old(self)
                    }),
                }
            },
    {
        if self.status != WoStatus::InProgress {
            return Err(ErpError::InvalidStatusTransition);
        }
        let ghost lines = consumed_lines(*self, bom_registry@);
        let ghost skus0 = inventory@;
        let qty = self.quantity;
        // Consume materials per BOM
        if let Some(bom) = bom_registry.get(self.product_sku_id) {
            let n = bom.lines.len();
            let mut i: usize = 0;
            while i < n
                invariant
                    n == bom.lines@.len(),
                    lines == bom.lines@,
                    lines == consumed_lines(*old(self), bom_registry@),
                    *self == *old(self),
                    self.status == WoStatus::InProgress,
                    skus0 == old(inventory)@,
                    qty == self.quantity,
                    0 <= i <= n,
                    issue_lines_fit(skus0, lines, qty as int),
                    issue_lines(skus0, lines.take(i as int), qty as int) == (inventory@, None::<ErpError>),
                decreases n - i,
            {
                let line = bom.lines[i];
                proof {
                    assert(lines.take(i + 1).drop_last() =~= lines.take(i as int));
                    lemma_issue_lines_fit_prefix(skus0, lines, qty as int, i + 1);
                }
                if let Some(sku) = inventory.get_sku_mut(line.component_sku_id) {
                    let need = line.quantity_per * qty;
                    let res = sku.issue(need);
                    if let Err(e) = res {
                        proof {
                            lemma_issue_lines_error_sticks(skus0, lines, qty as int, i + 1);
                        }
                        return Err(e);
                    }
                }
                i = i + 1;
            }
            assert(lines.take(n as int) =~= lines);
        } else {
            assert(lines =~= Seq::<BomLine>::empty());
        }
        // Receive finished goods
        if let Some(product) = inventory.get_sku_mut(self.product_sku_id) {
            let res = product.receive(qty);
            if let Err(e) = res {
                return Err(e);
            }
        }
        self.status = WoStatus::Completed;
        self.actual_end = Some(actual_end);
        self.actual_cost = actual_cost;
        Ok(())
    }

    /// Cancel the work order unless it is already completed or cancelled.
    pub fn cancel(&mut self) -> (r: Result<(), ErpError>)
        ensures
            match old(self).status.spec_cancel() {
                Ok(st) => r == Ok::<(), ErpError>(()) && *final(self) == (WorkOrder { status: st, ..*old(self) }),
                Err(e) => r == Err::<(), ErpError>(e) && *final(self) == *old(self),
            },
            (r is Ok) == (old(self).status != WoStatus::Completed && old(self).status != WoStatus::Cancelled),
            r is Ok ==> final(self).status == WoStatus::Cancelled,
            r is Err ==> r == Err::<(), ErpError>(ErpError::InvalidStatusTransition) && *final(self) == *old(self),
    {
        if self.status == WoStatus::Completed || self.status == WoStatus::Cancelled {
            return Err(ErpError::InvalidStatusTransition);
        }
        self.status = WoStatus::Cancelled;
        Ok(())
    }

    /// Planned duration in seconds: scheduled end minus scheduled start, 0
    /// when the end is not after the start.
    pub fn planned_duration(&self) -> (d: u64)
        ensures
            d == if self.scheduled_end >= self.scheduled_start {
                self.scheduled_end - self.scheduled_start
            } else {
                0
            },
    {
        self.scheduled_end.saturating_sub(self.scheduled_start)
    }

    /// Actual duration in seconds (end minus start, at least 0), when both
    /// actual start and actual end are recorded.
    pub fn actual_duration(&self) -> (d: Option<u64>)
        ensures
            d == match (self.actual_start, self.actual_end) {
                (Some(s), Some(e)) => Some(if e >= s { (e - s) as u64 } else { 0 }),
                _ => None,
            },
    {
        match (self.actual_start, self.actual_end) {
            (Some(s), Some(e)) => Some(e.saturating_sub(s)),
            _ => None,
        }
    }
}

/// SKU `id` after consuming the total quantity that the lines require.
pub open spec fn after_consumption(skus: Seq<Sku>, lines: Seq<BomLine>, qty: int, id: Id) -> Sku {
    Sku {
        stock_on_hand: (skus[id - 1].stock_on_hand - component_need(lines, qty, id)) as i64,
        ..skus[id - 1]
    }
}

/// Consumption that succeeds lowers the stock of every SKU by the total
/// quantity its lines require for `qty` units and changes nothing else.
pub proof fn lemma_consumption_subtracts_requirements(skus: Seq<Sku>, lines: Seq<BomLine>, qty: int)
    requires
        issue_lines_fit(skus, lines, qty),
        issue_lines(skus, lines, qty).1 is None,
    ensures
        issue_lines(skus, lines, qty).0.len() == skus.len(),
        forall|id: Id|
            has_sku(skus, id) ==> {
                &&& fits_i64(skus[id - 1].stock_on_hand - component_need(lines, qty, id))
                &&& #[trigger] lookup(issue_lines(skus, lines, qty).0, id) == Some(
                    after_consumption(skus, lines, qty, id),
                )
            },
    decreases lines.len(),
{
    if lines.len() > 0 {
        let prev = lines.drop_last();
        lemma_consumption_subtracts_requirements(skus, prev, qty);
        assert forall|id: Id| has_sku(skus, id) implies {
            &&& fits_i64(skus[id - 1].stock_on_hand - component_need(lines, qty, id))
            &&& #[trigger] lookup(issue_lines(skus, lines, qty).0, id) == Some(
                after_consumption(skus, lines, qty, id),
            )
        } by {
            assert(lookup(issue_lines(skus, prev, qty).0, id) == Some(
                after_consumption(skus, prev, qty, id),
            ));
        }
    } else {
        assert forall|id: Id| has_sku(skus, id) implies #[trigger] lookup(
            issue_lines(skus, lines, qty).0,
            id,
        ) == Some(after_consumption(skus, lines, qty, id)) by {
            let s = skus[id - 1];
            assert((s.stock_on_hand - 0) as i64 == s.stock_on_hand);
        }
    }
}

/// With no line requiring a negative amount, the need computed over a
/// prefix of the lines never exceeds the need over all of them.
proof fn lemma_need_prefix_bound(lines: Seq<BomLine>, qty: int, id: Id, k: int)
    requires
        0 <= k <= lines.len(),
        forall|j: int| 0 <= j < lines.len() ==> #[trigger] lines[j].quantity_per * qty >= 0,
    ensures
        component_need(lines.take(k), qty, id) <= component_need(lines, qty, id),
    decreases lines.len() - k,
{
    if k < lines.len() {
        let t = lines.take(k + 1);
        assert(t.drop_last() =~= lines.take(k));
        assert(t.last() == lines[k]);
        lemma_need_prefix_bound(lines, qty, id, k + 1);
    } else {
        assert(lines.take(k) =~= lines);
    }
}

/// Consuming a prefix of lines whose components are all in stock succeeds.
proof fn lemma_prefix_consumption_succeeds(skus: Seq<Sku>, lines: Seq<BomLine>, qty: int, k: int)
    requires
        0 <= k <= lines.len(),
        availability_fits(skus, lines, qty),
        all_available(skus, lines, qty),
        forall|j: int| 0 <= j < lines.len() ==> #[trigger] lines[j].quantity_per * qty >= 0,
    ensures
        issue_lines_fit(skus, lines.take(k), qty),
        issue_lines(skus, lines.take(k), qty).1 is None,
    decreases k,
{
    if k > 0 {
        let prev = lines.take(k - 1);
        let t = lines.take(k);
        let l = lines[k - 1];
        let c = l.component_sku_id;
        assert(t.drop_last() =~= prev);
        assert(t.last() == l);
        lemma_prefix_consumption_succeeds(skus, lines, qty, k - 1);
        lemma_consumption_subtracts_requirements(skus, prev, qty);
        assert(line_available(skus, lines, k - 1, qty));
        assert forall|j: int| 0 <= j < k - 1 implies #[trigger] line_available(skus, lines, j, qty) by {}
        assert(need_fits(lines, qty, c));
        assert(fits_i64(lines[k - 1].quantity_per * qty));
        lemma_need_prefix_bound(lines, qty, c, k);
        assert(has_sku(skus, c));
        let st = issue_lines(skus, prev, qty).0;
        assert(lookup(st, c) == Some(after_consumption(skus, prev, qty, c)));
        assert(component_need(t, qty, c) == component_need(prev, qty, c) + l.quantity_per * qty);
    } else {
        assert(lines.take(0) =~= Seq::<BomLine>::empty());
    }
}

/// A work order in progress whose product's BOM `can_produce` judges
/// sufficient for its (non-negative) quantity, with no line requiring a
/// negative amount, completes without error: every component is consumed
/// and the finished goods are received.
pub proof fn lemma_sufficient_stock_completes(wo: WorkOrder, boms: Map<Id, Bom>, skus: Seq<Sku>)
    requires
        boms.contains_key(wo.product_sku_id),
        availability_fits(skus, boms[wo.product_sku_id].lines@, wo.quantity as int),
        all_available(skus, boms[wo.product_sku_id].lines@, wo.quantity as int),
        wo.quantity >= 0,
        forall|j: int|
            0 <= j < boms[wo.product_sku_id].lines@.len() ==> (#[trigger] boms[wo.product_sku_id].lines@[j]).quantity_per >= 0,
    ensures
        issue_lines_fit(skus, consumed_lines(wo, boms), wo.quantity as int),
        completion(wo, boms, skus).1 is None,
{
    let lines = boms[wo.product_sku_id].lines@;
    let qty = wo.quantity as int;
    assert forall|j: int| 0 <= j < lines.len() implies #[trigger] lines[j].quantity_per * qty >= 0 by {
        let p = lines[j].quantity_per as int;
        assert(p >= 0 && qty >= 0 ==> p * qty >= 0) by (nonlinear_arith);
    }
    lemma_prefix_consumption_succeeds(skus, lines, qty, lines.len() as int);
    assert(lines.take(lines.len() as int) =~= lines);
}

/// Once consumption of a prefix of the lines fails, consuming all of them
/// fails the same way.
proof fn lemma_issue_lines_error_sticks(skus: Seq<Sku>, lines: Seq<BomLine>, qty: int, k: int)
    requires
        0 <= k <= lines.len(),
        issue_lines(skus, lines.take(k), qty).1 is Some,
    ensures
        issue_lines(skus, lines, qty) == issue_lines(skus, lines.take(k), qty),
    decreases lines.len() - k,
{
    if k < lines.len() {
        assert(lines.take(k + 1).drop_last() =~= lines.take(k));
        lemma_issue_lines_error_sticks(skus, lines, qty, k + 1);
    } else {
        assert(lines.take(k) =~= lines);
    }
}

/// `issue_lines_fit` for all lines gives it for every prefix.
proof fn lemma_issue_lines_fit_prefix(skus: Seq<Sku>, lines: Seq<BomLine>, qty: int, k: int)
    requires
        issue_lines_fit(skus, lines, qty),
        0 <= k <= lines.len(),
    ensures
        issue_lines_fit(skus, lines.take(k), qty),
    decreases lines.len() - k,
{
    if k < lines.len() {
        assert(lines.take(k + 1).drop_last() =~= lines.take(k));
        lemma_issue_lines_fit_prefix(skus, lines, qty, k + 1);
    } else {
        assert(lines.take(k) =~= lines);
    }
}

/// The work orders with the given status, in id order.
pub open spec fn with_status(orders: Seq<WorkOrder>, status: WoStatus) -> Seq<WorkOrder> {
    orders.filter(|wo: WorkOrder| wo.status == status)
}

/// The work orders neither completed nor cancelled, in id order.
pub open spec fn active_orders(orders: Seq<WorkOrder>) -> Seq<WorkOrder> {
    orders.filter(|wo: WorkOrder| wo.status.spec_is_active())
}

/// Schedule key of a work order: its scheduled start.
pub open spec fn start_keys(orders: Seq<WorkOrder>) -> Seq<SortKey> {
    Seq::new(orders.len(), |i: int| (orders[i].scheduled_start, 0u64))
}

/// The work orders by scheduled start, orders with equal starts in id order.
pub open spec fn by_scheduled_start(orders: Seq<WorkOrder>) -> Seq<WorkOrder> {
    let order = sorted_order(start_keys(orders), orders.len());
    Seq::new(order.len(), |k: int| orders[order[k] as int])
}

/// Two work orders are for the same product and their scheduled windows
/// overlap.
pub open spec fn in_conflict(a: WorkOrder, b: WorkOrder) -> bool {
    &&& a.product_sku_id == b.product_sku_id
    &&& a.scheduled_start < b.scheduled_end
    &&& b.scheduled_start < a.scheduled_end
}

/// The pairs `(s[i].id, s[j].id)` with `i < j < m` that are in conflict,
/// by increasing `j`.
pub open spec fn conflict_row(s: Seq<WorkOrder>, i: int, m: int) -> Seq<(Id, Id)>
    decreases m - i,
{
    if m <= i + 1 {
        Seq::empty()
    } else {
        let rest = conflict_row(s, i, m - 1);
        if in_conflict(s[i], s[m - 1]) {
            rest.push((s[i].id, s[m - 1].id))
        } else {
            rest
        }
    }
}

/// The conflicting pairs `(s[i].id, s[j].id)` with `i < j` and `i < k`,
/// by increasing `i`, then `j`.
pub open spec fn conflict_rows(s: Seq<WorkOrder>, k: int) -> Seq<(Id, Id)>
    decreases k,
{
    if k <= 0 {
        Seq::empty()
    } else {
        conflict_rows(s, k - 1) + conflict_row(s, k - 1, s.len() as int)
    }
}

/// Work order manager with simple scheduling; order ids are assigned 1, 2,
/// 3, ... in order of creation.
#[derive(Debug)]
pub struct WoManager {
    orders: Vec<WorkOrder>,
}

impl View for WoManager {
    type V = Seq<WorkOrder>;

    /// The work orders in id order: the order with id `k` is at position
    /// `k - 1`.
    closed spec fn view(&self) -> Seq<WorkOrder> {
        self.orders@
    }
}

impl Default for WoManager {
    /// A manager with no work orders.
    fn default() -> (m: Self)
        ensures
            m@ == Seq::<WorkOrder>::empty(),
    {
        WoManager::new()
    }
}

impl WoManager {
    /// A manager with no work orders.
    pub fn new() -> (m: Self)
        ensures
            m@ == Seq::<WorkOrder>::empty(),
    {
        WoManager { orders: Vec::new() }
    }

    /// Create a planned work order and return its id (one more than the
    /// number of orders before).
    pub fn create_order(
        &mut self,
        product_sku_id: Id,
        quantity: i64,
        scheduled_start: Timestamp,
        scheduled_end: Timestamp,
    ) -> (id: Id)
        requires
            old(self)@.len() < u64::MAX,
        ensures
            id == old(self)@.len() + 1,
            final(self)@ == old(self)@.push(
                WorkOrder {
                    id,
                    product_sku_id,
                    quantity,
                    status: WoStatus::Planned,
                    scheduled_start,
                    scheduled_end,
                    actual_start: None,
                    actual_end: None,
                    actual_cost: 0,
                },
            ),
    {
        let id: Id = self.orders.len() as u64 + 1;
        let wo = WorkOrder::new(id, product_sku_id, quantity, scheduled_start, scheduled_end);
        self.orders.push(wo);
        id
    }

    /// The work order with the given id, if any.
    pub fn get(&self, id: Id) -> (r: Option<&WorkOrder>)
        ensures
            match r {
                Some(wo) => lookup(self@, id) == Some(*wo),
                None => lookup(self@, id) is None,
            },
    {
        if id >= 1 && id <= self.orders.len() as u64 {
            Some(&self.orders[(id - 1) as usize])
        } else {
            None
        }
    }

    /// A mutable reference to the work order with the given id, if any.
    pub fn get_mut(&mut self, id: Id) -> (r: Option<&mut WorkOrder>)
        ensures
            match r {
                Some(wo) => {
                    &&& lookup(old(self)@, id) == Some(*wo)
                    &&& final(self)@ == old(self)@.update(id - 1, *final(wo))
                },
                None => lookup(old(self)@, id) is None && final(self)@ == old(self)@,
            },
    {
        if id >= 1 && id <= self.orders.len() as u64 {
            Some(&mut self.orders[(id - 1) as usize])
        } else {
            None
        }
    }

    /// Number of work orders.
    pub fn count(&self) -> (n: usize)
        ensures
            n == self@.len(),
    {
        self.orders.len()
    }

    /// List work orders with the given status, in id order.
    pub fn list_by_status(&self, status: WoStatus) -> (r: Vec<&WorkOrder>)
        ensures
            r@.len() == with_status(self@, status).len(),
            forall|i: int| 0 <= i < r@.len() ==> *#[trigger] r@[i] == with_status(self@, status)[i],
    {
        let ghost pred = |wo: WorkOrder| wo.status == status;
        assert(with_status(self@, status) == self.orders@.filter(pred));
        let mut out: Vec<&WorkOrder> = Vec::new();
        let n = self.orders.len();
        let mut i: usize = 0;
        while i < n
            invariant
                n == self.orders@.len(),
                pred == (|wo: WorkOrder| wo.status == status),
                0 <= i <= n,
                out@.len() == self.orders@.take(i as int).filter(pred).len(),
                forall|k: int|
                    0 <= k < out@.len() ==> *#[trigger] out@[k] == self.orders@.take(
                        i as int,
                    ).filter(pred)[k],
            decreases n - i,
        {
            proof {
                let t = self.orders@.take(i + 1);
                reveal_with_fuel(Seq::<_>::filter, 1);
                assert(t.drop_last() =~= self.orders@.take(i as int));
                assert(t.last() == self.orders@[i as int]);
            }
            if self.orders[i].status == status {
                out.push(&self.orders[i]);
            }
            i = i + 1;
        }
        assert(self.orders@.take(n as int) =~= self.orders@);
        out
    }

    /// All work orders sorted by scheduled start time; orders with equal
    /// starts stay in id order.
    pub fn schedule(&self) -> (r: Vec<&WorkOrder>)
        ensures
            r@.len() == self@.len(),
            forall|k: int| 0 <= k < r@.len() ==> *#[trigger] r@[k] == by_scheduled_start(self@)[k],
    {
        let n = self.orders.len();
        let mut keys: Vec<SortKey> = Vec::new();
        let mut i: usize = 0;
        while i < n
            invariant
                n == self.orders@.len(),
                0 <= i <= n,
                keys@ == start_keys(self.orders@).take(i as int),
            decreases n - i,
        {
            keys.push((self.orders[i].scheduled_start, 0));
            assert(keys@ =~= start_keys(self.orders@).take(i + 1));
            i = i + 1;
        }
        assert(keys@ =~= start_keys(self.orders@));
        let order = stable_order(&keys);
        proof {
            lemma_sorted_order_indices(keys@, n as nat);
        }
        let mut out: Vec<&WorkOrder> = Vec::new();
        let mut k: usize = 0;
        while k < n
            invariant
                n == self.orders@.len(),
                order@ == sorted_order(start_keys(self.orders@), n as nat),
                order@.len() == n,
                forall|m: int| 0 <= m < n ==> #[trigger] order@[m] < n,
                0 <= k <= n,
                out@.len() == k,
                forall|m: int|
                    0 <= m < k ==> *#[trigger] out@[m] == by_scheduled_start(self.orders@)[m],
            decreases n - k,
        {
            out.push(&self.orders[order[k]]);
            k = k + 1;
        }
        out
    }

    /// Scheduling conflicts: the pairs of ids of active (neither completed
    /// nor cancelled) work orders for the same product whose scheduled
    /// windows overlap, each pair in id order, listed by first then second
    /// order.
    pub fn conflicts(&self) -> (r: Vec<(Id, Id)>)
        ensures
            r@ == conflict_rows(active_orders(self@), active_orders(self@).len() as int),
            forall|pair: (Id, Id)|
                #[trigger] r@.contains(pair) == exists|i: int, j: int|
                    #![trigger self@[i], self@[j]]
                    0 <= i < j < self@.len() && self@[i].status != WoStatus::Completed
                        && self@[i].status != WoStatus::Cancelled && self@[j].status
                        != WoStatus::Completed && self@[j].status != WoStatus::Cancelled
                        && self@[i].product_sku_id == self@[j].product_sku_id
                        && self@[i].scheduled_start < self@[j].scheduled_end
                        && self@[j].scheduled_start < self@[i].scheduled_end && pair == (self@[i].id, self@[j].id),
    {
        let ghost pred = |wo: WorkOrder| wo.status.spec_is_active();
        assert(active_orders(self@) == self.orders@.filter(pred));
        let mut active: Vec<&WorkOrder> = Vec::new();
        let n = self.orders.len();
        let mut i: usize = 0;
        while i < n
            invariant
                n == self.orders@.len(),
                pred == (|wo: WorkOrder| wo.status.spec_is_active()),
                0 <= i <= n,
                active@.len() == self.orders@.take(i as int).filter(pred).len(),
                forall|k: int|
                    0 <= k < active@.len() ==> *#[trigger] active@[k] == self.orders@.take(
                        i as int,
                    ).filter(pred)[k],
            decreases n - i,
        {
            proof {
                let t = self.orders@.take(i + 1);
                reveal_with_fuel(Seq::<_>::filter, 1);
                assert(t.drop_last() =~= self.orders@.take(i as int));
                assert(t.last() == self.orders@[i as int]);
            }
            let st = self.orders[i].status;
            if st != WoStatus::Cancelled && st != WoStatus::Completed {
                active.push(&self.orders[i]);
            }
            i = i + 1;
        }
        assert(self.orders@.take(n as int) =~= self.orders@);
        let ghost act = active_orders(self.orders@);
        let m = active.len();
        let mut conflicts: Vec<(Id, Id)> = Vec::new();
        let mut i: usize = 0;
        while i < m
            invariant
                m == active@.len() == act.len(),
                forall|k: int| 0 <= k < m ==> *#[trigger] active@[k] == act[k],
                0 <= i <= m,
                conflicts@ == conflict_rows(act, i as int),
            decreases m - i,
        {
            let mut j: usize = i + 1;
            while j < m
                invariant
                    m == active@.len() == act.len(),
                    forall|k: int| 0 <= k < m ==> *#[trigger] active@[k] == act[k],
                    0 <= i < m,
                    i + 1 <= j <= m,
                    conflicts@ == conflict_rows(act, i as int) + conflict_row(act, i as int, j as int),
                decreases m - j,
            {
                let a = active[i];
                let b = active[j];
                let same_product = a.product_sku_id == b.product_sku_id;
                let a_starts_before_b_ends = a.scheduled_start < b.scheduled_end;
                let b_starts_before_a_ends = b.scheduled_start < a.scheduled_end;
                assert(*a == act[i as int] && *b == act[j as int]);
                if same_product && a_starts_before_b_ends && b_starts_before_a_ends {
                    conflicts.push((a.id, b.id));
                }
                assert(conflict_rows(act, i as int) + conflict_row(act, i as int, j + 1) =~= if in_conflict(act[i as int], act[j as int]) {
                    (conflict_rows(act, i as int) + conflict_row(act, i as int, j as int)).push((act[i as int].id, act[j as int].id))
                } else {
                    conflict_rows(act, i as int) + conflict_row(act, i as int, j as int)
                });
                j = j + 1;
            }
            assert(conflict_rows(act, i + 1) == conflict_rows(act, i as int) + conflict_row(act, i as int, m as int));
            i = i + 1;
        }
        proof {
            assert forall|pair: (Id, Id)|
                #[trigger] conflicts@.contains(pair) == exists|i: int, j: int|
                    #![trigger self@[i], self@[j]]
                    0 <= i < j < self@.len() && self@[i].status != WoStatus::Completed
                        && self@[i].status != WoStatus::Cancelled && self@[j].status
                        != WoStatus::Completed && self@[j].status != WoStatus::Cancelled
                        && self@[i].product_sku_id == self@[j].product_sku_id
                        && self@[i].scheduled_start < self@[j].scheduled_end
                        && self@[j].scheduled_start < self@[i].scheduled_end && pair == (self@[i].id, self@[j].id) by {
                lemma_conflicts_are_overlapping_active_pairs(self@, pair);
            }
        }
        conflicts
    }
}

/// Completed and cancelled work orders are final: release, start and
/// cancel all fail on them, and completion requires an order in progress.
pub proof fn lemma_wo_final_states(status: WoStatus)
    requires
        status == WoStatus::Completed || status == WoStatus::Cancelled,
    ensures
        status.spec_release() == Err::<WoStatus, ErpError>(ErpError::InvalidStatusTransition),
        status.spec_start() == Err::<WoStatus, ErpError>(ErpError::InvalidStatusTransition),
        status.spec_cancel() == Err::<WoStatus, ErpError>(ErpError::InvalidStatusTransition),
        status != WoStatus::InProgress,
{
}

/// The work-order lifecycle: a planned order is released, a released order
/// is started, and any order not yet completed or cancelled can be
/// cancelled.
pub proof fn lemma_wo_lifecycle(status: WoStatus)
    ensures
        WoStatus::Planned.spec_release() == Ok::<WoStatus, ErpError>(WoStatus::Released),
        WoStatus::Released.spec_start() == Ok::<WoStatus, ErpError>(WoStatus::InProgress),
        status.spec_is_active() ==> status.spec_cancel() == Ok::<WoStatus, ErpError>(
            WoStatus::Cancelled,
        ),
{
}

/// The schedule lists every work order once, by non-decreasing scheduled
/// start, orders with equal starts in id order.
pub proof fn lemma_schedule_sorted(orders: Seq<WorkOrder>)
    requires
        orders.len() <= usize::MAX,
    ensures
        ({
            let order = sorted_order(start_keys(orders), orders.len());
            let s = by_scheduled_start(orders);
            &&& is_permutation_of_range(order, orders.len())
            &&& s.len() == orders.len()
            &&& forall|k: int| 0 <= k < s.len() ==> #[trigger] s[k] == orders[order[k] as int]
            &&& forall|p: int, q: int|
                0 <= p < q < s.len() ==> (#[trigger] s[p]).scheduled_start <= (
                #[trigger] s[q]).scheduled_start
            &&& forall|p: int, q: int|
                0 <= p < q < s.len() && (#[trigger] s[p]).scheduled_start == (
                #[trigger] s[q]).scheduled_start ==> order[p] < order[q]
        }),
{
    let keys = start_keys(orders);
    let order = sorted_order(keys, orders.len());
    let s = by_scheduled_start(orders);
    lemma_sorted_order_correct(keys, orders.len());
    assert forall|p: int, q: int| 0 <= p < q < s.len() implies (#[trigger] s[p]).scheduled_start <= (
    #[trigger] s[q]).scheduled_start by {
        assert(!crate::sort::key_lt(keys[order[q] as int], keys[order[p] as int]));
    }
    assert forall|p: int, q: int|
        0 <= p < q < s.len() && (#[trigger] s[p]).scheduled_start == (
        #[trigger] s[q]).scheduled_start implies order[p] < order[q] by {
        assert(keys[order[p] as int] == keys[order[q] as int]);
    }
}

/// A pair lies in a row of conflicts exactly when it pairs the row's order
/// with a later conflicting order below `m`.
proof fn lemma_conflict_row_contains(s: Seq<WorkOrder>, i: int, m: int, pair: (Id, Id))
    requires
        0 <= i < s.len(),
        m <= s.len(),
    ensures
        conflict_row(s, i, m).contains(pair) <==> exists|j: int|
            i < j < m && #[trigger] in_conflict(s[i], s[j]) && pair == (s[i].id, s[j].id),
    decreases m - i,
{
    if m > i + 1 {
        lemma_conflict_row_contains(s, i, m - 1, pair);
        let rest = conflict_row(s, i, m - 1);
        if conflict_row(s, i, m).contains(pair) {
            if !rest.contains(pair) {
                let k = choose|k: int| 0 <= k < conflict_row(s, i, m).len() && conflict_row(s, i, m)[k] == pair;
                assert(in_conflict(s[i], s[m - 1]) && k == rest.len());
            }
        }
        if exists|j: int| i < j < m && #[trigger] in_conflict(s[i], s[j]) && pair == (s[i].id, s[j].id) {
            let j = choose|j: int| i < j < m && #[trigger] in_conflict(s[i], s[j]) && pair == (s[i].id, s[j].id);
            if j == m - 1 {
                assert(conflict_row(s, i, m)[rest.len() as int] == pair);
            } else {
                let k = choose|k: int| 0 <= k < rest.len() && rest[k] == pair;
                assert(conflict_row(s, i, m)[k] == pair);
            }
        }
    } else {
        assert(conflict_row(s, i, m) =~= Seq::<(Id, Id)>::empty());
    }
}

/// A pair lies in the first `k` rows of conflicts exactly when it pairs two
/// conflicting orders `i < j` with `i < k`.
proof fn lemma_conflict_rows_contains(s: Seq<WorkOrder>, k: int, pair: (Id, Id))
    requires
        0 <= k <= s.len(),
    ensures
        conflict_rows(s, k).contains(pair) <==> exists|i: int, j: int|
            0 <= i < k && i < j < s.len() && #[trigger] in_conflict(s[i], s[j]) && pair == (
                s[i].id,
                s[j].id,
            ),
    decreases k,
{
    if k > 0 {
        lemma_conflict_rows_contains(s, k - 1, pair);
        lemma_conflict_row_contains(s, k - 1, s.len() as int, pair);
        let a = conflict_rows(s, k - 1);
        let b = conflict_row(s, k - 1, s.len() as int);
        if (a + b).contains(pair) {
            let n = choose|n: int| 0 <= n < (a + b).len() && (a + b)[n] == pair;
            if n < a.len() {
                assert(a[n] == pair);
            } else {
                assert(b[n - a.len()] == pair);
            }
        }
        if a.contains(pair) {
            let n = choose|n: int| 0 <= n < a.len() && a[n] == pair;
            assert((a + b)[n] == pair);
        }
        if b.contains(pair) {
            let n = choose|n: int| 0 <= n < b.len() && b[n] == pair;
            assert((a + b)[a.len() + n] == pair);
        }
        if exists|i: int, j: int|
            0 <= i < k && i < j < s.len() && #[trigger] in_conflict(s[i], s[j]) && pair == (s[i].id, s[j].id) {
            let (i, j) = choose|i: int, j: int|
                0 <= i < k && i < j < s.len() && #[trigger] in_conflict(s[i], s[j]) && pair == (s[i].id, s[j].id);
            if i == k - 1 {
                assert(b.contains(pair));
            } else {
                assert(a.contains(pair));
            }
        }
    } else {
        assert(conflict_rows(s, 0) =~= Seq::<(Id, Id)>::empty());
    }
}

/// The reported conflicts are exactly the pairs of active work orders
/// (earlier order first) for the same product whose scheduled windows
/// overlap.
pub proof fn lemma_conflicts_exact(orders: Seq<WorkOrder>, pair: (Id, Id))
    ensures
        ({
            let a = active_orders(orders);
            conflict_rows(a, a.len() as int).contains(pair) <==> exists|i: int, j: int|
                0 <= i < j < a.len() && #[trigger] in_conflict(a[i], a[j]) && pair == (a[i].id, a[j].id)
        }),
        forall|k: int|
            0 <= k < active_orders(orders).len() ==> (#[trigger] active_orders(orders)[k]).status.spec_is_active(),
{
    let a = active_orders(orders);
    lemma_conflict_rows_contains(a, a.len() as int, pair);
    assert forall|k: int| 0 <= k < a.len() implies (#[trigger] a[k]).status.spec_is_active() by {
        orders.lemma_filter_pred(|wo: WorkOrder| wo.status.spec_is_active(), k);
    }
}

/// Each lifecycle step succeeds from exactly one set of statuses: release
/// only from Planned, start only from Released, cancel from Planned,
/// Released and InProgress; a refused step reports an invalid status
/// transition. The orders that take part in scheduling are exactly the
/// Planned, Released and InProgress ones.
pub proof fn lemma_wo_transition_guards(status: WoStatus)
    ensures
        (status.spec_release() is Ok) == (status == WoStatus::Planned),
        (status.spec_start() is Ok) == (status == WoStatus::Released),
        (status.spec_cancel() is Ok) == (status == WoStatus::Planned || status == WoStatus::Released
            || status == WoStatus::InProgress),
        status.spec_is_active() == (status == WoStatus::Planned || status == WoStatus::Released
            || status == WoStatus::InProgress),
        status.spec_release() is Ok ==> status.spec_release() == Ok::<WoStatus, ErpError>(
            WoStatus::Released,
        ),
        status.spec_start() is Ok ==> status.spec_start() == Ok::<WoStatus, ErpError>(
            WoStatus::InProgress,
        ),
        status.spec_cancel() is Ok ==> status.spec_cancel() == Ok::<WoStatus, ErpError>(
            WoStatus::Cancelled,
        ),
        status.spec_release() is Err ==> status.spec_release() == Err::<WoStatus, ErpError>(
            ErpError::InvalidStatusTransition,
        ),
        status.spec_start() is Err ==> status.spec_start() == Err::<WoStatus, ErpError>(
            ErpError::InvalidStatusTransition,
        ),
        status.spec_cancel() is Err ==> status.spec_cancel() == Err::<WoStatus, ErpError>(
            ErpError::InvalidStatusTransition,
        ),
{
}

/// Conflicts, stated over the work orders themselves: every pair of
/// orders (earlier first) that are neither completed nor cancelled, for the
/// same product, whose scheduled windows overlap, is reported, and every
/// reported pair is such a pair.
pub proof fn lemma_conflicts_are_overlapping_active_pairs(orders: Seq<WorkOrder>, pair: (Id, Id))
    ensures
        ({
            let r = conflict_rows(active_orders(orders), active_orders(orders).len() as int);
            &&& (exists|i: int, j: int|
                #![trigger orders[i], orders[j]]
                0 <= i < j < orders.len() && orders[i].status != WoStatus::Completed
            && orders[i].status != WoStatus::Cancelled && orders[j].status != WoStatus::Completed
            && orders[j].status != WoStatus::Cancelled && orders[i].product_sku_id
            == orders[j].product_sku_id && orders[i].scheduled_start < orders[j].scheduled_end
            && orders[j].scheduled_start < orders[i].scheduled_end && pair == (orders[i].id, orders[j].id)) ==> r.contains(pair)
            &&& r.contains(pair) ==> exists|i: int, j: int|
                #![trigger orders[i], orders[j]]
                0 <= i < j < orders.len() && orders[i].status != WoStatus::Completed
            && orders[i].status != WoStatus::Cancelled && orders[j].status != WoStatus::Completed
            && orders[j].status != WoStatus::Cancelled && orders[i].product_sku_id
            == orders[j].product_sku_id && orders[i].scheduled_start < orders[j].scheduled_end
            && orders[j].scheduled_start < orders[i].scheduled_end && pair == (orders[i].id, orders[j].id)
        }),
{
    let pred = |wo: WorkOrder| wo.status.spec_is_active();
    let a = active_orders(orders);
    assert(a == orders.filter(pred));
    let r = conflict_rows(a, a.len() as int);
    lemma_conflict_rows_contains(a, a.len() as int, pair);
    if exists|i: int, j: int|
        #![trigger orders[i], orders[j]]
        0 <= i < j < orders.len() && orders[i].status != WoStatus::Completed
            && orders[i].status != WoStatus::Cancelled && orders[j].status != WoStatus::Completed
            && orders[j].status != WoStatus::Cancelled && orders[i].product_sku_id
            == orders[j].product_sku_id && orders[i].scheduled_start < orders[j].scheduled_end
            && orders[j].scheduled_start < orders[i].scheduled_end && pair == (orders[i].id, orders[j].id) {
        let (i, j) = choose|i: int, j: int|
            #![trigger orders[i], orders[j]]
            0 <= i < j < orders.len() && orders[i].status != WoStatus::Completed
            && orders[i].status != WoStatus::Cancelled && orders[j].status != WoStatus::Completed
            && orders[j].status != WoStatus::Cancelled && orders[i].product_sku_id
            == orders[j].product_sku_id && orders[i].scheduled_start < orders[j].scheduled_end
            && orders[j].scheduled_start < orders[i].scheduled_end && pair == (orders[i].id, orders[j].id);
        lemma_filter_position(orders, pred, i);
        lemma_filter_position(orders, pred, j);
        lemma_filter_count_monotone(orders, pred, i + 1, j);
        let ki = orders.take(i).filter(pred).len() as int;
        let kj = orders.take(j).filter(pred).len() as int;
        assert(a[ki] == orders[i] && a[kj] == orders[j]);
        assert(in_conflict(a[ki], a[kj]));
    }
    if r.contains(pair) {
        let (ka, kb) = choose|ka: int, kb: int|
            0 <= ka < a.len() && ka < kb < a.len() && #[trigger] in_conflict(a[ka], a[kb]) && pair == (
                a[ka].id,
                a[kb].id,
            );
        let ia = lemma_filter_origin(orders, pred, ka);
        let ib = lemma_filter_origin(orders, pred, kb);
        if ia >= ib {
            lemma_filter_position(orders, pred, ib);
            lemma_filter_count_monotone(orders, pred, ib + 1, ia);
        }
        assert(orders[ia] == a[ka] && orders[ib] == a[kb]);
        assert(0 <= ia < ib < orders.len() && orders[ia].status != WoStatus::Completed
            && orders[ia].status != WoStatus::Cancelled && orders[ib].status != WoStatus::Completed
            && orders[ib].status != WoStatus::Cancelled && orders[ia].product_sku_id
            == orders[ib].product_sku_id && orders[ia].scheduled_start < orders[ib].scheduled_end
            && orders[ib].scheduled_start < orders[ia].scheduled_end && pair == (orders[ia].id, orders[ib].id));
    }
}

} // verus!
