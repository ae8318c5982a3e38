//! Cost accounting: standard-versus-actual variances.
use vstd::prelude::*;
use crate::bom::{Bom, BomLine, BomRegistry, cost_fits, cost_terms};
use crate::common::{Money, fits_i64, sum, sum_fits, trunc_div, div_i64, lookup};
use crate::inventory::{Inventory, Sku};
use crate::work_order::WorkOrder;

verus! {

/// Cost variance analysis result.
#[derive(Debug, Clone, Copy, PartialEq, Eq, Structural)]
pub struct CostVariance {
    pub standard_cost: Money,
    pub actual_cost: Money,
    pub variance: Money,
    pub is_favorable: bool,
}

impl CostVariance {
    /// Builds the variance of `actual_cost` against `standard_cost`.
    pub fn new(standard_cost: Money, actual_cost: Money) -> (cv: Self)
        requires
            fits_i64(actual_cost - standard_cost),
        ensures
            cv.standard_cost == standard_cost,
            cv.actual_cost == actual_cost,
            cv.variance == actual_cost - standard_cost,
            cv.is_favorable == (actual_cost - standard_cost <= 0),
    {
        let variance = actual_cost - standard_cost;
        CostVariance { standard_cost, actual_cost, variance, is_favorable: variance <= 0 }
    }

    /// Variance in basis points of the standard cost (100 = 1%); 0 when the
    /// standard cost is 0.
    pub fn variance_bps(&self) -> (r: i64)
        requires
            self.standard_cost != 0 ==> fits_i64(self.variance * 10_000),
            self.standard_cost != 0 ==> !(self.variance * 10_000 == i64::MIN && self.standard_cost
                == -1),
        ensures
            self.standard_cost == 0 ==> r == 0,
            self.standard_cost != 0 ==> r == trunc_div(self.variance * 10_000, self.standard_cost as int),
    {
        if self.standard_cost == 0 {
            return 0;
        }
        let r = div_i64(self.variance * 10_000, self.standard_cost);
        r
    }
}

/// Material price variance for a purchase: (actual price - standard
/// price) * actual quantity.
pub fn material_price_variance(actual_qty: i64, actual_price: Money, standard_price: Money) -> (v: Money)
    requires
        fits_i64(actual_price - standard_price),
        fits_i64((actual_price - standard_price) * actual_qty),
    ensures
        v == (actual_price - standard_price) * actual_qty,
{
    (actual_price - standard_price) * actual_qty
}

/// Material usage variance for production: (actual quantity - standard
/// quantity) * standard price.
pub fn material_usage_variance(actual_qty: i64, standard_qty: i64, standard_price: Money) -> (v: Money)
    requires
        fits_i64(actual_qty - standard_qty),
        fits_i64((actual_qty - standard_qty) * standard_price),
    ensures
        v == (actual_qty - standard_qty) * standard_price,
{
    (actual_qty - standard_qty) * standard_price
}

/// Labor rate variance: (actual rate - standard rate) * actual hours.
pub fn labor_rate_variance(actual_hours: i64, actual_rate: Money, standard_rate: Money) -> (v: Money)
    requires
        fits_i64(actual_rate - standard_rate),
        fits_i64((actual_rate - standard_rate) * actual_hours),
    ensures
        v == (actual_rate - standard_rate) * actual_hours,
{
    (actual_rate - standard_rate) * actual_hours
}

/// Labor efficiency variance: (actual hours - standard hours) * standard
/// rate.
pub fn labor_efficiency_variance(actual_hours: i64, standard_hours: i64, standard_rate: Money) -> (v: Money)
    requires
        fits_i64(actual_hours - standard_hours),
        fits_i64((actual_hours - standard_hours) * standard_rate),
    ensures
        v == (actual_hours - standard_hours) * standard_rate,
{
    (actual_hours - standard_hours) * standard_rate
}

/// Per-line costs of one unit of product: standard cost of the component
/// times quantity per unit; 0 for an unknown component.
pub open spec fn unit_cost_terms(skus: Seq<Sku>, lines: Seq<BomLine>) -> Seq<int> {
    Seq::new(
        lines.len(),
        |i: int|
            match lookup(skus, lines[i].component_sku_id) {
                Some(s) => s.standard_cost * lines[i].quantity_per,
                None => 0,
            },
    )
}

/// Calculate the standard cost of one unit of a BOM-based product: the sum
/// over lines of component standard cost times quantity per unit, unknown
/// components costing 0.
pub fn product_standard_cost(bom: &Bom, inventory: &Inventory) -> (c: Money)
    requires
        forall|i: int|
            0 <= i < bom.lines@.len() ==> fits_i64(#[trigger] unit_cost_terms(inventory@, bom.lines@)[i]),
        sum_fits(unit_cost_terms(inventory@, bom.lines@)),
    ensures
        c == sum(unit_cost_terms(inventory@, bom.lines@)),
{
    let ghost terms = unit_cost_terms(inventory@, bom.lines@);
    let mut total: i64 = 0;
    let n = bom.lines.len();
    let mut i: usize = 0;
    while i < n
        invariant
            n == bom.lines@.len(),
            terms == unit_cost_terms(inventory@, bom.lines@),
            forall|k: int| 0 <= k < n ==> fits_i64(#[trigger] terms[k]),
            sum_fits(terms),
            0 <= i <= n,
            total == sum(terms.take(i as int)),
        decreases n - i,
    {
        let line = bom.lines[i];
        assert(fits_i64(terms[i as int]));
        let term: i64 = match inventory.get_sku(line.component_sku_id) {
            Some(s) => s.standard_cost * line.quantity_per,
            None => 0,
        };
        assert(terms.take(i + 1).drop_last() =~= terms.take(i as int));
        assert(fits_i64(sum(terms.take(i + 1))));
        total = total + term;
        i = i + 1;
    }
    assert(terms.take(n as int) =~= terms);
    total
}

/// Standard cost of the quantity of a work order: the cost of its
/// product's BOM for that quantity, or 0 when the product has no BOM.
pub open spec fn work_order_standard_cost(wo: WorkOrder, boms: Map<u64, Bom>, skus: Seq<Sku>) -> int {
    if boms.contains_key(wo.product_sku_id) {
        sum(cost_terms(skus, boms[wo.product_sku_id].lines@, wo.quantity as int))
    } else {
        0
    }
}

/// Analyze cost variance for a completed work order: its actual cost
/// against the standard cost of its quantity.
pub fn analyze_work_order_cost(wo: &WorkOrder, bom_registry: &BomRegistry, inventory: &Inventory) -> (cv: CostVariance)
    requires
        bom_registry@.contains_key(wo.product_sku_id) ==> cost_fits(
            inventory@,
            bom_registry@[wo.product_sku_id].lines@,
            wo.quantity as int,
        ),
        fits_i64(wo.actual_cost - work_order_standard_cost(*wo, bom_registry@, inventory@)),
    ensures
        cv.standard_cost == work_order_standard_cost(*wo, bom_registry@, inventory@),
        cv.actual_cost == wo.actual_cost,
        cv.variance == wo.actual_cost - cv.standard_cost,
        cv.is_favorable == (cv.variance <= 0),
{
    let standard: Money = match bom_registry.get(wo.product_sku_id) {
        Some(bom) => bom.standard_cost(inventory, wo.quantity),
        None => 0,
    };
    CostVariance::new(standard, wo.actual_cost)
}

/// The standard cost of one unit of product equals the BOM's standard cost
/// for a quantity of 1, and the BOM's cost for `qty` units is `qty` times
/// it.
pub proof fn lemma_product_cost_is_unit_cost(skus: Seq<Sku>, lines: Seq<BomLine>, qty: int)
    ensures
        sum(unit_cost_terms(skus, lines)) == sum(cost_terms(skus, lines, 1)),
        sum(cost_terms(skus, lines, qty)) == qty * sum(unit_cost_terms(skus, lines)),
{
    assert(unit_cost_terms(skus, lines) =~= cost_terms(skus, lines, 1));
    crate::bom::lemma_cost_linear(skus, lines, qty);
}

/// Price variance plus usage variance is the whole material variance:
/// actual spend (actual quantity at actual price) minus standard spend
/// (standard quantity at standard price).
pub proof fn lemma_material_variances_total(
    actual_qty: int,
    standard_qty: int,
    actual_price: int,
    standard_price: int,
)
    ensures
        (actual_price - standard_price) * actual_qty + (actual_qty - standard_qty) * standard_price
            == actual_qty * actual_price - standard_qty * standard_price,
{
    assert((actual_price - standard_price) * actual_qty + (actual_qty - standard_qty) * standard_price
        == actual_qty * actual_price - standard_qty * standard_price) by (nonlinear_arith);
}

/// Rate variance plus efficiency variance is the whole labor variance:
/// actual hours at the actual rate minus standard hours at the standard
/// rate.
pub proof fn lemma_labor_variances_total(
    actual_hours: int,
    standard_hours: int,
    actual_rate: int,
    standard_rate: int,
)
    ensures
        (actual_rate - standard_rate) * actual_hours + (actual_hours - standard_hours) * standard_rate
            == actual_hours * actual_rate - standard_hours * standard_rate,
{
    assert((actual_rate - standard_rate) * actual_hours + (actual_hours - standard_hours) * standard_rate
        == actual_hours * actual_rate - standard_hours * standard_rate) by (nonlinear_arith);
}

} // verus!
