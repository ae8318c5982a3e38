//! Material requirements planning: explode a product's bill of materials
//! for a demand and compute net requirements and planned orders.
use vstd::prelude::*;
use crate::bom::{BomLine, BomRegistry};
use crate::common::{Id, div_i64, fits_i64, trunc_div, lookup};
use crate::inventory::{Inventory, Sku};

verus! {

/// A planned material requirement produced by MRP.
#[derive(Debug, Clone, Copy, PartialEq, Eq, Structural)]
pub struct MaterialRequirement {
    pub sku_id: Id,
    pub gross_requirement: i64,
    pub on_hand: i64,
    pub net_requirement: i64,
    pub planned_order: i64,
}

/// Gross requirement of a line: quantity per unit times the demand.
pub open spec fn gross_of(line: BomLine, demand: int) -> int {
    line.quantity_per * demand
}

/// Stock on hand of the line's component; 0 for an unknown component.
pub open spec fn on_hand_of(skus: Seq<Sku>, line: BomLine) -> int {
    match lookup(skus, line.component_sku_id) {
        Some(s) => s.stock_on_hand as int,
        None => 0,
    }
}

/// Net requirement: gross requirement minus stock on hand, at least 0.
pub open spec fn net_of(skus: Seq<Sku>, line: BomLine, demand: int) -> int {
    let d = gross_of(line, demand) - on_hand_of(skus, line);
    if d > 0 { d } else { 0 }
}

/// Lot size of the line's component: its reorder quantity, or the net
/// requirement itself for an unknown component.
pub open spec fn lot_of(skus: Seq<Sku>, line: BomLine, demand: int) -> int {
    match lookup(skus, line.component_sku_id) {
        Some(s) => s.reorder_quantity as int,
        None => net_of(skus, line, demand),
    }
}

/// `net` rounded up to a multiple of the lot size `lot` (as Rust's
/// truncating division computes it).
pub open spec fn round_up_to_lot(net: int, lot: int) -> int {
    trunc_div(net + lot - 1, lot) * lot
}

/// Planned order: 0 when nothing is needed, else the net requirement
/// rounded up to a multiple of the lot size.
pub open spec fn planned_of(skus: Seq<Sku>, line: BomLine, demand: int) -> int {
    let net = net_of(skus, line, demand);
    if net > 0 { round_up_to_lot(net, lot_of(skus, line, demand)) } else { 0 }
}

/// The requirement MRP computes for one BOM line.
pub open spec fn requirement_of(skus: Seq<Sku>, line: BomLine, demand: int) -> MaterialRequirement {
    MaterialRequirement {
        sku_id: line.component_sku_id,
        gross_requirement: gross_of(line, demand) as i64,
        on_hand: on_hand_of(skus, line) as i64,
        net_requirement: net_of(skus, line, demand) as i64,
        planned_order: planned_of(skus, line, demand) as i64,
    }
}

/// The computation for one line stays within `i64` and never divides by
/// zero.
pub open spec fn requirement_fits(skus: Seq<Sku>, line: BomLine, demand: int) -> bool {
    let gross = gross_of(line, demand);
    let net = net_of(skus, line, demand);
    let lot = lot_of(skus, line, demand);
    &&& fits_i64(gross)
    &&& fits_i64(gross - on_hand_of(skus, line))
    &&& net > 0 ==> {
        &&& lot != 0
        &&& fits_i64(net + lot)
        &&& fits_i64(net + lot - 1)
        &&& fits_i64(round_up_to_lot(net, lot))
    }
}

/// The requirements for the lines of a BOM, line by line.
pub open spec fn requirements_of(skus: Seq<Sku>, lines: Seq<BomLine>, demand: int) -> Seq<MaterialRequirement> {
    Seq::new(lines.len(), |i: int| requirement_of(skus, lines[i], demand))
}

/// Run MRP for a single product: explode its BOM for `demand_qty` units
/// and compute, per component line, the gross requirement, stock on hand,
/// net requirement and planned order (rounded up to the reorder quantity).
/// A product without a BOM has no requirements.
pub fn run_mrp(
    product_sku_id: Id,
    demand_qty: i64,
    bom_registry: &BomRegistry,
    inventory: &Inventory,
) -> (r: Vec<MaterialRequirement>)
    requires
        bom_registry@.contains_key(product_sku_id) ==> forall|i: int|
            0 <= i < bom_registry@[product_sku_id].lines@.len() ==> #[trigger] requirement_fits(
                inventory@,
                bom_registry@[product_sku_id].lines@[i],
                demand_qty as int,
            ),
    ensures
        bom_registry@.contains_key(product_sku_id) ==> r@ == requirements_of(
            inventory@,
            bom_registry@[product_sku_id].lines@,
            demand_qty as int,
        ),
        !bom_registry@.contains_key(product_sku_id) ==> r@ == Seq::<MaterialRequirement>::empty(),
{
    let bom = match bom_registry.get(product_sku_id) {
        Some(b) => b,
        None => return Vec::new(),
    };
    let ghost lines = bom.lines@;
    let mut out: Vec<MaterialRequirement> = Vec::new();
    let n = bom.lines.len();
    let mut i: usize = 0;
    while i < n
        invariant
            n == bom.lines@.len(),
            lines == bom.lines@,
            forall|k: int| 0 <= k < n ==> #[trigger] requirement_fits(inventory@, lines[k], demand_qty as int),
            0 <= i <= n,
            out@ == requirements_of(inventory@, lines, demand_qty as int).take(i as int),
        decreases n - i,
    {
        let line = bom.lines[i];
        assert(requirement_fits(inventory@, lines[i as int], demand_qty as int));
        let gross = line.quantity_per * demand_qty;
        let sku = inventory.get_sku(line.component_sku_id);
        let on_hand: i64 = match sku {
            Some(s) => s.stock_on_hand,
            None => 0,
        };
        let diff = gross - on_hand;
        let net: i64 = if diff > 0 { diff } else { 0 };
        let planned: i64 = if net > 0 {
            let reorder_qty: i64 = match sku {
                Some(s) => s.reorder_quantity,
                None => net,
            };
            // Round up to multiples of reorder quantity.
            let lots = div_i64(net + reorder_qty - 1, reorder_qty);
            lots * reorder_qty
        } else {
            0
        };
        out.push(
            MaterialRequirement {
                sku_id: line.component_sku_id,
                gross_requirement: gross,
                on_hand,
                net_requirement: net,
                planned_order: planned,
            },
        );
        assert(out@ =~= requirements_of(inventory@, lines, demand_qty as int).take(i + 1));
        i = i + 1;
    }
    assert(requirements_of(inventory@, lines, demand_qty as int).take(n as int) =~= requirements_of(
        inventory@,
        lines,
        demand_qty as int,
    ));
    out
}

/// With a positive lot size, the planned order for a positive net
/// requirement is the smallest multiple of the lot size that covers it.
pub proof fn lemma_round_up_to_lot(net: int, lot: int)
    requires
        net > 0,
        lot > 0,
    ensures
        round_up_to_lot(net, lot) >= net,
        round_up_to_lot(net, lot) < net + lot,
        round_up_to_lot(net, lot) % lot == 0,
{
    let a = net + lot - 1;
    let q = a / lot;
    assert(trunc_div(a, lot) == q);
    vstd::arithmetic::div_mod::lemma_fundamental_div_mod(a, lot);
    assert(0 <= a % lot < lot) by {
        vstd::arithmetic::div_mod::lemma_mod_bound(a, lot);
    }
    vstd::arithmetic::div_mod::lemma_mod_multiples_basic(q, lot);
}

/// Net requirements are never negative, and nothing is planned exactly
/// when nothing is needed (for components with a positive lot size).
pub proof fn lemma_requirement_shape(skus: Seq<Sku>, line: BomLine, demand: int)
    requires
        lot_of(skus, line, demand) > 0 || net_of(skus, line, demand) == 0,
    ensures
        net_of(skus, line, demand) >= 0,
        net_of(skus, line, demand) >= gross_of(line, demand) - on_hand_of(skus, line),
        (planned_of(skus, line, demand) == 0) <== (net_of(skus, line, demand) == 0),
        net_of(skus, line, demand) > 0 ==> planned_of(skus, line, demand) >= net_of(skus, line, demand),
{
    let net = net_of(skus, line, demand);
    if net > 0 {
        lemma_round_up_to_lot(net, lot_of(skus, line, demand));
    }
}

/// What MRP reports for a line, stated over the inventory: the gross
/// requirement is quantity per unit times demand; on hand is the
/// component's stock (0 if unknown); the net requirement is the shortfall
/// (gross minus on hand when positive, else 0); and the planned order is 0
/// when nothing is short, else the smallest multiple of the component's
/// (positive) reorder quantity covering the shortfall.
pub proof fn lemma_requirement_meaning(skus: Seq<Sku>, line: BomLine, demand: int)
    requires
        requirement_fits(skus, line, demand),
        lookup(skus, line.component_sku_id) matches Some(s) ==> s.reorder_quantity > 0,
    ensures
        ({
            let r = requirement_of(skus, line, demand);
            let stock = match lookup(skus, line.component_sku_id) {
                Some(s) => s.stock_on_hand as int,
                None => 0,
            };
            let short = line.quantity_per * demand - stock;
            &&& r.sku_id == line.component_sku_id
            &&& r.gross_requirement == line.quantity_per * demand
            &&& r.on_hand == stock
            &&& r.net_requirement == (if short > 0 { short } else { 0 })
            &&& r.net_requirement <= 0 ==> r.planned_order == 0
            &&& r.net_requirement > 0 ==> {
                &&& r.planned_order >= r.net_requirement
                &&& lookup(skus, line.component_sku_id) matches Some(s) ==> {
                    &&& r.planned_order < r.net_requirement + s.reorder_quantity
                    &&& (r.planned_order as int) % (s.reorder_quantity as int) == 0
                }
                &&& lookup(skus, line.component_sku_id) is None ==> r.planned_order
                    == r.net_requirement
            }
        }),
{
    let net = net_of(skus, line, demand);
    let lot = lot_of(skus, line, demand);
    if net > 0 {
        lemma_round_up_to_lot(net, lot);
        if lookup(skus, line.component_sku_id) is None {
            let a = net + net - 1;
            assert(trunc_div(a, net) == a / net);
            assert(a / net == 1) by (nonlinear_arith)
                requires a == net + net - 1, net > 0;
            assert(lot == net);
            assert(trunc_div(a, lot) == 1);
            assert(round_up_to_lot(net, lot) == 1 * net);
        }
    }
}

} // verus!
