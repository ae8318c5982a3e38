//! Bills of materials: the components, and their quantities, that make up
//! one unit of a finished product.
use vstd::prelude::*;
use std::collections::HashMap;
use crate::common::{Id, Money, fits_i64, sum, sum_fits, lookup};
use crate::inventory::{Inventory, Sku};

verus! {

broadcast use vstd::std_specs::hash::group_hash_axioms;

/// A single component line within a BOM.
#[derive(Debug, Clone, Copy, PartialEq, Eq, Structural)]
pub struct BomLine {
    pub component_sku_id: Id,
    pub quantity_per: i64,
}

/// Bill of Materials for a finished product.
#[derive(Debug, Clone, PartialEq, Eq)]
pub struct Bom {
    pub product_sku_id: Id,
    pub lines: Vec<BomLine>,
}

/// Standard cost of the SKU with the given id; 0 for an unknown SKU.
pub open spec fn unit_cost(skus: Seq<Sku>, id: Id) -> int {
    match lookup(skus, id) {
        Some(s) => s.standard_cost as int,
        None => 0,
    }
}

/// Per-line costs of producing `qty` units: unit cost times quantity per
/// unit times `qty`.
pub open spec fn cost_terms(skus: Seq<Sku>, lines: Seq<BomLine>, qty: int) -> Seq<int> {
    Seq::new(
        lines.len(),
        |i: int| unit_cost(skus, lines[i].component_sku_id) * lines[i].quantity_per * qty,
    )
}

/// Computing the cost of `qty` units stays within `i64`: every product and
/// every partial sum fits.
pub open spec fn cost_fits(skus: Seq<Sku>, lines: Seq<BomLine>, qty: int) -> bool {
    &&& forall|i: int|
        0 <= i < lines.len() ==> {
            &&& fits_i64(#[trigger] unit_cost(skus, lines[i].component_sku_id) * lines[i].quantity_per)
            &&& fits_i64(unit_cost(skus, lines[i].component_sku_id) * lines[i].quantity_per * qty)
        }
    &&& sum_fits(cost_terms(skus, lines, qty))
}

/// Total quantity of SKU `id` that the lines require for `qty` units: the
/// sum of quantity per unit times `qty` over the lines of that component.
pub open spec fn component_need(lines: Seq<BomLine>, qty: int, id: Id) -> int
    decreases lines.len(),
{
    if lines.len() == 0 {
        0
    } else {
        component_need(lines.drop_last(), qty, id) + if lines.last().component_sku_id == id {
            lines.last().quantity_per * qty
        } else {
            0
        }
    }
}

/// The inventory holds enough of the component of line `i` for `qty` units
/// of product, counting every line of that component; an unknown
/// component is never available.
pub open spec fn line_available(skus: Seq<Sku>, lines: Seq<BomLine>, i: int, qty: int) -> bool {
    match lookup(skus, lines[i].component_sku_id) {
        Some(s) => s.stock_on_hand >= component_need(lines, qty, lines[i].component_sku_id),
        None => false,
    }
}

/// Every component of the BOM is known and in stock for `qty` units.
pub open spec fn all_available(skus: Seq<Sku>, lines: Seq<BomLine>, qty: int) -> bool {
    forall|i: int| 0 <= i < lines.len() ==> #[trigger] line_available(skus, lines, i, qty)
}

/// Computing the need for component `id` stays within `i64`: each of its
/// lines' requirements and every partial sum fits.
pub open spec fn need_fits(lines: Seq<BomLine>, qty: int, id: Id) -> bool {
    &&& forall|j: int|
        0 <= j < lines.len() && lines[j].component_sku_id == id ==> fits_i64(
            #[trigger] lines[j].quantity_per * qty,
        )
    &&& forall|k: int| 0 <= k <= lines.len() ==> fits_i64(#[trigger] component_need(lines.take(k), qty, id))
}

/// The check of availability stays within `i64`: the need of a line's
/// component is computed only when the component is known and all earlier
/// lines passed.
pub open spec fn availability_fits(skus: Seq<Sku>, lines: Seq<BomLine>, qty: int) -> bool {
    forall|i: int|
        0 <= i < lines.len() && (forall|j: int| 0 <= j < i ==> #[trigger] line_available(skus, lines, j, qty))
            && (#[trigger] lookup(skus, lines[i].component_sku_id)) is Some ==> need_fits(
            lines,
            qty,
            lines[i].component_sku_id,
        )
}

impl Bom {
    /// A BOM with no component lines.
    pub fn new(product_sku_id: Id) -> (bom: Self)
        ensures
            bom.product_sku_id == product_sku_id,
            bom.lines@ == Seq::<BomLine>::empty(),
    {
        Bom { product_sku_id, lines: Vec::new() }
    }

    /// Add a component to the BOM.
    pub fn add_component(&mut self, component_sku_id: Id, quantity_per: i64)
        ensures
            final(self).product_sku_id == old(self).product_sku_id,
            final(self).lines@ == old(self).lines@.push(BomLine { component_sku_id, quantity_per }),
    {
        self.lines.push(BomLine { component_sku_id, quantity_per });
    }

    /// Calculate the standard cost of producing `qty` units: the sum over
    /// lines of unit cost times quantity per unit times `qty`, an unknown
    /// component costing 0.
    pub fn standard_cost(&self, inventory: &Inventory, qty: i64) -> (c: Money)
        requires
            cost_fits(inventory@, self.lines@, qty as int),
        ensures
            c == sum(cost_terms(inventory@, self.lines@, qty as int)),
    {
        let ghost terms = cost_terms(inventory@, self.lines@, qty as int);
        let mut total: i64 = 0;
        let n = self.lines.len();
        let mut i: usize = 0;
        while i < n
            invariant
                n == self.lines@.len(),
                terms == cost_terms(inventory@, self.lines@, qty as int),
                cost_fits(inventory@, self.lines@, qty as int),
                0 <= i <= n,
                total == sum(terms.take(i as int)),
            decreases n - i,
        {
            let line = self.lines[i];
            let cost: i64 = match inventory.get_sku(line.component_sku_id) {
                Some(s) => s.standard_cost,
                None => 0,
            };
            assert(cost == unit_cost(inventory@, self.lines@[i as int].component_sku_id));
            assert(fits_i64(cost * line.quantity_per));
            let per_unit = cost * line.quantity_per;
            assert(fits_i64(per_unit * qty));
            let term = per_unit * qty;
            assert(terms.take(i + 1).drop_last() =~= terms.take(i as int));
            assert(fits_i64(sum(terms.take(i + 1))));
            total = total + term;
            i = i + 1;
        }
        assert(terms.take(n as int) =~= terms);
        total
    }

    /// Check whether inventory has enough stock to produce `qty` units:
    /// every component is known and its stock covers the total that all of
    /// its lines require (quantity per unit times `qty`, summed).
    pub fn can_produce(&self, inventory: &Inventory, qty: i64) -> (r: bool)
        requires
            availability_fits(inventory@, self.lines@, qty as int),
        ensures
            r == all_available(inventory@, self.lines@, qty as int),
    {
        let ghost lines = self.lines@;
        let n = self.lines.len();
        let mut i: usize = 0;
        while i < n
            invariant
                n == lines.len(),
                lines == self.lines@,
                availability_fits(inventory@, lines, qty as int),
                0 <= i <= n,
                forall|k: int| 0 <= k < i ==> #[trigger] line_available(inventory@, lines, k, qty as int),
            decreases n - i,
        {
            let line = self.lines[i];
            let component = line.component_sku_id;
            match inventory.get_sku(component) {
                Some(s) => {
                    assert(need_fits(lines, qty as int, component));
                    let mut need: i64 = 0;
                    let mut j: usize = 0;
                    while j < n
                        invariant
                            n == lines.len(),
                            lines == self.lines@,
                            need_fits(lines, qty as int, component),
                            0 <= j <= n,
                            need == component_need(lines.take(j as int), qty as int, component),
                        decreases n - j,
                    {
                        let other = self.lines[j];
                        assert(lines.take(j + 1).drop_last() =~= lines.take(j as int));
                        assert(fits_i64(component_need(lines.take(j + 1), qty as int, component)));
                        if other.component_sku_id == component {
                            assert(fits_i64(lines[j as int].quantity_per * qty));
                            need = need + other.quantity_per * qty;
                        }
                        j = j + 1;
                    }
                    assert(lines.take(n as int) =~= lines);
                    if s.stock_on_hand < need {
                        assert(!line_available(inventory@, lines, i as int, qty as int));
                        return false;
                    }
                },
                None => {
                    assert(!line_available(inventory@, lines, i as int, qty as int));
                    return false;
                },
            }
            assert(line_available(inventory@, lines, i as int, qty as int));
            i = i + 1;
        }
        true
    }

    /// Number of component lines.
    pub fn component_count(&self) -> (n: usize)
        ensures
            n == self.lines@.len(),
    {
        self.lines.len()
    }
}

/// BOM registry for all products, keyed by product SKU id.
#[derive(Debug)]
pub struct BomRegistry {
    boms: HashMap<Id, Bom>,
}

impl View for BomRegistry {
    type V = Map<Id, Bom>;

    /// The registered BOM of each product.
    closed spec fn view(&self) -> Map<Id, Bom> {
        self.boms@
    }
}

impl Default for BomRegistry {
    /// An empty registry.
    fn default() -> (reg: Self)
        ensures
            reg@ == Map::<Id, Bom>::empty(),
            reg@.dom().finite(),
    {
        BomRegistry::new()
    }
}

impl BomRegistry {
    /// An empty registry.
    pub fn new() -> (reg: Self)
        ensures
            reg@ == Map::<Id, Bom>::empty(),
            reg@.dom().finite(),
    {
        BomRegistry { boms: HashMap::new() }
    }

    /// Register a BOM under its product id, replacing any earlier one.
    pub fn register(&mut self, bom: Bom)
        ensures
            final(self)@ == old(self)@.insert(bom.product_sku_id, bom),
            final(self)@.dom().finite(),
    {
        let key = bom.product_sku_id;
        self.boms.insert(key, bom);
    }

    /// The BOM registered for a product, if any.
    pub fn get(&self, product_sku_id: Id) -> (r: Option<&Bom>)
        ensures
            match r {
                Some(b) => self@.contains_key(product_sku_id) && self@[product_sku_id] == *b,
                None => !self@.contains_key(product_sku_id),
            },
    {
        self.boms.get(&product_sku_id)
    }

    /// Number of registered BOMs.
    pub fn count(&self) -> (n: usize)
        ensures
            n == self@.len(),
            self@.dom().finite(),
    {
        self.boms.len()
    }
}

/// A registered BOM is found under its product id until another BOM for
/// the same product replaces it.
pub proof fn lemma_register_then_get(boms: Map<Id, Bom>, bom: Bom, other: Id)
    ensures
        boms.insert(bom.product_sku_id, bom).contains_key(bom.product_sku_id),
        boms.insert(bom.product_sku_id, bom)[bom.product_sku_id] == bom,
        other != bom.product_sku_id ==> (boms.insert(bom.product_sku_id, bom).contains_key(other)
            == boms.contains_key(other)),
{
}

/// Registering a BOM for a product not yet registered adds one to the
/// count; registering it again for a registered product keeps the count.
pub proof fn lemma_register_count(boms: Map<Id, Bom>, bom: Bom)
    requires
        boms.dom().finite(),
    ensures
        boms.insert(bom.product_sku_id, bom).dom().finite(),
        boms.insert(bom.product_sku_id, bom).len() == boms.len() + if boms.contains_key(
            bom.product_sku_id,
        ) {
            0int
        } else {
            1int
        },
{
    if boms.contains_key(bom.product_sku_id) {
        assert(boms.insert(bom.product_sku_id, bom).dom() =~= boms.dom());
    }
}

/// The cost of `qty` units is `qty` times the cost of one unit.
pub proof fn lemma_cost_linear(skus: Seq<Sku>, lines: Seq<BomLine>, qty: int)
    ensures
        sum(cost_terms(skus, lines, qty)) == qty * sum(cost_terms(skus, lines, 1)),
    decreases lines.len(),
{
    if lines.len() > 0 {
        let l = lines.drop_last();
        assert(cost_terms(skus, lines, qty).drop_last() =~= cost_terms(skus, l, qty));
        assert(cost_terms(skus, lines, 1).drop_last() =~= cost_terms(skus, l, 1));
        lemma_cost_linear(skus, l, qty);
        let u = unit_cost(skus, lines.last().component_sku_id) * lines.last().quantity_per;
        let a = sum(cost_terms(skus, l, 1));
        assert(qty * (a + u * 1) == qty * a + u * qty) by (nonlinear_arith);
    } else {
        assert(qty * 0 == 0) by (nonlinear_arith);
    }
}

/// The need for a component over two lists of lines is the sum of the
/// needs over each.
pub proof fn lemma_component_need_additive(a: Seq<BomLine>, b: Seq<BomLine>, qty: int, id: Id)
    ensures
        component_need(a + b, qty, id) == component_need(a, qty, id) + component_need(b, qty, id),
    decreases b.len(),
{
    if b.len() == 0 {
        assert(a + b =~= a);
    } else {
        let c = b.drop_last();
        lemma_component_need_additive(a, c, qty, id);
        assert((a + b).drop_last() =~= a + c);
        assert((a + b).last() == b.last());
    }
}

} // verus!
