//! Enterprise resource planning: inventory, bills of materials, material
//! requirements planning, production scheduling, cost accounting, purchase
//! orders, work orders and a tamper-evident inventory ledger.

pub mod bom;
pub mod common;
pub mod cost;
pub mod errors;
pub mod inventory;
pub mod mrp;
pub mod purchase;
pub mod scheduling;
pub mod signed_inventory;
pub mod sort;
pub mod work_order;

pub use crate::bom::{Bom, BomLine, BomRegistry};
pub use crate::common::{Id, Money, Timestamp};
pub use crate::cost::{
    analyze_work_order_cost, labor_efficiency_variance, labor_rate_variance,
    material_price_variance, material_usage_variance, product_standard_cost, CostVariance,
};
pub use crate::errors::ErpError;
pub use crate::inventory::{Inventory, Sku};
pub use crate::mrp::{run_mrp, MaterialRequirement};
pub use crate::purchase::{PoLine, PoManager, PoStatus, PurchaseOrder};
pub use crate::scheduling::{forward_schedule, Priority, ProductionJob};
pub use crate::work_order::{WoManager, WoStatus, WorkOrder};
