use alice_erp::{
    forward_schedule, labor_efficiency_variance, labor_rate_variance, material_price_variance,
    material_usage_variance, product_standard_cost, run_mrp, Bom, BomRegistry, CostVariance, ErpError,
    Inventory, PoManager, PoStatus, Priority, ProductionJob, PurchaseOrder, Sku, WoManager,
    WoStatus, WorkOrder,
};

#[test]
fn receive_then_issue_restores_stock() {
    let mut sku = Sku::new(1, "W", "pcs", 0, 0, 0);
    sku.receive(7).unwrap();
    let before = sku.clone();
    sku.receive(13).unwrap();
    sku.issue(13).unwrap();
    assert_eq!(sku, before);
}

#[test]
fn refused_movements_leave_sku_unchanged() {
    let mut sku = Sku::new(1, "W", "pcs", 0, 0, 0);
    sku.receive(4).unwrap();
    let before = sku.clone();
    assert_eq!(sku.receive(-3), Err(ErpError::InvalidQuantity));
    assert_eq!(sku.issue(-3), Err(ErpError::InvalidQuantity));
    assert_eq!(sku.issue(5), Err(ErpError::InsufficientStock));
    assert_eq!(sku, before);
}

#[test]
fn sku_ids_are_sequential() {
    let mut inv = Inventory::new();
    assert_eq!(inv.add_sku("A", "pcs", 0, 0, 0), 1);
    assert_eq!(inv.add_sku("B", "pcs", 0, 0, 0), 2);
    assert_eq!(inv.add_sku("C", "pcs", 0, 0, 0), 3);
    assert!(inv.get_sku(0).is_none());
    assert!(inv.get_sku(4).is_none());
    assert_eq!(inv.get_sku(2).unwrap().name, "B");
    assert_eq!(inv.get_sku(2).unwrap().id, 2);
}

#[test]
fn reorder_list_in_id_order() {
    let mut inv = Inventory::new();
    let a = inv.add_sku("A", "pcs", 10, 0, 0);
    let b = inv.add_sku("B", "pcs", 10, 0, 0);
    let c = inv.add_sku("C", "pcs", 10, 0, 0);
    inv.get_sku_mut(b).unwrap().receive(11).unwrap();
    let list = inv.reorder_list();
    assert_eq!(list.len(), 2);
    assert_eq!(list[0].id, a);
    assert_eq!(list[1].id, c);
}

#[test]
fn po_final_states_refuse_everything() {
    let mut inv = Inventory::new();
    let mut received = PurchaseOrder::new(1, "S", 0);
    received.submit().unwrap();
    received.approve().unwrap();
    received.receive(&mut inv).unwrap();
    assert_eq!(received.submit(), Err(ErpError::InvalidStatusTransition));
    assert_eq!(received.approve(), Err(ErpError::InvalidStatusTransition));
    assert_eq!(received.receive(&mut inv), Err(ErpError::InvalidStatusTransition));
    assert_eq!(received.cancel(), Err(ErpError::InvalidStatusTransition));
    assert_eq!(received.status, PoStatus::Received);

    let mut cancelled = PurchaseOrder::new(2, "S", 0);
    cancelled.cancel().unwrap();
    assert_eq!(cancelled.submit(), Err(ErpError::InvalidStatusTransition));
    assert_eq!(cancelled.approve(), Err(ErpError::InvalidStatusTransition));
    assert_eq!(cancelled.receive(&mut inv), Err(ErpError::InvalidStatusTransition));
    assert_eq!(cancelled.cancel(), Err(ErpError::InvalidStatusTransition));
    assert_eq!(cancelled.status, PoStatus::Cancelled);
}

#[test]
fn po_receive_stops_at_first_bad_line() {
    let mut inv = Inventory::new();
    let a = inv.add_sku("A", "pcs", 0, 0, 0);
    let b = inv.add_sku("B", "pcs", 0, 0, 0);
    let mut po = PurchaseOrder::new(1, "S", 0);
    po.add_line(a, 5, 1);
    po.add_line(999, 3, 1);
    po.add_line(b, -2, 1);
    po.add_line(a, 7, 1);
    po.submit().unwrap();
    po.approve().unwrap();
    assert_eq!(po.receive(&mut inv), Err(ErpError::InvalidQuantity));
    assert_eq!(po.status, PoStatus::Approved);
    assert_eq!(inv.get_sku(a).unwrap().stock_on_hand, 5);
    assert_eq!(inv.get_sku(b).unwrap().stock_on_hand, 0);
}

#[test]
fn wo_final_states_refuse_everything() {
    let mut wo = WorkOrder::new(1, 1, 1, 0, 10);
    wo.cancel().unwrap();
    assert_eq!(wo.release(), Err(ErpError::InvalidStatusTransition));
    assert_eq!(wo.start(3), Err(ErpError::InvalidStatusTransition));
    assert_eq!(wo.cancel(), Err(ErpError::InvalidStatusTransition));
    assert_eq!(wo.status, WoStatus::Cancelled);
    assert_eq!(wo.actual_start, None);
}

#[test]
fn wo_complete_keeps_consumption_before_failure() {
    let mut inv = Inventory::new();
    let a = inv.add_sku("A", "pcs", 0, 0, 0);
    let b = inv.add_sku("B", "pcs", 0, 0, 0);
    let p = inv.add_sku("P", "pcs", 0, 0, 0);
    inv.get_sku_mut(a).unwrap().receive(10).unwrap();
    inv.get_sku_mut(b).unwrap().receive(1).unwrap();
    let mut bom = Bom::new(p);
    bom.add_component(a, 2);
    bom.add_component(b, 1);
    let mut reg = BomRegistry::new();
    reg.register(bom);
    let mut wo = WorkOrder::new(1, p, 3, 0, 10);
    wo.release().unwrap();
    wo.start(1).unwrap();
    assert_eq!(wo.complete(5, 9, &reg, &mut inv), Err(ErpError::InsufficientStock));
    assert_eq!(wo.status, WoStatus::InProgress);
    assert_eq!(wo.actual_end, None);
    assert_eq!(inv.get_sku(a).unwrap().stock_on_hand, 4);
    assert_eq!(inv.get_sku(b).unwrap().stock_on_hand, 1);
    assert_eq!(inv.get_sku(p).unwrap().stock_on_hand, 0);
}

#[test]
fn wo_complete_records_actuals() {
    let mut inv = Inventory::new();
    let p = inv.add_sku("P", "pcs", 0, 0, 0);
    let reg = BomRegistry::new();
    let mut wo = WorkOrder::new(1, p, 4, 0, 10);
    wo.release().unwrap();
    wo.start(2).unwrap();
    wo.complete(9, 77, &reg, &mut inv).unwrap();
    assert_eq!(wo.status, WoStatus::Completed);
    assert_eq!(wo.actual_start, Some(2));
    assert_eq!(wo.actual_end, Some(9));
    assert_eq!(wo.actual_cost, 77);
    assert_eq!(wo.actual_duration(), Some(7));
    assert_eq!(inv.get_sku(p).unwrap().stock_on_hand, 4);
}

#[test]
fn durations_saturate_at_zero() {
    let mut wo = WorkOrder::new(1, 1, 1, 100, 40);
    assert_eq!(wo.planned_duration(), 0);
    wo.actual_start = Some(50);
    wo.actual_end = Some(20);
    assert_eq!(wo.actual_duration(), Some(0));
}

#[test]
fn mrp_rounds_up_to_lot_size() {
    let mut inv = Inventory::new();
    let c = inv.add_sku("C", "pcs", 0, 25, 0);
    let p = inv.add_sku("P", "pcs", 0, 0, 0);
    let mut bom = Bom::new(p);
    bom.add_component(c, 1);
    let mut reg = BomRegistry::new();
    reg.register(bom);
    for (demand, planned) in [(1, 25), (25, 25), (26, 50), (50, 50), (51, 75)] {
        let reqs = run_mrp(p, demand, &reg, &inv);
        assert_eq!(reqs[0].net_requirement, demand);
        assert_eq!(reqs[0].planned_order, planned);
        assert!(reqs[0].planned_order >= reqs[0].net_requirement);
        assert!(reqs[0].planned_order < reqs[0].net_requirement + 25);
        assert_eq!(reqs[0].planned_order % 25, 0);
    }
}

#[test]
fn mrp_unknown_component_plans_net() {
    let inv = Inventory::new();
    let mut bom = Bom::new(9);
    bom.add_component(42, 3);
    let mut reg = BomRegistry::new();
    reg.register(bom);
    let reqs = run_mrp(9, 4, &reg, &inv);
    assert_eq!(reqs.len(), 1);
    assert_eq!(reqs[0].sku_id, 42);
    assert_eq!(reqs[0].gross_requirement, 12);
    assert_eq!(reqs[0].on_hand, 0);
    assert_eq!(reqs[0].net_requirement, 12);
    assert_eq!(reqs[0].planned_order, 12);
}

#[test]
fn mrp_negative_lot_truncates_toward_zero() {
    let mut inv = Inventory::new();
    let c = inv.add_sku("C", "pcs", 0, -4, 0);
    let p = inv.add_sku("P", "pcs", 0, 0, 0);
    let mut bom = Bom::new(p);
    bom.add_component(c, 1);
    let mut reg = BomRegistry::new();
    reg.register(bom);
    let reqs = run_mrp(p, 10, &reg, &inv);
    // (10 + -4 - 1) / -4 = -1 (rounding toward zero), times -4.
    assert_eq!(reqs[0].planned_order, 4);
}

#[test]
fn cost_of_quantity_is_quantity_times_unit_cost() {
    let mut inv = Inventory::new();
    let a = inv.add_sku("A", "pcs", 0, 0, 7);
    let b = inv.add_sku("B", "pcs", 0, 0, 11);
    let mut bom = Bom::new(100);
    bom.add_component(a, 2);
    bom.add_component(b, 5);
    bom.add_component(999, 4);
    let unit = product_standard_cost(&bom, &inv);
    assert_eq!(unit, 2 * 7 + 5 * 11);
    assert_eq!(bom.standard_cost(&inv, 1), unit);
    assert_eq!(bom.standard_cost(&inv, 6), 6 * unit);
    assert_eq!(bom.standard_cost(&inv, -2), -2 * unit);
}

#[test]
fn variance_bps_truncates_toward_zero() {
    let cv = CostVariance::new(3, 2);
    assert_eq!(cv.variance, -1);
    assert_eq!(cv.variance_bps(), -3333);
    let cv = CostVariance::new(-3, -2);
    assert_eq!(cv.variance, 1);
    assert_eq!(cv.variance_bps(), -3333);
    let cv = CostVariance::new(3, 4);
    assert_eq!(cv.variance_bps(), 3333);
}

#[test]
fn bom_registry_register_replaces() {
    let mut reg = BomRegistry::new();
    let mut first = Bom::new(5);
    first.add_component(1, 1);
    reg.register(first);
    let mut second = Bom::new(5);
    second.add_component(2, 3);
    second.add_component(3, 4);
    reg.register(second);
    assert_eq!(reg.count(), 1);
    assert_eq!(reg.get(5).unwrap().component_count(), 2);
}

#[test]
fn can_produce_checks_every_line() {
    let mut inv = Inventory::new();
    let a = inv.add_sku("A", "pcs", 0, 0, 0);
    let b = inv.add_sku("B", "pcs", 0, 0, 0);
    inv.get_sku_mut(a).unwrap().receive(10).unwrap();
    inv.get_sku_mut(b).unwrap().receive(3).unwrap();
    let mut bom = Bom::new(9);
    bom.add_component(a, 2);
    bom.add_component(b, 1);
    assert!(bom.can_produce(&inv, 3));
    assert!(!bom.can_produce(&inv, 4));
}

#[test]
fn forward_schedule_orders_and_never_overlaps() {
    let job = |id: u64, priority: Priority, duration: u64, earliest: u64| ProductionJob {
        work_order_id: id,
        priority,
        duration_seconds: duration,
        earliest_start: earliest,
    };
    let jobs = vec![
        job(1, Priority::Low, 5, 0),
        job(2, Priority::Urgent, 10, 30),
        job(3, Priority::High, 7, 20),
        job(4, Priority::High, 3, 5),
        job(5, Priority::Urgent, 1, 30),
    ];
    let sched = forward_schedule(&jobs, 10);
    let ids: Vec<u64> = sched.iter().map(|s| s.0).collect();
    assert_eq!(ids, vec![2, 5, 4, 3, 1]);
    assert_eq!(sched[0], (2, 30, 40));
    assert_eq!(sched[1], (5, 40, 41));
    assert_eq!(sched[2], (4, 41, 44));
    assert_eq!(sched[3], (3, 44, 51));
    assert_eq!(sched[4], (1, 51, 56));
    for w in sched.windows(2) {
        assert!(w[1].1 >= w[0].2);
    }
}

#[test]
fn work_order_schedule_is_stable() {
    let mut mgr = WoManager::new();
    let a = mgr.create_order(1, 1, 300, 400);
    let b = mgr.create_order(2, 1, 100, 200);
    let c = mgr.create_order(3, 1, 300, 350);
    let d = mgr.create_order(4, 1, 100, 150);
    let ids: Vec<u64> = mgr.schedule().iter().map(|wo| wo.id).collect();
    assert_eq!(ids, vec![b, d, a, c]);
}

#[test]
fn conflicts_are_exact_pairs_of_active_orders() {
    let mut mgr = WoManager::new();
    let a = mgr.create_order(1, 1, 0, 100);
    let b = mgr.create_order(1, 1, 50, 150);
    let c = mgr.create_order(1, 1, 90, 200);
    let d = mgr.create_order(2, 1, 0, 300);
    let e = mgr.create_order(1, 1, 0, 300);
    mgr.get_mut(e).unwrap().cancel().unwrap();
    let _ = d;
    assert_eq!(mgr.conflicts(), vec![(a, b), (a, c), (b, c)]);
}

#[test]
fn managers_list_in_id_order() {
    let mut pos = PoManager::new();
    let p1 = pos.create_order("V1", 0);
    let p2 = pos.create_order("V2", 0);
    let p3 = pos.create_order("V3", 0);
    pos.get_mut(p2).unwrap().submit().unwrap();
    let drafts: Vec<u64> = pos.list_by_status(PoStatus::Draft).iter().map(|po| po.id).collect();
    assert_eq!(drafts, vec![p1, p3]);
    assert_eq!(pos.get(p2).unwrap().supplier, "V2");

    let mut wos = WoManager::new();
    let w1 = wos.create_order(1, 1, 0, 1);
    let w2 = wos.create_order(1, 1, 0, 1);
    wos.get_mut(w1).unwrap().release().unwrap();
    let planned: Vec<u64> = wos.list_by_status(WoStatus::Planned).iter().map(|wo| wo.id).collect();
    assert_eq!(planned, vec![w2]);
}

#[test]
fn error_messages() {
    assert_eq!(ErpError::InvalidQuantity.to_string(), "invalid quantity");
    assert_eq!(ErpError::NotFound.to_string(), "not found");
}

#[test]
fn defaults_are_empty() {
    assert_eq!(Inventory::default().sku_count(), 0);
    assert_eq!(BomRegistry::default().count(), 0);
    assert_eq!(PoManager::default().count(), 0);
    assert_eq!(WoManager::default().count(), 0);
}

#[test]
fn variances_add_up_to_total_variance() {
    let (aq, sq, ap, sp) = (110, 100, 12, 10);
    assert_eq!(
        material_price_variance(aq, ap, sp) + material_usage_variance(aq, sq, sp),
        aq * ap - sq * sp
    );
    let (ah, sh, ar, sr) = (45, 40, 18, 20);
    assert_eq!(
        labor_rate_variance(ah, ar, sr) + labor_efficiency_variance(ah, sh, sr),
        ah * ar - sh * sr
    );
}

#[test]
fn receipt_adds_total_line_quantity_per_sku() {
    let mut inv = Inventory::new();
    let a = inv.add_sku("A", "pcs", 0, 0, 0);
    let b = inv.add_sku("B", "pcs", 0, 0, 0);
    inv.get_sku_mut(a).unwrap().receive(1).unwrap();
    let mut po = PurchaseOrder::new(1, "S", 0);
    po.add_line(a, 5, 1);
    po.add_line(b, 2, 1);
    po.add_line(a, 7, 1);
    po.submit().unwrap();
    po.approve().unwrap();
    po.receive(&mut inv).unwrap();
    assert_eq!(inv.get_sku(a).unwrap().stock_on_hand, 1 + 5 + 7);
    assert_eq!(inv.get_sku(b).unwrap().stock_on_hand, 2);
}

#[test]
fn completion_consumes_total_requirement_per_component() {
    let mut inv = Inventory::new();
    let a = inv.add_sku("A", "pcs", 0, 0, 0);
    let p = inv.add_sku("P", "pcs", 0, 0, 0);
    inv.get_sku_mut(a).unwrap().receive(100).unwrap();
    let mut bom = Bom::new(p);
    bom.add_component(a, 2);
    bom.add_component(a, 3);
    let mut reg = BomRegistry::new();
    reg.register(bom);
    let mut wo = WorkOrder::new(1, p, 4, 0, 10);
    wo.release().unwrap();
    wo.start(1).unwrap();
    wo.complete(5, 0, &reg, &mut inv).unwrap();
    assert_eq!(inv.get_sku(a).unwrap().stock_on_hand, 100 - (2 + 3) * 4);
    assert_eq!(inv.get_sku(p).unwrap().stock_on_hand, 4);
}

#[test]
fn can_produce_sums_need_per_component() {
    let mut inv = Inventory::new();
    let a = inv.add_sku("A", "pcs", 0, 0, 0);
    inv.get_sku_mut(a).unwrap().receive(4).unwrap();
    let mut bom = Bom::new(9);
    bom.add_component(a, 2);
    bom.add_component(a, 3);
    assert!(!bom.can_produce(&inv, 1));
    inv.get_sku_mut(a).unwrap().receive(1).unwrap();
    assert!(bom.can_produce(&inv, 1));
}

#[test]
fn sufficient_stock_completes() {
    let mut inv = Inventory::new();
    let a = inv.add_sku("A", "pcs", 0, 0, 0);
    let p = inv.add_sku("P", "pcs", 0, 0, 0);
    inv.get_sku_mut(a).unwrap().receive(5).unwrap();
    let mut bom = Bom::new(p);
    bom.add_component(a, 2);
    bom.add_component(a, 3);
    let mut reg = BomRegistry::new();
    reg.register(bom);
    assert!(reg.get(p).unwrap().can_produce(&inv, 1));
    let mut wo = WorkOrder::new(1, p, 1, 0, 10);
    wo.release().unwrap();
    wo.start(1).unwrap();
    wo.complete(2, 0, &reg, &mut inv).unwrap();
    assert_eq!(inv.get_sku(a).unwrap().stock_on_hand, 0);
    assert_eq!(inv.get_sku(p).unwrap().stock_on_hand, 1);
}

#[test]
fn variance_bps_zero_standard_never_multiplies() {
    let cv = CostVariance::new(0, i64::MAX);
    assert_eq!(cv.variance_bps(), 0);
}

#[test]
fn register_count_grows_only_for_new_products() {
    let mut reg = BomRegistry::new();
    reg.register(Bom::new(1));
    assert_eq!(reg.count(), 1);
    reg.register(Bom::new(2));
    assert_eq!(reg.count(), 2);
    reg.register(Bom::new(1));
    assert_eq!(reg.count(), 2);
}
