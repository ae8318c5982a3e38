use alice_erp::signed_inventory::{
    InventoryEventKind, InventoryRecord, InventoryTrail, SignedInventoryRecord,
};

/// A trail whose signatures and operator keys are raw bytes.
type Trail = InventoryTrail<Vec<u8>, Vec<u8>>;

/// Stand-in for the operator's signature bytes; the verdict of checking it
/// is passed to the trail explicitly.
fn signature_bytes(seed: u8) -> Vec<u8> {
    vec![seed; 64]
}

fn operator_key(seed: u8) -> Vec<u8> {
    vec![seed; 32]
}

#[allow(clippy::too_many_arguments)]
fn append(
    trail: &mut Trail,
    seed: u8,
    kind: InventoryEventKind,
    timestamp_ns: u64,
    sku: &str,
    warehouse: &str,
    quantity: i64,
    uom: &str,
    unit_cost_minor: i64,
    operator_id: &str,
    reference: &str,
) -> SignedInventoryRecord<Vec<u8>, Vec<u8>> {
    let record = trail.next_record(
        kind,
        timestamp_ns,
        sku.to_owned(),
        warehouse.to_owned(),
        quantity,
        uom.to_owned(),
        unit_cost_minor,
        operator_id.to_owned(),
        reference.to_owned(),
    );
    trail.append_signed(record, signature_bytes(seed), operator_key(seed)).clone()
}

fn record(kind: InventoryEventKind, sku: &str, quantity: i64) -> InventoryRecord {
    InventoryRecord {
        seq: 0,
        kind,
        timestamp_ns: 1,
        sku: String::from(sku),
        warehouse: String::from("WH-A"),
        quantity,
        uom: String::from("EA"),
        unit_cost_minor: 1_000,
        operator_id: String::from("op-1"),
        reference: String::from("PO-100"),
        prev_hash: 0,
    }
}

#[test]
fn kind_code_is_stable() {
    assert_eq!(InventoryEventKind::GoodsReceipt.code(), "RCPT");
    assert_eq!(InventoryEventKind::GoodsIssue.code(), "ISSUE");
    assert_eq!(InventoryEventKind::CountCorrection.code(), "COUNT");
    assert_eq!(InventoryEventKind::Adjustment.code(), "ADJ");
    assert_eq!(InventoryEventKind::PurchaseOrder.code(), "PO");
    assert_eq!(InventoryEventKind::WorkOrderConsumption.code(), "WOC");
}

#[test]
fn canonical_bytes_are_deterministic() {
    let r = InventoryRecord {
        seq: 0,
        kind: InventoryEventKind::GoodsReceipt,
        timestamp_ns: 1,
        sku: String::from("SKU-001"),
        warehouse: String::from("WH-A"),
        quantity: 100,
        uom: String::from("EA"),
        unit_cost_minor: 1_000,
        operator_id: String::from("op-1"),
        reference: String::from("PO-100"),
        prev_hash: 0,
    };
    assert_eq!(r.canonical_bytes(), r.canonical_bytes());
}

#[test]
fn hash_differs_when_quantity_changes() {
    let mut r = InventoryRecord {
        seq: 0,
        kind: InventoryEventKind::GoodsReceipt,
        timestamp_ns: 1,
        sku: String::from("SKU-001"),
        warehouse: String::from("WH-A"),
        quantity: 100,
        uom: String::from("EA"),
        unit_cost_minor: 1_000,
        operator_id: String::from("op-1"),
        reference: String::new(),
        prev_hash: 0,
    };
    let h1 = r.hash();
    r.quantity = 9_999;
    assert_ne!(h1, r.hash());
}

#[test]
fn empty_trail_tail_hash_is_zero() {
    let trail = Trail::new();
    assert_eq!(trail.tail_hash(), 0);
    assert!(trail.is_empty());
}

#[test]
fn signed_record_verifies_on_append() {
    let mut trail = Trail::new();
    append(
        &mut trail,
        1,
        InventoryEventKind::GoodsReceipt,
        1,
        "SKU-001",
        "WH-A",
        100,
        "EA",
        1_000,
        "op-1",
        "PO-100",
    );
    assert!(trail.entries()[0].verify(true));
}

#[test]
fn chained_prev_hash_matches_predecessor() {
    let mut trail = Trail::new();
    append(&mut trail, 1, InventoryEventKind::GoodsReceipt, 1, "SKU-001", "WH-A", 100, "EA", 1_000, "op-1", "");
    append(&mut trail, 1, InventoryEventKind::GoodsIssue, 2, "SKU-001", "WH-A", -30, "EA", 0, "op-1", "");
    let first = trail.entries()[0].hash;
    assert_eq!(trail.entries()[1].record.prev_hash, first);
}

#[test]
fn intact_trail_is_valid() {
    let mut trail = Trail::new();
    for i in 0..5 {
        append(&mut trail, 1, InventoryEventKind::GoodsReceipt, i, "SKU-001", "WH-A", 10, "EA", 100, "op", "");
    }
    assert!(trail.is_valid(&[true; 5]));
}

#[test]
fn tampered_quantity_is_detected() {
    let mut trail = Trail::new();
    append(&mut trail, 1, InventoryEventKind::Adjustment, 1, "SKU-001", "WH-A", -5, "EA", 0, "op", "scrap");
    // Attacker rewrites -5 -> -500 to hide theft.
    let mut entries = trail.entries().to_vec();
    entries[0].record.quantity = -500;
    let trail = Trail::from_entries(entries);
    assert!(!trail.entries()[0].verify(true));
    assert_eq!(trail.find_first_tamper(&[true]), Some(0));
}

#[test]
fn tampered_sku_is_detected() {
    let mut trail = Trail::new();
    append(&mut trail, 1, InventoryEventKind::GoodsReceipt, 1, "SKU-original", "WH-A", 100, "EA", 1_000, "op", "");
    let mut entries = trail.entries().to_vec();
    entries[0].record.sku = String::from("SKU-attacker");
    let trail = Trail::from_entries(entries);
    assert!(!trail.entries()[0].verify(true));
}

#[test]
fn foreign_operator_signature_is_rejected() {
    let mut trail = Trail::new();
    append(&mut trail, 1, InventoryEventKind::GoodsReceipt, 1, "SKU-001", "WH-A", 100, "EA", 1_000, "op", "");
    let mut entries = trail.entries().to_vec();
    entries[0].signature = signature_bytes(2);
    let trail = Trail::from_entries(entries);
    // The attacker's signature does not check out against the operator's key.
    assert!(!trail.entries()[0].verify(false));
    assert_eq!(trail.find_first_tamper(&[false]), Some(0));
}

#[test]
fn on_hand_sums_deltas_per_sku_and_warehouse() {
    let mut trail = Trail::new();
    append(&mut trail, 1, InventoryEventKind::GoodsReceipt, 1, "SKU-A", "WH-1", 100, "EA", 0, "op", "");
    append(&mut trail, 1, InventoryEventKind::GoodsIssue, 2, "SKU-A", "WH-1", -30, "EA", 0, "op", "");
    append(&mut trail, 1, InventoryEventKind::GoodsReceipt, 3, "SKU-A", "WH-2", 50, "EA", 0, "op", "");
    assert_eq!(trail.on_hand("SKU-A", "WH-1"), 70);
    assert_eq!(trail.on_hand("SKU-A", "WH-2"), 50);
    assert_eq!(trail.on_hand("SKU-B", "WH-1"), 0);
}

#[test]
fn skus_lists_distinct() {
    let mut trail = Trail::new();
    append(&mut trail, 1, InventoryEventKind::GoodsReceipt, 1, "SKU-A", "WH-1", 100, "EA", 0, "op", "");
    append(&mut trail, 1, InventoryEventKind::GoodsReceipt, 2, "SKU-B", "WH-1", 50, "EA", 0, "op", "");
    append(&mut trail, 1, InventoryEventKind::GoodsIssue, 3, "SKU-A", "WH-1", -10, "EA", 0, "op", "");
    let skus = trail.skus();
    assert_eq!(skus.len(), 2);
    assert!(skus.contains(&String::from("SKU-A")));
    assert!(skus.contains(&String::from("SKU-B")));
}

#[test]
fn count_kind_filters() {
    let mut trail = Trail::new();
    for _ in 0..3 {
        append(&mut trail, 1, InventoryEventKind::GoodsReceipt, 0, "SKU", "WH", 1, "EA", 0, "op", "");
    }
    for _ in 0..2 {
        append(&mut trail, 1, InventoryEventKind::PurchaseOrder, 0, "SKU", "WH", 0, "EA", 1000, "op", "PO");
    }
    assert_eq!(trail.count_kind(InventoryEventKind::GoodsReceipt), 3);
    assert_eq!(trail.count_kind(InventoryEventKind::PurchaseOrder), 2);
    assert_eq!(trail.count_kind(InventoryEventKind::Adjustment), 0);
}

#[test]
fn different_kinds_produce_different_hashes() {
    let mk = |kind: InventoryEventKind| InventoryRecord {
        seq: 0,
        kind,
        timestamp_ns: 1,
        sku: String::new(),
        warehouse: String::new(),
        quantity: 0,
        uom: String::new(),
        unit_cost_minor: 0,
        operator_id: String::new(),
        reference: String::new(),
        prev_hash: 0,
    };
    assert_ne!(
        mk(InventoryEventKind::GoodsReceipt).hash(),
        mk(InventoryEventKind::GoodsIssue).hash()
    );
}

// === Further checks of the ledger ===

#[test]
fn canonical_bytes_exact_layout() {
    let r = InventoryRecord {
        seq: 1,
        kind: InventoryEventKind::Adjustment,
        timestamp_ns: 2,
        sku: String::from("S"),
        warehouse: String::from("W"),
        quantity: -1,
        uom: String::from("EA"),
        unit_cost_minor: 3,
        operator_id: String::from("o"),
        reference: String::from("r"),
        prev_hash: 0x0102_0304_0506_0708,
    };
    let mut expected: Vec<u8> = Vec::new();
    expected.extend_from_slice(&1u64.to_le_bytes());
    expected.extend_from_slice(b"ADJ\0");
    expected.extend_from_slice(&2u64.to_le_bytes());
    expected.extend_from_slice(b"S\0W\0");
    expected.extend_from_slice(&(-1i64).to_le_bytes());
    expected.extend_from_slice(b"EA\0");
    expected.extend_from_slice(&3i64.to_le_bytes());
    expected.extend_from_slice(b"o\0r\0");
    expected.extend_from_slice(&0x0102_0304_0506_0708u64.to_le_bytes());
    assert_eq!(r.canonical_bytes(), expected);
}

#[test]
fn hash_is_fnv1a_of_canonical_bytes() {
    let r = record(InventoryEventKind::GoodsReceipt, "SKU-001", 100);
    let mut h: u64 = 0xcbf2_9ce4_8422_2325;
    for b in r.canonical_bytes() {
        h ^= u64::from(b);
        h = h.wrapping_mul(0x0000_0100_0000_01b3);
    }
    assert_eq!(r.hash(), h);
}

#[test]
fn appended_entries_are_numbered_and_chained() {
    let mut trail = Trail::new();
    let e0 = append(&mut trail, 1, InventoryEventKind::GoodsReceipt, 1, "A", "W", 1, "EA", 0, "op", "");
    let e1 = append(&mut trail, 1, InventoryEventKind::GoodsIssue, 2, "A", "W", -1, "EA", 0, "op", "");
    assert_eq!(e0.record.seq, 0);
    assert_eq!(e0.record.prev_hash, 0);
    assert_eq!(e0.hash, e0.record.hash());
    assert_eq!(e1.record.seq, 1);
    assert_eq!(e1.record.prev_hash, e0.hash);
    assert_eq!(trail.tail_hash(), e1.hash);
    assert_eq!(trail.len(), 2);
    assert_eq!(trail.find_first_tamper(&[true, true]), None);
}

#[test]
fn broken_link_is_reported_at_its_entry() {
    let mut trail = Trail::new();
    for i in 0..3 {
        append(&mut trail, 1, InventoryEventKind::GoodsReceipt, i, "A", "W", 1, "EA", 0, "op", "");
    }
    let mut entries = trail.entries().to_vec();
    entries.remove(1);
    let trail = Trail::from_entries(entries);
    assert_eq!(trail.find_first_tamper(&[true, true]), Some(1));
    assert!(!trail.is_valid(&[true, true]));
}

#[test]
fn failed_signature_is_reported_first() {
    let mut trail = Trail::new();
    for i in 0..3 {
        append(&mut trail, 1, InventoryEventKind::GoodsReceipt, i, "A", "W", 1, "EA", 0, "op", "");
    }
    assert_eq!(trail.find_first_tamper(&[true, false, false]), Some(1));
}
