//! Tamper-evident inventory ledger: every material movement is captured in
//! a record whose canonical bytes are hashed (FNV-1a) and signed by the
//! operator, each record holding the hash of its predecessor. Auditors can
//! replay the log and find the first record that breaks the chain.
//!
//! Signing and signature verification are done by the caller with the
//! operator's Ed25519 key pair: this module carries the signature (type
//! `S`) and the operator's public key (type `P`) without looking into them,
//! and takes the verdict of each signature check as input.
use vstd::prelude::*;
use vstd::utf8::encode_utf8;
use crate::common::{fits_i64, sum, sum_fits};

verus! {

/// Inventory event captured in the trail.
#[derive(Debug, Clone, Copy, PartialEq, Eq, Hash, Structural)]
pub enum InventoryEventKind {
    /// Goods receipt from a purchase order or transfer.
    GoodsReceipt,
    /// Goods issue to a sales order, work order, or transfer.
    GoodsIssue,
    /// Cycle-count correction to reconcile physical vs. book stock.
    CountCorrection,
    /// Stock adjustment (scrap, damage, obsolescence write-off).
    Adjustment,
    /// A purchase order was placed with a supplier.
    PurchaseOrder,
    /// A work order consumed components against the BOM.
    WorkOrderConsumption,
}

impl InventoryEventKind {
    /// Short code used in canonical serialization.
    pub open spec fn spec_code(self) -> Seq<char> {
        match self {
            InventoryEventKind::GoodsReceipt => "RCPT"@,
            InventoryEventKind::GoodsIssue => "ISSUE"@,
            InventoryEventKind::CountCorrection => "COUNT"@,
            InventoryEventKind::Adjustment => "ADJ"@,
            InventoryEventKind::PurchaseOrder => "PO"@,
            InventoryEventKind::WorkOrderConsumption => "WOC"@,
        }
    }

    /// Short code used in canonical serialization.
    pub fn code(&self) -> (c: &'static str)
        ensures
            c@ == self.spec_code(),
    {
        match self {
            InventoryEventKind::GoodsReceipt => "RCPT",
            InventoryEventKind::GoodsIssue => "ISSUE",
            InventoryEventKind::CountCorrection => "COUNT",
            InventoryEventKind::Adjustment => "ADJ",
            InventoryEventKind::PurchaseOrder => "PO",
            InventoryEventKind::WorkOrderConsumption => "WOC",
        }
    }
}

/// One inventory movement ready to be signed.
#[derive(Debug, Clone, PartialEq, Eq)]
pub struct InventoryRecord {
    /// Monotonic sequence number.
    pub seq: u64,
    /// Kind of event.
    pub kind: InventoryEventKind,
    /// Unix nanosecond timestamp.
    pub timestamp_ns: u64,
    /// SKU / material master identifier.
    pub sku: String,
    /// Warehouse / storage location code.
    pub warehouse: String,
    /// Signed quantity delta (positive for receipt, negative for issue).
    pub quantity: i64,
    /// Unit-of-measure code (`EA`, `KG`, `L`, `M`, ...).
    pub uom: String,
    /// Signed unit cost in minor currency units (0 if not applicable).
    pub unit_cost_minor: i64,
    /// Operator user id (warehouse clerk, buyer, planner).
    pub operator_id: String,
    /// Free-form reason / reference (PO number, work order id).
    pub reference: String,
    /// Hash of the previous record (0 for genesis).
    pub prev_hash: u64,
}

/// The eight little-endian bytes of `x`.
pub open spec fn le_bytes(x: u64) -> Seq<u8> {
    seq![
        x as u8,
        (x >> 8u64) as u8,
        (x >> 16u64) as u8,
        (x >> 24u64) as u8,
        (x >> 32u64) as u8,
        (x >> 40u64) as u8,
        (x >> 48u64) as u8,
        (x >> 56u64) as u8,
    ]
}

/// The UTF-8 bytes of a text followed by a zero terminator.
pub open spec fn text_bytes(s: Seq<char>) -> Seq<u8> {
    encode_utf8(s).push(0u8)
}

/// Canonical byte layout of a record, used for hashing and signing: the
/// sequence number, the kind's code, the timestamp, SKU, warehouse,
/// quantity, unit of measure, unit cost, operator, reference and previous
/// hash; integers as eight little-endian bytes (two's complement for signed
/// ones), texts as UTF-8 followed by a zero byte.
pub open spec fn canonical(r: InventoryRecord) -> Seq<u8> {
    le_bytes(r.seq) + text_bytes(r.kind.spec_code()) + le_bytes(r.timestamp_ns) + text_bytes(r.sku@)
        + text_bytes(r.warehouse@) + le_bytes(r.quantity as u64) + text_bytes(r.uom@) + le_bytes(
        r.unit_cost_minor as u64,
    ) + text_bytes(r.operator_id@) + text_bytes(r.reference@) + le_bytes(r.prev_hash)
}

/// FNV-1a offset basis.
pub const FNV_OFFSET: u64 = 0xcbf2_9ce4_8422_2325;

/// FNV-1a prime.
pub const FNV_PRIME: u64 = 0x0000_0100_0000_01b3;

/// One FNV-1a step: xor in the byte, then multiply by the prime modulo
/// 2^64.
pub open spec fn fnv_step(h: u64, b: u8) -> u64 {
    (((h ^ (b as u64)) as nat * FNV_PRIME as nat) % 0x1_0000_0000_0000_0000nat) as u64
}

/// 64-bit FNV-1a hash of a byte sequence.
pub open spec fn fnv1a(bytes: Seq<u8>) -> u64
    decreases bytes.len(),
{
    if bytes.len() == 0 {
        FNV_OFFSET
    } else {
        fnv_step(fnv1a(bytes.drop_last()), bytes.last())
    }
}

/// Hash of a record: FNV-1a of its canonical bytes.
pub open spec fn record_hash(r: InventoryRecord) -> u64 {
    fnv1a(canonical(r))
}

fn push_le_u64(buf: &mut Vec<u8>, x: u64)
    ensures
        final(buf)@ == old(buf)@ + le_bytes(x),
{
    buf.push(x as u8);
    buf.push((x >> 8u64) as u8);
    buf.push((x >> 16u64) as u8);
    buf.push((x >> 24u64) as u8);
    buf.push((x >> 32u64) as u8);
    buf.push((x >> 40u64) as u8);
    buf.push((x >> 48u64) as u8);
    buf.push((x >> 56u64) as u8);
    assert(final(buf)@ =~= old(buf)@ + le_bytes(x));
}

fn push_text(buf: &mut Vec<u8>, s: &str)
    ensures
        final(buf)@ == old(buf)@ + text_bytes(s@),
{
    let bytes = s.as_bytes();
    let n = bytes.len();
    let mut i: usize = 0;
    while i < n
        invariant
            n == bytes@.len(),
            bytes@ == encode_utf8(s@),
            0 <= i <= n,
            buf@ == old(buf)@ + bytes@.take(i as int),
        decreases n - i,
    {
        buf.push(bytes[i]);
        assert(bytes@.take(i + 1) =~= bytes@.take(i as int).push(bytes@[i as int]));
        assert(buf@ =~= old(buf)@ + bytes@.take(i + 1));
        i = i + 1;
    }
    assert(bytes@.take(n as int) =~= bytes@);
    buf.push(0u8);
    assert(buf@ =~= old(buf)@ + text_bytes(s@));
}

impl InventoryRecord {
    /// Canonical byte layout used for hashing and signing.
    pub fn canonical_bytes(&self) -> (b: Vec<u8>)
        ensures
            b@ == canonical(*self),
    {
        let mut buf: Vec<u8> = Vec::with_capacity(200);
        push_le_u64(&mut buf, self.seq);
        push_text(&mut buf, self.kind.code());
        push_le_u64(&mut buf, self.timestamp_ns);
        push_text(&mut buf, self.sku.as_str());
        push_text(&mut buf, self.warehouse.as_str());
        push_le_u64(&mut buf, self.quantity as u64);
        push_text(&mut buf, self.uom.as_str());
        push_le_u64(&mut buf, self.unit_cost_minor as u64);
        push_text(&mut buf, self.operator_id.as_str());
        push_text(&mut buf, self.reference.as_str());
        push_le_u64(&mut buf, self.prev_hash);
        assert(buf@ =~= canonical(*self));
        buf
    }

    /// `FNV-1a` hash of the canonical byte layout.
    pub fn hash(&self) -> (h: u64)
        ensures
            h == record_hash(*self),
    {
        let bytes = self.canonical_bytes();
        let mut h: u64 = FNV_OFFSET;
        let n = bytes.len();
        let mut i: usize = 0;
        while i < n
            invariant
                n == bytes@.len(),
                0 <= i <= n,
                h == fnv1a(bytes@.take(i as int)),
            decreases n - i,
        {
            assert(bytes@.take(i + 1).drop_last() =~= bytes@.take(i as int));
            h = h ^ (bytes[i] as u64);
            h = h.wrapping_mul(FNV_PRIME);
            i = i + 1;
        }
        assert(bytes@.take(n as int) =~= bytes@);
        h
    }
}

/// [`InventoryRecord`] plus the operator's `Ed25519` signature over its
/// canonical bytes.
#[derive(Debug, Clone, PartialEq, Eq)]
pub struct SignedInventoryRecord<S, P> {
    /// The wrapped record.
    pub record: InventoryRecord,
    /// `FNV-1a` hash of the record's canonical bytes.
    pub hash: u64,
    /// `Ed25519` signature over the canonical bytes.
    pub signature: S,
    /// Operator's `Ed25519` public key.
    pub operator: P,
}

impl<S, P> SignedInventoryRecord<S, P> {
    /// The stored hash is the hash of the record.
    pub open spec fn spec_hash_consistent(self) -> bool {
        self.hash == record_hash(self.record)
    }

    /// Verify hash consistency and the signature: `signature_valid` is the
    /// verdict of checking `signature` against the record's canonical bytes
    /// with the public key `operator`.
    pub fn verify(&self, signature_valid: bool) -> (ok: bool)
        ensures
            ok == (self.spec_hash_consistent() && signature_valid),
    {
        if self.hash != self.record.hash() {
            return false;
        }
        signature_valid
    }
}

/// Entry `i` of a trail is intact: its sequence number is `i`, it links to
/// the hash of the entry before it (0 for the first), its hash is the hash
/// of its record, and its signature checked out.
pub open spec fn entry_intact<S, P>(entries: Seq<SignedInventoryRecord<S, P>>, signatures_valid: Seq<bool>, i: int) -> bool {
    let e = entries[i];
    &&& e.record.seq as usize == i
    &&& e.record.prev_hash == (if i == 0 { 0u64 } else { entries[i - 1].hash })
    &&& e.spec_hash_consistent()
    &&& signatures_valid[i]
}

/// Every entry of the trail is intact.
pub open spec fn trail_intact<S, P>(entries: Seq<SignedInventoryRecord<S, P>>, signatures_valid: Seq<bool>) -> bool {
    forall|i: int| 0 <= i < entries.len() ==> #[trigger] entry_intact(entries, signatures_valid, i)
}

/// Hash of the last entry, 0 for an empty trail.
pub open spec fn spec_tail_hash<S, P>(entries: Seq<SignedInventoryRecord<S, P>>) -> u64 {
    if entries.len() == 0 { 0 } else { entries.last().hash }
}

/// The quantities of the entries for the given SKU and warehouse, 0 for
/// the other entries.
pub open spec fn on_hand_terms<S, P>(entries: Seq<SignedInventoryRecord<S, P>>, sku: Seq<char>, warehouse: Seq<char>) -> Seq<int> {
    Seq::new(
        entries.len(),
        |i: int|
            if entries[i].record.sku@ == sku && entries[i].record.warehouse@ == warehouse {
                entries[i].record.quantity as int
            } else {
                0
            },
    )
}

/// The distinct SKUs of the entries, in order of first appearance.
pub open spec fn distinct_skus<S, P>(entries: Seq<SignedInventoryRecord<S, P>>) -> Seq<Seq<char>>
    decreases entries.len(),
{
    if entries.len() == 0 {
        Seq::empty()
    } else {
        let d = distinct_skus(entries.drop_last());
        if d.contains(entries.last().record.sku@) {
            d
        } else {
            d.push(entries.last().record.sku@)
        }
    }
}

/// The entries of the given kind.
pub open spec fn entries_of_kind<S, P>(entries: Seq<SignedInventoryRecord<S, P>>, kind: InventoryEventKind) -> Seq<SignedInventoryRecord<S, P>> {
    entries.filter(|e: SignedInventoryRecord<S, P>| e.record.kind == kind)
}

/// Append-only chain of [`SignedInventoryRecord`] records.
#[derive(Debug, Clone)]
pub struct InventoryTrail<S, P> {
    entries: Vec<SignedInventoryRecord<S, P>>,
}

impl<S, P> View for InventoryTrail<S, P> {
    type V = Seq<SignedInventoryRecord<S, P>>;

    /// The entries, oldest first.
    closed spec fn view(&self) -> Seq<SignedInventoryRecord<S, P>> {
        self.entries@
    }
}

impl<S, P> Default for InventoryTrail<S, P> {
    /// An empty trail.
    fn default() -> (t: Self)
        ensures
            t@ == Seq::<SignedInventoryRecord<S, P>>::empty(),
    {
        InventoryTrail::new()
    }
}

impl<S, P> InventoryTrail<S, P> {
    /// Construct an empty trail.
    pub fn new() -> (t: Self)
        ensures
            t@ == Seq::<SignedInventoryRecord<S, P>>::empty(),
    {
        InventoryTrail { entries: Vec::new() }
    }

    /// A trail holding the given entries, e.g. a log read back for audit.
    pub fn from_entries(entries: Vec<SignedInventoryRecord<S, P>>) -> (t: Self)
        ensures
            t@ == entries@,
    {
        InventoryTrail { entries }
    }

    /// Number of entries.
    pub fn len(&self) -> (n: usize)
        ensures
            n == self@.len(),
    {
        self.entries.len()
    }

    /// Whether the trail is empty.
    pub fn is_empty(&self) -> (b: bool)
        ensures
            b == (self@.len() == 0),
    {
        self.entries.len() == 0
    }

    /// Read-only view.
    pub fn entries(&self) -> (s: &[SignedInventoryRecord<S, P>])
        ensures
            s@ == self@,
    {
        self.entries.as_slice()
    }

    /// Hash of the last record (0 for empty).
    pub fn tail_hash(&self) -> (h: u64)
        ensures
            h == spec_tail_hash(self@),
    {
        let n = self.entries.len();
        if n == 0 {
            0
        } else {
            self.entries[n - 1].hash
        }
    }

    /// The record of the next inventory event, ready to be signed: its
    /// sequence number is the number of entries and it links to the hash of
    /// the last entry.
    pub fn next_record(
        &self,
        kind: InventoryEventKind,
        timestamp_ns: u64,
        sku: String,
        warehouse: String,
        quantity: i64,
        uom: String,
        unit_cost_minor: i64,
        operator_id: String,
        reference: String,
    ) -> (r: InventoryRecord)
        ensures
            r == (InventoryRecord {
                seq: self@.len() as u64,
                kind,
                timestamp_ns,
                sku,
                warehouse,
                quantity,
                uom,
                unit_cost_minor,
                operator_id,
                reference,
                prev_hash: spec_tail_hash(self@),
            }),
    {
        let seq = self.entries.len() as u64;
        let prev_hash = self.tail_hash();
        InventoryRecord {
            seq,
            kind,
            timestamp_ns,
            sku,
            warehouse,
            quantity,
            uom,
            unit_cost_minor,
            operator_id,
            reference,
            prev_hash,
        }
    }

    /// Append a record with the operator's signature over its canonical
    /// bytes and the operator's public key; the entry's hash is computed
    /// here. The record must continue the chain, as the one `next_record`
    /// builds does: its sequence number is the number of entries and it
    /// links to the hash of the last entry.
    pub fn append_signed(
        &mut self,
        record: InventoryRecord,
        signature: S,
        operator: P,
    ) -> (e: &SignedInventoryRecord<S, P>)
        requires
            record.seq == old(self)@.len(),
            record.prev_hash == spec_tail_hash(old(self)@),
        ensures
            final(self)@ == old(self)@.push(
                SignedInventoryRecord { record, hash: record_hash(record), signature, operator },
            ),
            *e == final(self)@.last(),
            forall|signatures_valid: Seq<bool>|
                signatures_valid.len() == old(self)@.len() && #[trigger] trail_intact(
                    old(self)@,
                    signatures_valid,
                ) ==> trail_intact(final(self)@, signatures_valid.push(true)),
    {
        let hash = record.hash();
        let ghost before = self.entries@;
        self.entries.push(SignedInventoryRecord { record, hash, signature, operator });
        let n = self.entries.len();
        proof {
            assert forall|signatures_valid: Seq<bool>|
                signatures_valid.len() == before.len() && #[trigger] trail_intact(
                    before,
                    signatures_valid,
                ) implies trail_intact(self.entries@, signatures_valid.push(true)) by {
                lemma_append_keeps_intact(before, signatures_valid, record, signature, operator);
            }
        }
        &self.entries[n - 1]
    }

    /// Scans the entries in order and stops at the first one that is not
    /// intact.
    fn scan_chain(&self, signatures_valid: &[bool]) -> (r: Option<usize>)
        requires
            signatures_valid@.len() == self@.len(),
        ensures
            match r {
                Some(i) => {
                    &&& i < self@.len()
                    &&& !entry_intact(self@, signatures_valid@, i as int)
                    &&& forall|j: int| 0 <= j < i ==> #[trigger] entry_intact(self@, signatures_valid@, j)
                },
                None => trail_intact(self@, signatures_valid@),
            },
    {
        let mut expected_prev: u64 = 0;
        let n = self.entries.len();
        let mut i: usize = 0;
        while i < n
            invariant
                n == self.entries@.len() == signatures_valid@.len(),
                0 <= i <= n,
                expected_prev == (if i == 0 { 0u64 } else { self.entries@[i - 1].hash }),
                forall|j: int| 0 <= j < i ==> #[trigger] entry_intact(self.entries@, signatures_valid@, j),
            decreases n - i,
        {
            let e = &self.entries[i];
            if e.record.seq as usize != i {
                return Some(i);
            }
            if e.record.prev_hash != expected_prev {
                return Some(i);
            }
            if !e.verify(signatures_valid[i]) {
                return Some(i);
            }
            assert(entry_intact(self.entries@, signatures_valid@, i as int));
            expected_prev = e.hash;
            i = i + 1;
        }
        None
    }

    /// The first entry that breaks the chain (wrong sequence number, wrong
    /// link to its predecessor, inconsistent hash or failed signature),
    /// where `signatures_valid[i]` is the verdict of the signature check of
    /// entry `i`; `None` if the trail is intact.
    pub fn find_first_tamper(&self, signatures_valid: &[bool]) -> (r: Option<usize>)
        requires
            signatures_valid@.len() == self@.len(),
        ensures
            match r {
                Some(i) => {
                    &&& i < self@.len()
                    &&& !entry_intact(self@, signatures_valid@, i as int)
                    &&& forall|j: int| 0 <= j < i ==> #[trigger] entry_intact(self@, signatures_valid@, j)
                },
                None => trail_intact(self@, signatures_valid@),
            },
            forall|i: int|
                0 <= i < self@.len() && {
                    ||| (#[trigger] self@[i]).record.prev_hash != (if i == 0 {
                        0u64
                    } else {
                        self@[i - 1].hash
                    })
                    ||| self@[i].record.seq as usize != i
                    ||| self@[i].hash != record_hash(self@[i].record)
                    ||| !signatures_valid@[i]
                } ==> r is Some && r->0 <= i,
            r matches Some(k) ==> {
                ||| self@[k as int].record.prev_hash != (if k == 0 {
                    0u64
                } else {
                    self@[k - 1].hash
                })
                ||| self@[k as int].record.seq as usize != k
                ||| self@[k as int].hash != record_hash(self@[k as int].record)
                ||| !signatures_valid@[k as int]
            },
    {
        let r = self.scan_chain(signatures_valid);
        proof {
            assert forall|i: int|
                0 <= i < self@.len() && {
                    ||| (#[trigger] self@[i]).record.prev_hash != (if i == 0 {
                        0u64
                    } else {
                        self@[i - 1].hash
                    })
                    ||| self@[i].record.seq as usize != i
                    ||| self@[i].hash != record_hash(self@[i].record)
                    ||| !signatures_valid@[i]
                } implies r is Some && r->0 <= i by {
                assert(!entry_intact(self@, signatures_valid@, i));
            }
        }
        r
    }

    /// Whether the trail is intact, given the verdict of each entry's
    /// signature check.
    pub fn is_valid(&self, signatures_valid: &[bool]) -> (b: bool)
        requires
            signatures_valid@.len() == self@.len(),
        ensures
            b == trail_intact(self@, signatures_valid@),
            forall|i: int|
                0 <= i < self@.len() && {
                    ||| (#[trigger] self@[i]).record.prev_hash != (if i == 0 {
                        0u64
                    } else {
                        self@[i - 1].hash
                    })
                    ||| self@[i].record.seq as usize != i
                    ||| self@[i].hash != record_hash(self@[i].record)
                    ||| !signatures_valid@[i]
                } ==> !b,
    {
        let r = self.find_first_tamper(signatures_valid);
        r.is_none()
    }

    /// Current on-hand quantity for the given SKU and warehouse: the sum of
    /// the quantity deltas of their entries.
    pub fn on_hand(&self, sku: &str, warehouse: &str) -> (q: i64)
        requires
            sum_fits(on_hand_terms(self@, sku@, warehouse@)),
        ensures
            q == sum(on_hand_terms(self@, sku@, warehouse@)),
    {
        let ghost terms = on_hand_terms(self.entries@, sku@, warehouse@);
        let sku_s = sku.to_owned();
        let warehouse_s = warehouse.to_owned();
        let mut total: i64 = 0;
        let n = self.entries.len();
        let mut i: usize = 0;
        while i < n
            invariant
                n == self.entries@.len(),
                terms == on_hand_terms(self.entries@, sku@, warehouse@),
                sku_s@ == sku@,
                warehouse_s@ == warehouse@,
                sum_fits(terms),
                0 <= i <= n,
                total == sum(terms.take(i as int)),
            decreases n - i,
        {
            let e = &self.entries[i];
            assert(terms.take(i + 1).drop_last() =~= terms.take(i as int));
            assert(fits_i64(sum(terms.take(i + 1))));
            if e.record.sku == sku_s && e.record.warehouse == warehouse_s {
                total = total + e.record.quantity;
            }
            i = i + 1;
        }
        assert(terms.take(n as int) =~= terms);
        total
    }

    /// Every distinct SKU seen in the trail, in order of first appearance.
    pub fn skus(&self) -> (r: Vec<String>)
        ensures
            r@.len() == distinct_skus(self@).len(),
            forall|k: int| 0 <= k < r@.len() ==> (#[trigger] r@[k])@ == distinct_skus(self@)[k],
    {
        let mut out: Vec<String> = Vec::new();
        let n = self.entries.len();
        let mut i: usize = 0;
        while i < n
            invariant
                n == self.entries@.len(),
                0 <= i <= n,
                out@.len() == distinct_skus(self.entries@.take(i as int)).len(),
                forall|k: int|
                    0 <= k < out@.len() ==> (#[trigger] out@[k])@ == distinct_skus(
                        self.entries@.take(i as int),
                    )[k],
            decreases n - i,
        {
            let e = &self.entries[i];
            let ghost d = distinct_skus(self.entries@.take(i as int));
            assert(self.entries@.take(i + 1).drop_last() =~= self.entries@.take(i as int));
            let mut found = false;
            let m = out.len();
            let mut k: usize = 0;
            while k < m
                invariant
                    m == out@.len() == d.len(),
                    forall|j: int| 0 <= j < m ==> (#[trigger] out@[j])@ == d[j],
                    0 <= k <= m,
                    found == (exists|j: int| 0 <= j < k && d[j] == e.record.sku@),
                decreases m - k,
            {
                if out[k] == e.record.sku {
                    found = true;
                }
                k = k + 1;
            }
            assert(found == d.contains(e.record.sku@));
            if !found {
                out.push(e.record.sku.clone());
            }
            i = i + 1;
        }
        assert(self.entries@.take(n as int) =~= self.entries@);
        out
    }

    /// Count of events of the given kind.
    pub fn count_kind(&self, kind: InventoryEventKind) -> (c: usize)
        ensures
            c == entries_of_kind(self@, kind).len(),
    {
        let ghost pred = |e: SignedInventoryRecord<S, P>| e.record.kind == kind;
        assert(entries_of_kind(self@, kind) == self.entries@.filter(pred));
        let mut count: usize = 0;
        let n = self.entries.len();
        let mut i: usize = 0;
        while i < n
            invariant
                n == self.entries@.len(),
                pred == (|e: SignedInventoryRecord<S, P>| e.record.kind == kind),
                0 <= i <= n,
                count == self.entries@.take(i as int).filter(pred).len(),
            decreases n - i,
        {
            proof {
                let t = self.entries@.take(i + 1);
                reveal_with_fuel(Seq::<_>::filter, 1);
                assert(t.drop_last() =~= self.entries@.take(i as int));
                assert(t.last() == self.entries@[i as int]);
                self.entries@.take(i as int).lemma_filter_len(pred);
            }
            if self.entries[i].record.kind == kind {
                count = count + 1;
            }
            i = i + 1;
        }
        assert(self.entries@.take(n as int) =~= self.entries@);
        count
    }
}

/// Appending the record that `next_record` builds, with a signature that
/// checks out, keeps an intact trail intact: the new entry carries the next
/// sequence number and links to the hash of the former last entry.
pub proof fn lemma_append_keeps_intact<S, P>(
    entries: Seq<SignedInventoryRecord<S, P>>,
    signatures_valid: Seq<bool>,
    record: InventoryRecord,
    signature: S,
    operator: P,
)
    requires
        signatures_valid.len() == entries.len(),
        entries.len() < usize::MAX,
        trail_intact(entries, signatures_valid),
        record.seq == entries.len() as u64,
        record.prev_hash == spec_tail_hash(entries),
    ensures
        trail_intact(
            entries.push(
                SignedInventoryRecord { record, hash: record_hash(record), signature, operator },
            ),
            signatures_valid.push(true),
        ),
{
    let e2 = entries.push(SignedInventoryRecord { record, hash: record_hash(record), signature, operator });
    let s2 = signatures_valid.push(true);
    assert forall|i: int| 0 <= i < e2.len() implies #[trigger] entry_intact(e2, s2, i) by {
        if i < entries.len() {
            assert(entry_intact(entries, signatures_valid, i));
            assert(e2[i] == entries[i]);
            if i > 0 {
                assert(e2[i - 1] == entries[i - 1]);
            }
        } else {
            assert(record.seq as usize == i);
        }
    }
}

/// An entry whose record no longer hashes to its stored hash (for example
/// a record edited after signing) fails verification whatever its
/// signature, and makes the trail not intact.
pub proof fn lemma_edited_record_detected<S, P>(
    entries: Seq<SignedInventoryRecord<S, P>>,
    signatures_valid: Seq<bool>,
    i: int,
)
    requires
        0 <= i < entries.len(),
        entries[i].hash != record_hash(entries[i].record),
    ensures
        !entry_intact(entries, signatures_valid, i),
        !trail_intact(entries, signatures_valid),
{
    assert(!entry_intact(entries, signatures_valid, i));
}

/// A record whose previous-hash link does not match the stored hash of the
/// entry before it (or is not 0 for the first entry) breaks the chain:
/// the trail is not intact, whatever the signature verdicts.
pub proof fn lemma_broken_link_detected<S, P>(
    entries: Seq<SignedInventoryRecord<S, P>>,
    signatures_valid: Seq<bool>,
    i: int,
)
    requires
        0 <= i < entries.len(),
        entries[i].record.prev_hash != (if i == 0 { 0u64 } else { entries[i - 1].hash }),
    ensures
        !trail_intact(entries, signatures_valid),
{
    assert(!entry_intact(entries, signatures_valid, i));
}

/// An entry whose sequence number is not its position breaks the chain.
pub proof fn lemma_misnumbered_entry_detected<S, P>(
    entries: Seq<SignedInventoryRecord<S, P>>,
    signatures_valid: Seq<bool>,
    i: int,
)
    requires
        0 <= i < entries.len(),
        entries[i].record.seq as usize != i,
    ensures
        !trail_intact(entries, signatures_valid),
{
    assert(!entry_intact(entries, signatures_valid, i));
}

/// An entry whose signature does not check out breaks the chain.
pub proof fn lemma_bad_signature_detected<S, P>(
    entries: Seq<SignedInventoryRecord<S, P>>,
    signatures_valid: Seq<bool>,
    i: int,
)
    requires
        0 <= i < entries.len(),
        i < signatures_valid.len(),
        !signatures_valid[i],
    ensures
        !trail_intact(entries, signatures_valid),
{
    assert(!entry_intact(entries, signatures_valid, i));
}

} // verus!
