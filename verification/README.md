# alice-erp

Enterprise resource planning — inventory, bills of materials, material
requirements planning, production scheduling, cost accounting, purchase
orders, work orders and a tamper-evident inventory ledger — written in
Verus, with every operation's behaviour stated in its contract and proved.

Layout:

- `src/` — the verified library, one module per area (`inventory`, `bom`,
  `mrp`, `scheduling`, `cost`, `purchase`, `work_order`,
  `signed_inventory`), plus `common` (type aliases, overflow predicates,
  truncating division), `errors` and `sort` (a stable insertion sort by a
  two-part key, with its correctness lemmas).
- `tests/` — executable tests of the library.
- `app/` — the parts that need outside code: Ed25519 signing and signature
  checking of ledger entries with `alice_blockchain`, and `Display` /
  `std::error::Error` for the error type.

Each module states the laws that relate its operations as public proof
functions (`lemma_*`), e.g. the stable-sort and no-overlap guarantees of the
schedulers, the final states of the purchase-order and work-order
workflows, the rounding of planned orders to lot sizes, and that appending
a properly built, validly signed record keeps the ledger intact.

Collections: SKUs, purchase orders and work orders receive ids 1, 2, 3, ...
in order of creation and are never removed, so their managers hold them in
a `Vec` at position `id - 1` rather than in a hash map keyed by id. Lookups
behave the same, listings come back in id order (a hash map would give an
unspecified order), and the contracts can state results exactly, including
the order and the overflow conditions of running sums. The BOM registry,
keyed by arbitrary product ids, keeps its `HashMap`, whose operations vstd
specifies.
