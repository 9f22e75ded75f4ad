//! The invoice / payment / token state machine over its persistent store.
//!
//! `PerTokenContract` owns the stored invoices and payment records, keyed by
//! payment identifier, and the counter fresh identifiers are minted from. The
//! pure rules (`generate_payment_id`, `draft_invoice`, `settle_invoice`,
//! `token_payment_id`) are also exposed on their own, so a host that keeps
//! the store elsewhere can apply the same verified decisions to values it has
//! read and commit what comes back.

use vstd::prelude::*;
use vstd::string::StrSliceExecFns;
use vstd::string::StringExecFns;

use crate::types::ContractError;
use crate::types::PaymentInvoice;
use crate::types::PaymentRecord;
use crate::types::PaymentStatus;
use crate::types::MIN_TX_HASH_LEN;
use crate::types::PAYMENT_TTL;
use crate::types::digit_char;
use crate::types::extracted_payment_id;
use crate::types::id_num;
use crate::types::id_of;
use crate::types::is_minted_id;
use crate::types::lemma_id_num;
use crate::types::lemma_token_inversion;
use crate::types::spec_decimal;
use crate::types::token_of;
use crate::types::token_well_formed;

verus! {

/// The contract state: every stored invoice and every stored payment record,
/// each keyed by the `payment_id` it carries, and the store-guarded counter
/// from which fresh payment identifiers are minted.
pub struct PerTokenContract {
    invoices: Vec<PaymentInvoice>,
    records: Vec<PaymentRecord>,
    next_id: u64,
}

impl PerTokenContract {
    /// The counter value the next minted payment identifier is drawn from.
    pub closed spec fn counter(self) -> u64 {
        self.next_id
    }

    /// There is an invoice stored under this payment identifier.
    pub closed spec fn has_invoice(self, id: Seq<char>) -> bool {
        exists|i: int|
            0 <= i < self.invoices@.len() && (#[trigger] self.invoices@[i]).payment_id@ == id
    }

    /// The invoice stored under this payment identifier.
    pub closed spec fn invoice_at(self, id: Seq<char>) -> PaymentInvoice {
        self.invoices@[choose|i: int|
            0 <= i < self.invoices@.len() && (#[trigger] self.invoices@[i]).payment_id@ == id]
    }

    /// There is a payment record stored under this payment identifier.
    pub closed spec fn has_record(self, id: Seq<char>) -> bool {
        exists|i: int|
            0 <= i < self.records@.len() && (#[trigger] self.records@[i]).payment_id@ == id
    }

    /// The payment record stored under this payment identifier.
    pub closed spec fn record_at(self, id: Seq<char>) -> PaymentRecord {
        self.records@[choose|i: int|
            0 <= i < self.records@.len() && (#[trigger] self.records@[i]).payment_id@ == id]
    }

    /// No two stored invoices share a payment identifier.
    spec fn invoices_unique(self) -> bool {
        forall|i: int, j: int|
            0 <= i < j < self.invoices@.len() ==> (#[trigger] self.invoices@[i]).payment_id@
                != (#[trigger] self.invoices@[j]).payment_id@
    }

    /// No two stored payment records share a payment identifier.
    spec fn records_unique(self) -> bool {
        forall|i: int, j: int|
            0 <= i < j < self.records@.len() ==> (#[trigger] self.records@[i]).payment_id@
                != (#[trigger] self.records@[j]).payment_id@
    }

    /// Well-formedness of the store: identifiers are unique within each key
    /// space and were each minted from a counter value below the current one
    /// (so the next minted identifier is fresh), every invoice expires exactly
    /// `PAYMENT_TTL` after its creation, every record belongs to a stored
    /// invoice whose status is `Paid`, and every `Paid` invoice has its
    /// record.
    pub closed spec fn wf(self) -> bool {
        &&& self.invoices_unique()
        &&& self.records_unique()
        &&& forall|i: int|
            0 <= i < self.invoices@.len() ==> (#[trigger] self.invoices@[i]).expires_at
                == self.invoices@[i].created_at + PAYMENT_TTL
        &&& forall|i: int|
            0 <= i < self.invoices@.len() ==> is_minted_id(
                (#[trigger] self.invoices@[i]).payment_id@,
            ) && id_num(self.invoices@[i].payment_id@) < self.next_id
        &&& forall|i: int|
            0 <= i < self.records@.len() ==> self.has_invoice(
                (#[trigger] self.records@[i]).payment_id@,
            ) && self.invoice_at(self.records@[i].payment_id@).status is Paid
        &&& forall|i: int|
            0 <= i < self.invoices@.len() && (#[trigger] self.invoices@[i]).status
                is Paid ==> self.has_record(self.invoices@[i].payment_id@)
    }

    /// An empty store: no invoices, no records, the identifier counter at
    /// zero.
    pub fn new() -> (r: PerTokenContract)
        ensures
            r.wf(),
            r.counter() == 0,
            forall|id: Seq<char>| !r.has_invoice(id),
            forall|id: Seq<char>| !r.has_record(id),
    {
        PerTokenContract { invoices: Vec::new(), records: Vec::new(), next_id: 0 }
    }

    /// With unique identifiers, the entry at a known index is the entry the
    /// store holds under its identifier.
    proof fn lemma_invoice_at_index(self, i: int)
        requires
            self.invoices_unique(),
            0 <= i < self.invoices@.len(),
        ensures
            self.has_invoice(self.invoices@[i].payment_id@),
            self.invoice_at(self.invoices@[i].payment_id@) == self.invoices@[i],
    {
        let id = self.invoices@[i].payment_id@;
        assert(self.has_invoice(id));
        let j = choose|j: int|
            0 <= j < self.invoices@.len() && (#[trigger] self.invoices@[j]).payment_id@ == id;
        if i < j {
            assert(self.invoices@[i].payment_id@ != self.invoices@[j].payment_id@);
        } else if j < i {
            assert(self.invoices@[j].payment_id@ != self.invoices@[i].payment_id@);
        }
    }

    /// The record counterpart of `lemma_invoice_at_index`.
    proof fn lemma_record_at_index(self, i: int)
        requires
            self.records_unique(),
            0 <= i < self.records@.len(),
        ensures
            self.has_record(self.records@[i].payment_id@),
            self.record_at(self.records@[i].payment_id@) == self.records@[i],
    {
        let id = self.records@[i].payment_id@;
        assert(self.has_record(id));
        let j = choose|j: int|
            0 <= j < self.records@.len() && (#[trigger] self.records@[j]).payment_id@ == id;
        if i < j {
            assert(self.records@[i].payment_id@ != self.records@[j].payment_id@);
        } else if j < i {
            assert(self.records@[j].payment_id@ != self.records@[i].payment_id@);
        }
    }

    /// Two states with the same stored entries hold the same invoices and
    /// records under every identifier, whatever else differs between them.
    proof fn lemma_same_entries(a: PerTokenContract, b: PerTokenContract)
        requires
            a.invoices@ == b.invoices@,
            a.records@ == b.records@,
            a.invoices_unique(),
            a.records_unique(),
        ensures
            b.invoices_unique(),
            b.records_unique(),
            forall|id: Seq<char>| #[trigger] a.has_invoice(id) == b.has_invoice(id),
            forall|id: Seq<char>|
                a.has_invoice(id) ==> #[trigger] a.invoice_at(id) == b.invoice_at(id),
            forall|id: Seq<char>| #[trigger] a.has_record(id) == b.has_record(id),
            forall|id: Seq<char>|
                a.has_record(id) ==> #[trigger] a.record_at(id) == b.record_at(id),
    {
        assert forall|i: int, j: int| 0 <= i < j < b.invoices@.len() implies (
        #[trigger] b.invoices@[i]).payment_id@ != (#[trigger] b.invoices@[j]).payment_id@ by {
            assert(b.invoices@[i] == a.invoices@[i]);
            assert(b.invoices@[j] == a.invoices@[j]);
        }
        assert forall|i: int, j: int| 0 <= i < j < b.records@.len() implies (
        #[trigger] b.records@[i]).payment_id@ != (#[trigger] b.records@[j]).payment_id@ by {
            assert(b.records@[i] == a.records@[i]);
            assert(b.records@[j] == a.records@[j]);
        }
        assert forall|id: Seq<char>| #[trigger] a.has_invoice(id) == b.has_invoice(id) by {
            if a.has_invoice(id) {
                let j = choose|j: int|
                    0 <= j < a.invoices@.len() && (#[trigger] a.invoices@[j]).payment_id@ == id;
                assert(b.invoices@[j].payment_id@ == id);
            }
            if b.has_invoice(id) {
                let j = choose|j: int|
                    0 <= j < b.invoices@.len() && (#[trigger] b.invoices@[j]).payment_id@ == id;
                assert(a.invoices@[j].payment_id@ == id);
            }
        }
        assert forall|id: Seq<char>|
            a.has_invoice(id) implies #[trigger] a.invoice_at(id) == b.invoice_at(id) by {
            let j = choose|j: int|
                0 <= j < a.invoices@.len() && (#[trigger] a.invoices@[j]).payment_id@ == id;
            assert(b.invoices@[j].payment_id@ == id);
            a.lemma_invoice_at_index(j);
            b.lemma_invoice_at_index(j);
        }
        assert forall|id: Seq<char>| #[trigger] a.has_record(id) == b.has_record(id) by {
            if a.has_record(id) {
                let j = choose|j: int|
                    0 <= j < a.records@.len() && (#[trigger] a.records@[j]).payment_id@ == id;
                assert(b.records@[j].payment_id@ == id);
            }
            if b.has_record(id) {
                let j = choose|j: int|
                    0 <= j < b.records@.len() && (#[trigger] b.records@[j]).payment_id@ == id;
                assert(a.records@[j].payment_id@ == id);
            }
        }
        assert forall|id: Seq<char>|
            a.has_record(id) implies #[trigger] a.record_at(id) == b.record_at(id) by {
            let j = choose|j: int|
                0 <= j < a.records@.len() && (#[trigger] a.records@[j]).payment_id@ == id;
            assert(b.records@[j].payment_id@ == id);
            a.lemma_record_at_index(j);
            b.lemma_record_at_index(j);
        }
    }

    /// Index of the invoice stored under `payment_id`, if any.
    fn find_invoice(&self, payment_id: &String) -> (r: Option<usize>)
        requires
            self.invoices_unique(),
        ensures
            match r {
                Some(i) => i < self.invoices@.len() && self.invoices@[i as int].payment_id@
                    == payment_id@ && self.has_invoice(payment_id@) && self.invoice_at(
                    payment_id@,
                ) == self.invoices@[i as int],
                None => !self.has_invoice(payment_id@),
            },
    {
        let mut i: usize = 0;
        while i < self.invoices.len()
            invariant
                self.invoices_unique(),
                i <= self.invoices@.len(),
                forall|j: int|
                    0 <= j < i ==> (#[trigger] self.invoices@[j]).payment_id@ != payment_id@,
            decreases self.invoices@.len() - i,
        {
            if self.invoices[i].payment_id == *payment_id {
                proof {
                    self.lemma_invoice_at_index(i as int);
                }
                return Some(i);
            }
            i = i + 1;
        }
        None
    }

    /// When a change touches only entries carrying `kept`, every other
    /// identifier resolves to the same invoice as before.
    proof fn lemma_invoice_entries_preserved(
        a: PerTokenContract,
        b: PerTokenContract,
        kept: Seq<char>,
    )
        requires
            a.invoices_unique(),
            b.invoices_unique(),
            a.invoices@.len() <= b.invoices@.len(),
            forall|j: int|
                0 <= j < a.invoices@.len() && (#[trigger] a.invoices@[j]).payment_id@ != kept
                    ==> b.invoices@[j] == a.invoices@[j],
            forall|j: int|
                0 <= j < b.invoices@.len() && (#[trigger] b.invoices@[j]).payment_id@ != kept
                    ==> j < a.invoices@.len() && b.invoices@[j] == a.invoices@[j],
        ensures
            forall|id: Seq<char>| id != kept ==> #[trigger] b.has_invoice(id) == a.has_invoice(id),
            forall|id: Seq<char>|
                id != kept && a.has_invoice(id) ==> #[trigger] b.invoice_at(id) == a.invoice_at(
                    id,
                ),
    {
        assert forall|id: Seq<char>|
            id != kept implies #[trigger] b.has_invoice(id) == a.has_invoice(id) by {
            if a.has_invoice(id) {
                let j = choose|j: int|
                    0 <= j < a.invoices@.len() && (#[trigger] a.invoices@[j]).payment_id@ == id;
                assert(b.invoices@[j] == a.invoices@[j]);
            }
            if b.has_invoice(id) {
                let j = choose|j: int|
                    0 <= j < b.invoices@.len() && (#[trigger] b.invoices@[j]).payment_id@ == id;
                assert(b.invoices@[j] == a.invoices@[j]);
            }
        }
        assert forall|id: Seq<char>|
            id != kept && a.has_invoice(id) implies #[trigger] b.invoice_at(id) == a.invoice_at(
            id,
        ) by {
            let j = choose|j: int|
                0 <= j < a.invoices@.len() && (#[trigger] a.invoices@[j]).payment_id@ == id;
            assert(b.invoices@[j] == a.invoices@[j]);
            a.lemma_invoice_at_index(j);
            b.lemma_invoice_at_index(j);
        }
    }

    /// The record counterpart of `lemma_invoice_entries_preserved`.
    proof fn lemma_record_entries_preserved(
        a: PerTokenContract,
        b: PerTokenContract,
        kept: Seq<char>,
    )
        requires
            a.records_unique(),
            b.records_unique(),
            a.records@.len() <= b.records@.len(),
            forall|j: int|
                0 <= j < a.records@.len() && (#[trigger] a.records@[j]).payment_id@ != kept
                    ==> b.records@[j] == a.records@[j],
            forall|j: int|
                0 <= j < b.records@.len() && (#[trigger] b.records@[j]).payment_id@ != kept
                    ==> j < a.records@.len() && b.records@[j] == a.records@[j],
        ensures
            forall|id: Seq<char>| id != kept ==> #[trigger] b.has_record(id) == a.has_record(id),
            forall|id: Seq<char>|
                id != kept && a.has_record(id) ==> #[trigger] b.record_at(id) == a.record_at(id),
    {
        assert forall|id: Seq<char>|
            id != kept implies #[trigger] b.has_record(id) == a.has_record(id) by {
            if a.has_record(id) {
                let j = choose|j: int|
                    0 <= j < a.records@.len() && (#[trigger] a.records@[j]).payment_id@ == id;
                assert(b.records@[j] == a.records@[j]);
            }
            if b.has_record(id) {
                let j = choose|j: int|
                    0 <= j < b.records@.len() && (#[trigger] b.records@[j]).payment_id@ == id;
                assert(b.records@[j] == a.records@[j]);
            }
        }
        assert forall|id: Seq<char>|
            id != kept && a.has_record(id) implies #[trigger] b.record_at(id) == a.record_at(
            id,
        ) by {
            let j = choose|j: int|
                0 <= j < a.records@.len() && (#[trigger] a.records@[j]).payment_id@ == id;
            assert(b.records@[j] == a.records@[j]);
            a.lemma_record_at_index(j);
            b.lemma_record_at_index(j);
        }
    }

    /// Store `invoice` under its own payment identifier, overwriting any
    /// invoice already held under it. Records are untouched.
    fn store_invoice(&mut self, invoice: PaymentInvoice)
        requires
            old(self).invoices_unique(),
            old(self).records_unique(),
        ensures
            final(self).next_id == old(self).next_id,
            final(self).invoices_unique(),
            final(self).records_unique(),
            final(self).records@ == old(self).records@,
            forall|id: Seq<char>|
                #[trigger] final(self).has_record(id) == old(self).has_record(id),
            forall|id: Seq<char>|
                old(self).has_record(id) ==> #[trigger] final(self).record_at(id) == old(self).record_at(id),
            final(self).has_invoice(invoice.payment_id@),
            final(self).invoice_at(invoice.payment_id@) == invoice,
            forall|id: Seq<char>|
                id != invoice.payment_id@ ==> #[trigger] final(self).has_invoice(id) == old(self).has_invoice(id),
            forall|id: Seq<char>|
                id != invoice.payment_id@ && old(self).has_invoice(id)
                    ==> #[trigger] final(self).invoice_at(id) == old(self).invoice_at(id),
            forall|i: int|
                0 <= i < final(self).invoices@.len() ==> (#[trigger] final(self).invoices@[i])
                    == invoice || exists|j: int|
                    0 <= j < old(self).invoices@.len() && (#[trigger] old(self).invoices@[j])
                        == final(self).invoices@[i],
    {
        let ghost pre = *self;
        match self.find_invoice(&invoice.payment_id) {
            Some(i) => {
                self.invoices[i] = invoice;
                proof {
                    Self::lemma_invoice_entries_preserved(pre, *self, self.invoices@[i as int].payment_id@);
                    self.lemma_invoice_at_index(i as int);
                }
            },
            None => {
                let ghost n = self.invoices@.len() as int;
                self.invoices.push(invoice);
                proof {
                    assert forall|j: int|
                        0 <= j < n implies (#[trigger] self.invoices@[j]).payment_id@
                        != invoice.payment_id@ by {
                        assert(pre.invoices@[j].payment_id@ != invoice.payment_id@);
                    }
                    Self::lemma_invoice_entries_preserved(pre, *self, invoice.payment_id@);
                    self.lemma_invoice_at_index(n);
                }
            },
        }
        proof {
            assert forall|id: Seq<char>|
                pre.has_record(id) implies #[trigger] self.record_at(id) == pre.record_at(id) by {
                let j = choose|j: int|
                    0 <= j < pre.records@.len() && (#[trigger] pre.records@[j]).payment_id@ == id;
                assert(self.records@[j].payment_id@ == id);
                pre.lemma_record_at_index(j);
                self.lemma_record_at_index(j);
            }
        }
    }

    /// Store `record` under its own payment identifier, overwriting any record
    /// already held under it. Invoices are untouched.
    fn store_record(&mut self, record: PaymentRecord)
        requires
            old(self).records_unique(),
            old(self).invoices_unique(),
        ensures
            final(self).next_id == old(self).next_id,
            final(self).records_unique(),
            final(self).invoices_unique(),
            final(self).invoices@ == old(self).invoices@,
            forall|id: Seq<char>|
                #[trigger] final(self).has_invoice(id) == old(self).has_invoice(id),
            forall|id: Seq<char>|
                old(self).has_invoice(id) ==> #[trigger] final(self).invoice_at(id) == old(self).invoice_at(id),
            final(self).has_record(record.payment_id@),
            final(self).record_at(record.payment_id@) == record,
            forall|id: Seq<char>|
                id != record.payment_id@ ==> #[trigger] final(self).has_record(id) == old(self).has_record(id),
            forall|id: Seq<char>|
                id != record.payment_id@ && old(self).has_record(id)
                    ==> #[trigger] final(self).record_at(id) == old(self).record_at(id),
            forall|i: int|
                0 <= i < final(self).records@.len() ==> (#[trigger] final(self).records@[i])
                    == record || exists|j: int|
                    0 <= j < old(self).records@.len() && (#[trigger] old(self).records@[j])
                        == final(self).records@[i],
    {
        let ghost pre = *self;
        match self.find_record(&record.payment_id) {
            Some(i) => {
                self.records[i] = record;
                proof {
                    Self::lemma_record_entries_preserved(pre, *self, self.records@[i as int].payment_id@);
                    self.lemma_record_at_index(i as int);
                }
            },
            None => {
                let ghost n = self.records@.len() as int;
                self.records.push(record);
                proof {
                    assert forall|j: int|
                        0 <= j < n implies (#[trigger] self.records@[j]).payment_id@
                        != record.payment_id@ by {
                        assert(pre.records@[j].payment_id@ != record.payment_id@);
                    }
                    Self::lemma_record_entries_preserved(pre, *self, record.payment_id@);
                    self.lemma_record_at_index(n);
                }
            },
        }
        proof {
            assert forall|id: Seq<char>|
                pre.has_invoice(id) implies #[trigger] self.invoice_at(id) == pre.invoice_at(
                    id,
                ) by {
                let j = choose|j: int|
                    0 <= j < pre.invoices@.len() && (#[trigger] pre.invoices@[j]).payment_id@
                        == id;
                assert(self.invoices@[j].payment_id@ == id);
                pre.lemma_invoice_at_index(j);
                self.lemma_invoice_at_index(j);
            }
        }
    }

    /// Index of the payment record stored under `payment_id`, if any.
    fn find_record(&self, payment_id: &String) -> (r: Option<usize>)
        requires
            self.records_unique(),
        ensures
            match r {
                Some(i) => i < self.records@.len() && self.records@[i as int].payment_id@
                    == payment_id@ && self.has_record(payment_id@) && self.record_at(payment_id@)
                    == self.records@[i as int],
                None => !self.has_record(payment_id@),
            },
    {
        let mut i: usize = 0;
        while i < self.records.len()
            invariant
                self.records_unique(),
                i <= self.records@.len(),
                forall|j: int|
                    0 <= j < i ==> (#[trigger] self.records@[j]).payment_id@ != payment_id@,
            decreases self.records@.len() - i,
        {
            if self.records[i].payment_id == *payment_id {
                proof {
                    self.lemma_record_at_index(i as int);
                }
                return Some(i);
            }
            i = i + 1;
        }
        None
    }

    /// Create a fresh invoice for the gated resource: mints a payment
    /// identifier never carried by any stored invoice, prices the access at
    /// `amount`, stamps it with the trusted current time `now`, and stores it
    /// as `Pending` under its own identifier. Always succeeds.
    pub fn request_payment(
        &mut self,
        site_id: String,
        url_hash: String,
        amount: i128,
        now: u64,
    ) -> (inv: PaymentInvoice)
        requires
            old(self).wf(),
            now + PAYMENT_TTL <= u64::MAX,
            old(self).counter() < u64::MAX,
        ensures
            final(self).wf(),
            inv == (PaymentInvoice {
                payment_id: inv.payment_id,
                site_id,
                url_hash,
                amount,
                created_at: now,
                expires_at: (now + PAYMENT_TTL) as u64,
                status: PaymentStatus::Pending,
            }),
            final(self).counter() == old(self).counter() + 1,
            forall|id: Seq<char>| #[trigger] old(self).has_invoice(id) ==> inv.payment_id@ != id,
            final(self).has_invoice(inv.payment_id@),
            final(self).invoice_at(inv.payment_id@) == inv,
            forall|id: Seq<char>|
                id != inv.payment_id@ ==> #[trigger] final(self).has_invoice(id) == old(self).has_invoice(id),
            forall|id: Seq<char>|
                id != inv.payment_id@ && old(self).has_invoice(id)
                    ==> #[trigger] final(self).invoice_at(id) == old(self).invoice_at(id),
            forall|id: Seq<char>|
                #[trigger] final(self).has_record(id) == old(self).has_record(id),
            forall|id: Seq<char>|
                old(self).has_record(id) ==> #[trigger] final(self).record_at(id) == old(self).record_at(id),
    {
        let ghost pre = *self;
        let n = self.next_id;
        self.next_id = n + 1;
        let ghost preb = *self;
        let payment_id = Self::generate_payment_id(n);
        let invoice = Self::draft_invoice(payment_id, site_id, url_hash, amount, now);
        let copy = invoice.clone();
        proof {
            Self::lemma_same_entries(pre, preb);
            lemma_id_num(n as nat);
            assert forall|id: Seq<char>| #[trigger] pre.has_invoice(id) implies copy.payment_id@
                != id by {
                let j = choose|j: int|
                    0 <= j < pre.invoices@.len() && (#[trigger] pre.invoices@[j]).payment_id@
                        == id;
                if copy.payment_id@ == id {
                    assert(id_num(id) == n as nat);
                }
            }
        }
        self.store_invoice(copy);
        proof {
            assert(self.wf()) by {
                assert forall|k: int|
                    0 <= k < self.invoices@.len() implies (#[trigger] self.invoices@[k]).expires_at
                    == self.invoices@[k].created_at + PAYMENT_TTL by {
                    if self.invoices@[k] != copy {
                        let j = choose|j: int|
                            0 <= j < preb.invoices@.len() && (#[trigger] preb.invoices@[j])
                                == self.invoices@[k];
                        assert(pre.invoices@[j] == self.invoices@[k]);
                    }
                }
                assert forall|k: int|
                    0 <= k < self.invoices@.len() implies is_minted_id(
                    (#[trigger] self.invoices@[k]).payment_id@,
                ) && id_num(self.invoices@[k].payment_id@) < self.next_id by {
                    if self.invoices@[k] != copy {
                        let j = choose|j: int|
                            0 <= j < preb.invoices@.len() && (#[trigger] preb.invoices@[j])
                                == self.invoices@[k];
                        assert(pre.invoices@[j] == self.invoices@[k]);
                    }
                }
                assert forall|k: int| 0 <= k < self.records@.len() implies self.has_invoice(
                    (#[trigger] self.records@[k]).payment_id@,
                ) && self.invoice_at(self.records@[k].payment_id@).status is Paid by {
                    let rid = self.records@[k].payment_id@;
                    assert(pre.records@[k] == self.records@[k]);
                    assert(pre.has_invoice(rid) && pre.invoice_at(rid).status is Paid);
                    assert(rid != copy.payment_id@);
                    assert(preb.has_invoice(rid));
                    assert(self.invoice_at(rid) == preb.invoice_at(rid));
                }
                assert forall|k: int|
                    0 <= k < self.invoices@.len() && (#[trigger] self.invoices@[k]).status
                        is Paid implies self.has_record(self.invoices@[k].payment_id@) by {
                    let vid = self.invoices@[k].payment_id@;
                    let j = choose|j: int|
                        0 <= j < preb.invoices@.len() && (#[trigger] preb.invoices@[j])
                            == self.invoices@[k];
                    assert(pre.invoices@[j] == self.invoices@[k]);
                    assert(pre.has_record(vid));
                    assert(preb.has_record(vid));
                }
            }
            assert forall|id: Seq<char>|
                id != copy.payment_id@ implies #[trigger] self.has_invoice(id) == pre.has_invoice(
                id,
            ) by {
                assert(preb.has_invoice(id) == pre.has_invoice(id));
            }
            assert forall|id: Seq<char>|
                id != copy.payment_id@ && pre.has_invoice(id) implies #[trigger] self.invoice_at(
                id,
            ) == pre.invoice_at(id) by {
                assert(preb.has_invoice(id));
                assert(preb.invoice_at(id) == pre.invoice_at(id));
            }
            assert forall|id: Seq<char>| #[trigger] self.has_record(id) == pre.has_record(id) by {
                assert(preb.has_record(id) == pre.has_record(id));
            }
            assert forall|id: Seq<char>|
                pre.has_record(id) implies #[trigger] self.record_at(id) == pre.record_at(id) by {
                assert(preb.has_record(id));
                assert(preb.record_at(id) == pre.record_at(id));
            }
        }
        invoice
    }

    /// Verify a submitted payment against its invoice and mint the access
    /// token. The guards run in order and the first failure is returned:
    /// `NotFound` for an unknown identifier, `Expired` once `now` has passed
    /// the invoice's expiry, `AlreadyPaid` for an invoice already settled,
    /// `InvalidTx` for a transaction hash shorter than `MIN_TX_HASH_LEN`
    /// characters. On success the invoice turns `Paid`, the payment record is
    /// stored, and the token is returned; on failure nothing is changed.
    pub fn submit_payment(
        &mut self,
        payment_id: String,
        tx_hash: String,
        payer_public_key: String,
        now: u64,
    ) -> (r: Result<String, ContractError>)
        requires
            old(self).wf(),
        ensures
            final(self).wf(),
            final(self).counter() == old(self).counter(),
            r is Err ==> *final(self) == *old(self),
            (r == Err::<String, ContractError>(ContractError::NotFound)) <==> !old(self).has_invoice(payment_id@),
            (r == Err::<String, ContractError>(ContractError::Expired)) <==> (old(self).has_invoice(payment_id@) && now > old(self).invoice_at(payment_id@).expires_at),
            (r == Err::<String, ContractError>(ContractError::AlreadyPaid)) <==> (old(self).has_invoice(payment_id@) && now <= old(self).invoice_at(payment_id@).expires_at
                && old(self).invoice_at(payment_id@).status is Paid),
            (r == Err::<String, ContractError>(ContractError::InvalidTx)) <==> (old(self).has_invoice(payment_id@) && now <= old(self).invoice_at(payment_id@).expires_at
                && !(old(self).invoice_at(payment_id@).status is Paid) && tx_hash@.len()
                < MIN_TX_HASH_LEN),
            r is Ok <==> (old(self).has_invoice(payment_id@) && now <= old(self).invoice_at(
                payment_id@,
            ).expires_at && !(old(self).invoice_at(payment_id@).status is Paid) && tx_hash@.len()
                >= MIN_TX_HASH_LEN),
            r matches Ok(token) ==> token@ == token_of(payment_id@),
            r is Ok ==> final(self).has_invoice(payment_id@) && final(self).invoice_at(payment_id@)
                == (PaymentInvoice { status: PaymentStatus::Paid, ..old(self).invoice_at(
                payment_id@,
            ) }),
            r is Ok ==> final(self).has_record(payment_id@) && final(self).record_at(payment_id@)
                == (PaymentRecord {
                payment_id: final(self).record_at(payment_id@).payment_id,
                tx_hash,
                payer_public_key,
                verified_at: now,
                site_id: old(self).invoice_at(payment_id@).site_id,
                amount: old(self).invoice_at(payment_id@).amount,
            }) && final(self).record_at(payment_id@).payment_id@ == payment_id@,
            r is Ok ==> forall|id: Seq<char>|
                id != payment_id@ ==> #[trigger] final(self).has_invoice(id) == old(self).has_invoice(id),
            r is Ok ==> forall|id: Seq<char>|
                id != payment_id@ && old(self).has_invoice(id) ==> #[trigger] final(self).invoice_at(id) == old(self).invoice_at(id),
            r is Ok ==> forall|id: Seq<char>|
                id != payment_id@ ==> #[trigger] final(self).has_record(id) == old(self).has_record(id),
            r is Ok ==> forall|id: Seq<char>|
                id != payment_id@ && old(self).has_record(id) ==> #[trigger] final(self).record_at(
                    id,
                ) == old(self).record_at(id),
    {
        let ghost pre = *self;
        let i = match self.find_invoice(&payment_id) {
            None => {
                return Err(ContractError::NotFound);
            },
            Some(i) => i,
        };
        let stored = self.invoices[i].clone();
        match Self::settle_invoice(Some(stored), tx_hash, payer_public_key, now) {
            Err(e) => Err(e),
            Ok((updated, record, token)) => {
                proof {
                    pre.lemma_invoice_at_index(i as int);
                }
                self.store_record(record);
                let ghost mid = *self;
                self.store_invoice(updated);
                proof {
                    assert(self.wf()) by {
                        assert forall|k: int|
                            0 <= k < self.invoices@.len() implies (
                        #[trigger] self.invoices@[k]).expires_at == self.invoices@[k].created_at
                            + PAYMENT_TTL by {
                            if self.invoices@[k] != updated {
                                let j = choose|j: int|
                                    0 <= j < mid.invoices@.len() && (#[trigger] mid.invoices@[j])
                                        == self.invoices@[k];
                            }
                        }
                        assert forall|k: int|
                            0 <= k < self.invoices@.len() implies is_minted_id(
                            (#[trigger] self.invoices@[k]).payment_id@,
                        ) && id_num(self.invoices@[k].payment_id@) < self.next_id by {
                            if self.invoices@[k] != updated {
                                let j = choose|j: int|
                                    0 <= j < mid.invoices@.len() && (#[trigger] mid.invoices@[j])
                                        == self.invoices@[k];
                                assert(pre.invoices@[j] == self.invoices@[k]);
                            } else {
                                assert(updated.payment_id@ == pre.invoices@[i as int].payment_id@);
                            }
                        }
                        assert forall|k: int| 0 <= k < self.records@.len() implies self.has_invoice(
                            (#[trigger] self.records@[k]).payment_id@,
                        ) && self.invoice_at(self.records@[k].payment_id@).status is Paid by {
                            let rid = self.records@[k].payment_id@;
                            if rid == payment_id@ {
                                assert(self.has_invoice(rid));
                                assert(self.invoice_at(rid) == updated);
                            } else {
                                if self.records@[k] != record {
                                    let j = choose|j: int|
                                        0 <= j < pre.records@.len() && (#[trigger] pre.records@[j])
                                            == self.records@[k];
                                    assert(pre.has_invoice(rid) && pre.invoice_at(
                                        rid,
                                    ).status is Paid);
                                    assert(mid.has_invoice(rid));
                                    assert(mid.invoice_at(rid) == pre.invoice_at(rid));
                                    assert(self.invoice_at(rid) == mid.invoice_at(rid));
                                } else {
                                    assert(pre.has_invoice(rid));
                                }
                            }
                        }
                        assert forall|k: int|
                            0 <= k < self.invoices@.len() && (#[trigger] self.invoices@[k]).status
                                is Paid implies self.has_record(self.invoices@[k].payment_id@) by {
                            let vid = self.invoices@[k].payment_id@;
                            if vid == payment_id@ {
                                assert(self.has_record(vid));
                            } else {
                                let j = choose|j: int|
                                    0 <= j < mid.invoices@.len() && (#[trigger] mid.invoices@[j])
                                        == self.invoices@[k];
                                assert(pre.has_record(vid));
                            }
                        }
                    }
                }
                Ok(token)
            },
        }
    }

    /// Look up an invoice. A pure read: no side effects, and expiry does not
    /// block it.
    pub fn get_payment_invoice(&self, payment_id: &String) -> (r: Option<PaymentInvoice>)
        requires
            self.wf(),
        ensures
            r is Some <==> self.has_invoice(payment_id@),
            r matches Some(inv) ==> inv == self.invoice_at(payment_id@),
    {
        match self.find_invoice(payment_id) {
            None => None,
            Some(i) => Some(self.invoices[i].clone()),
        }
    }

    /// Look up a payment record. A pure read: no side effects.
    pub fn get_payment_record(&self, payment_id: &String) -> (r: Option<PaymentRecord>)
        requires
            self.wf(),
        ensures
            r is Some <==> self.has_record(payment_id@),
            r matches Some(rec) ==> rec == self.record_at(payment_id@),
    {
        match self.find_record(payment_id) {
            None => None,
            Some(i) => Some(self.records[i].clone()),
        }
    }

    /// Resolve a bearer token to the payment record it was minted for. Fails
    /// with `BadJWT` on a malformed token (one that does not carry the token
    /// tag and a payment identifier), and with `NotFound` when the payment
    /// identifier the token carries has no stored record. A pure read: no
    /// side effects.
    pub fn verify_jwt(&self, jwt_token: String) -> (r: Result<PaymentRecord, ContractError>)
        requires
            self.wf(),
        ensures
            (r == Err::<PaymentRecord, ContractError>(ContractError::BadJWT)) <==> !token_well_formed(jwt_token@),
            (r == Err::<PaymentRecord, ContractError>(ContractError::NotFound)) <==> (
            token_well_formed(jwt_token@) && !self.has_record(extracted_payment_id(jwt_token@))),
            r is Ok <==> (token_well_formed(jwt_token@) && self.has_record(
                extracted_payment_id(jwt_token@),
            )),
            r matches Ok(rec) ==> rec == self.record_at(extracted_payment_id(jwt_token@)),
    {
        let payment_id = match Self::token_payment_id(&jwt_token) {
            Err(e) => {
                return Err(e);
            },
            Ok(payment_id) => payment_id,
        };
        match self.find_record(&payment_id) {
            None => Err(ContractError::NotFound),
            Some(i) => Ok(self.records[i].clone()),
        }
    }

    /// The settlement decision and its outcome, as a pure function of the
    /// invoice read from the store, the submission, and the trusted current
    /// time. A host that keeps the store elsewhere applies this to the invoice
    /// it has read and commits the updated invoice and the new record
    /// together; the token is what it hands back to the payer.
    pub fn settle_invoice(
        invoice: Option<PaymentInvoice>,
        tx_hash: String,
        payer_public_key: String,
        now: u64,
    ) -> (r: Result<(PaymentInvoice, PaymentRecord, String), ContractError>)
        ensures
            (r == Err::<(PaymentInvoice, PaymentRecord, String), ContractError>(
                ContractError::NotFound,
            )) <==> invoice is None,
            (r == Err::<(PaymentInvoice, PaymentRecord, String), ContractError>(
                ContractError::Expired,
            )) <==> (invoice matches Some(inv) && now > inv.expires_at),
            (r == Err::<(PaymentInvoice, PaymentRecord, String), ContractError>(
                ContractError::AlreadyPaid,
            )) <==> (invoice matches Some(inv) && now <= inv.expires_at && inv.status is Paid),
            (r == Err::<(PaymentInvoice, PaymentRecord, String), ContractError>(
                ContractError::InvalidTx,
            )) <==> (invoice matches Some(inv) && now <= inv.expires_at && !(inv.status is Paid)
                && tx_hash@.len() < MIN_TX_HASH_LEN),
            r is Ok <==> (invoice matches Some(inv) && now <= inv.expires_at && !(inv.status
                is Paid) && tx_hash@.len() >= MIN_TX_HASH_LEN),
            r matches Ok(out) ==> (invoice matches Some(inv) && out.0 == (PaymentInvoice {
                status: PaymentStatus::Paid,
                ..inv
            }) && out.1 == (PaymentRecord {
                payment_id: out.1.payment_id,
                tx_hash,
                payer_public_key,
                verified_at: now,
                site_id: inv.site_id,
                amount: inv.amount,
            }) && out.1.payment_id@ == inv.payment_id@ && out.2@ == token_of(inv.payment_id@)),
    {
        let mut invoice = match invoice {
            None => {
                return Err(ContractError::NotFound);
            },
            Some(invoice) => invoice,
        };
        if now > invoice.expires_at {
            return Err(ContractError::Expired);
        }
        let already_paid = match invoice.status {
            PaymentStatus::Paid => true,
            _ => false,
        };
        if already_paid {
            return Err(ContractError::AlreadyPaid);
        }
        if tx_hash.as_str().unicode_len() < MIN_TX_HASH_LEN {
            return Err(ContractError::InvalidTx);
        }
        let record = PaymentRecord {
            payment_id: invoice.payment_id.clone(),
            tx_hash,
            payer_public_key,
            verified_at: now,
            site_id: invoice.site_id.clone(),
            amount: invoice.amount,
        };
        let token = Self::generate_jwt(&record);
        invoice.status = PaymentStatus::Paid;
        Ok((invoice, record, token))
    }

    /// Draft the invoice `request_payment` stores, as a pure function of the
    /// minted payment identifier, the request, and the trusted current time:
    /// prices the access at `amount` and marks it `Pending`, expiring
    /// `PAYMENT_TTL` after `now`. A host that keeps the store elsewhere mints
    /// the identifier with `generate_payment_id` from its store-guarded
    /// counter and persists the returned invoice under it.
    pub fn draft_invoice(
        payment_id: String,
        site_id: String,
        url_hash: String,
        amount: i128,
        now: u64,
    ) -> (inv: PaymentInvoice)
        requires
            now + PAYMENT_TTL <= u64::MAX,
        ensures
            inv == (PaymentInvoice {
                payment_id,
                site_id,
                url_hash,
                amount,
                created_at: now,
                expires_at: (now + PAYMENT_TTL) as u64,
                status: PaymentStatus::Pending,
            }),
    {
        let expires_at = now + PAYMENT_TTL;
        PaymentInvoice {
            payment_id,
            site_id,
            url_hash,
            amount,
            created_at: now,
            expires_at,
            status: PaymentStatus::Pending,
        }
    }

    /// The payment identifier a submitted token binds, or `BadJWT` for a
    /// malformed token. A host that keeps the store elsewhere resolves the
    /// returned identifier against its own record key space.
    pub fn token_payment_id(jwt_token: &String) -> (r: Result<String, ContractError>)
        ensures
            (r == Err::<String, ContractError>(ContractError::BadJWT)) <==> !token_well_formed(
                jwt_token@,
            ),
            r is Ok <==> token_well_formed(jwt_token@),
            r matches Ok(pid) ==> pid@ == extracted_payment_id(jwt_token@) && pid@.len() > 0,
    {
        let payment_id = Self::extract_payment_id_from_jwt(jwt_token);
        if payment_id.as_str().is_empty() {
            return Err(ContractError::BadJWT);
        }
        Ok(payment_id)
    }

    /// Law: every stored invoice expires exactly `PAYMENT_TTL` after its
    /// creation time.
    pub proof fn lemma_invoice_expiry(self, id: Seq<char>)
        requires
            self.wf(),
            self.has_invoice(id),
        ensures
            self.invoice_at(id).expires_at == self.invoice_at(id).created_at + PAYMENT_TTL,
    {
        let j = choose|j: int|
            0 <= j < self.invoices@.len() && (#[trigger] self.invoices@[j]).payment_id@ == id;
    }

    /// Law: the invoice stored under an identifier carries that identifier,
    /// and so does the record stored under it.
    pub proof fn lemma_stored_id(self, id: Seq<char>)
        requires
            self.wf(),
        ensures
            self.has_invoice(id) ==> self.invoice_at(id).payment_id@ == id,
            self.has_record(id) ==> self.record_at(id).payment_id@ == id,
    {
        if self.has_invoice(id) {
            let j = choose|j: int|
                0 <= j < self.invoices@.len() && (#[trigger] self.invoices@[j]).payment_id@ == id;
        }
        if self.has_record(id) {
            let j = choose|j: int|
                0 <= j < self.records@.len() && (#[trigger] self.records@[j]).payment_id@ == id;
        }
    }

    /// Law: a `Paid` invoice has its payment record, stored under the same
    /// identifier.
    pub proof fn lemma_paid_invoice_has_record(self, id: Seq<char>)
        requires
            self.wf(),
            self.has_invoice(id),
            self.invoice_at(id).status is Paid,
        ensures
            self.has_record(id),
            self.record_at(id).payment_id@ == id,
    {
        let j = choose|j: int|
            0 <= j < self.invoices@.len() && (#[trigger] self.invoices@[j]).payment_id@ == id;
        self.lemma_stored_id(id);
    }

    /// Law: a payment record exists exactly for the invoices whose status is
    /// `Paid`.
    pub proof fn lemma_record_iff_paid(self, id: Seq<char>)
        requires
            self.wf(),
        ensures
            self.has_record(id) <==> (self.has_invoice(id) && self.invoice_at(id).status is Paid),
    {
        if self.has_record(id) {
            let j = choose|j: int|
                0 <= j < self.records@.len() && (#[trigger] self.records@[j]).payment_id@ == id;
        }
        if self.has_invoice(id) && self.invoice_at(id).status is Paid {
            let j = choose|j: int|
                0 <= j < self.invoices@.len() && (#[trigger] self.invoices@[j]).payment_id@ == id;
        }
    }

    /// Law: round trip from settlement to resolution. The token a successful
    /// submission returns for a payment identifier — `token_of` that
    /// identifier, as `submit_payment` ensures — is well formed and carries
    /// exactly that identifier back out, so in any state that still holds the
    /// record, `verify_jwt`'s contract resolves it to the record of that same
    /// payment.
    pub proof fn lemma_token_round_trip(self, pid: Seq<char>, token: Seq<char>)
        requires
            self.wf(),
            self.has_record(pid),
            token == token_of(pid),
        ensures
            token_well_formed(token),
            extracted_payment_id(token) == pid,
            self.record_at(pid).payment_id@ == pid,
    {
        let j = choose|j: int|
            0 <= j < self.records@.len() && (#[trigger] self.records@[j]).payment_id@ == pid;
        assert(self.has_invoice(pid));
        let k = choose|k: int|
            0 <= k < self.invoices@.len() && (#[trigger] self.invoices@[k]).payment_id@ == pid;
        assert(is_minted_id(pid));
        lemma_token_inversion(pid);
        self.lemma_stored_id(pid);
    }

    /// Mint the payment identifier for counter value `counter`: a fixed tag
    /// followed by the counter in decimal. Distinct counter values give
    /// distinct identifiers (`lemma_id_of_injective`); `request_payment`
    /// draws the counter from the store, and a host that keeps the store
    /// elsewhere guards its own counter the same way.
    pub fn generate_payment_id(counter: u64) -> (r: String)
        ensures
            r@ == id_of(counter as nat),
    {
        let mut id = String::from_str("pay_");
        let digits = Self::decimal_string(counter);
        id.append(digits.as_str());
        id
    }

    /// The decimal digit character of a value below ten.
    fn digit_str(d: u64) -> (r: &'static str)
        requires
            d < 10,
        ensures
            r@ == seq![digit_char(d as nat)],
    {
        let r: &'static str = if d == 0 {
            "0"
        } else if d == 1 {
            "1"
        } else if d == 2 {
            "2"
        } else if d == 3 {
            "3"
        } else if d == 4 {
            "4"
        } else if d == 5 {
            "5"
        } else if d == 6 {
            "6"
        } else if d == 7 {
            "7"
        } else if d == 8 {
            "8"
        } else {
            "9"
        };
        proof {
            reveal_strlit("0");
            reveal_strlit("1");
            reveal_strlit("2");
            reveal_strlit("3");
            reveal_strlit("4");
            reveal_strlit("5");
            reveal_strlit("6");
            reveal_strlit("7");
            reveal_strlit("8");
            reveal_strlit("9");
            assert(r@ =~= seq![digit_char(d as nat)]);
        }
        r
    }

    /// Render a number in decimal, most significant digit first.
    fn decimal_string(n: u64) -> (r: String)
        ensures
            r@ == spec_decimal(n as nat),
        decreases n,
    {
        if n < 10 {
            String::from_str(Self::digit_str(n))
        } else {
            let mut s = Self::decimal_string(n / 10);
            let digit = Self::digit_str(n % 10);
            s.append(digit);
            proof {
                assert(spec_decimal((n / 10) as nat).push(digit_char((n % 10) as nat))
                    =~= spec_decimal((n / 10) as nat) + seq![digit_char((n % 10) as nat)]);
            }
            s
        }
    }

    /// Mint the bearer token for a payment record: the token tag followed by
    /// the record's payment identifier, which resolution extracts back out. A
    /// cryptographic signature over this claim would sit on top of the
    /// encoding and is outside this core.
    fn generate_jwt(payment_record: &PaymentRecord) -> (r: String)
        ensures
            r@ == token_of(payment_record.payment_id@),
    {
        let mut token = String::from_str("pertoken.");
        token.append(payment_record.payment_id.as_str());
        token
    }

    /// Parse a submitted token back to the payment identifier it carries: the
    /// part after the token tag. Returns the empty string for a malformed
    /// token — one too short or not beginning with the tag.
    fn extract_payment_id_from_jwt(jwt_token: &String) -> (r: String)
        ensures
            token_well_formed(jwt_token@) ==> r@ == extracted_payment_id(jwt_token@) && r@.len()
                > 0,
            !token_well_formed(jwt_token@) ==> r@.len() == 0,
    {
        proof {
            reveal_strlit("pertoken.");
        }
        let len = jwt_token.as_str().unicode_len();
        if len <= 9 {
            return String::new();
        }
        let head = jwt_token.as_str().substring_char(0, 9);
        if String::from_str(head) == String::from_str("pertoken.") {
            let tail = jwt_token.as_str().substring_char(9, len);
            proof {
                assert(jwt_token@.subrange(9, len as int) =~= jwt_token@.skip(9));
            }
            String::from_str(tail)
        } else {
            String::new()
        }
    }
}

} // verus!
