//! The data model: invoices, payment records, the store's key namespace, the
//! error values, and the identifier and token encodings — counter-minted
//! payment identifiers and tokens that carry their payment identifier — with
//! the inversion laws the state machine's guarantees rest on.

use vstd::prelude::*;

verus! {

/// Number of time units an invoice stays payable after its creation.
pub const PAYMENT_TTL: u64 = 3600;

/// Minimum number of characters a transaction hash must have to be accepted
/// as a reference to an on-network transaction.
pub const MIN_TX_HASH_LEN: usize = 10;

/// Error values returned by the contract operations. Every failure is an
/// enumerable value; callers tell outcomes apart by variant.
#[derive(Copy, Clone, Debug, PartialEq, Eq, Structural)]
pub enum ContractError {
    NotFound,
    Expired,
    AlreadyPaid,
    InvalidTx,
    BadJWT,
}

/// The stable numeric identity of each error, kept for wire compatibility.
pub open spec fn error_code(e: ContractError) -> u32 {
    match e {
        ContractError::NotFound => 1u32,
        ContractError::Expired => 2u32,
        ContractError::AlreadyPaid => 3u32,
        ContractError::InvalidTx => 4u32,
        ContractError::BadJWT => 5u32,
    }
}

impl ContractError {
    /// The numeric code of this error as exposed to callers on the wire.
    pub fn code(&self) -> (c: u32)
        ensures
            c == error_code(*self),
    {
        match *self {
            ContractError::NotFound => 1,
            ContractError::Expired => 2,
            ContractError::AlreadyPaid => 3,
            ContractError::InvalidTx => 4,
            ContractError::BadJWT => 5,
        }
    }
}

/// Key namespace of the persistent store: one key space per record kind, keyed
/// by payment identifier, a slot for the store-guarded identifier counter, and
/// a reserved slot for a token signing key (declared for a future signing
/// scheme and not written today).
#[derive(Clone)]
pub enum DataKey {
    PaymentInvoice(String),
    PaymentRecord(String),
    PaymentCounter,
    JwtSigningKey,
}

/// Lifecycle state of an invoice. The only stored transition is
/// `Pending` to `Paid`; expiry is a read-time predicate over the current time
/// and is never written back as `Expired`.
#[derive(Copy, Clone, Debug, PartialEq, Eq, Structural)]
pub enum PaymentStatus {
    Pending,
    Paid,
    Expired,
}

/// A priced access request: identifies the gated resource, the price, and the
/// window in which a payment is accepted.
#[derive(Debug)]
pub struct PaymentInvoice {
    pub payment_id: String,
    pub site_id: String,
    pub url_hash: String,
    pub amount: i128,
    pub created_at: u64,
    pub expires_at: u64,
    pub status: PaymentStatus,
}

impl Clone for PaymentInvoice {
    fn clone(&self) -> (r: Self)
        ensures
            r == *self,
    {
        PaymentInvoice {
            payment_id: self.payment_id.clone(),
            site_id: self.site_id.clone(),
            url_hash: self.url_hash.clone(),
            amount: self.amount,
            created_at: self.created_at,
            expires_at: self.expires_at,
            status: self.status,
        }
    }
}

/// Immutable proof that a specific invoice was paid: snapshots the invoice's
/// site and amount at verification time and references the settling
/// transaction by hash.
#[derive(Debug)]
pub struct PaymentRecord {
    pub payment_id: String,
    pub tx_hash: String,
    pub payer_public_key: String,
    pub verified_at: u64,
    pub site_id: String,
    pub amount: i128,
}

impl Clone for PaymentRecord {
    fn clone(&self) -> (r: Self)
        ensures
            r == *self,
    {
        PaymentRecord {
            payment_id: self.payment_id.clone(),
            tx_hash: self.tx_hash.clone(),
            payer_public_key: self.payer_public_key.clone(),
            verified_at: self.verified_at,
            site_id: self.site_id.clone(),
            amount: self.amount,
        }
    }
}

/// The decimal digit character for a value below ten.
pub open spec fn digit_char(d: nat) -> char {
    if d == 0 {
        '0'
    } else if d == 1 {
        '1'
    } else if d == 2 {
        '2'
    } else if d == 3 {
        '3'
    } else if d == 4 {
        '4'
    } else if d == 5 {
        '5'
    } else if d == 6 {
        '6'
    } else if d == 7 {
        '7'
    } else if d == 8 {
        '8'
    } else {
        '9'
    }
}

/// The value of a decimal digit character.
pub open spec fn digit_num(c: char) -> nat {
    if c == '0' {
        0
    } else if c == '1' {
        1
    } else if c == '2' {
        2
    } else if c == '3' {
        3
    } else if c == '4' {
        4
    } else if c == '5' {
        5
    } else if c == '6' {
        6
    } else if c == '7' {
        7
    } else if c == '8' {
        8
    } else {
        9
    }
}

/// The decimal rendering of a number, most significant digit first.
pub open spec fn spec_decimal(n: nat) -> Seq<char>
    decreases n,
{
    if n < 10 {
        seq![digit_char(n)]
    } else {
        spec_decimal(n / 10).push(digit_char(n % 10))
    }
}

/// The number a sequence of decimal digit characters denotes.
pub open spec fn digits_num(s: Seq<char>) -> nat
    decreases s.len(),
{
    if s.len() == 0 {
        0
    } else {
        digits_num(s.drop_last()) * 10 + digit_num(s.last())
    }
}

/// Reading back a decimal rendering yields the rendered number; the rendering
/// is therefore injective.
pub proof fn lemma_decimal_num(n: nat)
    ensures
        digits_num(spec_decimal(n)) == n,
    decreases n,
{
    vstd::arithmetic::div_mod::lemma_fundamental_div_mod(n as int, 10);
    if n < 10 {
        let s = spec_decimal(n);
        assert(s == seq![digit_char(n)]);
        assert(s.drop_last() =~= Seq::<char>::empty());
        assert(s.last() == digit_char(n));
        assert(digit_num(digit_char(n)) == n);
        assert(digits_num(s.drop_last()) == 0);
    } else {
        lemma_decimal_num(n / 10);
        let s = spec_decimal(n);
        assert(s == spec_decimal(n / 10).push(digit_char(n % 10)));
        assert(s.drop_last() =~= spec_decimal(n / 10));
        assert(s.last() == digit_char(n % 10));
        assert(n % 10 < 10);
        assert(digit_num(digit_char(n % 10)) == n % 10);
    }
}

/// The payment identifier minted for the `n`-th request: a fixed tag followed
/// by the counter value in decimal.
pub open spec fn id_of(n: nat) -> Seq<char> {
    "pay_"@ + spec_decimal(n)
}

/// The counter value a minted payment identifier carries.
pub open spec fn id_num(s: Seq<char>) -> nat {
    digits_num(s.skip(4))
}

/// The identifier is one the generator mints: its own counter value renders
/// back to it.
pub open spec fn is_minted_id(s: Seq<char>) -> bool {
    s.len() > 4 && s == id_of(id_num(s))
}

/// A minted identifier carries exactly the counter value it was minted from.
pub proof fn lemma_id_num(n: nat)
    ensures
        is_minted_id(id_of(n)),
        id_num(id_of(n)) == n,
{
    reveal_strlit("pay_");
    assert(id_of(n).skip(4) =~= spec_decimal(n));
    lemma_decimal_num(n);
    if n < 10 {
        assert(spec_decimal(n) == seq![digit_char(n)]);
    } else {
        assert(spec_decimal(n) == spec_decimal(n / 10).push(digit_char(n % 10)));
    }
    assert(id_of(id_num(id_of(n))) == id_of(n));
}

/// Law: distinct counter values mint distinct payment identifiers.
pub proof fn lemma_id_of_injective(a: nat, b: nat)
    requires
        id_of(a) == id_of(b),
    ensures
        a == b,
{
    lemma_id_num(a);
    lemma_id_num(b);
}

/// The tag every issued token begins with.
pub open spec fn token_prefix() -> Seq<char> {
    "pertoken."@
}

/// The token minted for a payment identifier: the token tag followed by the
/// identifier. Resolution inverts this encoding; a cryptographic signature on
/// top of it is outside this core.
pub open spec fn token_of(payment_id: Seq<char>) -> Seq<char> {
    token_prefix() + payment_id
}

/// A token is well formed when it begins with the token tag and carries a
/// non-empty payment identifier after it.
pub open spec fn token_well_formed(token: Seq<char>) -> bool {
    token.len() > token_prefix().len() && token.subrange(0, token_prefix().len() as int)
        == token_prefix()
}

/// The payment identifier a well-formed token carries.
pub open spec fn extracted_payment_id(token: Seq<char>) -> Seq<char> {
    token.skip(token_prefix().len() as int)
}

/// Law: extraction inverts minting — the token minted for a payment
/// identifier is well formed and carries exactly that identifier.
pub proof fn lemma_token_inversion(payment_id: Seq<char>)
    requires
        payment_id.len() > 0,
    ensures
        token_well_formed(token_of(payment_id)),
        extracted_payment_id(token_of(payment_id)) == payment_id,
{
    reveal_strlit("pertoken.");
    assert(token_of(payment_id).subrange(0, token_prefix().len() as int) =~= token_prefix());
    assert(token_of(payment_id).skip(token_prefix().len() as int) =~= payment_id);
}

} // verus!
