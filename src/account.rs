//! Account identifiers: opaque byte strings compared by value.

use vstd::prelude::*;

verus! {

/// Number of bytes in a self-authenticating identifier: a 28-byte key hash and a tag.
pub const SELF_AUTH_LEN: usize = 29;

/// Tag byte that ends a self-authenticating identifier.
pub const SELF_AUTH_TAG: u8 = 2;

/// An account identifier (a user or a canister), held as its raw bytes.
#[derive(Debug)]
pub struct Account {
    bytes: Vec<u8>,
}

impl View for Account {
    type V = Seq<u8>;

    closed spec fn view(&self) -> Seq<u8> {
        self.bytes@
    }
}

impl Clone for Account {
    fn clone(&self) -> (r: Self)
        ensures
            r@ == self@,
    {
        let b = self.bytes.clone();
        proof {
            assert(b@ =~= self.bytes@);
        }
        Account { bytes: b }
    }
}

impl PartialEq for Account {
    fn eq(&self, other: &Account) -> (r: bool)
        ensures
            r == (self@ == other@),
    {
        self.same_as(other)
    }
}

impl vstd::std_specs::cmp::PartialEqSpecImpl for Account {
    open spec fn obeys_eq_spec() -> bool {
        true
    }

    open spec fn eq_spec(&self, other: &Account) -> bool {
        self@ == other@
    }
}

impl Eq for Account {}

/// Relies on candid's `Principal::anonymous`: the anonymous principal is the single byte 4.
#[verifier::external_body]
fn anonymous_principal_bytes() -> (r: Vec<u8>)
    ensures
        r@ == seq![4u8],
{
    candid::Principal::anonymous().as_slice().to_vec()
}

impl Account {
    /// An account with the given bytes.
    pub fn new(bytes: Vec<u8>) -> (r: Account)
        ensures
            r@ == bytes@,
    {
        Account { bytes }
    }

    /// The anonymous account (the identity of an unauthenticated caller).
    pub fn anonymous() -> (r: Account)
        ensures
            r@ == seq![4u8],
    {
        Account { bytes: anonymous_principal_bytes() }
    }

    /// The raw bytes of this account.
    pub fn as_bytes(&self) -> (r: &Vec<u8>)
        ensures
            r@ == self@,
    {
        &self.bytes
    }

    /// Whether two accounts are the same identifier.
    pub fn same_as(&self, other: &Account) -> (r: bool)
        ensures
            r == (self@ == other@),
    {
        let n = self.bytes.len();
        if n != other.bytes.len() {
            return false;
        }
        let mut i: usize = 0;
        while i < n
            invariant
                n == self.bytes@.len(),
                n == other.bytes@.len(),
                i <= n,
                forall|j: int| 0 <= j < i ==> self.bytes@[j] == other.bytes@[j],
            decreases n - i,
        {
            if self.bytes[i] != other.bytes[i] {
                return false;
            }
            i = i + 1;
        }
        proof {
            assert(self.bytes@ =~= other.bytes@);
        }
        true
    }

    /// Whether `self` sorts strictly before `other` in byte-wise lexicographic order.
    pub fn less_than(&self, other: &Account) -> (r: bool)
        ensures
            r == bytes_lt(self@, other@),
    {
        let a = &self.bytes;
        let b = &other.bytes;
        let mut i: usize = 0;
        while i < a.len() && i < b.len() && a[i] == b[i]
            invariant
                i <= a@.len(),
                i <= b@.len(),
                bytes_lt_from(a@, b@, 0) == bytes_lt_from(a@, b@, i as int),
            decreases a@.len() - i,
        {
            i = i + 1;
        }
        if i < a.len() && i < b.len() {
            a[i] < b[i]
        } else {
            i == a.len() && i < b.len()
        }
    }
}

/// Lexicographic order on byte strings, comparing from position `i` on.
pub open spec fn bytes_lt_from(a: Seq<u8>, b: Seq<u8>, i: int) -> bool
    decreases a.len() - i,
{
    if i < 0 || i >= a.len() {
        0 <= i < b.len()
    } else if i >= b.len() {
        false
    } else if a[i] != b[i] {
        a[i] < b[i]
    } else {
        bytes_lt_from(a, b, i + 1)
    }
}

/// Strict lexicographic order on byte strings (a proper prefix sorts first).
pub open spec fn bytes_lt(a: Seq<u8>, b: Seq<u8>) -> bool {
    bytes_lt_from(a, b, 0)
}

/// Whether the identifier is self-authenticating: 29 bytes ending in tag 2.
pub open spec fn is_self_authenticating(id: Seq<u8>) -> bool {
    id.len() == SELF_AUTH_LEN && id[SELF_AUTH_LEN - 1] == SELF_AUTH_TAG
}

/// Whether `id` is a self-authenticating identifier (one that belongs to a user key
/// rather than to a canister).
pub fn is_authenticating(id: &Account) -> (r: bool)
    ensures
        r == is_self_authenticating(id@),
{
    let blob = id.as_bytes();
    if blob.len() != SELF_AUTH_LEN {
        return false;
    }
    blob[SELF_AUTH_LEN - 1] == SELF_AUTH_TAG
}

proof fn lemma_bytes_lt_from_irreflexive(a: Seq<u8>, i: int)
    requires
        0 <= i,
    ensures
        !bytes_lt_from(a, a, i),
    decreases a.len() - i,
{
    if i < a.len() {
        lemma_bytes_lt_from_irreflexive(a, i + 1);
    }
}

proof fn lemma_bytes_lt_from_transitive(a: Seq<u8>, b: Seq<u8>, c: Seq<u8>, i: int)
    requires
        0 <= i,
        bytes_lt_from(a, b, i),
        bytes_lt_from(b, c, i),
    ensures
        bytes_lt_from(a, c, i),
    decreases a.len() - i,
{
    if i < a.len() && i < b.len() && i < c.len() && a[i] == b[i] && b[i] == c[i] {
        lemma_bytes_lt_from_transitive(a, b, c, i + 1);
    }
}

proof fn lemma_bytes_lt_from_total(a: Seq<u8>, b: Seq<u8>, i: int)
    requires
        0 <= i <= a.len(),
        i <= b.len(),
        a.subrange(0, i) == b.subrange(0, i),
        !bytes_lt_from(a, b, i),
        !bytes_lt_from(b, a, i),
    ensures
        a == b,
    decreases a.len() - i,
{
    if i < a.len() && i < b.len() {
        assert(a.subrange(0, i + 1) =~= a.subrange(0, i).push(a[i]));
        assert(b.subrange(0, i + 1) =~= b.subrange(0, i).push(b[i]));
        lemma_bytes_lt_from_total(a, b, i + 1);
    } else {
        assert(a =~= a.subrange(0, i));
        assert(b =~= b.subrange(0, i));
    }
}

/// The byte order is a strict total order.
pub proof fn lemma_bytes_lt_order(a: Seq<u8>, b: Seq<u8>, c: Seq<u8>)
    ensures
        !bytes_lt(a, a),
        bytes_lt(a, b) && bytes_lt(b, c) ==> bytes_lt(a, c),
        a != b ==> bytes_lt(a, b) || bytes_lt(b, a),
{
    lemma_bytes_lt_from_irreflexive(a, 0);
    if bytes_lt(a, b) && bytes_lt(b, c) {
        lemma_bytes_lt_from_transitive(a, b, c, 0);
    }
    if !bytes_lt(a, b) && !bytes_lt(b, a) {
        assert(a.subrange(0, 0) =~= b.subrange(0, 0));
        lemma_bytes_lt_from_total(a, b, 0);
    }
}

} // verus!
