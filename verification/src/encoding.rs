//! The leaf encoder: canonical, unambiguous serialization of an
//! `(account, amount)` entitlement record into the byte string that is
//! hashed into a Merkle leaf.
//!
//! Each field is prefixed by its length as four little-endian bytes, so no
//! two distinct records encode to the same bytes (`lemma_encode_injective`).
use vstd::prelude::*;

verus! {

/// A field longer than this cannot be length-prefixed in four bytes.
pub const MAX_FIELD_LEN: usize = 0xffff_ffff;

/// The four little-endian bytes of a length below 2^32.
pub open spec fn len_prefix_of(n: nat) -> Seq<u8> {
    seq![
        (n % 256) as u8,
        ((n / 256) % 256) as u8,
        ((n / 65536) % 256) as u8,
        ((n / 16777216) % 256) as u8,
    ]
}

/// The canonical leaf bytes of a record: length-prefixed account bytes,
/// then length-prefixed amount bytes.
pub open spec fn encode_of(account: Seq<u8>, amount: Seq<u8>) -> Seq<u8> {
    len_prefix_of(account.len()) + account + len_prefix_of(amount.len()) + amount
}

/// Appends the four little-endian bytes of `n` to `out`.
fn push_len_prefix(out: &mut Vec<u8>, n: usize)
    requires
        n <= MAX_FIELD_LEN,
    ensures
        final(out)@ == old(out)@ + len_prefix_of(n as nat),
{
    out.push((n % 256) as u8);
    out.push(((n / 256) % 256) as u8);
    out.push(((n / 65536) % 256) as u8);
    out.push(((n / 16777216) % 256) as u8);
    assert(out@ == old(out)@ + len_prefix_of(n as nat));
}

/// Serializes a record into its canonical leaf bytes.
pub fn encode_record(account: &Vec<u8>, amount: &Vec<u8>) -> (bytes: Vec<u8>)
    requires
        account@.len() <= MAX_FIELD_LEN,
        amount@.len() <= MAX_FIELD_LEN,
    ensures
        bytes@ == encode_of(account@, amount@),
{
    let mut bytes: Vec<u8> = Vec::new();
    push_len_prefix(&mut bytes, account.len());
    bytes.extend_from_slice(account.as_slice());
    push_len_prefix(&mut bytes, amount.len());
    bytes.extend_from_slice(amount.as_slice());
    assert(bytes@ == encode_of(account@, amount@));
    bytes
}

/// A length below 2^32 is recovered exactly from its four prefix bytes.
proof fn lemma_len_prefix_value(n: nat)
    requires
        n < 0x1_0000_0000,
    ensures
        n == len_prefix_of(n)[0] + len_prefix_of(n)[1] * 256 + len_prefix_of(n)[2] * 65536
            + len_prefix_of(n)[3] * 16777216,
{
    assert(n == n % 256 + (n / 256 % 256) * 256 + (n / 65536 % 256) * 65536
        + (n / 16777216 % 256) * 16777216) by (nonlinear_arith)
        requires n < 0x1_0000_0000;
}

/// Two equal length prefixes come from the same length.
proof fn lemma_len_prefix_injective(n1: nat, n2: nat)
    requires
        n1 < 0x1_0000_0000,
        n2 < 0x1_0000_0000,
        len_prefix_of(n1) == len_prefix_of(n2),
    ensures
        n1 == n2,
{
    lemma_len_prefix_value(n1);
    lemma_len_prefix_value(n2);
}

/// The encoding is unambiguous: no two distinct records produce the same
/// leaf bytes, so before any hashing takes place, distinct entitlements
/// are already distinct byte strings.
pub proof fn lemma_encode_injective(a1: Seq<u8>, m1: Seq<u8>, a2: Seq<u8>, m2: Seq<u8>)
    requires
        a1.len() < 0x1_0000_0000,
        m1.len() < 0x1_0000_0000,
        a2.len() < 0x1_0000_0000,
        m2.len() < 0x1_0000_0000,
        encode_of(a1, m1) == encode_of(a2, m2),
    ensures
        a1 == a2,
        m1 == m2,
{
    let e1 = encode_of(a1, m1);
    let e2 = encode_of(a2, m2);
    assert(len_prefix_of(a1.len()) =~= e1.subrange(0, 4));
    assert(len_prefix_of(a2.len()) =~= e2.subrange(0, 4));
    lemma_len_prefix_injective(a1.len(), a2.len());
    let n = a1.len() as int;
    assert(a1 =~= e1.subrange(4, 4 + n));
    assert(a2 =~= e2.subrange(4, 4 + n));
    assert(m1 =~= e1.subrange(8 + n, e1.len() as int));
    assert(m2 =~= e2.subrange(8 + n, e2.len() as int));
}

} // verus!
