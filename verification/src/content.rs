//! Content addresses: an attachment is kept under the hash of its bytes.

use vstd::prelude::*;
use vstd::string::*;

use crate::number::{format_hex, hex, hex_digit, lemma_hex, lemma_hex_injective};
use crate::text::{char_is_lower_hex_digit, is_lower_hex_digit, to_chars};

verus! {

/// The BLAKE3 hash of a row of bytes.
pub uninterp spec fn blake3_digest(bytes: Seq<u8>) -> Seq<u8>;

/// `blake3::hash`: the 32 bytes of the hash of its input, which depend on the
/// input alone.
#[verifier::external_body]
fn digest(bytes: &[u8]) -> (r: [u8; 32])
    ensures
        r@ == blake3_digest(bytes@),
{
    *blake3::hash(bytes).as_bytes()
}

/// A row of bytes in hexadecimal, two digits to a byte.
pub open spec fn hex_bytes(bytes: Seq<u8>) -> Seq<char>
    decreases bytes.len(),
{
    if bytes.len() == 0 {
        Seq::empty()
    } else {
        hex_bytes(bytes.drop_last()) + hex(bytes.last() as nat, 2)
    }
}

/// The address of a row of bytes: their hash in lower-case hexadecimal.
pub open spec fn content_hash(bytes: Seq<u8>) -> Seq<char> {
    hex_bytes(blake3_digest(bytes))
}

/// Whether a text has the form of an address: exactly 64 hexadecimal digits in
/// lower case.
pub open spec fn is_content_id(s: Seq<char>) -> bool {
    s.len() == 64 && forall|i: int| 0 <= i < s.len() ==> is_lower_hex_digit(#[trigger] s[i])
}

/// Hexadecimal has two lower-case digits to a byte.
pub proof fn lemma_hex_bytes(bytes: Seq<u8>)
    ensures
        hex_bytes(bytes).len() == 2 * bytes.len(),
        forall|i: int|
            0 <= i < hex_bytes(bytes).len() ==> is_lower_hex_digit(#[trigger] hex_bytes(bytes)[i]),
    decreases bytes.len(),
{
    if bytes.len() > 0 {
        lemma_hex_bytes(bytes.drop_last());
        lemma_hex(bytes.last() as nat, 2);
        let low = hex_bytes(bytes.drop_last());
        let high = hex(bytes.last() as nat, 2);
        assert forall|i: int| 0 <= i < hex_bytes(bytes).len() implies is_lower_hex_digit(
            #[trigger] hex_bytes(bytes)[i],
        ) by {
            if i < low.len() {
                assert(hex_bytes(bytes)[i] == low[i]);
            } else {
                assert(hex_bytes(bytes)[i] == high[i - low.len()]);
            }
        }
    }
}

/// Writes a row of bytes in hexadecimal.
pub fn format_hex_bytes(bytes: &[u8]) -> (r: String)
    ensures
        r@ == hex_bytes(bytes@),
{
    let mut out = String::new();
    assert(out@ =~= hex_bytes(bytes@.take(0)));
    for i in 0..bytes.len()
        invariant
            out@ == hex_bytes(bytes@.take(i as int)),
    {
        assert(bytes@.take(i as int + 1).drop_last() =~= bytes@.take(i as int));
        out.append(format_hex(bytes[i] as u32, 2).as_str());
    }
    assert(bytes@.take(bytes@.len() as int) =~= bytes@);
    out
}

/// The address of a row of bytes.
pub fn address_of(bytes: &[u8]) -> (r: String)
    ensures
        r@ == content_hash(bytes@),
        is_content_id(r@),
{
    let d = digest(bytes);
    let out = format_hex_bytes(&d);
    proof {
        law_address_is_a_content_id(d@);
    }
    out
}

/// Decides whether a text has the form of an address.
pub fn has_content_id_form(s: &str) -> (r: bool)
    ensures
        r == is_content_id(s@),
{
    let c: Vec<char> = to_chars(s);
    if c.len() != 64 {
        return false;
    }
    for i in 0..c.len()
        invariant
            c@ == s@,
            forall|j: int| 0 <= j < i ==> is_lower_hex_digit(#[trigger] c@[j]),
    {
        if !char_is_lower_hex_digit(c[i]) {
            assert(!is_lower_hex_digit(s@[i as int]));
            return false;
        }
    }
    true
}

/// Every hash of 32 bytes is written as a text that has the form of an address,
/// so that what was stored can be asked for.
pub proof fn law_address_is_a_content_id(digest: Seq<u8>)
    requires
        digest.len() == 32,
    ensures
        is_content_id(hex_bytes(digest)),
{
    lemma_hex_bytes(digest);
}

/// Bytes with the same address have the same hash: two addresses are told apart
/// wherever the hashes are.
pub proof fn law_addresses_follow_hashes(a: Seq<u8>, b: Seq<u8>)
    requires
        hex_bytes(a) == hex_bytes(b),
    ensures
        a == b,
    decreases a.len(),
{
    lemma_hex_bytes(a);
    lemma_hex_bytes(b);
    if a.len() > 0 {
        let n = hex_bytes(a).len() - 2;
        lemma_hex_bytes(a.drop_last());
        lemma_hex_bytes(b.drop_last());
        lemma_hex(a.last() as nat, 2);
        lemma_hex(b.last() as nat, 2);
        assert(hex_bytes(a).take(n) =~= hex_bytes(a.drop_last()));
        assert(hex_bytes(b).take(n) =~= hex_bytes(b.drop_last()));
        assert(hex_bytes(a).skip(n) =~= hex(a.last() as nat, 2));
        assert(hex_bytes(b).skip(n) =~= hex(b.last() as nat, 2));
        assert(vstd::arithmetic::power::pow(16, 2) == 256) by {
            reveal_with_fuel(vstd::arithmetic::power::pow, 3);
        }
        lemma_hex_injective(a.last() as nat, b.last() as nat, 2);
        law_addresses_follow_hashes(a.drop_last(), b.drop_last());
        assert(a =~= a.drop_last().push(a.last()));
        assert(b =~= b.drop_last().push(b.last()));
    } else {
        assert(a =~= b);
    }
}

/// Bytes are written one after the other, each as two hexadecimal digits, the
/// higher first.
pub proof fn law_bytes_are_written_in_order(bytes: Seq<u8>, b: u8)
    ensures
        hex_bytes(Seq::<u8>::empty()) == Seq::<char>::empty(),
        hex_bytes(bytes.push(b)) == hex_bytes(bytes) + hex((b / 16) as nat, 1) + hex(
            (b % 16) as nat,
            1,
        ),
{
    assert(bytes.push(b).drop_last() =~= bytes);
    let n = b as nat;
    assert(hex(n, 2) == hex(n / 16, 1).push(hex_digit(n % 16)));
    assert(hex(n % 16, 0) =~= Seq::<char>::empty());
    assert(hex((n % 16) / 16, 0) =~= Seq::<char>::empty());
    assert((n % 16) % 16 == n % 16);
    assert(hex(n % 16, 1) =~= seq![hex_digit(n % 16)]);
    assert(hex_bytes(bytes.push(b)) =~= hex_bytes(bytes) + hex((b / 16) as nat, 1) + hex(
        (b % 16) as nat,
        1,
    ));
}

/// What has the form of an address is 64 characters long and holds none but the
/// digits and the letters from `a` to `f`; and all of that form has it.
pub proof fn law_address_form(s: Seq<char>)
    ensures
        is_content_id(s) <==> s.len() == 64 && forall|i: int|
            0 <= i < s.len() ==> '0' <= #[trigger] s[i] <= '9' || 'a' <= s[i] <= 'f',
        !is_content_id(s) ==> s.len() != 64 || exists|i: int|
            0 <= i < s.len() && !('0' <= #[trigger] s[i] <= '9') && !('a' <= s[i] <= 'f'),
{
    if s.len() == 64 && forall|i: int|
        0 <= i < s.len() ==> '0' <= #[trigger] s[i] <= '9' || 'a' <= s[i] <= 'f' {
        assert forall|i: int| 0 <= i < s.len() implies is_lower_hex_digit(#[trigger] s[i]) by {}
    }
    if is_content_id(s) {
        assert forall|i: int| 0 <= i < s.len() implies '0' <= #[trigger] s[i] <= '9' || 'a' <= s[i]
            <= 'f' by {
            assert(is_lower_hex_digit(s[i]));
        }
    }
}

} // verus!
