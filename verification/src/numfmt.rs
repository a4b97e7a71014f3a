//! Decimal rendering of the integers the library writes into text fields
//! and signed messages.

use vstd::prelude::*;

verus! {

/// Decimal digits of a non-negative integer, most significant first.
pub open spec fn spec_u64_dec(n: int) -> Seq<u8>
    decreases n,
{
    if n < 10 {
        seq![(48 + if n >= 0 { n } else { 0 }) as u8]
    } else {
        spec_u64_dec(n / 10).push((48 + n % 10) as u8)
    }
}

/// Decimal rendering of a signed integer, with a leading minus sign when
/// negative.
pub open spec fn spec_i64_dec(v: int) -> Seq<u8> {
    if v < 0 {
        seq![45u8] + spec_u64_dec(-v)
    } else {
        spec_u64_dec(v)
    }
}

/// The bytes `format!` produces for a bool.
pub open spec fn spec_bool_bytes(b: bool) -> Seq<u8> {
    if b {
        seq![116u8, 114u8, 117u8, 101u8]
    } else {
        seq![102u8, 97u8, 108u8, 115u8, 101u8]
    }
}

fn push_u64_dec(n: u64, out: &mut Vec<u8>)
    ensures
        final(out)@ == old(out)@ + spec_u64_dec(n as int),
    decreases n,
{
    if n < 10 {
        out.push(48 + n as u8);
        assert(final(out)@ =~= old(out)@ + spec_u64_dec(n as int));
    } else {
        push_u64_dec(n / 10, out);
        out.push(48 + (n % 10) as u8);
        assert(final(out)@ =~= old(out)@ + spec_u64_dec(n as int));
    }
}

/// Appends the decimal digits of `n`.
pub fn push_i64_dec(v: i64, out: &mut Vec<u8>)
    ensures
        final(out)@ == old(out)@ + spec_i64_dec(v as int),
{
    if v < 0 {
        out.push(45);
        let mag: u64 = (-(v as i128)) as u64;
        push_u64_dec(mag, out);
        assert(final(out)@ =~= old(out)@ + spec_i64_dec(v as int));
    } else {
        push_u64_dec(v as u64, out);
    }
}

/// Decimal digits of `v` as a byte vector.
pub fn i64_dec_bytes(v: i64) -> (r: Vec<u8>)
    ensures
        r@ == spec_i64_dec(v as int),
{
    let mut out: Vec<u8> = Vec::new();
    push_i64_dec(v, &mut out);
    out
}

/// Appends `format!`'s rendering of a bool.
pub fn push_bool_bytes(b: bool, out: &mut Vec<u8>)
    ensures
        final(out)@ == old(out)@ + spec_bool_bytes(b),
{
    if b {
        out.push(116);
        out.push(114);
        out.push(117);
        out.push(101);
    } else {
        out.push(102);
        out.push(97);
        out.push(108);
        out.push(115);
        out.push(101);
    }
    assert(final(out)@ =~= old(out)@ + spec_bool_bytes(b));
}

/// Every byte of a decimal rendering is a digit, so the rendering is ASCII.
pub proof fn lemma_u64_dec_ascii(n: int)
    ensures
        forall|i: int|
            0 <= i < spec_u64_dec(n).len() ==> 48 <= #[trigger] spec_u64_dec(n)[i] <= 57,
    decreases n,
{
    if n >= 10 {
        lemma_u64_dec_ascii(n / 10);
        vstd::arithmetic::div_mod::lemma_mod_division_less_than_divisor(n, 10);
        assert(n % 10 >= 0);
        assert forall|i: int| 0 <= i < spec_u64_dec(n).len() implies 48 <= #[trigger] spec_u64_dec(
            n,
        )[i] <= 57 by {
            if i < spec_u64_dec(n / 10).len() {
                assert(spec_u64_dec(n)[i] == spec_u64_dec(n / 10)[i]);
            } else {
                assert(spec_u64_dec(n)[i] == (48 + n % 10) as u8);
            }
        }
    }
}

/// A signed rendering is ASCII as well.
pub proof fn lemma_i64_dec_ascii(v: int)
    ensures
        forall|i: int|
            0 <= i < spec_i64_dec(v).len() ==> 45 <= #[trigger] spec_i64_dec(v)[i] <= 57,
{
    if v < 0 {
        lemma_u64_dec_ascii(-v);
    } else {
        lemma_u64_dec_ascii(v);
    }
}

/// Relies on `String::from_utf8`: decoding ASCII bytes yields exactly those
/// characters.
#[verifier::external_body]
pub(crate) fn ascii_string(bytes: &Vec<u8>) -> (r: String)
    requires
        forall|i: int| 0 <= i < bytes@.len() ==> bytes@[i] < 128,
    ensures
        r@ == bytes@.map_values(|b: u8| b as char),
{
    String::from_utf8(bytes.clone()).unwrap_or_default()
}

/// Decimal rendering of `v` as a string, as `format!` writes it.
pub fn i64_dec_string(v: i64) -> (r: String)
    ensures
        r@ == spec_i64_dec(v as int).map_values(|b: u8| b as char),
{
    let bytes = i64_dec_bytes(v);
    proof {
        lemma_i64_dec_ascii(v as int);
    }
    ascii_string(&bytes)
}

} // verus!
