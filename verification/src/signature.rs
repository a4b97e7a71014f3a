//! The mutation gate: requests that rewrite attendance or member records
//! carry an HMAC-SHA256 tag over the request's fields, hex-encoded; the
//! gate recomputes the tag and compares.

use crate::date::{Date, push_date_iso_bytes, spec_date_iso_bytes};
use crate::numfmt::{push_bool_bytes, push_i64_dec, spec_bool_bytes, spec_i64_dec};
use hmac::{Hmac, KeyInit, Mac};
use sha2::Sha256;
use vstd::prelude::*;
use vstd::string::StringSliceAdditionalSpecFns;

verus! {

/// The HMAC-SHA256 tag of a message under a key, as the hmac and sha2
/// crates compute it: a function of the two byte strings alone.
pub uninterp spec fn spec_hmac_sha256(key: Seq<u8>, msg: Seq<u8>) -> Seq<u8>;

/// Relies on `Hmac::<Sha256>` of the hmac crate with the sha2 hash: the
/// tag depends only on key and message, is 32 bytes long (the SHA-256
/// output size), and any key length is accepted.
#[verifier::external_body]
fn hmac_sha256(key: &[u8], msg: &[u8]) -> (r: Vec<u8>)
    ensures
        r@ == spec_hmac_sha256(key@, msg@),
        r@.len() == 32,
{
    let mut mac = <Hmac<Sha256> as KeyInit>::new_from_slice(key).expect(
        "HMAC accepts keys of any length",
    );
    mac.update(msg);
    mac.finalize().into_bytes().to_vec()
}

pub open spec fn spec_is_hex_digit(b: u8) -> bool {
    (48 <= b <= 57) || (65 <= b <= 70) || (97 <= b <= 102)
}

pub open spec fn spec_hex_val(b: u8) -> int {
    if 48 <= b <= 57 {
        b - 48
    } else if 65 <= b <= 70 {
        b - 55
    } else {
        b - 87
    }
}

/// Whether a byte string is well-formed hex: even length, digits only.
pub open spec fn spec_hex_ok(s: Seq<u8>) -> bool {
    s.len() % 2 == 0 && (forall|i: int| 0 <= i < s.len() ==> spec_is_hex_digit(#[trigger] s[i]))
}

/// The bytes a well-formed hex string encodes, two digits each.
pub open spec fn spec_hex_bytes(s: Seq<u8>) -> Seq<u8> {
    Seq::new(
        (s.len() / 2) as nat,
        |i: int| (16 * spec_hex_val(s[2 * i]) + spec_hex_val(s[2 * i + 1])) as u8,
    )
}

/// Relies on `hex::decode`: it fails exactly on odd length or a non-digit,
/// and otherwise reads big-endian pairs of hex digits, upper or lower
/// case, as bytes.
#[verifier::external_body]
fn hex_decode(s: &str) -> (r: Option<Vec<u8>>)
    ensures
        r is Some <==> spec_hex_ok(s.spec_bytes()),
        match r {
            Some(v) => v@ == spec_hex_bytes(s.spec_bytes()),
            None => true,
        },
{
    match hex::decode(s) {
        Ok(v) => Some(v),
        Err(_) => None,
    }
}

/// Byte-string equality.
fn bytes_eq(a: &[u8], b: &[u8]) -> (r: bool)
    ensures
        r == (a@ == b@),
{
    let n = a.len();
    if n != b.len() {
        assert(a@.len() != b@.len());
        return false;
    }
    let mut i: usize = 0;
    while i < n
        invariant
            n == a@.len(),
            n == b@.len(),
            i <= n,
            forall|j: int| 0 <= j < i ==> a@[j] == b@[j],
        decreases n - i,
    {
        if a[i] != b[i] {
            assert(a@[i as int] != b@[i as int]);
            return false;
        }
        i = i + 1;
    }
    proof {
        assert(a@ =~= b@);
    }
    true
}

/// Whether a hex-encoded signature names exactly the expected tag: it must
/// decode, and the decoded bytes must equal the tag.
pub fn signature_matches(expected: &Vec<u8>, sig_hex: &str) -> (r: bool)
    ensures
        r == (spec_hex_ok(sig_hex.spec_bytes()) && spec_hex_bytes(sig_hex.spec_bytes())
            == expected@),
{
    match hex_decode(sig_hex) {
        Some(got) => bytes_eq(got.as_slice(), expected.as_slice()),
        None => false,
    }
}

/// The signature check: computes the HMAC-SHA256 tag of `message` with
/// `secret` and accepts exactly a hex encoding of that tag, of either case.
pub fn verify_signature(secret: &[u8], message: &[u8], sig_hex: &str) -> (r: bool)
    ensures
        r == (spec_hex_ok(sig_hex.spec_bytes()) && spec_hex_bytes(sig_hex.spec_bytes())
            == spec_hmac_sha256(secret@, message@)),
{
    let expected = hmac_sha256(secret, message);
    signature_matches(&expected, sig_hex)
}

fn push_str_bytes(out: &mut Vec<u8>, s: &str)
    ensures
        final(out)@ == old(out)@ + s.spec_bytes(),
{
    let b = s.as_bytes();
    let n = b.len();
    let mut i: usize = 0;
    assert(out@ =~= old(out)@ + b@.subrange(0, 0));
    while i < n
        invariant
            n == b@.len(),
            i <= n,
            b@ == s.spec_bytes(),
            out@ == old(out)@ + b@.subrange(0, i as int),
        decreases n - i,
    {
        out.push(b[i]);
        assert(out@ =~= old(out)@ + b@.subrange(0, i as int + 1));
        i = i + 1;
    }
    assert(out@ =~= old(out)@ + s.spec_bytes());
}

/// The signed message of the member-edit mutation: the request's fields,
/// written out one after the other with no separator.
pub fn edit_member_message(
    id: i32,
    hostel: &str,
    year: i32,
    macaddress: &str,
    discord_id: &str,
    group_id: i32,
) -> (r: Vec<u8>)
    ensures
        r@ == spec_i64_dec(id as int) + hostel.spec_bytes() + spec_i64_dec(year as int)
            + macaddress.spec_bytes() + discord_id.spec_bytes() + spec_i64_dec(group_id as int),
{
    let mut out: Vec<u8> = Vec::new();
    push_i64_dec(id as i64, &mut out);
    push_str_bytes(&mut out, hostel);
    push_i64_dec(year as i64, &mut out);
    push_str_bytes(&mut out, macaddress);
    push_str_bytes(&mut out, discord_id);
    push_i64_dec(group_id as i64, &mut out);
    out
}

/// The signed message of the attendance-marking mutation: member id, the
/// date in ISO form, and the presence flag, with no separator.
pub fn mark_attendance_message(id: i32, date: Date, is_present: bool) -> (r: Vec<u8>)
    requires
        date.wf(),
    ensures
        r@ == spec_i64_dec(id as int) + spec_date_iso_bytes(date) + spec_bool_bytes(is_present),
{
    let mut out: Vec<u8> = Vec::new();
    push_i64_dec(id as i64, &mut out);
    push_date_iso_bytes(date, &mut out);
    push_bool_bytes(is_present, &mut out);
    out
}

} // verus!
