//! The signature-binding protocol: the canonical message that a write's
//! signature covers, and the digest handed to the curve verifier.

use vstd::prelude::*;

verus! {

/// The eight little-endian bytes of a version number.
pub open spec fn u64_le_bytes(v: u64) -> Seq<u8> {
    seq![
        (v % 256) as u8,
        ((v / 256) % 256) as u8,
        ((v / 65536) % 256) as u8,
        ((v / 16777216) % 256) as u8,
        ((v / 4294967296) % 256) as u8,
        ((v / 1099511627776) % 256) as u8,
        ((v / 281474976710656) % 256) as u8,
        ((v / 72057594037927936) % 256) as u8,
    ]
}

/// The canonical message a write's signature covers: the fixed-width group
/// field, the fixed-width key field, the version as eight little-endian
/// bytes, then the raw payload.
pub open spec fn signed_message(
    group: Seq<u8>,
    key: Seq<u8>,
    version: u64,
    data: Seq<u8>,
) -> Seq<u8> {
    group + key + u64_le_bytes(version) + data
}

/// The SHA-256 digest of a byte sequence.
pub uninterp spec fn sha256_of(bytes: Seq<u8>) -> Seq<u8>;

/// Relies on sha2's `Sha256`: the digest is a function of the input bytes
/// alone, and is 32 bytes long.
#[verifier::external_body]
fn sha256_hash(bytes: &[u8]) -> (r: Vec<u8>)
    ensures
        r@ == sha256_of(bytes@),
        r@.len() == 32,
{
    <sha2::Sha256 as sha2::Digest>::digest(bytes).to_vec()
}

/// The version number as eight little-endian bytes.
pub fn version_le_bytes(version: u64) -> (r: Vec<u8>)
    ensures
        r@ == u64_le_bytes(version),
{
    let mut r: Vec<u8> = Vec::new();
    r.push((version % 256) as u8);
    r.push(((version / 256) % 256) as u8);
    r.push(((version / 65536) % 256) as u8);
    r.push(((version / 16777216) % 256) as u8);
    r.push(((version / 4294967296) % 256) as u8);
    r.push(((version / 1099511627776) % 256) as u8);
    r.push(((version / 281474976710656) % 256) as u8);
    r.push(((version / 72057594037927936) % 256) as u8);
    proof {
        assert(r@ =~= u64_le_bytes(version));
    }
    r
}

/// The canonical message for a write, laid out as `signed_message` says.
pub fn build_signed_message(
    group: &[u8; 32],
    key: &[u8; 32],
    version: u64,
    data: &[u8],
) -> (r: Vec<u8>)
    ensures
        r@ == signed_message(group@, key@, version, data@),
{
    let mut msg: Vec<u8> = Vec::new();
    msg.extend_from_slice(group.as_slice());
    msg.extend_from_slice(key.as_slice());
    let version_bytes = version_le_bytes(version);
    msg.extend_from_slice(version_bytes.as_slice());
    msg.extend_from_slice(data);
    proof {
        assert(msg@ =~= signed_message(group@, key@, version, data@));
    }
    msg
}

/// The SHA-256 digest of the canonical message for a write: what the owner
/// signs, and what the curve verifier checks the signature against.
pub fn signing_digest(group: &[u8; 32], key: &[u8; 32], version: u64, data: &[u8]) -> (r: Vec<
    u8,
>)
    ensures
        r@ == sha256_of(signed_message(group@, key@, version, data@)),
        r@.len() == 32,
{
    let msg = build_signed_message(group, key, version, data);
    sha256_hash(msg.as_slice())
}

} // verus!
