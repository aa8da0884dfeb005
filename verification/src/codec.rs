//! Blob framing codec: a one-byte version tag in front of each stored
//! column payload, with legacy (untagged) buffers read back whole.

use vstd::prelude::*;

verus! {

/// Version tag written before container, storage and network column payloads.
pub const BLOB_VERSION: u8 = 1;

/// Version tag written before the dynamic-only system column payload.
/// Legacy system blobs tagged `BLOB_VERSION` carry the full static + dynamic shape.
pub const BLOB_VERSION_SYSTEM_DYNAMIC: u8 = 2;

/// The bytes of a stored column: the version tag, then the payload.
pub open spec fn spec_with_version_prefix(version: u8, payload: Seq<u8>) -> Seq<u8> {
    seq![version] + payload
}

/// The payload a reader takes from `bytes` when expecting `expected_version`:
/// everything after a matching leading tag, otherwise (legacy v0) the whole buffer.
pub open spec fn spec_blob_payload(bytes: Seq<u8>, expected_version: u8) -> Seq<u8> {
    if bytes.len() > 0 && bytes[0] == expected_version {
        bytes.subrange(1, bytes.len() as int)
    } else {
        bytes
    }
}

/// The version tag of a stored blob; an empty buffer reads as legacy v0.
pub open spec fn spec_blob_version(bytes: Seq<u8>) -> u8 {
    if bytes.len() == 0 {
        0
    } else {
        bytes[0]
    }
}

/// Frame a column payload with its version tag.
pub fn with_version_prefix(version: u8, payload: Vec<u8>) -> (r: Vec<u8>)
    requires
        payload@.len() < usize::MAX,
    ensures
        r@ == spec_with_version_prefix(version, payload@),
{
    let mut out: Vec<u8> = Vec::with_capacity(1 + payload.len());
    out.push(version);
    out.extend_from_slice(payload.as_slice());
    proof {
        assert(out@ =~= seq![version] + payload@);
    }
    out
}

/// The payload slice of a stored blob: strip a matching leading tag,
/// else return the whole buffer (legacy v0).
pub fn blob_payload<'a>(bytes: &'a [u8], expected_version: u8) -> (r: &'a [u8])
    ensures
        r@ == spec_blob_payload(bytes@, expected_version),
{
    if bytes.is_empty() {
        bytes
    } else if bytes[0] == expected_version {
        let r = &bytes[1..bytes.len()];
        proof {
            assert(r@ =~= bytes@.subrange(1, bytes@.len() as int));
        }
        r
    } else {
        bytes
    }
}

/// The version tag of a stored blob; 0 for an empty (legacy) buffer.
pub fn blob_version(bytes: &[u8]) -> (r: u8)
    ensures
        r == spec_blob_version(bytes@),
{
    if bytes.is_empty() {
        0
    } else {
        bytes[0]
    }
}

/// Framing round trip: reading a freshly framed column under the tag it was
/// written with yields exactly the original payload, at every supported tag.
pub proof fn lemma_prefix_round_trip(version: u8, payload: Seq<u8>)
    ensures
        spec_blob_payload(spec_with_version_prefix(version, payload), version) == payload,
{
    let framed = spec_with_version_prefix(version, payload);
    assert(framed.len() == 1 + payload.len());
    assert(framed[0] == version);
    assert(framed.subrange(1, framed.len() as int) =~= payload);
}

/// A legacy blob — one whose leading byte is not the expected tag — decodes
/// to the same payload as a tagged blob of the same bytes: both reads yield
/// the buffer `payload` itself. (A legacy buffer that happens to begin with
/// the expected tag byte cannot be told apart from a tagged one.)
pub proof fn lemma_legacy_matches_tagged(version: u8, payload: Seq<u8>)
    requires
        payload.len() == 0 || payload[0] != version,
    ensures
        spec_blob_payload(payload, version) == payload,
        spec_blob_payload(spec_with_version_prefix(version, payload), version)
            == spec_blob_payload(payload, version),
{
    lemma_prefix_round_trip(version, payload);
}

} // verus!
