// Blob framing tests: the version tag round trip and the legacy read path.

use homeserver::codec::{
    BLOB_VERSION, BLOB_VERSION_SYSTEM_DYNAMIC, blob_payload, blob_version, with_version_prefix,
};

#[test]
fn framed_blob_round_trips_at_container_tag() {
    let payload = vec![9u8, 8, 7, 6];
    let framed = with_version_prefix(BLOB_VERSION, payload.clone());
    assert_eq!(framed[0], 1);
    assert_eq!(blob_payload(&framed, BLOB_VERSION), payload.as_slice());
}

#[test]
fn framed_blob_round_trips_at_system_tag() {
    let payload = vec![42u8];
    let framed = with_version_prefix(BLOB_VERSION_SYSTEM_DYNAMIC, payload.clone());
    assert_eq!(framed[0], 2);
    assert_eq!(blob_payload(&framed, BLOB_VERSION_SYSTEM_DYNAMIC), payload.as_slice());
}

#[test]
fn legacy_blob_reads_back_whole() {
    // A buffer whose first byte is not the expected tag is read as legacy v0.
    let legacy = vec![7u8, 1, 2, 3];
    assert_eq!(blob_payload(&legacy, BLOB_VERSION), legacy.as_slice());
    // And it decodes to the same payload as a tagged blob of the same bytes.
    let tagged = with_version_prefix(BLOB_VERSION, legacy.clone());
    assert_eq!(blob_payload(&tagged, BLOB_VERSION), legacy.as_slice());
}

#[test]
fn empty_blob_is_legacy_version_zero() {
    let empty: Vec<u8> = vec![];
    assert_eq!(blob_version(&empty), 0);
    assert_eq!(blob_payload(&empty, BLOB_VERSION), empty.as_slice());
}

#[test]
fn blob_version_reads_leading_byte() {
    assert_eq!(blob_version(&[2u8, 5, 5]), 2);
    assert_eq!(blob_version(&[1u8]), 1);
}

#[test]
fn mismatched_tag_keeps_buffer_intact() {
    // A system-tagged blob read under the container tag is treated as legacy.
    let framed = with_version_prefix(BLOB_VERSION_SYSTEM_DYNAMIC, vec![5u8, 6]);
    assert_eq!(blob_payload(&framed, BLOB_VERSION), framed.as_slice());
}
