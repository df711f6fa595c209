//! The transport boundary shapes and the decimal renderer.

use blob_idx::decfmt::u64_to_dec;
use blob_idx::http::{BlobEntry, CreateAndLockRequest, LookupRequest, HTTP};

#[test]
fn http_new_keeps_fields() {
    let h = HTTP::new("127.0.0.1".to_string(), "8080".to_string(), "key".to_string());
    assert_eq!(h.host, "127.0.0.1");
    assert_eq!(h.port, "8080");
    assert_eq!(h.api_key, "key");
}

#[test]
fn blob_entry_new_keeps_fields() {
    let e = BlobEntry::new("k1".to_string(), 100);
    assert_eq!(e.key, "k1");
    assert_eq!(e.num_bytes, 100);

    let req = CreateAndLockRequest {
        entries: vec![BlobEntry::new("k1".to_string(), 100), BlobEntry::new("k2".to_string(), 200)],
        node_id: "n1".to_string(),
    };
    assert_eq!(req.entries.len(), 2);
    assert_eq!(req.entries[1].num_bytes, 200);

    let look = LookupRequest { key: "k1".to_string() };
    assert_eq!(look.key, "k1");
}

#[test]
fn decimal_rendering() {
    assert_eq!(u64_to_dec(0), "0");
    assert_eq!(u64_to_dec(7), "7");
    assert_eq!(u64_to_dec(90210), "90210");
    assert_eq!(u64_to_dec(u64::MAX), "18446744073709551615");
}
