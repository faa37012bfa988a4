use request_ct::json::decode_request_count;
use request_ct::json::decode_request_event;
use request_ct::json::encode_request_count;
use request_ct::json::encode_request_event;

#[test]
fn count_encodes_canonically() {
    assert_eq!(encode_request_count(0), b"{\"request_count\":0}".to_vec());
    assert_eq!(encode_request_count(1), b"{\"request_count\":1}".to_vec());
    assert_eq!(encode_request_count(42), b"{\"request_count\":42}".to_vec());
    assert_eq!(
        encode_request_count(u64::MAX),
        b"{\"request_count\":18446744073709551615}".to_vec()
    );
}

#[test]
fn count_round_trips() {
    for n in [0u64, 1, 9, 10, 99, 100, 123456789, u64::MAX] {
        assert_eq!(decode_request_count(&encode_request_count(n)), Some(n));
    }
}

#[test]
fn count_decode_reads_canonical_records() {
    assert_eq!(decode_request_count(&b"{\"request_count\":5}".to_vec()), Some(5));
    assert_eq!(
        decode_request_count(&b"{\"request_count\":18446744073709551615}".to_vec()),
        Some(u64::MAX)
    );
}

#[test]
fn count_decode_rejects_malformed_records() {
    let bad: [&[u8]; 9] = [
        b"",
        b"{}",
        b"{\"request_count\":}",
        b"{\"request_count\":05}",
        b"{\"request_count\":5",
        b"{\"request_count\":5x}",
        b"{\"request_count\": 5}",
        b"{\"request_count\":18446744073709551616}",
        b"{\"other\":5}",
    ];
    for v in bad {
        assert_eq!(decode_request_count(&v.to_vec()), None);
    }
}

#[test]
fn count_encoding_is_json_that_serde_reads_back() {
    let enc = encode_request_count(7);
    let v: serde_json::Value = serde_json::from_slice(&enc).unwrap();
    assert_eq!(v.get("request_count").and_then(|x| x.as_u64()), Some(7));
}

#[test]
fn event_encodes_canonically() {
    assert_eq!(
        encode_request_event(&b"k".to_vec()),
        b"{\"request_key\":\"k\"}".to_vec()
    );
    assert_eq!(
        encode_request_event(&b"envoy.playground.request_ct.Do.Fail".to_vec()),
        b"{\"request_key\":\"envoy.playground.request_ct.Do.Fail\"}".to_vec()
    );
}

#[test]
fn event_round_trips() {
    for key in [&b"k"[..], b"", b"envoy.playground.request_ct.GenericRequest"] {
        let enc = encode_request_event(&key.to_vec());
        assert_eq!(decode_request_event(&enc), Some(key.to_vec()));
    }
}

#[test]
fn event_decode_rejects_malformed_records() {
    let bad: [&[u8]; 6] = [
        b"",
        b"{\"request_key\":k}",
        b"{\"request_key\":\"k}",
        b"{\"request_key\":\"k\"",
        b"{\"request_key\":\"a\\\"b\"}",
        b"{\"other\":\"k\"}",
    ];
    for v in bad {
        assert_eq!(decode_request_event(&v.to_vec()), None);
    }
}

#[test]
fn event_encoding_is_json_that_serde_reads_back() {
    let enc = encode_request_event(&b"some.key".to_vec());
    let v: serde_json::Value = serde_json::from_slice(&enc).unwrap();
    assert_eq!(v.get("request_key").and_then(|x| x.as_str()), Some("some.key"));
}
