use age_vault::json::encode_payload;
use age_vault::json::parse_payload_exec;
use age_vault::records::StoredKey;

fn one_key() -> Vec<StoredKey> {
    vec![StoredKey {
        id: "k1".to_string(),
        name: "laptop".to_string(),
        public_key: "age1abc".to_string(),
        private_key: Some("AGE-SECRET-KEY-1XYZ".to_string()),
        comment: None,
        created_at: 1700000000,
    }]
}

#[test]
fn encode_exact_document() {
    let doc = encode_payload(&one_key(), 1);
    assert_eq!(
        doc,
        "{\"keys\":[{\"id\":\"k1\",\"name\":\"laptop\",\
         \"publicKey\":\"age1abc\",\"privateKey\":\"AGE-SECRET-KEY-1XYZ\",\
         \"comment\":null,\"createdAt\":1700000000}],\"version\":1}"
            .to_string()
    );
}

#[test]
fn encode_empty_document() {
    let doc = encode_payload(&Vec::new(), 1);
    assert_eq!(doc, "{\"keys\":[],\"version\":1}".to_string());
}

#[test]
fn encode_escapes() {
    let keys = vec![StoredKey {
        id: "a\"b\\c\nd".to_string(),
        name: String::new(),
        public_key: "p".to_string(),
        private_key: None,
        comment: Some("x".to_string()),
        created_at: 0,
    }];
    let doc = encode_payload(&keys, 1);
    assert_eq!(
        doc,
        "{\"keys\":[{\"id\":\"a\\\"b\\\\c\\u000ad\",\"name\":\"\",\
         \"publicKey\":\"p\",\"privateKey\":null,\"comment\":\"x\",\
         \"createdAt\":0}],\"version\":1}"
            .to_string()
    );
}

#[test]
fn decode_encoded_document() {
    let keys = one_key();
    let doc = encode_payload(&keys, 1);
    let (parsed, version) = parse_payload_exec(doc.as_str()).unwrap();
    assert_eq!(parsed, keys);
    assert_eq!(version, 1);
}

#[test]
fn decode_handwritten_document() {
    let doc = "{\"keys\":[{\"id\":\"x\",\"name\":\"bell\\u0007\",\"publicKey\":\"pk\",\
               \"privateKey\":null,\"comment\":null,\"createdAt\":42}],\"version\":7}";
    let (parsed, version) = parse_payload_exec(doc).unwrap();
    assert_eq!(version, 7);
    assert_eq!(parsed.len(), 1);
    assert_eq!(parsed[0].id, "x".to_string());
    assert_eq!(parsed[0].name, "bell\u{0007}".to_string());
    assert_eq!(parsed[0].private_key, None);
    assert_eq!(parsed[0].created_at, 42);
}

#[test]
fn decode_short_escapes() {
    // Documents written by a serde-based encoder use the short escapes
    // for these control characters; the parser accepts them beside the
    // canonical \u00XX form.
    let doc = "{\"keys\":[{\"id\":\"a\\nb\\tc\\rd\\be\\ff\",\"name\":\"n\",\
               \"publicKey\":\"p\",\"privateKey\":null,\"comment\":null,\
               \"createdAt\":1}],\"version\":1}";
    let (parsed, _) = parse_payload_exec(doc).unwrap();
    assert_eq!(parsed[0].id, "a\nb\tc\rd\u{0008}e\u{000C}f".to_string());
    // An unknown escape is still rejected.
    assert!(
        parse_payload_exec(
            "{\"keys\":[{\"id\":\"\\v\",\"name\":\"n\",\"publicKey\":\"p\",\
             \"privateKey\":null,\"comment\":null,\"createdAt\":1}],\"version\":1}"
        )
        .is_none()
    );
}

#[test]
fn decode_rejects_garbage() {
    assert!(parse_payload_exec("").is_none());
    assert!(parse_payload_exec("not json").is_none());
    assert!(parse_payload_exec("{\"keys\":[],\"version\":1} ").is_none());
    assert!(parse_payload_exec("{\"keys\":[],\"version\":}").is_none());
    assert!(parse_payload_exec("{\"keys\":[{\"id\":\"x\"}],\"version\":1}").is_none());
    // A number too large for the version field.
    assert!(parse_payload_exec("{\"keys\":[],\"version\":4294967296}").is_none());
    // A bad escape inside a string.
    assert!(
        parse_payload_exec(
            "{\"keys\":[{\"id\":\"\\x\",\"name\":\"n\",\"publicKey\":\"p\",\
             \"privateKey\":null,\"comment\":null,\"createdAt\":1}],\"version\":1}"
        )
        .is_none()
    );
}

#[test]
fn decode_largest_version() {
    let (parsed, version) = parse_payload_exec("{\"keys\":[],\"version\":4294967295}").unwrap();
    assert!(parsed.is_empty());
    assert_eq!(version, u32::MAX);
}

#[test]
fn decode_largest_timestamp() {
    let keys = vec![StoredKey {
        id: "i".to_string(),
        name: "n".to_string(),
        public_key: "p".to_string(),
        private_key: None,
        comment: None,
        created_at: u64::MAX,
    }];
    let doc = encode_payload(&keys, 1);
    let (parsed, _) = parse_payload_exec(doc.as_str()).unwrap();
    assert_eq!(parsed, keys);
    // One more than u64::MAX in the createdAt field is rejected.
    let too_big = doc.replace("18446744073709551615", "18446744073709551616");
    assert!(parse_payload_exec(too_big.as_str()).is_none());
}
