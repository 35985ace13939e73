use s3_cp::address::CopyRequest;
use s3_cp::record::CopyInstruction;

fn instruction_of(src_bucket: &str, src_key: &str, dst_bucket: &str, dst_key: Option<&str>) -> CopyInstruction {
    CopyInstruction {
        src_bucket: src_bucket.to_string(),
        src_key: src_key.to_string(),
        dst_bucket: dst_bucket.to_string(),
        dst_key: dst_key.map(|key| key.to_string()),
    }
}

#[test]
fn source_path_joins_bucket_and_key() {
    assert_eq!(instruction_of("b1", "k1", "b2", None).source_path(), "b1/k1");
    assert_eq!(instruction_of("b1", "dir/k1", "b2", None).source_path(), "b1/dir/k1");
    assert_eq!(instruction_of("", "", "b2", None).source_path(), "/");
}

#[test]
fn source_identifier_encodes_space_slash_and_hash() {
    let instruction = instruction_of("my bucket", "obj#1", "b2", None);
    assert_eq!(instruction.source_path(), "my bucket/obj#1");
    assert_eq!(instruction.source_identifier(), "my%20bucket%2Fobj%231");
}

#[test]
fn source_identifier_keeps_letters_and_digits() {
    let instruction = instruction_of("Bucket09", "azAZ", "b2", None);
    assert_eq!(instruction.source_identifier(), "Bucket09%2FazAZ");
}

#[test]
fn source_identifier_encodes_all_punctuation() {
    let instruction = instruction_of("a-b_c.d~e", "%+&=?", "b2", None);
    assert_eq!(instruction.source_identifier(), "a%2Db%5Fc%2Ed%7Ee%2F%25%2B%26%3D%3F");
}

#[test]
fn source_identifier_encodes_each_byte_beyond_ascii() {
    let instruction = instruction_of("b", "caf\u{e9}\u{20ac}", "b2", None);
    assert_eq!(instruction.source_identifier(), "b%2Fcaf%C3%A9%E2%82%AC");
}

#[test]
fn source_identifier_holds_only_percent_letters_and_digits() {
    let instruction = instruction_of("a b/c", "\t~!@#$^*()[]{}|\\:;\"'<>,.?`\u{7f}\u{0}", "b2", None);
    let identifier = instruction.source_identifier();
    assert!(identifier.chars().all(|c| c == '%' || c.is_ascii_alphanumeric()));
    assert_eq!(identifier.len(), 1 + 3 + 1 + 3 + 1 + 3 + 3 * 28);
}

#[test]
fn missing_destination_key_is_the_source_key() {
    assert_eq!(instruction_of("b1", "k1", "b2", None).destination_key(), "k1");
}

#[test]
fn given_destination_key_is_used() {
    assert_eq!(instruction_of("b1", "k1", "b2", Some("k3")).destination_key(), "k3");
}

#[test]
fn request_without_destination_key_copies_to_the_source_key() {
    let request = CopyRequest::new(1, &instruction_of("b1", "k1", "b2", None));
    assert_eq!(
        request,
        CopyRequest {
            row: 1,
            source: "b1/k1".to_string(),
            copy_source: "b1%2Fk1".to_string(),
            dst_bucket: "b2".to_string(),
            dst_key: "k1".to_string(),
        }
    );
}

#[test]
fn request_with_destination_key_copies_to_it() {
    let request = CopyRequest::new(2, &instruction_of("b1", "k2", "b2", Some("k3")));
    assert_eq!(
        request,
        CopyRequest {
            row: 2,
            source: "b1/k2".to_string(),
            copy_source: "b1%2Fk2".to_string(),
            dst_bucket: "b2".to_string(),
            dst_key: "k3".to_string(),
        }
    );
}

#[test]
fn destination_key_is_not_encoded() {
    let request = CopyRequest::new(5, &instruction_of("b 1", "k 1", "b 2", None));
    assert_eq!(request.copy_source, "b%201%2Fk%201");
    assert_eq!(request.dst_bucket, "b 2");
    assert_eq!(request.dst_key, "k 1");
}
