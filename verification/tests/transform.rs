use base64::engine::general_purpose::STANDARD;
use base64::Engine;
use secret_sync::fields::FieldMap;
use secret_sync::payload::parse_payload;
use secret_sync::transform::{
    blob_text, create_datamap_from_aws_secret, create_filesecret_from_aws_secret, decode_text,
    encode_text, transform,
};

fn payload(pairs: &[(&str, &str)]) -> FieldMap {
    let mut map = FieldMap::new();
    for (key, value) in pairs {
        map.insert(key.to_string(), value.to_string());
    }
    map
}

fn decode(text: &str) -> String {
    String::from_utf8(STANDARD.decode(text).unwrap()).unwrap()
}

#[test]
fn encode_text_is_standard_base64_with_padding() {
    assert_eq!(encode_text("a"), "YQ==");
    assert_eq!(encode_text("ab"), "YWI=");
    assert_eq!(encode_text("abc"), "YWJj");
    assert_eq!(encode_text("hello world~"), "aGVsbG8gd29ybGR+");
}

#[test]
fn encode_text_of_the_empty_text_is_empty() {
    assert_eq!(encode_text(""), "");
}

#[test]
fn encode_text_encodes_the_utf8_bytes() {
    assert_eq!(encode_text("é"), "w6k=");
}

#[test]
fn blob_has_one_line_per_field_in_order() {
    assert_eq!(blob_text(&payload(&[("user", "a"), ("pass", "b")])), "user=a\npass=b\n");
    assert_eq!(blob_text(&payload(&[("x", "1"), ("y", "2"), ("z", "3")])), "x=1\ny=2\nz=3\n");
}

#[test]
fn blob_of_an_empty_payload_is_empty() {
    assert_eq!(blob_text(&payload(&[])), "");
}

#[test]
fn blob_keeps_empty_keys_and_values() {
    assert_eq!(blob_text(&payload(&[("", "a"), ("b", "")])), "=a\nb=\n");
}

#[test]
fn field_map_encodes_every_value_under_its_key() {
    let data = create_datamap_from_aws_secret(payload(&[("user", "a"), ("pass", "b")]));
    let entries = data.entries();
    assert_eq!(entries.len(), 2);
    assert_eq!(entries.get("user"), Some(&"YQ==".to_string()));
    assert_eq!(entries.get("pass"), Some(&"Yg==".to_string()));
}

#[test]
fn field_map_keeps_the_order_of_the_payload() {
    let data = create_datamap_from_aws_secret(payload(&[("user", "a"), ("pass", "b")]));
    assert_eq!(data.entries().field(0).key, "user");
    assert_eq!(data.entries().field(1).key, "pass");
}

#[test]
fn field_map_of_an_empty_payload_is_empty() {
    let data = create_datamap_from_aws_secret(payload(&[]));
    assert_eq!(data.entries().len(), 0);
}

#[test]
fn field_map_reads_back_key_for_key() {
    let source = payload(&[("user", "admin"), ("pass", "s3cr3t"), ("note", "caf\u{e9} \n two"), ("empty", "")]);
    let data = create_datamap_from_aws_secret(source.clone());
    let entries = data.entries();
    assert_eq!(entries.len(), source.len());
    for i in 0..source.len() {
        assert_eq!(entries.field(i).key, source.field(i).key);
        assert_eq!(decode(&entries.field(i).value), source.field(i).value);
    }
}

#[test]
fn file_secret_is_one_blob_under_the_file_name() {
    let data =
        create_filesecret_from_aws_secret(payload(&[("user", "a"), ("pass", "b")]), "env".to_string());
    let entries = data.entries();
    assert_eq!(entries.len(), 1);
    assert_eq!(entries.field(0).key, "env");
    assert_eq!(entries.field(0).value, "dXNlcj1hCnBhc3M9Ygo=");
}

#[test]
fn file_secret_of_an_empty_payload_is_one_empty_blob() {
    let data = create_filesecret_from_aws_secret(payload(&[]), "env".to_string());
    let entries = data.entries();
    assert_eq!(entries.len(), 1);
    assert_eq!(entries.get("env"), Some(&"".to_string()));
}

#[test]
fn file_secret_lines_are_the_entries_of_the_payload() {
    let source = payload(&[("user", "admin"), ("pass", "s3cr3t"), ("host", "db.internal")]);
    let data = create_filesecret_from_aws_secret(source.clone(), "env".to_string());
    let blob = decode(&data.entries().field(0).value);
    let mut lines: Vec<&str> = blob.split('\n').collect();
    assert_eq!(lines.pop(), Some(""));
    let mut expected: Vec<String> = Vec::new();
    for i in 0..source.len() {
        expected.push(format!("{}={}", source.field(i).key, source.field(i).value));
    }
    assert_eq!(lines, expected);
}

#[test]
fn file_secret_of_a_parsed_payload_has_the_entries_as_a_set() {
    let source = parse_payload("{\"user\":\"a\",\"pass\":\"b\"}").unwrap();
    let data = create_filesecret_from_aws_secret(source, "env".to_string());
    let blob = decode(&data.entries().field(0).value);
    let mut lines: Vec<&str> = blob.split('\n').collect();
    assert_eq!(lines.pop(), Some(""));
    lines.sort();
    assert_eq!(lines, vec!["pass=b", "user=a"]);
}

#[test]
fn transform_without_a_file_name_writes_field_by_field() {
    let data = transform(payload(&[("user", "a"), ("pass", "b")]), None);
    assert_eq!(data, create_datamap_from_aws_secret(payload(&[("user", "a"), ("pass", "b")])));
    assert_eq!(data.entries().len(), 2);
}

#[test]
fn transform_with_a_file_name_writes_one_file() {
    let data = transform(payload(&[("user", "a"), ("pass", "b")]), Some("env".to_string()));
    assert_eq!(data.entries().len(), 1);
    assert_eq!(data.entries().get("env"), Some(&"dXNlcj1hCnBhc3M9Ygo=".to_string()));
}

#[test]
fn data_map_clone_is_equal() {
    let data = transform(payload(&[("user", "a"), ("pass", "b")]), None);
    assert_eq!(data.clone(), data);
}

#[test]
fn decode_text_reads_standard_base64() {
    assert_eq!(decode_text("YQ=="), Some("a".to_string()));
    assert_eq!(decode_text("aGVsbG8gd29ybGR+"), Some("hello world~".to_string()));
    assert_eq!(decode_text("w6k="), Some("é".to_string()));
    assert_eq!(decode_text(""), Some("".to_string()));
}

#[test]
fn decode_text_refuses_what_is_no_standard_base64() {
    assert_eq!(decode_text("YQ"), None);
    assert_eq!(decode_text("YQ="), None);
    assert_eq!(decode_text("Y Q=="), None);
    assert_eq!(decode_text("a-_b"), None);
    assert_eq!(decode_text("YR=="), None);
}

#[test]
fn decode_text_refuses_bytes_that_are_no_utf8() {
    assert_eq!(STANDARD.decode("/w==").unwrap(), vec![0xffu8]);
    assert_eq!(decode_text("/w=="), None);
}

#[test]
fn decode_text_gives_back_what_encode_text_was_given() {
    for text in ["", "a", "ab", "abc", "s3cr3t", "caf\u{e9}", "two\nlines", "=", " "] {
        assert_eq!(decode_text(&encode_text(text)), Some(text.to_string()));
    }
}

#[test]
fn every_value_of_a_field_map_decodes_to_the_value_of_the_payload() {
    let source = payload(&[("user", "admin"), ("pass", "s3cr3t"), ("empty", "")]);
    let data = create_datamap_from_aws_secret(source.clone());
    for i in 0..source.len() {
        let field = data.entries().field(i);
        assert_eq!(field.key, source.field(i).key);
        assert_eq!(decode_text(&field.value), Some(source.field(i).value.clone()));
    }
}
