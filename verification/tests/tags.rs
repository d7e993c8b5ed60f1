use secret_sync::error::SyncError;
use secret_sync::tags::{
    extract, get_filename_from_aws_secret, get_name_from_aws_secret,
    get_namespaces_from_aws_secret, RunConfig, SecretDescriptor, Tag,
};
use secret_sync::text::{chars_of, split};

fn tag(key: &str, value: &str) -> Tag {
    Tag { key: key.to_string(), value: value.to_string() }
}

fn descriptor(tags: Vec<Tag>) -> SecretDescriptor {
    SecretDescriptor { id: "arn:secret:one".to_string(), tags }
}

fn config() -> RunConfig {
    RunConfig {
        namespace_tag: "k8s/namespace".to_string(),
        secret_name_tag: "k8s/secret-name".to_string(),
        filename_tag: "k8s/filename".to_string(),
    }
}

#[test]
fn split_three_tokens() {
    assert_eq!(split("a b c", ' '), vec!["a", "b", "c"]);
}

#[test]
fn split_double_space_keeps_empty_token() {
    assert_eq!(split("a  b", ' '), vec!["a", "", "b"]);
}

#[test]
fn split_empty_text_is_one_empty_token() {
    assert_eq!(split("", ' '), vec![""]);
}

#[test]
fn split_leading_and_trailing_separator() {
    assert_eq!(split(" a ", ' '), vec!["", "a", ""]);
}

#[test]
fn split_counts_characters_not_bytes() {
    assert_eq!(split("é ü", ' '), vec!["é", "ü"]);
}

#[test]
fn name_is_value_of_name_tag() {
    let secret = descriptor(vec![tag("other", "x"), tag("k8s/secret-name", "db-creds")]);
    assert_eq!(get_name_from_aws_secret(&secret, "k8s/secret-name"), Ok("db-creds".to_string()));
}

#[test]
fn name_missing_is_missing_tag() {
    let secret = descriptor(vec![tag("k8s/namespace", "prod")]);
    assert_eq!(get_name_from_aws_secret(&secret, "k8s/secret-name"), Err(SyncError::MissingTag));
}

#[test]
fn first_tag_with_the_key_wins() {
    let secret = descriptor(vec![tag("k8s/secret-name", "first"), tag("k8s/secret-name", "second")]);
    assert_eq!(get_name_from_aws_secret(&secret, "k8s/secret-name"), Ok("first".to_string()));
}

#[test]
fn namespaces_are_split_on_single_spaces() {
    let secret = descriptor(vec![tag("k8s/namespace", "a b c")]);
    assert_eq!(
        get_namespaces_from_aws_secret(&secret, "k8s/namespace"),
        Ok(vec!["a".to_string(), "b".to_string(), "c".to_string()])
    );
}

#[test]
fn namespaces_keep_empty_token_between_two_spaces() {
    let secret = descriptor(vec![tag("k8s/namespace", "a  b")]);
    assert_eq!(
        get_namespaces_from_aws_secret(&secret, "k8s/namespace"),
        Ok(vec!["a".to_string(), "".to_string(), "b".to_string()])
    );
}

#[test]
fn namespaces_missing_is_missing_tag() {
    let secret = descriptor(vec![tag("k8s/secret-name", "db-creds")]);
    assert_eq!(
        get_namespaces_from_aws_secret(&secret, "k8s/namespace"),
        Err(SyncError::MissingTag)
    );
}

#[test]
fn filename_absent_is_none() {
    let secret = descriptor(vec![tag("k8s/secret-name", "db-creds")]);
    assert_eq!(get_filename_from_aws_secret(&secret, "k8s/filename"), None);
}

#[test]
fn filename_present_is_its_value() {
    let secret = descriptor(vec![tag("k8s/filename", "env")]);
    assert_eq!(get_filename_from_aws_secret(&secret, "k8s/filename"), Some("env".to_string()));
}

#[test]
fn extract_with_both_tags_succeeds() {
    let secret =
        descriptor(vec![tag("k8s/secret-name", "db-creds"), tag("k8s/namespace", "prod staging")]);
    let routing = extract(&secret, &config()).unwrap();
    assert_eq!(routing.name, "db-creds");
    assert_eq!(routing.namespaces, vec!["prod", "staging"]);
    assert_eq!(routing.filename, None);
}

#[test]
fn extract_without_name_tag_fails() {
    let secret = descriptor(vec![tag("k8s/namespace", "prod staging")]);
    assert_eq!(extract(&secret, &config()).err(), Some(SyncError::MissingTag));
}

#[test]
fn extract_without_namespace_tag_fails() {
    let secret = descriptor(vec![tag("k8s/secret-name", "db-creds"), tag("k8s/filename", "env")]);
    assert_eq!(extract(&secret, &config()).err(), Some(SyncError::MissingTag));
}

#[test]
fn extract_reads_the_filename_tag() {
    let secret = descriptor(vec![
        tag("k8s/filename", "env"),
        tag("k8s/secret-name", "db-creds"),
        tag("k8s/namespace", "prod"),
    ]);
    let routing = extract(&secret, &config()).unwrap();
    assert_eq!(routing.filename, Some("env".to_string()));
}

#[test]
fn split_on_another_separator() {
    assert_eq!(split("user=a\npass=b\n", '\n'), vec!["user=a", "pass=b", ""]);
}

#[test]
fn a_single_namespace_is_its_own_token() {
    let secret = descriptor(vec![tag("k8s/namespace", "prod")]);
    assert_eq!(
        get_namespaces_from_aws_secret(&secret, "k8s/namespace"),
        Ok(vec!["prod".to_string()])
    );
}

#[test]
fn an_empty_namespace_tag_lists_one_empty_namespace() {
    let secret = descriptor(vec![tag("k8s/namespace", "")]);
    assert_eq!(get_namespaces_from_aws_secret(&secret, "k8s/namespace"), Ok(vec!["".to_string()]));
}

#[test]
fn tag_keys_are_compared_exactly() {
    let secret = descriptor(vec![tag("K8S/secret-name", "upper"), tag("k8s/secret-name ", "space")]);
    assert_eq!(get_name_from_aws_secret(&secret, "k8s/secret-name"), Err(SyncError::MissingTag));
}

#[test]
fn a_descriptor_without_tags_has_no_name_and_no_file_name() {
    let secret = descriptor(vec![]);
    assert_eq!(get_name_from_aws_secret(&secret, "k8s/secret-name"), Err(SyncError::MissingTag));
    assert_eq!(get_filename_from_aws_secret(&secret, "k8s/filename"), None);
}

#[test]
fn chars_of_lists_the_characters() {
    assert_eq!(chars_of("a é"), vec!['a', ' ', 'é']);
    assert_eq!(chars_of(""), Vec::<char>::new());
}
