use base64::engine::general_purpose::STANDARD;
use base64::Engine;
use secret_sync::error::SyncError;
use secret_sync::fields::FieldMap;
use secret_sync::record::ApplyRequest;
use secret_sync::sync::{Action, Event, Outcome, Phase, SyncRun};
use secret_sync::tags::{RunConfig, SecretDescriptor, Tag};

fn tag(key: &str, value: &str) -> Tag {
    Tag { key: key.to_string(), value: value.to_string() }
}

fn secret(id: &str, name: &str, namespaces: &str) -> SecretDescriptor {
    SecretDescriptor {
        id: id.to_string(),
        tags: vec![tag("k8s/secret-name", name), tag("k8s/namespace", namespaces)],
    }
}

fn config() -> RunConfig {
    RunConfig {
        namespace_tag: "k8s/namespace".to_string(),
        secret_name_tag: "k8s/secret-name".to_string(),
        filename_tag: "k8s/filename".to_string(),
    }
}

fn discovered(secrets: Vec<SecretDescriptor>) -> (SyncRun, Action) {
    let (run, _) = SyncRun::start(config());
    run.step(Event::Discovered(secrets))
}

fn fetch(id: &str) -> Action {
    Action::Fetch { id: id.to_string() }
}

fn request(action: Action) -> ApplyRequest {
    match action {
        Action::Apply(request) => request,
        other => panic!("expected an apply request, got {:?}", other),
    }
}

fn decode(text: &str) -> String {
    String::from_utf8(STANDARD.decode(text).unwrap()).unwrap()
}

fn failed(secret: usize, error: SyncError) -> Outcome {
    Outcome { secret, namespace: None, error: Some(error) }
}

fn applied(secret: usize, namespace: usize) -> Outcome {
    Outcome { secret, namespace: Some(namespace), error: None }
}

#[test]
fn a_run_starts_with_the_discovery_by_namespace_tag() {
    let (run, action) = SyncRun::start(config());
    assert_eq!(run.phase(), Phase::Discovering);
    assert_eq!(action, Action::Discover { tag_key: "k8s/namespace".to_string() });
    assert!(run.outcomes().is_empty());
}

#[test]
fn an_empty_discovery_completes_the_run() {
    let (run, action) = discovered(vec![]);
    assert_eq!(run.phase(), Phase::Completed);
    assert_eq!(action, Action::Finish { error: None });
    assert!(run.outcomes().is_empty());
}

#[test]
fn a_failed_discovery_fails_the_run() {
    let (run, _) = SyncRun::start(config());
    let (run, action) = run.step(Event::DiscoveryFailed);
    assert_eq!(run.phase(), Phase::Failed);
    assert_eq!(action, Action::Finish { error: Some(SyncError::DiscoveryFailure) });
}

#[test]
fn a_field_secret_is_applied_to_each_namespace() {
    let (run, action) = discovered(vec![secret("arn:db", "db-creds", "prod staging")]);
    assert_eq!(action, fetch("arn:db"));
    assert_eq!(run.phase(), Phase::Fetching);

    let (run, action) = run.step(Event::Fetched("{\"user\":\"a\",\"pass\":\"b\"}".to_string()));
    assert_eq!(run.phase(), Phase::Applying);
    let first = request(action);
    assert_eq!(first.namespace, "prod");
    assert_eq!(first.name, "db-creds");
    assert_eq!(first.data.entries().len(), 2);
    assert_eq!(first.data.entries().get("user"), Some(&"YQ==".to_string()));
    assert_eq!(first.data.entries().get("pass"), Some(&"Yg==".to_string()));

    let (run, action) = run.step(Event::Applied);
    let second = request(action);
    assert_eq!(second.namespace, "staging");
    assert_eq!(second.name, "db-creds");
    assert_eq!(second.data, first.data);

    let (run, action) = run.step(Event::Applied);
    assert_eq!(action, Action::Finish { error: None });
    assert_eq!(run.phase(), Phase::Completed);
    assert_eq!(run.outcomes(), &vec![applied(0, 0), applied(0, 1)]);
}

#[test]
fn a_file_secret_is_one_blob_per_namespace() {
    let mut descriptor = secret("arn:db", "db-creds", "prod staging");
    descriptor.tags.push(tag("k8s/filename", "env"));
    let (run, _) = discovered(vec![descriptor]);

    let (run, action) = run.step(Event::Fetched("{\"user\":\"a\",\"pass\":\"b\"}".to_string()));
    let first = request(action);
    assert_eq!(first.namespace, "prod");
    assert_eq!(first.data.entries().len(), 1);
    assert_eq!(first.data.entries().field(0).key, "env");
    let blob = decode(&first.data.entries().field(0).value);
    let mut lines: Vec<&str> = blob.split('\n').collect();
    assert_eq!(lines.pop(), Some(""));
    lines.sort();
    assert_eq!(lines, vec!["pass=b", "user=a"]);

    let (_, action) = run.step(Event::Applied);
    let second = request(action);
    assert_eq!(second.namespace, "staging");
    assert_eq!(second.data, first.data);
}

#[test]
fn a_file_secret_keeps_the_order_of_the_payload_it_is_given() {
    let mut descriptor = secret("arn:db", "db-creds", "prod");
    descriptor.tags.push(tag("k8s/filename", "env"));
    let (run, _) = discovered(vec![descriptor]);
    let mut payload = FieldMap::new();
    payload.insert("user".to_string(), "a".to_string());
    payload.insert("pass".to_string(), "b".to_string());

    let (_, action) = run.accept_payload(Some(payload));
    let only = request(action);
    assert_eq!(only.data.entries().get("env"), Some(&"dXNlcj1hCnBhc3M9Ygo=".to_string()));
}

#[test]
fn a_failed_fetch_does_not_keep_the_other_secrets_from_being_applied() {
    let (run, action) = discovered(vec![
        secret("arn:one", "one", "prod"),
        secret("arn:two", "two", "prod"),
        secret("arn:three", "three", "prod"),
    ]);
    assert_eq!(action, fetch("arn:one"));
    let (run, action) = run.step(Event::Fetched("{\"k\":\"1\"}".to_string()));
    assert_eq!(request(action).name, "one");
    let (run, action) = run.step(Event::Applied);

    assert_eq!(action, fetch("arn:two"));
    let (run, action) = run.step(Event::FetchFailed);

    assert_eq!(action, fetch("arn:three"));
    let (run, action) = run.step(Event::Fetched("{\"k\":\"3\"}".to_string()));
    let third = request(action);
    assert_eq!(third.name, "three");
    assert_eq!(third.data.entries().get("k"), Some(&"Mw==".to_string()));
    let (run, action) = run.step(Event::Applied);

    assert_eq!(action, Action::Finish { error: None });
    assert_eq!(
        run.outcomes(),
        &vec![applied(0, 0), failed(1, SyncError::FetchFailure), applied(2, 0)]
    );
}

#[test]
fn a_secret_without_its_tags_is_passed_over_and_never_fetched() {
    let untagged = SecretDescriptor {
        id: "arn:untagged".to_string(),
        tags: vec![tag("k8s/namespace", "prod")],
    };
    let (run, action) =
        discovered(vec![untagged.clone(), secret("arn:db", "db-creds", "prod"), untagged]);
    assert_eq!(action, fetch("arn:db"));
    assert_eq!(run.outcomes(), &vec![failed(0, SyncError::MissingTag)]);

    let (run, _) = run.step(Event::Fetched("{}".to_string()));
    let (run, action) = run.step(Event::Applied);
    assert_eq!(action, Action::Finish { error: None });
    assert_eq!(
        run.outcomes(),
        &vec![failed(0, SyncError::MissingTag), applied(1, 0), failed(2, SyncError::MissingTag)]
    );
}

#[test]
fn a_payload_that_cannot_be_read_gives_up_the_secret_only() {
    let (run, _) =
        discovered(vec![secret("arn:one", "one", "prod dev"), secret("arn:two", "two", "prod")]);
    let (run, action) = run.step(Event::Fetched("{\"size\":5432}".to_string()));
    assert_eq!(action, fetch("arn:two"));
    assert_eq!(run.outcomes(), &vec![failed(0, SyncError::MalformedPayload)]);
}

#[test]
fn a_failed_apply_does_not_keep_the_next_namespace_from_its_turn() {
    let (run, _) =
        discovered(vec![secret("arn:one", "one", "prod dev"), secret("arn:two", "two", "qa")]);
    let (run, action) = run.step(Event::Fetched("{}".to_string()));
    assert_eq!(request(action).namespace, "prod");
    let (run, action) = run.step(Event::ApplyFailed);
    assert_eq!(request(action).namespace, "dev");
    let (run, action) = run.step(Event::ApplyFailed);
    assert_eq!(action, fetch("arn:two"));
    assert_eq!(
        run.outcomes(),
        &vec![
            Outcome { secret: 0, namespace: Some(0), error: Some(SyncError::ApplyFailure) },
            Outcome { secret: 0, namespace: Some(1), error: Some(SyncError::ApplyFailure) },
        ]
    );
    let (run, _) = run.step(Event::Fetched("{}".to_string()));
    let (run, action) = run.step(Event::Applied);
    assert_eq!(action, Action::Finish { error: None });
    assert_eq!(run.phase(), Phase::Completed);
}

#[test]
fn an_empty_namespace_between_two_spaces_gets_its_own_request() {
    let (run, _) = discovered(vec![secret("arn:one", "one", "a  b")]);
    let (run, action) = run.step(Event::Fetched("{}".to_string()));
    assert_eq!(request(action).namespace, "a");
    let (run, action) = run.step(Event::Applied);
    assert_eq!(request(action).namespace, "");
    let (_, action) = run.step(Event::Applied);
    assert_eq!(request(action).namespace, "b");
}

#[test]
fn a_namespace_listed_twice_is_applied_twice() {
    let (run, _) = discovered(vec![secret("arn:one", "one", "prod prod")]);
    let (run, action) = run.step(Event::Fetched("{\"k\":\"v\"}".to_string()));
    let first = request(action);
    let (run, action) = run.step(Event::Applied);
    let second = request(action);
    assert_eq!(first, second);
    let (_, action) = run.step(Event::Applied);
    assert_eq!(action, Action::Finish { error: None });
}

#[test]
fn an_event_that_answers_nothing_changes_nothing() {
    let (run, first) = SyncRun::start(config());
    let (run, action) = run.step(Event::Applied);
    assert_eq!(action, first);
    assert_eq!(run.phase(), Phase::Discovering);

    let (run, pending) = run.step(Event::Discovered(vec![secret("arn:one", "one", "prod")]));
    let (run, action) = run.step(Event::ApplyFailed);
    assert_eq!(action, pending);
    let (run, action) = run.step(Event::Discovered(vec![]));
    assert_eq!(action, pending);
    assert_eq!(run.phase(), Phase::Fetching);
    assert!(run.outcomes().is_empty());

    let (run, pending) = run.step(Event::Fetched("{}".to_string()));
    let (run, action) = run.step(Event::FetchFailed);
    assert_eq!(action, pending);
    assert_eq!(run.phase(), Phase::Applying);

    let (run, done) = run.step(Event::Applied);
    assert_eq!(done, Action::Finish { error: None });
    let (run, action) = run.step(Event::Fetched("{}".to_string()));
    assert_eq!(action, done);
    assert_eq!(run.phase(), Phase::Completed);
}

#[test]
fn a_payload_handed_over_while_nothing_is_fetched_changes_nothing() {
    let (run, first) = SyncRun::start(config());
    let (run, action) = run.accept_payload(Some(FieldMap::new()));
    assert_eq!(action, first);
    assert_eq!(run.phase(), Phase::Discovering);
    let (run, action) = run.accept_payload(None);
    assert_eq!(action, first);
    assert!(run.outcomes().is_empty());
}

#[test]
fn pending_is_the_action_that_was_handed_out() {
    let (run, action) = SyncRun::start(config());
    assert_eq!(run.pending(), action);
    let (run, action) = run.step(Event::Discovered(vec![secret("arn:one", "one", "prod")]));
    assert_eq!(run.pending(), action);
    let (run, action) = run.step(Event::Fetched("{\"k\":\"v\"}".to_string()));
    assert_eq!(run.pending(), action);
    let (run, action) = run.step(Event::Applied);
    assert_eq!(run.pending(), action);
}

#[test]
fn a_failed_run_stays_failed() {
    let (run, _) = SyncRun::start(config());
    let (run, failed) = run.step(Event::DiscoveryFailed);
    let (run, action) = run.step(Event::Discovered(vec![secret("arn:one", "one", "prod")]));
    assert_eq!(action, failed);
    assert_eq!(run.phase(), Phase::Failed);
}

#[test]
fn a_run_that_is_answered_finishes_after_one_answer_per_fetch_and_namespace() {
    let untagged = SecretDescriptor { id: "arn:untagged".to_string(), tags: vec![] };
    let (mut run, mut action) = discovered(vec![
        secret("arn:one", "one", "prod dev qa"),
        untagged,
        secret("arn:two", "two", "prod"),
        secret("arn:three", "three", "a  b"),
    ]);
    let mut answers = 0;
    loop {
        let event = match action {
            Action::Fetch { id } if id == "arn:two" => Event::FetchFailed,
            Action::Fetch { .. } => Event::Fetched("{\"k\":\"v\"}".to_string()),
            Action::Apply(request) if request.namespace == "dev" => Event::ApplyFailed,
            Action::Apply(_) => Event::Applied,
            Action::Discover { .. } => panic!("the discovery was answered already"),
            Action::Finish { error } => {
                assert_eq!(error, None);
                break;
            }
        };
        answers += 1;
        assert!(answers <= 10);
        (run, action) = run.step(event);
    }
    // One fetch and three namespaces, one failed fetch, one fetch and three namespaces.
    assert_eq!(answers, 9);
    assert_eq!(run.outcomes().len(), 8);
}
