//! Reading the destination of a secret out of its tags.
//!
//! A secret descriptor names, through three tags, the secret it becomes in the
//! cluster, the namespaces it goes to and, optionally, the file name under
//! which its fields are stored as one blob. Where several tags share a key,
//! the first one in the descriptor's order counts.
use crate::error::SyncError;
use crate::text::{
    free_of, join_with, lemma_join_split, lemma_split_free_of, lemma_split_len,
    lemma_split_unique, lemma_split_without_sep, split, split_on, texts,
};
use vstd::prelude::*;

verus! {

/// A key/value pair of metadata attached to a secret descriptor.
#[derive(Clone, Debug, PartialEq, Eq)]
pub struct Tag {
    pub key: String,
    pub value: String,
}

/// A tag as a pair of texts.
pub struct TagView {
    pub key: Seq<char>,
    pub value: Seq<char>,
}

impl View for Tag {
    type V = TagView;

    open spec fn view(&self) -> TagView {
        TagView { key: self.key@, value: self.value@ }
    }
}

/// A listing entry of the secret store: the identifier of a secret and its
/// tags, without the secret's value.
#[derive(Clone, Debug, PartialEq, Eq)]
pub struct SecretDescriptor {
    pub id: String,
    pub tags: Vec<Tag>,
}

/// A descriptor as an identifier and a sequence of tags.
pub struct SecretDescriptorView {
    pub id: Seq<char>,
    pub tags: Seq<TagView>,
}

/// The views of a sequence of tags, in the same order.
pub open spec fn tag_views(tags: Seq<Tag>) -> Seq<TagView> {
    Seq::new(tags.len(), |i: int| tags[i]@)
}

impl View for SecretDescriptor {
    type V = SecretDescriptorView;

    open spec fn view(&self) -> SecretDescriptorView {
        SecretDescriptorView { id: self.id@, tags: tag_views(self.tags@) }
    }
}

/// The three tag keys that steer a run. They are fixed for the whole run.
#[derive(Clone, Debug, PartialEq, Eq)]
pub struct RunConfig {
    /// Key of the tag that lists the destination namespaces.
    pub namespace_tag: String,
    /// Key of the tag that gives the destination name.
    pub secret_name_tag: String,
    /// Key of the tag that asks for a single file blob and names it.
    pub filename_tag: String,
}

/// A run configuration as three texts.
pub struct RunConfigView {
    pub namespace_tag: Seq<char>,
    pub secret_name_tag: Seq<char>,
    pub filename_tag: Seq<char>,
}

impl View for RunConfig {
    type V = RunConfigView;

    open spec fn view(&self) -> RunConfigView {
        RunConfigView {
            namespace_tag: self.namespace_tag@,
            secret_name_tag: self.secret_name_tag@,
            filename_tag: self.filename_tag@,
        }
    }
}

/// Where a secret goes: its name in the cluster, the namespaces that receive
/// it, in order, and the file name if its fields are to be stored as one blob.
#[derive(Clone, Debug, PartialEq, Eq)]
pub struct Routing {
    pub name: String,
    pub namespaces: Vec<String>,
    pub filename: Option<String>,
}

/// A routing as texts.
pub struct RoutingView {
    pub name: Seq<char>,
    pub namespaces: Seq<Seq<char>>,
    pub filename: Option<Seq<char>>,
}

/// The view of an optional string.
pub open spec fn option_text(s: Option<String>) -> Option<Seq<char>> {
    match s {
        Some(s) => Some(s@),
        None => None,
    }
}

impl View for Routing {
    type V = RoutingView;

    open spec fn view(&self) -> RoutingView {
        RoutingView {
            name: self.name@,
            namespaces: texts(self.namespaces@),
            filename: option_text(self.filename),
        }
    }
}

/// The value of the first tag whose key is `key`, if there is one.
pub open spec fn tag_value(tags: Seq<TagView>, key: Seq<char>) -> Option<Seq<char>>
    decreases tags.len(),
{
    if tags.len() == 0 {
        None
    } else if tags[0].key == key {
        Some(tags[0].value)
    } else {
        tag_value(tags.drop_first(), key)
    }
}

/// Some tag has the key `key`.
pub open spec fn has_tag(tags: Seq<TagView>, key: Seq<char>) -> bool {
    exists|i: int| 0 <= i < tags.len() && #[trigger] tags[i].key == key
}

/// The tags whose key is not `key`, in their order.
pub open spec fn without_tag(tags: Seq<TagView>, key: Seq<char>) -> Seq<TagView> {
    tags.filter(|t: TagView| t.key != key)
}

/// The namespaces that a namespace tag's value lists: its tokens between
/// single spaces. Two spaces in a row list an empty namespace between them.
pub open spec fn namespaces_of(value: Seq<char>) -> Seq<Seq<char>> {
    split_on(value, ' ')
}

/// What the tags of `secret` say under the keys of `config`.
///
/// The name tag and the namespace tag are both needed; the file name tag may
/// be absent.
pub open spec fn routing_of(secret: SecretDescriptorView, config: RunConfigView) -> Result<
    RoutingView,
    SyncError,
> {
    match (
        tag_value(secret.tags, config.secret_name_tag),
        tag_value(secret.tags, config.namespace_tag),
    ) {
        (Some(name), Some(value)) => Ok(
            RoutingView {
                name,
                namespaces: namespaces_of(value),
                filename: tag_value(secret.tags, config.filename_tag),
            },
        ),
        _ => Err(SyncError::MissingTag),
    }
}

/// The view of the outcome of an extraction.
pub open spec fn routing_result_view(r: Result<Routing, SyncError>) -> Result<
    RoutingView,
    SyncError,
> {
    match r {
        Ok(routing) => Ok(routing@),
        Err(e) => Err(e),
    }
}

/// The first tag with a key decides: if no tag before position `i` has the
/// key, the value under the key is the value at `i`.
pub proof fn lemma_tag_value_first(tags: Seq<TagView>, key: Seq<char>, i: int)
    requires
        0 <= i < tags.len(),
        tags[i].key == key,
        forall|j: int| 0 <= j < i ==> (#[trigger] tags[j]).key != key,
    ensures
        tag_value(tags, key) == Some(tags[i].value),
    decreases i,
{
    if i > 0 {
        let rest = tags.drop_first();
        assert(tags[0].key != key);
        assert forall|j: int| 0 <= j < i - 1 implies (#[trigger] rest[j]).key != key by {
            assert(tags[j + 1].key != key);
        }
        lemma_tag_value_first(rest, key, i - 1);
    }
}

/// A key has a value exactly when some tag carries the key.
pub proof fn lemma_tag_value_some_iff(tags: Seq<TagView>, key: Seq<char>)
    ensures
        tag_value(tags, key) is Some <==> has_tag(tags, key),
    decreases tags.len(),
{
    if tags.len() > 0 {
        let rest = tags.drop_first();
        lemma_tag_value_some_iff(rest, key);
        if tags[0].key != key {
            if has_tag(rest, key) {
                let i = choose|i: int| 0 <= i < rest.len() && #[trigger] rest[i].key == key;
                assert(tags[i + 1].key == key);
            }
            if has_tag(tags, key) {
                let i = choose|i: int| 0 <= i < tags.len() && #[trigger] tags[i].key == key;
                assert(rest[i - 1].key == key);
            }
        } else {
            assert(tags[0].key == key);
        }
    }
}

/// Taking out the tags with one key leaves that key without a value and every
/// other key with the value it had.
pub proof fn lemma_without_tag(tags: Seq<TagView>, removed: Seq<char>, key: Seq<char>)
    ensures
        tag_value(without_tag(tags, removed), removed) is None,
        key != removed ==> tag_value(without_tag(tags, removed), key) == tag_value(tags, key),
    decreases tags.len(),
{
    let keep = |t: TagView| t.key != removed;
    reveal(Seq::filter);
    if tags.len() > 0 {
        let rest = tags.drop_first();
        lemma_without_tag(rest, removed, key);
        assert(tags == seq![tags[0]] + rest);
        Seq::<TagView>::filter_distributes_over_add(seq![tags[0]], rest, keep);
        assert(seq![tags[0]].drop_last() == Seq::<TagView>::empty());
        assert(Seq::<TagView>::empty().filter(keep) == Seq::<TagView>::empty());
        if keep(tags[0]) {
            assert(seq![tags[0]].filter(keep) == seq![tags[0]]);
            let kept = without_tag(tags, removed);
            assert(kept == seq![tags[0]] + rest.filter(keep));
            assert(kept.drop_first() == rest.filter(keep));
        } else {
            assert(seq![tags[0]].filter(keep) == Seq::<TagView>::empty());
            assert(without_tag(tags, removed) == rest.filter(keep));
        }
    }
}

/// A secret is routed exactly when it carries both the name tag and the
/// namespace tag, and fails with `MissingTag` otherwise; taking either tag
/// away makes it fail.
pub proof fn lemma_routing_needs_both_tags(secret: SecretDescriptorView, config: RunConfigView)
    ensures
        routing_of(secret, config) is Ok <==> has_tag(secret.tags, config.secret_name_tag)
            && has_tag(secret.tags, config.namespace_tag),
        routing_of(secret, config) is Err ==> routing_of(secret, config) == Err::<
            RoutingView,
            SyncError,
        >(SyncError::MissingTag),
        routing_of(
            SecretDescriptorView {
                id: secret.id,
                tags: without_tag(secret.tags, config.secret_name_tag),
            },
            config,
        ) == Err::<RoutingView, SyncError>(SyncError::MissingTag),
        routing_of(
            SecretDescriptorView {
                id: secret.id,
                tags: without_tag(secret.tags, config.namespace_tag),
            },
            config,
        ) == Err::<RoutingView, SyncError>(SyncError::MissingTag),
{
    lemma_tag_value_some_iff(secret.tags, config.secret_name_tag);
    lemma_tag_value_some_iff(secret.tags, config.namespace_tag);
    lemma_without_tag(secret.tags, config.secret_name_tag, config.secret_name_tag);
    lemma_without_tag(secret.tags, config.namespace_tag, config.namespace_tag);
}

/// The namespaces that a value lists are the one way to cut the value at its
/// spaces: there is at least one, none holds a space, written one after
/// another with single spaces between them they are the value, and no other
/// list is like that. A value without a space lists itself.
pub proof fn lemma_namespaces_of(value: Seq<char>, namespaces: Seq<Seq<char>>)
    ensures
        namespaces_of(value).len() >= 1,
        free_of(namespaces_of(value), ' '),
        join_with(namespaces_of(value), ' ') == value,
        namespaces.len() >= 1 && free_of(namespaces, ' ') && join_with(namespaces, ' ') == value
            ==> namespaces == namespaces_of(value),
        !value.contains(' ') ==> namespaces_of(value) == seq![value],
{
    lemma_split_len(value, ' ');
    lemma_split_free_of(value, ' ');
    lemma_join_split(value, ' ');
    if namespaces.len() >= 1 && free_of(namespaces, ' ') && join_with(namespaces, ' ') == value {
        lemma_split_unique(namespaces, value, ' ');
    }
    if !value.contains(' ') {
        lemma_split_without_sep(value, ' ');
    }
}

/// A routed secret goes to at least one namespace, and no namespace holds a
/// space.
pub proof fn lemma_routing_namespaces(secret: SecretDescriptorView, config: RunConfigView)
    requires
        routing_of(secret, config) is Ok,
    ensures
        routing_of(secret, config)->Ok_0.namespaces.len() >= 1,
        free_of(routing_of(secret, config)->Ok_0.namespaces, ' '),
{
    let value = tag_value(secret.tags, config.namespace_tag)->Some_0;
    lemma_namespaces_of(value, seq![value]);
}

/// Position of the first tag with the key `key`, or `None` if no tag has it.
fn position_of(tags: &Vec<Tag>, key: &str) -> (found: Option<usize>)
    ensures
        match found {
            Some(i) => i < tags.len() && tags[i as int].key@ == key@ && tag_value(
                tag_views(tags@),
                key@,
            ) == Some(tags[i as int].value@),
            None => tag_value(tag_views(tags@), key@) is None,
        },
{
    let wanted = String::from_str(key);
    let ghost all = tag_views(tags@);
    let mut i: usize = 0;
    while i < tags.len()
        invariant
            i <= tags.len(),
            wanted@ == key@,
            all == tag_views(tags@),
            forall|j: int| 0 <= j < i ==> (#[trigger] all[j]).key != key@,
        decreases tags.len() - i,
    {
        if tags[i].key == wanted {
            proof {
                lemma_tag_value_first(all, key@, i as int);
            }
            return Some(i);
        }
        i = i + 1;
    }
    proof {
        lemma_tag_value_some_iff(all, key@);
    }
    None
}

/// The destination name of `secret`: the value of its first tag with the key
/// `secret_name_tag`. Fails with `MissingTag` exactly when no tag has that key.
pub fn get_name_from_aws_secret(secret: &SecretDescriptor, secret_name_tag: &str) -> (name: Result<
    String,
    SyncError,
>)
    ensures
        match name {
            Ok(name) => tag_value(secret@.tags, secret_name_tag@) == Some(name@),
            Err(e) => e == SyncError::MissingTag && tag_value(secret@.tags, secret_name_tag@)
                is None,
        },
{
    match position_of(&secret.tags, secret_name_tag) {
        Some(i) => Ok(secret.tags[i].value.clone()),
        None => Err(SyncError::MissingTag),
    }
}

/// The destination namespaces of `secret`: the tokens, between single spaces,
/// of the value of its first tag with the key `namespace_tag`, from left to
/// right. Fails with `MissingTag` exactly when no tag has that key.
///
/// Empty tokens are kept as they are, so `"a  b"` lists `"a"`, `""` and `"b"`.
pub fn get_namespaces_from_aws_secret(secret: &SecretDescriptor, namespace_tag: &str) -> (namespaces:
    Result<Vec<String>, SyncError>)
    ensures
        match namespaces {
            Ok(namespaces) => tag_value(secret@.tags, namespace_tag@) is Some && texts(
                namespaces@,
            ) == namespaces_of(tag_value(secret@.tags, namespace_tag@)->Some_0),
            Err(e) => e == SyncError::MissingTag && tag_value(secret@.tags, namespace_tag@)
                is None,
        },
{
    match position_of(&secret.tags, namespace_tag) {
        Some(i) => Ok(split(secret.tags[i].value.as_str(), ' ')),
        None => Err(SyncError::MissingTag),
    }
}

/// The file name of `secret`: the value of its first tag with the key
/// `filename_tag`, or `None` when no tag has that key, which is no failure.
pub fn get_filename_from_aws_secret(secret: &SecretDescriptor, filename_tag: &str) -> (filename:
    Option<String>)
    ensures
        option_text(filename) == tag_value(secret@.tags, filename_tag@),
{
    match position_of(&secret.tags, filename_tag) {
        Some(i) => Some(secret.tags[i].value.clone()),
        None => None,
    }
}

/// Reads the destination of `secret` out of its tags, under the keys of
/// `config`.
///
/// Succeeds exactly when the secret carries both the name tag and the
/// namespace tag, and fails with `MissingTag` otherwise.
pub fn extract(secret: &SecretDescriptor, config: &RunConfig) -> (routing: Result<
    Routing,
    SyncError,
>)
    ensures
        routing_result_view(routing) == routing_of(secret@, config@),
{
    let name = match get_name_from_aws_secret(secret, config.secret_name_tag.as_str()) {
        Ok(name) => name,
        Err(e) => {
            return Err(e);
        },
    };
    let namespaces = match get_namespaces_from_aws_secret(secret, config.namespace_tag.as_str()) {
        Ok(namespaces) => namespaces,
        Err(e) => {
            return Err(e);
        },
    };
    let filename = get_filename_from_aws_secret(secret, config.filename_tag.as_str());
    Ok(Routing { name, namespaces, filename })
}

} // verus!
