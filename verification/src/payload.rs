//! Reading the payload of a secret: a JSON object whose values are all
//! strings.
use crate::error::SyncError;
use crate::fields::{distinct_keys, lemma_put_distinct, put, FieldMap, FieldView};
use vstd::prelude::*;

verus! {

/// The fields of one secret, by name. Keys are unique.
pub type SecretPayload = FieldMap;

/// The error of `serde_json::from_str`, `serde_json::Error`. It is carried,
/// never looked into.
#[verifier::external_type_specification]
#[verifier::external_body]
pub struct ExJsonError(serde_json::Error);

/// What `serde_json::from_str` reads from a text when asked for a
/// `BTreeMap<String, String>`: the key/value pairs of the map in the order in
/// which the map hands them out, or `None` where it reports an error.
pub uninterp spec fn json_string_fields(text: Seq<char>) -> Option<Seq<(Seq<char>, Seq<char>)>>;

/// The views of a sequence of string pairs, in the same order.
pub open spec fn pair_texts(pairs: Seq<(String, String)>) -> Seq<(Seq<char>, Seq<char>)> {
    Seq::new(pairs.len(), |i: int| (pairs[i].0@, pairs[i].1@))
}

/// Calls `serde_json::from_str` for a `BTreeMap<String, String>` and hands
/// out the pairs of the map it returns, in the map's own order.
///
/// The contract claims one thing only: the outcome, pairs or error, is
/// determined by the text. It says nothing about which texts are accepted.
#[verifier::external_body]
fn read_string_fields(text: &str) -> (read: Result<Vec<(String, String)>, serde_json::Error>)
    ensures
        match read {
            Ok(pairs) => json_string_fields(text@) == Some(pair_texts(pairs@)),
            Err(_) => json_string_fields(text@) is None,
        },
{
    match serde_json::from_str::<std::collections::BTreeMap<String, String>>(text) {
        Ok(map) => Ok(map.into_iter().collect()),
        Err(e) => Err(e),
    }
}

/// The fields that a list of pairs amounts to when the pairs are stored one
/// after another: a later pair with a key that was seen before replaces the
/// value of the earlier one.
pub open spec fn collect(pairs: Seq<(Seq<char>, Seq<char>)>) -> Seq<FieldView>
    decreases pairs.len(),
{
    if pairs.len() == 0 {
        Seq::<FieldView>::empty()
    } else {
        put(collect(pairs.drop_last()), pairs.last().0, pairs.last().1)
    }
}

/// The payload that a text stands for, or `None` where the text is not a JSON
/// object of string fields.
pub open spec fn payload_of(text: Seq<char>) -> Option<Seq<FieldView>> {
    match json_string_fields(text) {
        Some(pairs) => Some(collect(pairs)),
        None => None,
    }
}

/// Collected fields have distinct keys.
pub proof fn lemma_collect_distinct(pairs: Seq<(Seq<char>, Seq<char>)>)
    ensures
        distinct_keys(collect(pairs)),
    decreases pairs.len(),
{
    if pairs.len() > 0 {
        lemma_collect_distinct(pairs.drop_last());
        lemma_put_distinct(collect(pairs.drop_last()), pairs.last().0, pairs.last().1);
    }
}

/// Builds a payload from pairs, storing them one after another.
pub fn payload_from_pairs(pairs: &Vec<(String, String)>) -> (payload: SecretPayload)
    ensures
        payload@ == collect(pair_texts(pairs@)),
        distinct_keys(payload@),
{
    let mut payload = FieldMap::new();
    let ghost all = pair_texts(pairs@);
    let mut i: usize = 0;
    proof {
        assert(all.take(0) == Seq::<(Seq<char>, Seq<char>)>::empty());
    }
    while i < pairs.len()
        invariant
            i <= pairs.len(),
            all == pair_texts(pairs@),
            payload@ == collect(all.take(i as int)),
        decreases pairs.len() - i,
    {
        proof {
            assert(all.take(i + 1).drop_last() == all.take(i as int));
            assert(all.take(i + 1).last() == all[i as int]);
        }
        payload.insert(pairs[i].0.clone(), pairs[i].1.clone());
        i = i + 1;
    }
    proof {
        assert(all.take(pairs.len() as int) == all);
        lemma_collect_distinct(all);
    }
    payload
}

/// Reads the payload of a secret from the text that the secret store keeps.
///
/// The text has to be a JSON object whose values are all strings. Any other
/// text fails with `MalformedPayload`.
pub fn parse_payload(text: &str) -> (payload: Result<SecretPayload, SyncError>)
    ensures
        match payload {
            Ok(payload) => payload_of(text@) == Some(payload@),
            Err(e) => e == SyncError::MalformedPayload && payload_of(text@) is None,
        },
{
    match read_string_fields(text) {
        Ok(pairs) => Ok(payload_from_pairs(&pairs)),
        Err(_) => Err(SyncError::MalformedPayload),
    }
}

} // verus!
