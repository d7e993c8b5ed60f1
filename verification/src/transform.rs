//! Turning a secret's payload into the data of a cluster secret.
//!
//! Every value that goes to the cluster is the standard base64 text, with
//! padding, of the UTF-8 bytes it stands for. A payload is written either
//! field by field, or, where the secret names a file, as one blob of
//! `key=value` lines under that file's name.
use crate::fields::{distinct_keys, has_key, keys_of, put, FieldMap, FieldView};
use crate::payload::SecretPayload;
use crate::tags::option_text;
use crate::text::{lemma_split_append, lemma_split_concat, split_on};
use base64::Engine;
use vstd::prelude::*;
use vstd::utf8::{decode_utf8, encode_utf8, valid_utf8};

verus! {

/// The text that the `base64` crate's engine `STANDARD` encodes bytes to.
pub uninterp spec fn base64_standard(bytes: Seq<u8>) -> Seq<char>;

/// The bytes that the `base64` crate's engine `STANDARD` decodes a text to,
/// or `None` where it refuses the text.
pub uninterp spec fn base64_standard_decoded(text: Seq<char>) -> Option<Seq<u8>>;

/// Calls `Engine::encode` on `base64::engine::general_purpose::STANDARD`.
///
/// The contract claims that the text is determined by the bytes, and that
/// `Engine::decode` on the same engine gives the bytes back for it. The
/// `base64` crate tests this round trip on random input.
///
/// `Engine::encode` panics where the length of the text does not fit in a
/// `usize`, which takes an input of about three quarters of `usize::MAX`
/// bytes. No slice is that long: a slice never spans more than `isize::MAX`
/// bytes, which is half of `usize::MAX`.
#[verifier::external_body]
fn encode_standard(bytes: &[u8]) -> (text: String)
    ensures
        text@ == base64_standard(bytes@),
        base64_standard_decoded(text@) == Some(bytes@),
{
    base64::engine::general_purpose::STANDARD.encode(bytes)
}

/// The error of `Engine::decode`, `base64::DecodeError`. It is carried, never
/// looked into.
#[verifier::external_type_specification]
#[verifier::external_body]
pub struct ExDecodeError(base64::DecodeError);

/// Calls `Engine::decode` on `base64::engine::general_purpose::STANDARD`.
///
/// The contract claims that the outcome, bytes or refusal, is determined by
/// the text.
#[verifier::external_body]
fn decode_standard(text: &str) -> (bytes: Result<Vec<u8>, base64::DecodeError>)
    ensures
        match bytes {
            Ok(bytes) => base64_standard_decoded(text@) == Some(bytes@),
            Err(_) => base64_standard_decoded(text@) is None,
        },
{
    base64::engine::general_purpose::STANDARD.decode(text)
}

/// Calls `String::from_utf8`.
///
/// The contract claims that a string that comes back is made of the given
/// bytes, and that none comes back only where the bytes are no UTF-8.
#[verifier::external_body]
fn text_of_utf8(bytes: Vec<u8>) -> (text: Option<String>)
    ensures
        match text {
            Some(text) => encode_utf8(text@) == bytes@,
            None => !valid_utf8(bytes@),
        },
{
    match String::from_utf8(bytes) {
        Ok(text) => Some(text),
        Err(_) => None,
    }
}

/// The base64 text that stands for `text` in the cluster.
pub open spec fn encoded(text: Seq<char>) -> Seq<char> {
    base64_standard(encode_utf8(text))
}

/// Some bytes have `text` as their base64 text.
pub open spec fn is_standard_base64(text: Seq<char>) -> bool {
    exists|bytes: Seq<u8>| text == #[trigger] base64_standard(bytes)
}

/// The text that a base64 text stands for, or `None` where the text is no
/// base64 or its bytes are no UTF-8.
pub open spec fn decoded(text: Seq<char>) -> Option<Seq<char>> {
    match base64_standard_decoded(text) {
        Some(bytes) => if valid_utf8(bytes) {
            Some(decode_utf8(bytes))
        } else {
            None
        },
        None => None,
    }
}

/// Decoding every value of `data` gives `payload` back, key for key and in
/// the same order.
pub open spec fn reads_back(data: Seq<FieldView>, payload: Seq<FieldView>) -> bool {
    &&& data.len() == payload.len()
    &&& forall|i: int|
        0 <= i < data.len() ==> (#[trigger] data[i]).key == payload[i].key && decoded(
            data[i].value,
        ) == Some(payload[i].value)
}

/// The data of a payload that is written field by field: the same keys in
/// the same order, each with its value encoded.
pub open spec fn field_map_of(payload: Seq<FieldView>) -> Seq<FieldView> {
    Seq::new(
        payload.len(),
        |i: int| FieldView { key: payload[i].key, value: encoded(payload[i].value) },
    )
}

/// The line that a field contributes to a file blob, without its line end.
pub open spec fn line_of(field: FieldView) -> Seq<char> {
    (field.key + seq!['=']) + field.value
}

/// The lines of the fields, in order.
pub open spec fn lines_of(fields: Seq<FieldView>) -> Seq<Seq<char>> {
    Seq::new(fields.len(), |i: int| line_of(fields[i]))
}

/// The file blob of a payload: one line `key=value` per field, in the order
/// of the fields, each ended by a line feed.
pub open spec fn blob_of(fields: Seq<FieldView>) -> Seq<char>
    decreases fields.len(),
{
    if fields.len() == 0 {
        Seq::<char>::empty()
    } else {
        blob_of(fields.drop_last()) + line_of(fields.last()).push('\n')
    }
}

/// The data of a payload that is written as one file: a single field, named
/// by the file, that holds the encoded blob.
pub open spec fn file_secret_of(payload: Seq<FieldView>, filename: Seq<char>) -> Seq<FieldView> {
    seq![FieldView { key: filename, value: encoded(blob_of(payload)) }]
}

/// The data of a payload: one file where a file name is given, field by
/// field where none is.
pub open spec fn data_of(payload: Seq<FieldView>, filename: Option<Seq<char>>) -> Seq<FieldView> {
    match filename {
        Some(filename) => file_secret_of(payload, filename),
        None => field_map_of(payload),
    }
}

/// Decoding `data` gives back what `payload` was written as: the payload
/// itself, key for key, where it was written field by field, and its file
/// blob where it was written as one file.
pub open spec fn restores(
    data: Seq<FieldView>,
    payload: Seq<FieldView>,
    filename: Option<Seq<char>>,
) -> bool {
    match filename {
        Some(_) => data.len() == 1 && decoded(data[0].value) == Some(blob_of(payload)),
        None => reads_back(data, payload),
    }
}

/// No key and no value holds a line feed.
pub open spec fn single_lines(fields: Seq<FieldView>) -> bool {
    forall|i: int|
        0 <= i < fields.len() ==> !(#[trigger] fields[i]).key.contains('\n')
            && !fields[i].value.contains('\n')
}

/// Cutting a file blob at its line feeds gives the `key=value` lines of the
/// payload, in order, followed by the empty text after the last line feed.
/// This needs keys and values that are free of line feeds.
pub proof fn lemma_blob_lines(fields: Seq<FieldView>)
    requires
        single_lines(fields),
    ensures
        split_on(blob_of(fields), '\n') == lines_of(fields).push(Seq::<char>::empty()),
    decreases fields.len(),
{
    if fields.len() == 0 {
        assert(lines_of(fields).push(Seq::<char>::empty()) == seq![Seq::<char>::empty()]);
    } else {
        let front = fields.drop_last();
        let line = line_of(fields.last());
        assert(single_lines(front)) by {
            assert forall|i: int| 0 <= i < front.len() implies !(#[trigger] front[i]).key.contains(
                '\n',
            ) && !front[i].value.contains('\n') by {
                assert(front[i] == fields[i]);
            }
        }
        lemma_blob_lines(front);
        assert(!line.contains('\n')) by {
            let field = fields[fields.len() - 1];
            if line.contains('\n') {
                let i = choose|i: int| 0 <= i < line.len() && line[i] == '\n';
                if i < field.key.len() {
                    assert(field.key[i] == '\n');
                } else if i > field.key.len() {
                    assert(field.value[i - field.key.len() - 1] == '\n');
                }
            }
        }
        let before = blob_of(front);
        lemma_split_append(before, line, '\n');
        lemma_split_concat(before + line, Seq::<char>::empty(), '\n');
        assert((before + line).push('\n') + Seq::<char>::empty() == blob_of(fields));
        assert(Seq::<char>::empty() + line == line);
        assert(lines_of(front).push(Seq::<char>::empty()).drop_last() == lines_of(front));
        assert(lines_of(front).push(line) == lines_of(fields));
        assert(split_on(Seq::<char>::empty(), '\n') == seq![Seq::<char>::empty()]);
    }
}

/// The data of a field-by-field payload has the keys of the payload, in the
/// same order, and they stay distinct.
pub proof fn lemma_field_map_keys(payload: Seq<FieldView>)
    requires
        distinct_keys(payload),
    ensures
        keys_of(field_map_of(payload)) == keys_of(payload),
        distinct_keys(field_map_of(payload)),
        forall|key: Seq<char>| has_key(field_map_of(payload), key) == has_key(payload, key),
{
    let data = field_map_of(payload);
    assert(keys_of(data) =~= keys_of(payload));
    assert forall|i: int, j: int|
        #![trigger data[i], data[j]]
        0 <= i < j < data.len() implies data[i].key != data[j].key by {
        assert(payload[i].key != payload[j].key);
    }
    assert forall|key: Seq<char>| has_key(data, key) == has_key(payload, key) by {
        if has_key(data, key) {
            let i = choose|i: int| 0 <= i < data.len() && #[trigger] data[i].key == key;
            assert(payload[i].key == key);
        }
        if has_key(payload, key) {
            let i = choose|i: int| 0 <= i < payload.len() && #[trigger] payload[i].key == key;
            assert(data[i].key == key);
        }
    }
}

/// The data of a cluster secret: named values, every one of them a base64
/// text.
#[derive(Debug, PartialEq, Eq)]
pub struct DataMap {
    pub(crate) entries: FieldMap,
}

impl View for DataMap {
    type V = Seq<FieldView>;

    open(crate) spec fn view(&self) -> Seq<FieldView> {
        self.entries@
    }
}

impl Clone for DataMap {
    /// A copy with the same named values in the same order.
    fn clone(&self) -> (copy: DataMap)
        ensures
            copy@ == self@,
    {
        proof {
            use_type_invariant(self);
        }
        DataMap { entries: self.entries.clone() }
    }
}

impl DataMap {
    #[verifier::type_invariant]
    pub open(crate) spec fn values_encoded(self) -> bool {
        forall|i: int|
            0 <= i < self.entries@.len() ==> is_standard_base64((#[trigger] self.entries@[i]).value)
    }

    /// The named values, in order.
    pub fn entries(&self) -> (entries: &FieldMap)
        ensures
            entries@ == self@,
            distinct_keys(self@),
            forall|i: int| 0 <= i < self@.len() ==> is_standard_base64((#[trigger] self@[i]).value),
    {
        proof {
            use_type_invariant(self);
            use_type_invariant(&self.entries);
        }
        &self.entries
    }
}

/// The file blob of a payload: one line `key=value` per field, in the order
/// of the fields, each ended by a line feed.
pub fn blob_text(payload: &SecretPayload) -> (blob: String)
    ensures
        blob@ == blob_of(payload@),
{
    let mut blob = String::new();
    let n = payload.len();
    let mut i: usize = 0;
    proof {
        reveal_strlit("=");
        reveal_strlit("\n");
        assert("="@ == seq!['=']);
        assert("\n"@ == seq!['\n']);
        assert(payload@.take(0) == Seq::<FieldView>::empty());
    }
    while i < n
        invariant
            i <= n,
            n == payload@.len(),
            "="@ == seq!['='],
            "\n"@ == seq!['\n'],
            blob@ == blob_of(payload@.take(i as int)),
        decreases n - i,
    {
        let field = payload.field(i);
        let ghost before = blob@;
        blob.append(field.key.as_str());
        blob.append("=");
        blob.append(field.value.as_str());
        blob.append("\n");
        proof {
            let fields = payload@.take(i + 1);
            assert(fields.drop_last() == payload@.take(i as int));
            assert(fields.last() == payload@[i as int]);
            assert(blob@ == before + line_of(fields.last()).push('\n'));
        }
        i = i + 1;
    }
    proof {
        assert(payload@.take(n as int) == payload@);
    }
    blob
}

/// The base64 text that stands for `text` in the cluster: the standard
/// encoding, with padding, of the UTF-8 bytes of `text`.
pub fn encode_text(text: &str) -> (code: String)
    ensures
        code@ == encoded(text@),
        is_standard_base64(code@),
        decoded(code@) == Some(text@),
{
    broadcast use {vstd::utf8::encode_utf8_valid_utf8, vstd::utf8::encode_utf8_decode_utf8};

    let code = encode_standard(text.as_bytes());
    assert(valid_utf8(encode_utf8(text@)));
    assert(decode_utf8(encode_utf8(text@)) == text@);
    code
}

/// The text that a base64 text of the cluster stands for, or `None` where
/// the text is no standard base64 or its bytes are no UTF-8. It gives back
/// what `encode_text` was given.
pub fn decode_text(code: &str) -> (text: Option<String>)
    ensures
        option_text(text) == decoded(code@),
{
    broadcast use {vstd::utf8::encode_utf8_valid_utf8, vstd::utf8::encode_utf8_decode_utf8};

    match decode_standard(code) {
        Ok(bytes) => {
            let text = text_of_utf8(bytes);
            proof {
                if text is Some {
                    let chars = text->Some_0@;
                    assert(valid_utf8(encode_utf8(chars)));
                    assert(decode_utf8(encode_utf8(chars)) == chars);
                }
            }
            text
        },
        Err(_) => None,
    }
}

/// Writes a payload as one file: the data has a single field, named
/// `filename`, whose value is the encoded blob of `key=value` lines.
///
/// Decoding that value gives the blob back. An empty payload gives an empty
/// blob, which is encoded like any other.
pub fn create_filesecret_from_aws_secret(secrets: SecretPayload, filename: String) -> (data:
    DataMap)
    ensures
        data@ == file_secret_of(secrets@, filename@),
        decoded(data@[0].value) == Some(blob_of(secrets@)),
{
    let blob = blob_text(&secrets);
    let code = encode_text(blob.as_str());
    let mut entries = FieldMap::new();
    proof {
        assert(!has_key(entries@, filename@));
    }
    entries.insert(filename, code);
    DataMap { entries }
}

/// Writes a payload field by field: the data has the keys of the payload, in
/// the same order, and under each key the encoded value.
///
/// Decoding every value gives the payload back, key for key. An empty
/// payload gives empty data.
pub fn create_datamap_from_aws_secret(secret_value: SecretPayload) -> (data: DataMap)
    ensures
        data@ == field_map_of(secret_value@),
        reads_back(data@, secret_value@),
{
    let mut entries = FieldMap::new();
    let n = secret_value.len();
    let ghost payload = secret_value@;
    let ghost target = field_map_of(payload);
    let mut i: usize = 0;
    proof {
        assert(target.take(0) == Seq::<FieldView>::empty());
    }
    while i < n
        invariant
            i <= n,
            n == payload.len(),
            payload == secret_value@,
            target == field_map_of(payload),
            distinct_keys(payload),
            entries@ == target.take(i as int),
            forall|j: int|
                0 <= j < i ==> is_standard_base64((#[trigger] entries@[j]).value) && decoded(
                    entries@[j].value,
                ) == Some(payload[j].value),
        decreases n - i,
    {
        let field = secret_value.field(i);
        let code = encode_text(field.value.as_str());
        let ghost before = entries@;
        proof {
            if has_key(before, field.key@) {
                let j = choose|j: int| 0 <= j < before.len() && #[trigger] before[j].key
                    == field.key@;
                assert(payload[j].key != payload[i as int].key);
            }
            assert(put(before, field.key@, code@) == target.take(i + 1));
        }
        entries.insert(field.key.clone(), code);
        i = i + 1;
    }
    proof {
        assert(target.take(n as int) == target);
    }
    DataMap { entries }
}

/// Writes a payload as the data of a cluster secret: as one file where
/// `filename` is given, field by field where it is not.
pub fn transform(payload: SecretPayload, filename: Option<String>) -> (data: DataMap)
    ensures
        data@ == data_of(payload@, option_text(filename)),
        restores(data@, payload@, option_text(filename)),
{
    match filename {
        Some(filename) => create_filesecret_from_aws_secret(payload, filename),
        None => create_datamap_from_aws_secret(payload),
    }
}

} // verus!
