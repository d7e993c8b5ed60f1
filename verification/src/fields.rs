//! An ordered map from text to text: the shape of a secret's payload and of
//! the data that is written to the cluster.
use vstd::prelude::*;

verus! {

/// One named value.
#[derive(Clone, Debug, PartialEq, Eq)]
pub struct Field {
    pub key: String,
    pub value: String,
}

/// A field as a pair of texts.
pub struct FieldView {
    pub key: Seq<char>,
    pub value: Seq<char>,
}

impl View for Field {
    type V = FieldView;

    open spec fn view(&self) -> FieldView {
        FieldView { key: self.key@, value: self.value@ }
    }
}

/// The views of a sequence of fields, in the same order.
pub open spec fn field_views(fields: Seq<Field>) -> Seq<FieldView> {
    Seq::new(fields.len(), |i: int| fields[i]@)
}

/// No two fields share a key.
pub open spec fn distinct_keys(fields: Seq<FieldView>) -> bool {
    forall|i: int, j: int|
        #![trigger fields[i], fields[j]]
        0 <= i < j < fields.len() ==> fields[i].key != fields[j].key
}

/// Some field has the key `key`.
pub open spec fn has_key(fields: Seq<FieldView>, key: Seq<char>) -> bool {
    exists|i: int| 0 <= i < fields.len() && #[trigger] fields[i].key == key
}

/// The position of a field with the key `key`; among distinct keys there is
/// at most one.
pub open spec fn key_index(fields: Seq<FieldView>, key: Seq<char>) -> int {
    choose|i: int| 0 <= i < fields.len() && #[trigger] fields[i].key == key
}

/// The value under `key`, if a field has that key.
pub open spec fn value_of(fields: Seq<FieldView>, key: Seq<char>) -> Option<Seq<char>> {
    if has_key(fields, key) {
        Some(fields[key_index(fields, key)].value)
    } else {
        None
    }
}

/// The fields after `value` was stored under `key`: the field with that key
/// keeps its place and gets the new value, and a new key goes to the end.
pub open spec fn put(fields: Seq<FieldView>, key: Seq<char>, value: Seq<char>) -> Seq<FieldView> {
    if has_key(fields, key) {
        fields.update(key_index(fields, key), FieldView { key, value })
    } else {
        fields.push(FieldView { key, value })
    }
}

/// The fields as a map from key to value, without their order.
pub open spec fn as_map(fields: Seq<FieldView>) -> Map<Seq<char>, Seq<char>> {
    Map::new(|key: Seq<char>| has_key(fields, key), |key: Seq<char>| value_of(fields, key)->Some_0)
}

/// The keys of the fields, in order.
pub open spec fn keys_of(fields: Seq<FieldView>) -> Seq<Seq<char>> {
    Seq::new(fields.len(), |i: int| fields[i].key)
}

/// Among distinct keys, the field at position `i` is the one found under its
/// key.
pub proof fn lemma_key_index(fields: Seq<FieldView>, i: int)
    requires
        distinct_keys(fields),
        0 <= i < fields.len(),
    ensures
        has_key(fields, fields[i].key),
        key_index(fields, fields[i].key) == i,
        value_of(fields, fields[i].key) == Some(fields[i].value),
{
    let key = fields[i].key;
    assert(fields[i].key == key);
    let found = key_index(fields, key);
    assert(0 <= found < fields.len() && fields[found].key == key);
    if found < i {
        assert(fields[found].key != fields[i].key);
    } else if i < found {
        assert(fields[i].key != fields[found].key);
    }
}

/// Storing a value keeps the keys distinct.
pub proof fn lemma_put_distinct(fields: Seq<FieldView>, key: Seq<char>, value: Seq<char>)
    requires
        distinct_keys(fields),
    ensures
        distinct_keys(put(fields, key, value)),
{
    let after = put(fields, key, value);
    if has_key(fields, key) {
        let at = key_index(fields, key);
        assert forall|i: int, j: int|
            #![trigger after[i], after[j]]
            0 <= i < j < after.len() implies after[i].key != after[j].key by {
            assert(fields[i].key != fields[j].key);
        }
    } else {
        assert forall|i: int, j: int|
            #![trigger after[i], after[j]]
            0 <= i < j < after.len() implies after[i].key != after[j].key by {
            if j < fields.len() {
                assert(fields[i].key != fields[j].key);
            } else {
                assert(fields[i].key != key);
            }
        }
    }
}

/// Storing a value is an insertion into the map of the fields: the key gets
/// the value and every other key keeps what it had.
pub proof fn lemma_put_as_map(fields: Seq<FieldView>, key: Seq<char>, value: Seq<char>)
    requires
        distinct_keys(fields),
    ensures
        as_map(put(fields, key, value)) == as_map(fields).insert(key, value),
{
    let after = put(fields, key, value);
    lemma_put_distinct(fields, key, value);
    let at = if has_key(fields, key) {
        key_index(fields, key)
    } else {
        fields.len() as int
    };
    assert(after[at] == FieldView { key, value });
    lemma_key_index(after, at);
    assert forall|k: Seq<char>| k != key implies has_key(after, k) == has_key(fields, k)
        && value_of(after, k) == value_of(fields, k) by {
        if has_key(fields, k) {
            let i = key_index(fields, k);
            assert(after[i] == fields[i]);
            lemma_key_index(after, i);
            lemma_key_index(fields, i);
        }
        if has_key(after, k) {
            let i = key_index(after, k);
            assert(i != at);
            assert(fields[i] == after[i]);
            lemma_key_index(after, i);
            lemma_key_index(fields, i);
        }
    }
    assert(as_map(after) =~= as_map(fields).insert(key, value));
}

/// An ordered map from text to text. Its keys are pairwise distinct, and its
/// fields keep the order in which their keys were first stored.
#[derive(Debug, PartialEq, Eq)]
pub struct FieldMap {
    pub(crate) fields: Vec<Field>,
}

impl View for FieldMap {
    type V = Seq<FieldView>;

    open(crate) spec fn view(&self) -> Seq<FieldView> {
        field_views(self.fields@)
    }
}

impl Clone for FieldMap {
    /// A copy with the same fields in the same order.
    fn clone(&self) -> (copy: FieldMap)
        ensures
            copy@ == self@,
    {
        proof {
            use_type_invariant(self);
        }
        let mut fields: Vec<Field> = Vec::new();
        let n = self.fields.len();
        let mut i: usize = 0;
        while i < n
            invariant
                i <= n,
                n == self.fields.len(),
                field_views(fields@) == self@.take(i as int),
            decreases n - i,
        {
            let field = &self.fields[i];
            let ghost before = fields@;
            fields.push(Field { key: field.key.clone(), value: field.value.clone() });
            proof {
                assert(field_views(fields@) == field_views(before).push(self@[i as int]));
            }
            i = i + 1;
        }
        proof {
            assert(self@.take(n as int) == self@);
        }
        FieldMap { fields }
    }
}

impl FieldMap {
    #[verifier::type_invariant]
    pub open(crate) spec fn keys_distinct(self) -> bool {
        distinct_keys(field_views(self.fields@))
    }

    /// A map without fields.
    pub fn new() -> (map: FieldMap)
        ensures
            map@ == Seq::<FieldView>::empty(),
    {
        FieldMap { fields: Vec::new() }
    }

    /// The number of fields.
    pub fn len(&self) -> (n: usize)
        ensures
            n == self@.len(),
            distinct_keys(self@),
    {
        proof {
            use_type_invariant(self);
        }
        self.fields.len()
    }

    /// The field at position `i`.
    pub fn field(&self, i: usize) -> (field: &Field)
        requires
            i < self@.len(),
        ensures
            field@ == self@[i as int],
    {
        &self.fields[i]
    }

    /// Position of the field with the key `key`, or `None` if there is none.
    pub fn position(&self, key: &str) -> (found: Option<usize>)
        ensures
            match found {
                Some(i) => i < self@.len() && self@[i as int].key == key@ && has_key(self@, key@)
                    && key_index(self@, key@) == i,
                None => !has_key(self@, key@),
            },
    {
        proof {
            use_type_invariant(self);
        }
        let wanted = String::from_str(key);
        let mut i: usize = 0;
        while i < self.fields.len()
            invariant
                i <= self.fields.len(),
                wanted@ == key@,
                distinct_keys(self@),
                forall|j: int| 0 <= j < i ==> (#[trigger] self@[j]).key != key@,
            decreases self.fields.len() - i,
        {
            if self.fields[i].key == wanted {
                proof {
                    lemma_key_index(self@, i as int);
                }
                return Some(i);
            }
            i = i + 1;
        }
        None
    }

    /// The value under `key`, if a field has that key.
    pub fn get(&self, key: &str) -> (value: Option<&String>)
        ensures
            match value {
                Some(value) => value_of(self@, key@) == Some(value@),
                None => value_of(self@, key@) is None,
            },
    {
        match self.position(key) {
            Some(i) => Some(&self.fields[i].value),
            None => None,
        }
    }

    /// Stores `value` under `key`. A key that is already there keeps its place
    /// and gets the new value; a new key goes to the end.
    pub fn insert(&mut self, key: String, value: String)
        ensures
            final(self)@ == put(old(self)@, key@, value@),
            distinct_keys(final(self)@),
    {
        proof {
            use_type_invariant(&*self);
            lemma_put_distinct(self@, key@, value@);
        }
        let found = self.position(key.as_str());
        let ghost before = self@;
        let mut fields: Vec<Field> = Vec::new();
        std::mem::swap(&mut self.fields, &mut fields);
        match found {
            Some(i) => {
                fields.set(i, Field { key, value });
            },
            None => {
                fields.push(Field { key, value });
            },
        }
        assert(field_views(fields@) == put(before, key@, value@));
        self.fields = fields;
    }
}

} // verus!
