use vstd::prelude::*;

use crate::bytes::bytes_eq;
use crate::registry::{lemma_dedup_unique, RegistryEntry, RegistryTable};
use crate::store::{registry_key, registry_key_bytes};
use crate::Error;

verus! {

#[verifier::external_type_specification]
#[verifier::external_body]
pub struct ExValue(serde_json::Value);

/// What this tool reads of a JSON value: a string's bytes, an object's
/// members in order with keys as bytes, and of any other value (null, a
/// boolean, a number, an array) only that it is neither.
pub enum JsonVal {
    Str(Seq<u8>),
    Obj(Seq<(Seq<u8>, JsonVal)>),
    Other,
}

/// What serde_json reads out of document bytes: `None` exactly on bytes
/// that are not one valid JSON document, else the document. The result
/// depends on the bytes alone.
pub uninterp spec fn parsed(doc: Seq<u8>) -> Option<JsonVal>;

/// What a parsed JSON value holds, read as this tool reads it.
pub uninterp spec fn model(v: serde_json::Value) -> JsonVal;

/// Relies on serde_json::from_slice::<Value>: `Some` exactly when the bytes
/// are one valid JSON document, handing back that document.
#[verifier::external_body]
fn parse_json(doc: &[u8]) -> (r: Option<serde_json::Value>)
    ensures
        r is Some <==> parsed(doc@) is Some,
        r matches Some(v) ==> parsed(doc@) == Some(model(v)),
{
    serde_json::from_slice::<serde_json::Value>(doc).ok()
}

/// Relies on serde_json::Value: only the `Object` variant carries members,
/// a map from string keys to values, its keys distinct (it is a map); they
/// come out here as a vector of pairs, the keys as their bytes.
#[verifier::external_body]
fn object_entries(v: serde_json::Value) -> (r: Option<Vec<(Vec<u8>, serde_json::Value)>>)
    ensures
        r is Some <==> model(v) is Obj,
        r matches Some(pairs) ==> model(v) == JsonVal::Obj(
            pairs@.map_values(|p: (Vec<u8>, serde_json::Value)| (p.0@, model(p.1))),
        ),
        r matches Some(pairs) ==> forall|i: int, j: int|
            0 <= i < j < pairs@.len() ==> pairs@[i].0@ != pairs@[j].0@,
{
    match v {
        serde_json::Value::Object(members) => Some(
            members.into_iter().map(|(k, val)| (k.into_bytes(), val)).collect(),
        ),
        _ => None,
    }
}

/// Relies on serde_json::Value::as_str: `Some` exactly for the `String`
/// variant, handing back the string, here as its bytes.
#[verifier::external_body]
fn value_str_bytes(v: &serde_json::Value) -> (r: Option<Vec<u8>>)
    ensures
        r is Some <==> model(*v) is Str,
        r matches Some(b) ==> model(*v) == JsonVal::Str(b@),
{
    v.as_str().map(|s| s.as_bytes().to_vec())
}

/// An object's members; any other value has none.
pub open spec fn obj_fields(v: JsonVal) -> Seq<(Seq<u8>, JsonVal)> {
    match v {
        JsonVal::Obj(fields) => fields,
        _ => Seq::empty(),
    }
}

/// A string's bytes; any other value has none.
pub open spec fn str_bytes(v: JsonVal) -> Seq<u8> {
    match v {
        JsonVal::Str(b) => b,
        _ => Seq::empty(),
    }
}

/// The value of the first member of `fields` whose key is `key`, if any.
pub open spec fn spec_field(fields: Seq<(Seq<u8>, JsonVal)>, key: Seq<u8>) -> Option<JsonVal>
    decreases fields.len(),
{
    if fields.len() == 0 {
        None
    } else if fields[0].0 == key {
        Some(fields[0].1)
    } else {
        spec_field(fields.skip(1), key)
    }
}

/// If the first member with key `key` stands at `i`, it decides `spec_field`.
proof fn lemma_spec_field_at(fields: Seq<(Seq<u8>, JsonVal)>, key: Seq<u8>, i: int)
    requires
        0 <= i < fields.len(),
        fields[i].0 == key,
        forall|j: int| 0 <= j < i ==> fields[j].0 != key,
    ensures
        spec_field(fields, key) == Some(fields[i].1),
    decreases i,
{
    if i == 0 {
    } else {
        assert(fields[0].0 != key);
        assert forall|j: int| 0 <= j < i - 1 implies fields.skip(1)[j].0 != key by {
            assert(fields.skip(1)[j] == fields[j + 1]);
        }
        assert(fields.skip(1)[i - 1] == fields[i]);
        lemma_spec_field_at(fields.skip(1), key, i - 1);
    }
}

/// With no member keyed `key`, `spec_field` yields nothing.
proof fn lemma_spec_field_absent(fields: Seq<(Seq<u8>, JsonVal)>, key: Seq<u8>)
    requires
        forall|j: int| 0 <= j < fields.len() ==> fields[j].0 != key,
    ensures
        spec_field(fields, key) is None,
    decreases fields.len(),
{
    if fields.len() > 0 {
        assert forall|j: int| 0 <= j < fields.skip(1).len() implies fields.skip(1)[j].0 != key by {
            assert(fields.skip(1)[j] == fields[j + 1]);
        }
        lemma_spec_field_absent(fields.skip(1), key);
    }
}

/// The bytes of `home`, the field that holds an entry's home page.
pub open spec fn home_key() -> Seq<u8> {
    seq![104u8, 111u8, 109u8, 101u8]
}

/// A member value that makes a registry entry: an object whose `home` and
/// `registry` fields are both strings.
pub open spec fn entry_ok(v: JsonVal) -> bool {
    &&& v is Obj
    &&& (spec_field(obj_fields(v), home_key()) matches Some(h) && h is Str)
    &&& (spec_field(obj_fields(v), registry_key()) matches Some(u) && u is Str)
}

/// The entry's home page: the bytes of its `home` field.
pub open spec fn entry_home(v: JsonVal) -> Seq<u8> {
    str_bytes(spec_field(obj_fields(v), home_key()).unwrap())
}

/// The entry's URL: the bytes of its `registry` field.
pub open spec fn entry_url(v: JsonVal) -> Seq<u8> {
    str_bytes(spec_field(obj_fields(v), registry_key()).unwrap())
}

/// Every member of the document makes a registry entry.
pub open spec fn members_ok(members: Seq<(Seq<u8>, JsonVal)>) -> bool {
    forall|i: int| 0 <= i < members.len() ==> entry_ok(#[trigger] members[i].1)
}

/// A well-formed registry document: one valid JSON document, an object,
/// each member a registry entry.
pub open spec fn doc_ok(doc: Seq<u8>) -> bool {
    parsed(doc) matches Some(v) && v is Obj && members_ok(obj_fields(v))
}

/// The bytes of `home` as runtime bytes.
fn home_field_key() -> (r: Vec<u8>)
    ensures
        r@ == home_key(),
{
    let mut k: Vec<u8> = Vec::new();
    k.push(104);
    k.push(111);
    k.push(109);
    k.push(101);
    assert(k@ =~= home_key());
    k
}

/// The first field of `fields` whose key is `key`, as its index.
fn find_field(fields: &Vec<(Vec<u8>, serde_json::Value)>, key: &[u8]) -> (r: Option<usize>)
    ensures
        match r {
            Some(i) => i < fields@.len() && fields@[i as int].0@ == key@ && forall|j: int|
                0 <= j < i ==> fields@[j].0@ != key@,
            None => forall|j: int| 0 <= j < fields@.len() ==> fields@[j].0@ != key@,
        },
{
    let n = fields.len();
    let mut i: usize = 0;
    while i < n
        invariant
            i <= n == fields@.len(),
            forall|j: int| 0 <= j < i ==> fields@[j].0@ != key@,
        decreases n - i,
    {
        if bytes_eq(fields[i].0.as_slice(), key) {
            return Some(i);
        }
        i = i + 1;
    }
    None
}

/// Read one entry of the registry document: the member's value must be an
/// object whose `home` and `registry` fields are strings — exactly then an
/// entry comes back, its name the member's key, its home page and URL the
/// two fields' bytes.
fn entry_from_value(name: Vec<u8>, v: serde_json::Value) -> (r: Option<RegistryEntry>)
    ensures
        r is Some <==> entry_ok(model(v)),
        r matches Some(e) ==> e.name@ == name@ && e.home@ == entry_home(model(v)) && e.url@
            == entry_url(model(v)),
{
    let ghost m = model(v);
    let fields = match object_entries(v) {
        Some(f) => f,
        None => {
            return None;
        },
    };
    let ghost members = obj_fields(m);
    proof {
        assert forall|j: int| 0 <= j < members.len() implies members[j] == (
            fields@[j].0@,
            model(fields@[j].1),
        ) by {}
    }
    let hk = home_field_key();
    let hi = match find_field(&fields, hk.as_slice()) {
        Some(i) => i,
        None => {
            proof {
                lemma_spec_field_absent(members, home_key());
            }
            return None;
        },
    };
    proof {
        lemma_spec_field_at(members, home_key(), hi as int);
    }
    let home = match value_str_bytes(&fields[hi].1) {
        Some(h) => h,
        None => {
            return None;
        },
    };
    let rk = registry_key_bytes();
    let ri = match find_field(&fields, rk.as_slice()) {
        Some(i) => i,
        None => {
            proof {
                lemma_spec_field_absent(members, registry_key());
            }
            return None;
        },
    };
    proof {
        lemma_spec_field_at(members, registry_key(), ri as int);
    }
    let url = match value_str_bytes(&fields[ri].1) {
        Some(u) => u,
        None => {
            return None;
        },
    };
    Some(RegistryEntry { name, home, url })
}

/// Load the registry table from the bundled registry document. It succeeds
/// exactly on a well-formed document, and then the table holds one entry
/// per member, in document order: the key as the name, the `home` and
/// `registry` fields as home page and URL. Each failure names its reason,
/// and each reason comes exactly from its cause; no partial table ever
/// comes back.
pub fn load_table(doc: &[u8]) -> (r: Result<RegistryTable, Error>)
    ensures
        r is Ok <==> doc_ok(doc@),
        (r matches Err(e) && e == Error::InvalidJson) <==> parsed(doc@) is None,
        (r matches Err(e) && e == Error::NotAnObject) <==> (parsed(doc@) matches Some(v) && !(v
            is Obj)),
        (r matches Err(e) && e == Error::BadEntry) <==> (parsed(doc@) matches Some(v) && v is Obj
            && !members_ok(obj_fields(v))),
        r matches Ok(t) ==> ({
            let members = obj_fields(parsed(doc@).unwrap());
            &&& t.wf()
            &&& t.entries@.len() == members.len()
            &&& forall|i: int|
                #![auto]
                0 <= i < members.len() ==> t.entries@[i].name@ == members[i].0
                    && t.entries@[i].home@ == entry_home(members[i].1) && t.entries@[i].url@
                    == entry_url(members[i].1)
        }),
{
    let v = match parse_json(doc) {
        Some(v) => v,
        None => {
            return Err(Error::InvalidJson);
        },
    };
    let ghost m = model(v);
    let mut pairs = match object_entries(v) {
        Some(p) => p,
        None => {
            return Err(Error::NotAnObject);
        },
    };
    let ghost members = obj_fields(m);
    let ghost orig = pairs@;
    proof {
        assert forall|k: int| 0 <= k < members.len() implies members[k] == (
            orig[k].0@,
            model(orig[k].1),
        ) by {}
        assert(orig.skip(0) =~= orig);
    }
    let mut entries: Vec<RegistryEntry> = Vec::new();
    let ghost i: int = 0;
    while pairs.len() > 0
        invariant
            0 <= i <= orig.len(),
            pairs@ == orig.skip(i),
            parsed(doc@) == Some(m),
            m is Obj,
            members == obj_fields(m),
            members.len() == orig.len(),
            forall|k: int|
                0 <= k < members.len() ==> members[k] == (orig[k].0@, model(#[trigger] orig[k].1)),
            forall|a: int, b: int| 0 <= a < b < orig.len() ==> orig[a].0@ != orig[b].0@,
            entries@.len() == i,
            forall|k: int|
                #![auto]
                0 <= k < i ==> entry_ok(members[k].1) && entries@[k].name@ == members[k].0
                    && entries@[k].home@ == entry_home(members[k].1) && entries@[k].url@
                    == entry_url(members[k].1),
        decreases pairs@.len(),
    {
        proof {
            assert(orig.skip(i)[0] == orig[i]);
            assert(orig.skip(i).skip(1) =~= orig.skip(i + 1));
        }
        let p = pairs.remove(0);
        let e = match entry_from_value(p.0, p.1) {
            Some(e) => e,
            None => {
                proof {
                    assert(!entry_ok(members[i].1));
                }
                return Err(Error::BadEntry);
            },
        };
        entries.push(e);
        proof {
            i = i + 1;
        }
    }
    proof {
        assert(i == orig.len());
        assert forall|a: int, b: int|
            0 <= a < b < entries@.len() implies entries@[a].name@ != entries@[b].name@ by {
            assert(members[a] == (orig[a].0@, model(orig[a].1)));
            assert(members[b] == (orig[b].0@, model(orig[b].1)));
            assert(entries@[a].name@ == members[a].0);
            assert(entries@[b].name@ == members[b].0);
        }
        lemma_dedup_unique(entries@);
    }
    let ghost built = entries@;
    let t = RegistryTable::from_entries(entries);
    proof {
        assert(t.entries@ == built);
    }
    Ok(t)
}

} // verus!
