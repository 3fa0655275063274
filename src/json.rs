use vstd::prelude::*;

use crate::text::{chars_of, push_char, strings_view};
use crate::value::HostValue;

verus! {

broadcast use {vstd::std_specs::vec::axiom_vec_index_decreases, vstd::seq::axiom_seq_index_decreases, vstd::std_specs::vec::axiom_vec_decreases_to_view};

/// A JSON value over plain values; object entries keep their order.
pub enum JsonModel {
    Null,
    Bool(bool),
    Number(serde_json::Number),
    Str(Seq<char>),
    Array(Seq<JsonModel>),
    Object(Seq<(Seq<char>, JsonModel)>),
}

impl HostValue {
    /// The value over plain values.
    pub open spec fn model(self) -> JsonModel
        decreases self,
    {
        match self {
            HostValue::Null => JsonModel::Null,
            HostValue::Bool(b) => JsonModel::Bool(b),
            HostValue::Number(n) => JsonModel::Number(n),
            HostValue::String(s) => JsonModel::Str(s@),
            HostValue::Array(a) => JsonModel::Array(
                Seq::new(
                    a@.len(),
                    |i: int|
                        if 0 <= i < a@.len() {
                            a@[i].model()
                        } else {
                            JsonModel::Null
                        },
                ),
            ),
            HostValue::Object(e) => JsonModel::Object(
                Seq::new(
                    e@.len(),
                    |i: int|
                        if 0 <= i < e@.len() {
                            (e@[i].0@, e@[i].1.model())
                        } else {
                            (Seq::empty(), JsonModel::Null)
                        },
                ),
            ),
        }
    }
}


/// Object entries over plain values.
pub type EntriesModel = Seq<(Seq<char>, JsonModel)>;

pub open spec fn entries_model(e: Seq<(String, HostValue)>) -> EntriesModel {
    Seq::new(e.len(), |i: int| (e[i].0@, e[i].1.model()))
}

/// The value under `k`; the first match wins.
pub open spec fn entry_lookup(e: EntriesModel, k: Seq<char>) -> Option<JsonModel>
    decreases e.len(),
{
    if e.len() == 0 {
        None
    } else if e[0].0 == k {
        Some(e[0].1)
    } else {
        entry_lookup(e.drop_first(), k)
    }
}

/// Sets the value under `k`: the first entry with that key keeps its place,
/// else the entry is appended.
pub open spec fn entry_upsert(e: EntriesModel, k: Seq<char>, v: JsonModel) -> EntriesModel
    decreases e.len(),
{
    if e.len() == 0 {
        seq![(k, v)]
    } else if e[0].0 == k {
        e.update(0, (k, v))
    } else {
        seq![e[0]] + entry_upsert(e.drop_first(), k, v)
    }
}

/// Sets `leaf` at the path `keys[idx..]` below the object with entries `e`.
/// Every node on the way must be an object; `Err(n)` names the first `n`
/// keys as the path to a node that is not.
pub open spec fn set_in(e: EntriesModel, keys: Seq<Seq<char>>, idx: nat, leaf: JsonModel) -> Result<
    EntriesModel,
    nat,
>
    decreases keys.len() - idx,
{
    if idx + 1 >= keys.len() {
        Ok(entry_upsert(e, keys[idx as int], leaf))
    } else {
        match entry_lookup(e, keys[idx as int]) {
            Some(JsonModel::Object(child)) => match set_in(child, keys, idx + 1, leaf) {
                Ok(c) => Ok(entry_upsert(e, keys[idx as int], JsonModel::Object(c))),
                Err(n) => Err(n),
            },
            _ => Err(idx + 1),
        }
    }
}

/// Sets `leaf` at the path `keys` in `root`; a null root counts as an empty object.
pub open spec fn set_path(root: JsonModel, keys: Seq<Seq<char>>, leaf: JsonModel) -> Result<
    JsonModel,
    nat,
> {
    let e = match root {
        JsonModel::Object(e) => Some(e),
        JsonModel::Null => Some(Seq::empty()),
        _ => None,
    };
    match e {
        None => Err(0),
        Some(e) => match set_in(e, keys, 0, leaf) {
            Ok(e2) => Ok(JsonModel::Object(e2)),
            Err(n) => Err(n),
        },
    }
}

/// The segments between slashes, empty ones left out.
pub open spec fn segments(s: Seq<char>, cur: Seq<char>) -> Seq<Seq<char>>
    decreases s.len(),
{
    let done = if cur.len() > 0 {
        seq![cur]
    } else {
        Seq::empty()
    };
    if s.len() == 0 {
        done
    } else if s[0] == '/' {
        done + segments(s.drop_first(), Seq::empty())
    } else {
        segments(s.drop_first(), cur.push(s[0]))
    }
}

/// The keys that a field name stands for: a name that starts with `/` is a
/// path of keys, any other name is one key.
pub open spec fn key_path(name: Seq<char>) -> Seq<Seq<char>> {
    if name.len() > 0 && name[0] == '/' {
        segments(name, Seq::empty())
    } else {
        seq![name]
    }
}

/// The keys joined by `/`.
pub open spec fn join_keys(ks: Seq<Seq<char>>) -> Seq<char>
    decreases ks.len(),
{
    if ks.len() == 0 {
        Seq::empty()
    } else if ks.len() == 1 {
        ks[0]
    } else {
        join_keys(ks.drop_last()) + "/"@ + ks.last()
    }
}

proof fn lemma_segments_step(s: Seq<char>, i: int, cur: Seq<char>)
    requires
        0 <= i < s.len(),
    ensures
        segments(s.skip(i), cur) == if s[i] == '/' {
            (if cur.len() > 0 {
                seq![cur]
            } else {
                Seq::empty()
            }) + segments(s.skip(i + 1), Seq::empty())
        } else {
            segments(s.skip(i + 1), cur.push(s[i]))
        },
{
    assert(s.skip(i).drop_first() =~= s.skip(i + 1));
}

/// The keys of a field name.
pub fn key_path_exec(name: &String) -> (r: Vec<String>)
    ensures
        strings_view(r@) == key_path(name@),
{
    let cs = chars_of(name);
    if cs.len() == 0 || cs[0] != '/' {
        let r = vec![name.clone()];
        assert(strings_view(r@) =~= key_path(name@));
        return r;
    }
    let mut out: Vec<String> = Vec::new();
    let mut cur = String::new();
    let mut i: usize = 0;
    assert(name@.skip(0) =~= name@);
    assert(strings_view(out@) + segments(name@, cur@) =~= segments(name@, Seq::empty()));
    while i < cs.len()
        invariant
            cs@ == name@,
            i <= cs@.len(),
            strings_view(out@) + segments(name@.skip(i as int), cur@) == segments(
                name@,
                Seq::empty(),
            ),
        decreases cs@.len() - i,
    {
        proof {
            lemma_segments_step(name@, i as int, cur@);
        }
        if cs[i] == '/' {
            if cur.as_str().unicode_len() > 0 {
                let ghost before = strings_view(out@);
                let ghost c = cur@;
                out.push(cur);
                assert(strings_view(out@) =~= before.push(c));
                assert(strings_view(out@) + segments(name@.skip(i + 1), Seq::empty()) =~= before + (
                seq![c] + segments(name@.skip(i + 1), Seq::empty())));
            } else {
                assert(strings_view(out@) + segments(name@.skip(i + 1), Seq::empty()) =~= strings_view(out@) + (Seq::<Seq<char>>::empty() + segments(name@.skip(i + 1), Seq::empty())));
            }
            cur = String::new();
        } else {
            push_char(&mut cur, cs[i]);
        }
        i = i + 1;
    }
    assert(name@.skip(i as int).len() == 0);
    if cur.as_str().unicode_len() > 0 {
        let ghost before = strings_view(out@);
        let ghost c = cur@;
        out.push(cur);
        assert(strings_view(out@) =~= before.push(c));
        assert(strings_view(out@) =~= segments(name@, Seq::empty()));
    } else {
        assert(strings_view(out@) =~= segments(name@, Seq::empty()));
    }
    out
}


proof fn lemma_lookup_at(e: EntriesModel, i: int, k: Seq<char>)
    requires
        0 <= i < e.len(),
        e[i].0 == k,
        forall|j: int| 0 <= j < i ==> e[j].0 != k,
    ensures
        entry_lookup(e, k) == Some(e[i].1),
        forall|v: JsonModel| entry_upsert(e, k, v) == e.update(i, (k, v)),
    decreases e.len(),
{
    if i > 0 {
        lemma_lookup_at(e.drop_first(), i - 1, k);
        assert(e[0].0 != k);
        assert forall|v: JsonModel| entry_upsert(e, k, v) == e.update(i, (k, v)) by {
            assert(entry_upsert(e.drop_first(), k, v) == e.drop_first().update(i - 1, (k, v)));
            assert(entry_upsert(e, k, v) =~= e.update(i, (k, v)));
        }
    }
}

proof fn lemma_lookup_none(e: EntriesModel, k: Seq<char>)
    requires
        forall|j: int| 0 <= j < e.len() ==> e[j].0 != k,
    ensures
        entry_lookup(e, k) is None,
        forall|v: JsonModel| entry_upsert(e, k, v) == e.push((k, v)),
    decreases e.len(),
{
    if e.len() > 0 {
        lemma_lookup_none(e.drop_first(), k);
        assert(e[0].0 != k);
        assert forall|v: JsonModel| entry_upsert(e, k, v) == e.push((k, v)) by {
            assert(entry_upsert(e.drop_first(), k, v) == e.drop_first().push((k, v)));
            assert(entry_upsert(e, k, v) =~= e.push((k, v)));
        }
    }
}

/// An object's model is the model of its entries.
pub proof fn lemma_object_model(e: Vec<(String, HostValue)>)
    ensures
        HostValue::Object(e).model() == JsonModel::Object(entries_model(e@)),
{
    let m = HostValue::Object(e).model();
    if let JsonModel::Object(s) = m {
        assert(s =~= entries_model(e@));
    }
}

/// The index of the first entry with key `k`, or the number of entries.
fn find_entry(e: &Vec<(String, HostValue)>, k: &String) -> (r: usize)
    ensures
        r <= e@.len(),
        forall|j: int| 0 <= j < r ==> entries_model(e@)[j].0 != k@,
        r < e@.len() ==> entries_model(e@)[r as int].0 == k@,
{
    let mut i: usize = 0;
    while i < e.len()
        invariant
            i <= e@.len(),
            forall|j: int| 0 <= j < i ==> entries_model(e@)[j].0 != k@,
        decreases e@.len() - i,
    {
        if e[i].0 == *k {
            return i;
        }
        i = i + 1;
    }
    i
}

proof fn lemma_set_in_bound(e: EntriesModel, keys: Seq<Seq<char>>, idx: nat, leaf: JsonModel)
    requires
        idx < keys.len(),
    ensures
        set_in(e, keys, idx, leaf) matches Err(n) ==> n <= keys.len(),
    decreases keys.len() - idx,
{
    if idx + 1 < keys.len() {
        if let Some(JsonModel::Object(child)) = entry_lookup(e, keys[idx as int]) {
            lemma_set_in_bound(child, keys, idx + 1, leaf);
        }
    }
}

/// Sets `leaf` at the path `keys[idx..]` below the object with entries `e`.
fn set_in_exec(e: Vec<(String, HostValue)>, keys: &Vec<String>, idx: usize, leaf: HostValue) -> (r:
    Result<Vec<(String, HostValue)>, usize>)
    requires
        idx < keys@.len(),
    ensures
        match set_in(entries_model(e@), strings_view(keys@), idx as nat, leaf.model()) {
            Ok(m) => r matches Ok(v) && entries_model(v@) == m,
            Err(n) => r matches Err(k) && k as nat == n,
        },
        r matches Err(n) ==> n <= keys@.len(),
    decreases keys@.len() - idx,
{
    proof {
        lemma_set_in_bound(entries_model(e@), strings_view(keys@), idx as nat, leaf.model());
    }
    let mut e = e;
    let ghost em = entries_model(e@);
    let ghost ks = strings_view(keys@);
    let key = &keys[idx];
    assert(ks[idx as int] == key@);
    let i = find_entry(&e, key);
    proof {
        if i < e@.len() {
            lemma_lookup_at(em, i as int, key@);
        } else {
            lemma_lookup_none(em, key@);
        }
    }
    let nkeys = keys.len();
    if idx + 1 == nkeys {
        let ghost lm = leaf.model();
        if i < e.len() {
            let (k, _old) = e.remove(i);
            e.insert(i, (k, leaf));
            assert(entries_model(e@) =~= em.update(i as int, (key@, lm)));
        } else {
            e.push((key.clone(), leaf));
            assert(entries_model(e@) =~= em.push((key@, lm)));
        }
        Ok(e)
    } else {
        if i < e.len() {
            let ghost child_m = em[i as int].1;
            let (k, child) = e.remove(i);
            assert(child.model() == child_m);
            match child {
                HostValue::Object(ce) => {
                    proof {
                        lemma_object_model(ce);
                    }
                    match set_in_exec(ce, keys, idx + 1, leaf) {
                        Ok(ce2) => {
                            let ghost nm = JsonModel::Object(entries_model(ce2@));
                            proof {
                                lemma_object_model(ce2);
                            }
                            let nv = HostValue::Object(ce2);
                            e.insert(i, (k, nv));
                            assert(entries_model(e@) =~= em.update(i as int, (key@, nm)));
                            Ok(e)
                        },
                        Err(n) => Err(n),
                    }
                },
                _ => Err(idx + 1),
            }
        } else {
            Err(idx + 1)
        }
    }
}

/// Sets `leaf` at the path `keys` in `root`; `Err(n)` names the first `n`
/// keys as the path to a node that is not an object.
pub fn set_path_exec(root: HostValue, keys: &Vec<String>, leaf: HostValue) -> (r: Result<
    HostValue,
    usize,
>)
    requires
        keys@.len() > 0,
    ensures
        match set_path(root.model(), strings_view(keys@), leaf.model()) {
            Ok(m) => r matches Ok(v) && v.model() == m,
            Err(n) => r matches Err(k) && k as nat == n,
        },
        r matches Err(n) ==> n <= keys@.len(),
{
    let e = match root {
        HostValue::Object(e) => {
            proof {
                lemma_object_model(e);
            }
            e
        },
        HostValue::Null => {
            let e: Vec<(String, HostValue)> = Vec::new();
            assert(entries_model(e@) =~= Seq::empty());
            e
        },
        _ => {
            return Err(0);
        },
    };
    match set_in_exec(e, keys, 0, leaf) {
        Ok(e2) => {
            proof {
                lemma_object_model(e2);
            }
            Ok(HostValue::Object(e2))
        },
        Err(n) => Err(n),
    }
}

/// The keys joined by `/`.
pub fn join_keys_exec(ks: &Vec<String>, n: usize) -> (r: String)
    requires
        n <= ks@.len(),
    ensures
        r@ == join_keys(strings_view(ks@).take(n as int)),
{
    let mut out = String::new();
    let mut i: usize = 0;
    while i < n
        invariant
            n <= ks@.len(),
            i <= n,
            out@ == join_keys(strings_view(ks@).take(i as int)),
        decreases n - i,
    {
        if i > 0 {
            out.append("/");
        }
        out.append(ks[i].as_str());
        let ghost t = strings_view(ks@).take(i + 1);
        assert(t.drop_last() =~= strings_view(ks@).take(i as int));
        i = i + 1;
    }
    out
}

/// The message for a path whose node is not an object.
pub open spec fn not_object_message(keys: Seq<Seq<char>>, n: nat) -> Seq<char> {
    "Field values on path '/"@ + join_keys(keys.take(n as int)) + "' isn't object"@
}

/// Puts `apikey` as a string at the field that `name` stands for in a parsed
/// JSON body.
pub fn set_api_key_in(parsed: HostValue, name: &String, apikey: &String) -> (r: Result<
    HostValue,
    String,
>)
    ensures
        ({
            let keys = key_path(name@);
            if keys.len() == 0 {
                r matches Err(m) && m@ == "Invalid field name '"@ + name@ + "'"@
            } else {
                match set_path(parsed.model(), keys, JsonModel::Str(apikey@)) {
                    Ok(v) => r matches Ok(h) && h.model() == v,
                    Err(n) => r matches Err(m) && m@ == not_object_message(keys, n),
                }
            }
        }),
{
    let keys = key_path_exec(name);
    if keys.len() == 0 {
        let mut m = String::from_str("Invalid field name '");
        m.append(name.as_str());
        m.append("'");
        return Err(m);
    }
    let leaf = HostValue::String(apikey.clone());
    assert(leaf.model() == JsonModel::Str(apikey@));
    assert(strings_view(keys@).len() == keys@.len());
    match set_path_exec(parsed, &keys, leaf) {
        Ok(v) => Ok(v),
        Err(n) => {
            let mut m = String::from_str("Field values on path '/");
            let joined = join_keys_exec(&keys, n);
            m.append(joined.as_str());
            m.append("' isn't object");
            Err(m)
        },
    }
}


// ---------------------------------------------------------------------------
// JSON text, through serde_json
// ---------------------------------------------------------------------------

#[verifier::external_type_specification]
#[verifier::external_body]
pub struct ExJsonValue(serde_json::Value);

/// What a `serde_json::Value` holds, over plain values.
pub uninterp spec fn json_model(v: serde_json::Value) -> JsonModel;

/// The value that serde_json reads from some bytes; `None` where it refuses them.
pub uninterp spec fn json_value_of(b: Seq<u8>) -> Option<JsonModel>;

/// The message of serde_json's error for bytes that it refuses.
pub uninterp spec fn json_error_of(b: Seq<u8>) -> Seq<char>;

/// The JSON text that serde_json writes for a value.
pub uninterp spec fn json_text_of(m: JsonModel) -> Seq<u8>;

/// Whether a number is held as a float.
pub uninterp spec fn number_is_float(n: serde_json::Number) -> bool;

/// Relies on `serde_json::Number::is_f64`.
pub assume_specification[ serde_json::Number::is_f64 ](n: &serde_json::Number) -> (r: bool)
    ensures
        r == number_is_float(*n),
;

/// Whether containers nest at most `d` deep.
pub open spec fn depth_within(m: JsonModel, d: nat) -> bool
    decreases d,
{
    match m {
        JsonModel::Array(items) => d > 0 && forall|i: int|
            0 <= i < items.len() ==> depth_within(#[trigger] items[i], (d - 1) as nat),
        JsonModel::Object(e) => d > 0 && forall|i: int|
            0 <= i < e.len() ==> depth_within(#[trigger] e[i].1, (d - 1) as nat),
        _ => true,
    }
}

/// Whether a value holds no float and nests at most `d` deep.
pub open spec fn plain_within(m: JsonModel, d: nat) -> bool
    decreases d,
{
    match m {
        JsonModel::Number(n) => !number_is_float(n),
        JsonModel::Array(items) => d > 0 && forall|i: int|
            0 <= i < items.len() ==> plain_within(#[trigger] items[i], (d - 1) as nat),
        JsonModel::Object(e) => d > 0 && forall|i: int|
            0 <= i < e.len() ==> plain_within(#[trigger] e[i].1, (d - 1) as nat),
        _ => true,
    }
}

/// The value as a JSON object map holds it: in each object, an entry of a
/// repeated key replaces the earlier one in its place.
pub open spec fn canonical(m: JsonModel) -> JsonModel
    decreases m, 0nat,
{
    match m {
        JsonModel::Array(items) => JsonModel::Array(canonical_items(items)),
        JsonModel::Object(e) => JsonModel::Object(upsert_all(Seq::empty(), canonical_entries(e))),
        _ => m,
    }
}

/// Each item made canonical.
pub open spec fn canonical_items(items: Seq<JsonModel>) -> Seq<JsonModel>
    decreases items, items.len(),
{
    if items.len() == 0 {
        Seq::empty()
    } else {
        canonical_items(items.subrange(0, items.len() - 1)).push(canonical(items[items.len() - 1]))
    }
}

/// Each entry's value made canonical.
pub open spec fn canonical_entries(e: EntriesModel) -> EntriesModel
    decreases e, e.len(),
{
    if e.len() == 0 {
        Seq::empty()
    } else {
        canonical_entries(e.subrange(0, e.len() - 1)).push(
            (e[e.len() - 1].0, canonical(e[e.len() - 1].1)),
        )
    }
}

proof fn lemma_canonical_items(items: Seq<JsonModel>)
    ensures
        canonical_items(items).len() == items.len(),
        forall|j: int| 0 <= j < items.len() ==> #[trigger] canonical_items(items)[j] == canonical(items[j]),
    decreases items.len(),
{
    if items.len() > 0 {
        lemma_canonical_items(items.subrange(0, items.len() - 1));
    }
}

proof fn lemma_canonical_entries(e: EntriesModel)
    ensures
        canonical_entries(e).len() == e.len(),
        forall|j: int|
            0 <= j < e.len() ==> #[trigger] canonical_entries(e)[j] == (e[j].0, canonical(e[j].1)),
    decreases e.len(),
{
    if e.len() > 0 {
        lemma_canonical_entries(e.subrange(0, e.len() - 1));
    }
}

/// Whether no object in the value repeats a key.
pub open spec fn unique_keys(m: JsonModel) -> bool
    decreases m,
{
    match m {
        JsonModel::Array(items) => forall|i: int|
            0 <= i < items.len() ==> unique_keys(#[trigger] items[i]),
        JsonModel::Object(e) => (forall|i: int, j: int|
            0 <= i < j < e.len() ==> #[trigger] e[i].0 != #[trigger] e[j].0) && forall|i: int|
            0 <= i < e.len() ==> unique_keys(#[trigger] e[i].1),
        _ => true,
    }
}

proof fn lemma_upsert_all_unique(e: EntriesModel)
    requires
        forall|i: int, j: int| 0 <= i < j < e.len() ==> #[trigger] e[i].0 != #[trigger] e[j].0,
    ensures
        upsert_all(Seq::empty(), e) == e,
    decreases e.len(),
{
    if e.len() > 0 {
        let p = e.drop_last();
        lemma_upsert_all_unique(p);
        assert forall|j: int| 0 <= j < p.len() implies p[j].0 != e.last().0 by {
            assert(p[j] == e[j]);
        }
        lemma_lookup_none(p, e.last().0);
        assert(p.push(e.last()) =~= e);
    }
}

/// A value whose objects repeat no key is its own canonical form, so that
/// writing it as JSON and reading it back gives it unchanged.
pub proof fn lemma_canonical_unique(m: JsonModel)
    requires
        unique_keys(m),
    ensures
        canonical(m) == m,
    decreases m,
{
    match m {
        JsonModel::Array(items) => {
            lemma_canonical_items(items);
            assert forall|j: int| 0 <= j < items.len() implies canonical(items[j]) == items[j] by {
                lemma_canonical_unique(items[j]);
            }
            assert(canonical_items(items) =~= items);
        },
        JsonModel::Object(e) => {
            lemma_canonical_entries(e);
            assert forall|j: int| 0 <= j < e.len() implies canonical(e[j].1) == e[j].1 by {
                lemma_canonical_unique(e[j].1);
            }
            assert(canonical_entries(e) =~= e);
            lemma_upsert_all_unique(e);
        },
        _ => {},
    }
}

/// The top level of a JSON value, with its children still in serde_json's form.
pub enum JsonNode {
    Null,
    Bool(bool),
    Number(serde_json::Number),
    String(String),
    Array(Vec<serde_json::Value>),
    Object(Vec<(String, serde_json::Value)>),
}

/// Whether `n` is the top level of a value with model `m`.
pub open spec fn node_of(n: JsonNode, m: JsonModel) -> bool {
    match (n, m) {
        (JsonNode::Null, JsonModel::Null) => true,
        (JsonNode::Bool(a), JsonModel::Bool(b)) => a == b,
        (JsonNode::Number(a), JsonModel::Number(b)) => a == b,
        (JsonNode::String(a), JsonModel::Str(b)) => a@ == b,
        (JsonNode::Array(a), JsonModel::Array(b)) => a@.len() == b.len() && forall|i: int|
            0 <= i < b.len() ==> json_model(#[trigger] a@[i]) == b[i],
        (JsonNode::Object(a), JsonModel::Object(b)) => a@.len() == b.len() && forall|i: int|
            0 <= i < b.len() ==> (#[trigger] a@[i]).0@ == b[i].0 && json_model(a@[i].1)
                == b[i].1,
        _ => false,
    }
}

/// Relies on `serde_json::from_slice` into a `Value`: it reads by the bytes
/// alone, and its recursion limit of 128 refuses deeper nesting. The error's
/// `Display` gives the message, which depends on the bytes alone.
#[verifier::external_body]
fn parse_json(b: &[u8]) -> (r: Result<serde_json::Value, String>)
    ensures
        r is Ok <==> json_value_of(b@) is Some,
        r matches Ok(v) ==> json_value_of(b@) == Some(json_model(v)) && depth_within(
            json_model(v),
            128,
        ),
        r matches Err(e) ==> e@ == json_error_of(b@),
{
    match serde_json::from_slice::<serde_json::Value>(b) {
        Ok(v) => Ok(v),
        Err(e) => Err(e.to_string()),
    }
}

/// Relies on the variants of `serde_json::Value`; a map's entries come out in
/// its order (the `preserve_order` feature).
#[verifier::external_body]
fn split_json(v: serde_json::Value) -> (r: JsonNode)
    ensures
        node_of(r, json_model(v)),
{
    match v {
        serde_json::Value::Null => JsonNode::Null,
        serde_json::Value::Bool(b) => JsonNode::Bool(b),
        serde_json::Value::Number(n) => JsonNode::Number(n),
        serde_json::Value::String(s) => JsonNode::String(s),
        serde_json::Value::Array(a) => JsonNode::Array(a),
        serde_json::Value::Object(m) => JsonNode::Object(m.into_iter().collect()),
    }
}

/// Relies on `serde_json::Value::Null`.
#[verifier::external_body]
fn json_null() -> (r: serde_json::Value)
    ensures
        json_model(r) == JsonModel::Null,
{
    serde_json::Value::Null
}

/// Relies on `serde_json::Value::Bool`.
#[verifier::external_body]
fn json_bool(b: bool) -> (r: serde_json::Value)
    ensures
        json_model(r) == JsonModel::Bool(b),
{
    serde_json::Value::Bool(b)
}

/// Relies on `serde_json::Value::Number`.
#[verifier::external_body]
fn json_number(n: serde_json::Number) -> (r: serde_json::Value)
    ensures
        json_model(r) == JsonModel::Number(n),
{
    serde_json::Value::Number(n)
}

/// Relies on `serde_json::Value::String`.
#[verifier::external_body]
fn json_string(s: String) -> (r: serde_json::Value)
    ensures
        json_model(r) == JsonModel::Str(s@),
{
    serde_json::Value::String(s)
}

/// Relies on `serde_json::Value::Array`.
#[verifier::external_body]
fn json_array(a: Vec<serde_json::Value>) -> (r: serde_json::Value)
    ensures
        json_model(r) == JsonModel::Array(Seq::new(a@.len(), |i: int| json_model(a@[i]))),
{
    serde_json::Value::Array(a)
}

/// Relies on `serde_json::Map`'s `FromIterator`, which inserts the entries in
/// turn and keeps the order of insertion (the `preserve_order` feature): a
/// repeated key replaces the value in its first place.
#[verifier::external_body]
fn json_object(e: Vec<(String, serde_json::Value)>) -> (r: serde_json::Value)
    ensures
        json_model(r) == JsonModel::Object(
            upsert_all(Seq::empty(), Seq::new(e@.len(), |i: int| (e@[i].0@, json_model(e@[i].1)))),
        ),
{
    serde_json::Value::Object(e.into_iter().collect())
}

/// Relies on `serde_json::to_vec` of a `Value`, which cannot fail: its keys
/// are strings and a `Vec` takes every write. Reading the text back gives the
/// value, where it holds no float (read back to nearest precision only) and
/// nests well below the recursion limit.
#[verifier::external_body]
fn json_to_bytes(v: &serde_json::Value) -> (r: Result<Vec<u8>, String>)
    ensures
        r is Ok,
        r matches Ok(t) ==> t@ == json_text_of(json_model(*v)),
        r matches Ok(t) ==> (plain_within(json_model(*v), 100) ==> json_value_of(t@) == Some(
            json_model(*v),
        )),
{
    match serde_json::to_vec(v) {
        Ok(b) => Ok(b),
        Err(e) => Err(e.to_string()),
    }
}

/// How deeply JSON containers may nest; serde_json refuses deeper text itself.
pub const MAX_DEPTH: usize = 128;

/// A parsed JSON value as a `HostValue`; `None` where it nests deeper than `depth`.
fn value_from_json(v: serde_json::Value, depth: usize) -> (r: Option<HostValue>)
    ensures
        r matches Some(h) ==> h.model() == json_model(v),
        depth_within(json_model(v), depth as nat) ==> r is Some,
    decreases depth,
{
    let ghost m = json_model(v);
    let node = split_json(v);
    match node {
        JsonNode::Null => Some(HostValue::Null),
        JsonNode::Bool(b) => Some(HostValue::Bool(b)),
        JsonNode::Number(n) => Some(HostValue::Number(n)),
        JsonNode::String(s) => Some(HostValue::String(s)),
        JsonNode::Array(a) => {
            if depth == 0 {
                return None;
            }
            let ghost items = m->Array_0;
            let ghost orig = a@;
            let n = a.len();
            let mut a = a;
            let mut rev: Vec<serde_json::Value> = Vec::new();
            while a.len() > 0
                invariant
                    n == orig.len(),
                    a@ == orig.take(a@.len() as int),
                    rev@.len() + a@.len() == n,
                    forall|j: int| 0 <= j < rev@.len() ==> rev@[j] == orig[n - 1 - j],
                decreases a@.len(),
            {
                let x = a.pop().unwrap();
                assert(a@ =~= orig.take(a@.len() as int));
                rev.push(x);
            }
            let mut out: Vec<HostValue> = Vec::new();
            while rev.len() > 0
                invariant
                    depth > 0,
                    n == orig.len(),
                    m == json_model(v),
                    m == JsonModel::Array(items),
                    items.len() == n,
                    forall|i: int| 0 <= i < n ==> json_model(#[trigger] orig[i]) == items[i],
                    rev@.len() + out@.len() == n,
                    forall|j: int| 0 <= j < rev@.len() ==> rev@[j] == orig[n - 1 - j],
                    forall|j: int| 0 <= j < out@.len() ==> (#[trigger] out@[j]).model() == items[j],
                    depth_within(m, depth as nat) ==> forall|j: int|
                        0 <= j < n ==> depth_within(#[trigger] items[j], (depth - 1) as nat),
                decreases rev@.len(),
            {
                let k = out.len();
                let x = rev.pop().unwrap();
                assert(x == orig[k as int]);
                assert(json_model(x) == items[k as int]);
                match value_from_json(x, depth - 1) {
                    Some(h) => out.push(h),
                    None => {
                        assert(!depth_within(m, depth as nat)) by {
                            if depth_within(m, depth as nat) {
                                assert(depth_within(items[k as int], (depth - 1) as nat));
                            }
                        }
                        return None;
                    },
                }
            }
            let r = HostValue::Array(out);
            proof {
                if let JsonModel::Array(x) = r.model() {
                    assert(x =~= items);
                }
            }
            Some(r)
        },
        JsonNode::Object(e) => {
            if depth == 0 {
                return None;
            }
            let ghost ents = m->Object_0;
            let ghost orig = e@;
            let n = e.len();
            let mut e = e;
            let mut rev: Vec<(String, serde_json::Value)> = Vec::new();
            while e.len() > 0
                invariant
                    n == orig.len(),
                    e@ == orig.take(e@.len() as int),
                    rev@.len() + e@.len() == n,
                    forall|j: int| 0 <= j < rev@.len() ==> rev@[j] == orig[n - 1 - j],
                decreases e@.len(),
            {
                let x = e.pop().unwrap();
                assert(e@ =~= orig.take(e@.len() as int));
                rev.push(x);
            }
            let mut out: Vec<(String, HostValue)> = Vec::new();
            while rev.len() > 0
                invariant
                    depth > 0,
                    n == orig.len(),
                    m == json_model(v),
                    m == JsonModel::Object(ents),
                    ents.len() == n,
                    forall|i: int|
                        0 <= i < n ==> (#[trigger] orig[i]).0@ == ents[i].0 && json_model(orig[i].1)
                            == ents[i].1,
                    rev@.len() + out@.len() == n,
                    forall|j: int| 0 <= j < rev@.len() ==> rev@[j] == orig[n - 1 - j],
                    forall|j: int|
                        0 <= j < out@.len() ==> (#[trigger] out@[j]).0@ == ents[j].0 && out@[j].1.model()
                            == ents[j].1,
                    depth_within(m, depth as nat) ==> forall|j: int|
                        0 <= j < n ==> depth_within(#[trigger] ents[j].1, (depth - 1) as nat),
                decreases rev@.len(),
            {
                let k = out.len();
                let (key, x) = rev.pop().unwrap();
                assert(orig[k as int] == (key, x));
                assert(json_model(x) == ents[k as int].1);
                match value_from_json(x, depth - 1) {
                    Some(h) => out.push((key, h)),
                    None => {
                        assert(!depth_within(m, depth as nat)) by {
                            if depth_within(m, depth as nat) {
                                assert(depth_within(ents[k as int].1, (depth - 1) as nat));
                            }
                        }
                        return None;
                    },
                }
            }
            proof {
                lemma_object_model(out);
                assert(entries_model(out@) =~= ents);
            }
            Some(HostValue::Object(out))
        },
    }
}

/// The value in serde_json's form.
fn value_to_json(v: &HostValue) -> (r: serde_json::Value)
    ensures
        json_model(r) == canonical(v.model()),
    decreases v,
{
    match v {
        HostValue::Null => json_null(),
        HostValue::Bool(b) => json_bool(*b),
        HostValue::Number(n) => json_number(n.clone()),
        HostValue::String(s) => json_string(s.clone()),
        HostValue::Array(a) => {
            let mut out: Vec<serde_json::Value> = Vec::new();
            let mut i: usize = 0;
            while i < a.len()
                invariant
                    *v == HostValue::Array(*a),
                    i <= a@.len(),
                    out@.len() == i,
                    forall|j: int|
                        0 <= j < i ==> json_model(#[trigger] out@[j]) == canonical(a@[j].model()),
                decreases a@.len() - i,
            {
                assert(decreases_to!(*v => (*v)->Array_0));
                assert(decreases_to!(*a => a@));
                assert(decreases_to!(a@ => a@[i as int]));
                out.push(value_to_json(&a[i]));
                i = i + 1;
            }
            let r = json_array(out);
            proof {
                let items = v.model()->Array_0;
                lemma_canonical_items(items);
                assert(Seq::new(out@.len(), |j: int| json_model(out@[j])) =~= canonical_items(items));
            }
            r
        },
        HostValue::Object(e) => {
            let mut out: Vec<(String, serde_json::Value)> = Vec::new();
            let mut i: usize = 0;
            while i < e.len()
                invariant
                    *v == HostValue::Object(*e),
                    i <= e@.len(),
                    out@.len() == i,
                    forall|j: int|
                        0 <= j < i ==> (#[trigger] out@[j]).0@ == e@[j].0@ && json_model(out@[j].1)
                            == canonical(e@[j].1.model()),
                decreases e@.len() - i,
            {
                assert(decreases_to!(*v => (*v)->Object_0));
                assert(decreases_to!(*e => e@));
                assert(decreases_to!(e@ => e@[i as int]));
                assert(decreases_to!(e@[i as int] => e@[i as int].1));
                out.push((e[i].0.clone(), value_to_json(&e[i].1)));
                i = i + 1;
            }
            let ghost inner = Seq::new(out@.len(), |j: int| (out@[j].0@, json_model(out@[j].1)));
            let r = json_object(out);
            proof {
                lemma_object_model(*e);
                let em = entries_model(e@);
                lemma_canonical_entries(em);
                assert(inner =~= canonical_entries(em));
            }
            r
        },
    }
}

/// Parses JSON text into a value.
pub fn decode_json(b: &[u8]) -> (r: Result<HostValue, String>)
    ensures
        r is Ok <==> json_value_of(b@) is Some,
        r matches Ok(h) ==> json_value_of(b@) == Some(h.model()),
        r matches Err(e) ==> e@ == json_error_of(b@),
{
    match parse_json(b) {
        Ok(v) => match value_from_json(v, MAX_DEPTH) {
            Some(h) => Ok(h),
            None => Err(String::from_str("JSON nests too deeply")),
        },
        Err(e) => Err(e),
    }
}

/// Writes a value as JSON text; object entries keep their order, and a
/// repeated key keeps its first place with its last value.
///
/// Reading the text back gives the value, where it holds no float and nests
/// at most a hundred deep.
pub fn encode_json(v: &HostValue) -> (r: Result<Vec<u8>, String>)
    ensures
        r matches Ok(t) && t@ == json_text_of(canonical(v.model())),
        plain_within(canonical(v.model()), 100) ==> json_value_of(r->Ok_0@) == Some(
            canonical(v.model()),
        ),
{
    json_to_bytes(&value_to_json(v))
}

/// A JSON body with an API key put in, or why it could not be.
pub enum BodyOutcome {
    Body(Vec<u8>),
    Failed(String),
}

/// What putting an API key into a JSON body gives, over plain values.
pub enum BodyModel {
    Body(Seq<u8>),
    Failed(Seq<char>),
}

/// The outcome of putting `apikey` at the field that `name` stands for in the
/// JSON text `body`.
pub open spec fn body_outcome(body: Seq<u8>, name: Seq<char>, apikey: Seq<char>) -> BodyModel {
    match json_value_of(body) {
        None => BodyModel::Failed("Failed to parse body: "@ + json_error_of(body)),
        Some(parsed) => {
            let keys = key_path(name);
            if keys.len() == 0 {
                BodyModel::Failed("Invalid field name '"@ + name + "'"@)
            } else {
                match set_path(parsed, keys, JsonModel::Str(apikey)) {
                    Ok(v) => BodyModel::Body(json_text_of(canonical(v))),
                    Err(n) => BodyModel::Failed(not_object_message(keys, n)),
                }
            }
        },
    }
}

/// Whether `r` is the outcome `m`.
pub open spec fn outcome_is(r: BodyOutcome, m: BodyModel) -> bool {
    match m {
        BodyModel::Body(t) => r matches BodyOutcome::Body(b) && b@ == t,
        BodyModel::Failed(msg) => r matches BodyOutcome::Failed(x) && x@ == msg,
    }
}

fn prefixed(prefix: &str, m: String) -> (r: String)
    ensures
        r@ == prefix@ + m@,
{
    let mut r = String::from_str(prefix);
    r.append(m.as_str());
    r
}

/// Parses `body` as JSON, puts `apikey` at the field that `name` stands for
/// and writes the JSON back.
pub fn inject_api_key(body: &Vec<u8>, name: &String, apikey: &String) -> (r: BodyOutcome)
    ensures
        outcome_is(r, body_outcome(body@, name@, apikey@)),
{
    match decode_json(body.as_slice()) {
        Err(e) => BodyOutcome::Failed(prefixed("Failed to parse body: ", e)),
        Ok(parsed) => match set_api_key_in(parsed, name, apikey) {
            Err(m) => BodyOutcome::Failed(m),
            Ok(v) => match encode_json(&v) {
                Ok(b) => BodyOutcome::Body(b),
                Err(e) => BodyOutcome::Failed(prefixed("Failed to serialize body: ", e)),
            },
        },
    }
}

/// A copy of a value.
pub fn clone_value(v: &HostValue) -> (r: HostValue)
    ensures
        r.model() == v.model(),
    decreases v,
{
    match v {
        HostValue::Null => HostValue::Null,
        HostValue::Bool(b) => HostValue::Bool(*b),
        HostValue::Number(n) => HostValue::Number(n.clone()),
        HostValue::String(s) => HostValue::String(s.clone()),
        HostValue::Array(a) => {
            let mut out: Vec<HostValue> = Vec::new();
            let mut i: usize = 0;
            while i < a.len()
                invariant
                    *v == HostValue::Array(*a),
                    i <= a@.len(),
                    out@.len() == i,
                    forall|j: int| 0 <= j < i ==> out@[j].model() == a@[j].model(),
                decreases a@.len() - i,
            {
                assert(decreases_to!(*v => (*v)->Array_0));
                assert(decreases_to!(*a => a@));
                assert(decreases_to!(a@ => a@[i as int]));
                out.push(clone_value(&a[i]));
                i = i + 1;
            }
            let r = HostValue::Array(out);
            proof {
                if let (JsonModel::Array(x), JsonModel::Array(y)) = (r.model(), v.model()) {
                    assert(x =~= y);
                }
            }
            r
        },
        HostValue::Object(e) => {
            let mut out: Vec<(String, HostValue)> = Vec::new();
            let mut i: usize = 0;
            while i < e.len()
                invariant
                    *v == HostValue::Object(*e),
                    i <= e@.len(),
                    out@.len() == i,
                    forall|j: int|
                        0 <= j < i ==> out@[j].0@ == e@[j].0@ && out@[j].1.model() == e@[j].1.model(),
                decreases e@.len() - i,
            {
                assert(decreases_to!(*v => (*v)->Object_0));
                assert(decreases_to!(*e => e@));
                assert(decreases_to!(e@ => e@[i as int]));
                assert(decreases_to!(e@[i as int] => e@[i as int].1));
                out.push((e[i].0.clone(), clone_value(&e[i].1)));
                i = i + 1;
            }
            let r = HostValue::Object(out);
            proof {
                if let (JsonModel::Object(x), JsonModel::Object(y)) = (r.model(), v.model()) {
                    assert(x =~= y);
                }
            }
            r
        },
    }
}


/// Sets the value under `k` in an object's entries: the first entry with that
/// key keeps its place, else the entry is appended.
pub fn object_upsert(e: &mut Vec<(String, HostValue)>, k: String, v: HostValue)
    ensures
        entries_model(final(e)@) == entry_upsert(entries_model(old(e)@), k@, v.model()),
{
    let ghost em = entries_model(e@);
    let ghost kk = k@;
    let ghost vm = v.model();
    let i = find_entry(e, &k);
    proof {
        if i < e@.len() {
            lemma_lookup_at(em, i as int, kk);
        } else {
            lemma_lookup_none(em, kk);
        }
    }
    if i < e.len() {
        let (old_k, _old_v) = e.remove(i);
        e.insert(i, (old_k, v));
        assert(entries_model(e@) =~= em.update(i as int, (kk, vm)));
    } else {
        e.push((k, v));
        assert(entries_model(e@) =~= em.push((kk, vm)));
    }
}

/// `e` with each entry of `more` set in turn.
pub open spec fn upsert_all(e: EntriesModel, more: EntriesModel) -> EntriesModel
    decreases more.len(),
{
    if more.len() == 0 {
        e
    } else {
        entry_upsert(upsert_all(e, more.drop_last()), more.last().0, more.last().1)
    }
}

} // verus!
