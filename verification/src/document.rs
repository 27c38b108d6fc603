use vstd::prelude::*;

use crate::config::{is_blank, spec_blank, FileConfig};
use crate::net::{IpAddress, SocketAddress};
use crate::text::{
    chars_of, extend_chars, join_chars, spec_char_lists, spec_join, spec_parse_unsigned, spec_trim,
    str_equal, string_from_chars,
};
use crate::ui::{parse_u64, spec_list_values, spec_unique_tag, string_list_value, unique_tag, Language};
use crate::text::spec_pieces;

verus! {

broadcast use vstd::string::group_string_axioms;

/// A JSON value as the configuration editor holds it. Integers that fit a
/// `u64` (every number of a valid configuration) are kept as integers; any
/// other number is kept as its JSON text.
pub enum JsonValue {
    Null,
    Bool(bool),
    Integer(u64),
    Number(String),
    Text(String),
    Array(Vec<JsonValue>),
    Object(Vec<JsonMember>),
}

/// One member of a JSON object.
pub struct JsonMember {
    pub key: String,
    pub value: JsonValue,
}

/// A JSON value as mathematics: texts as character sequences, an object
/// as its members in order.
pub enum JsonView {
    Null,
    Bool(bool),
    Integer(u64),
    Number(Seq<char>),
    Text(Seq<char>),
    Array(Seq<JsonView>),
    Object(Seq<(Seq<char>, JsonView)>),
}

impl JsonValue {
    pub open spec fn deep(self) -> JsonView
        decreases self,
    {
        match self {
            JsonValue::Null => JsonView::Null,
            JsonValue::Bool(b) => JsonView::Bool(b),
            JsonValue::Integer(n) => JsonView::Integer(n),
            JsonValue::Number(t) => JsonView::Number(t@),
            JsonValue::Text(t) => JsonView::Text(t@),
            JsonValue::Array(vs) => JsonView::Array(spec_elements(vs@)),
            JsonValue::Object(ms) => JsonView::Object(spec_members(ms@)),
        }
    }
}

/// The elements of an array as values.
pub open spec fn spec_elements(vs: Seq<JsonValue>) -> Seq<JsonView>
    decreases vs,
{
    Seq::new(
        vs.len(),
        |i: int|
            if 0 <= i < vs.len() {
                vs[i].deep()
            } else {
                JsonView::Null
            },
    )
}

/// The members of an object as values.
pub open spec fn spec_members(ms: Seq<JsonMember>) -> Seq<(Seq<char>, JsonView)>
    decreases ms,
{
    Seq::new(
        ms.len(),
        |i: int|
            if 0 <= i < ms.len() {
                (ms[i].key@, ms[i].value.deep())
            } else {
                (Seq::empty(), JsonView::Null)
            },
    )
}

/// The index of the first member named `key`.
#[verifier::opaque]
pub open spec fn spec_find(ms: Seq<(Seq<char>, JsonView)>, key: Seq<char>) -> Option<int> {
    if exists|i: int| 0 <= i < ms.len() && #[trigger] ms[i].0 == key {
        Some(
            choose|i: int|
                0 <= i < ms.len() && #[trigger] ms[i].0 == key && forall|j: int|
                    0 <= j < i ==> ms[j].0 != key,
        )
    } else {
        None
    }
}

/// The value of the member named `key`.
pub open spec fn spec_lookup(ms: Seq<(Seq<char>, JsonView)>, key: Seq<char>) -> Option<JsonView> {
    match spec_find(ms, key) {
        Some(i) => Some(ms[i].1),
        None => None,
    }
}

/// The object with `key` set to `v`: in place where the member exists,
/// else appended.
pub open spec fn spec_insert(ms: Seq<(Seq<char>, JsonView)>, key: Seq<char>, v: JsonView) -> Seq<
    (Seq<char>, JsonView),
> {
    match spec_find(ms, key) {
        Some(i) => ms.update(i, (key, v)),
        None => ms.push((key, v)),
    }
}

/// The object without the member named `key`.
pub open spec fn spec_remove(ms: Seq<(Seq<char>, JsonView)>, key: Seq<char>) -> Seq<
    (Seq<char>, JsonView),
> {
    match spec_find(ms, key) {
        Some(i) => ms.remove(i),
        None => ms,
    }
}

/// The object with `key` added as `v` where it is missing.
pub open spec fn spec_entry_or(ms: Seq<(Seq<char>, JsonView)>, key: Seq<char>, v: JsonView) -> Seq<
    (Seq<char>, JsonView),
> {
    match spec_find(ms, key) {
        Some(_) => ms,
        None => ms.push((key, v)),
    }
}

proof fn lemma_find_first(ms: Seq<(Seq<char>, JsonView)>, key: Seq<char>, i: int)
    requires
        0 <= i < ms.len(),
        ms[i].0 == key,
        forall|j: int| 0 <= j < i ==> ms[j].0 != key,
    ensures
        spec_find(ms, key) == Some(i),
{
    reveal(spec_find);
    let c = choose|c: int|
        0 <= c < ms.len() && #[trigger] ms[c].0 == key && forall|j: int| 0 <= j < c ==> ms[j].0 != key;
    assert(0 <= c < ms.len() && ms[c].0 == key && forall|j: int| 0 <= j < c ==> ms[j].0 != key);
    if c < i {
        assert(ms[c].0 != key);
    }
    if i < c {
        assert(ms[i].0 != key);
    }
}

/// What `spec_find` gives, in the terms a proof uses.
pub proof fn lemma_find(ms: Seq<(Seq<char>, JsonView)>, key: Seq<char>)
    ensures
        spec_find(ms, key) matches Some(i) ==> 0 <= i < ms.len() && ms[i].0 == key && forall|j: int|
            0 <= j < i ==> ms[j].0 != key,
        spec_find(ms, key) is None ==> forall|j: int| 0 <= j < ms.len() ==> ms[j].0 != key,
{
    reveal(spec_find);
    if exists|i: int| 0 <= i < ms.len() && #[trigger] ms[i].0 == key {
        let w = choose|i: int| 0 <= i < ms.len() && #[trigger] ms[i].0 == key;
        lemma_first_exists(ms, key, w);
    }
}

proof fn lemma_first_exists(ms: Seq<(Seq<char>, JsonView)>, key: Seq<char>, w: int)
    requires
        0 <= w < ms.len(),
        ms[w].0 == key,
    ensures
        exists|i: int|
            0 <= i < ms.len() && #[trigger] ms[i].0 == key && forall|j: int|
                0 <= j < i ==> ms[j].0 != key,
    decreases w,
{
    if exists|j: int| 0 <= j < w && ms[j].0 == key {
        let j = choose|j: int| 0 <= j < w && ms[j].0 == key;
        lemma_first_exists(ms, key, j);
    } else {
        assert(0 <= w < ms.len() && ms[w].0 == key && forall|j: int| 0 <= j < w ==> ms[j].0 != key);
    }
}

/// The index of the first member named `key`.
pub fn find_member(ms: &Vec<JsonMember>, key: &str) -> (r: Option<usize>)
    ensures
        match r {
            Some(i) => spec_find(spec_members(ms@), key@) == Some(i as int),
            None => spec_find(spec_members(ms@), key@) is None,
        },
{
    let ghost v = spec_members(ms@);
    let mut i: usize = 0;
    while i < ms.len()
        invariant
            i <= ms@.len(),
            v == spec_members(ms@),
            forall|j: int| 0 <= j < i ==> v[j].0 != key@,
        decreases ms@.len() - i,
    {
        if str_equal(ms[i].key.as_str(), key) {
            proof {
                lemma_find_first(v, key@, i as int);
            }
            return Some(i);
        }
        i += 1;
    }
    proof {
        lemma_find(v, key@);
    }
    None
}

/// Sets the member named `key` to `value`.
pub fn insert_member(ms: &mut Vec<JsonMember>, key: &str, value: JsonValue)
    ensures
        spec_members(final(ms)@) == spec_insert(spec_members(old(ms)@), key@, value.deep()),
{
    let ghost before = spec_members(ms@);
    let ghost dv = value.deep();
    match find_member(ms, key) {
        Some(i) => {
            proof {
                lemma_find(before, key@);
            }
            let m = ms.remove(i);
            ms.insert(i, JsonMember { key: m.key, value });
            proof {
                assert(spec_members(ms@) =~= before.update(i as int, (key@, dv)));
            }
        },
        None => {
            ms.push(JsonMember { key: key.to_owned(), value });
            proof {
                assert(spec_members(ms@) =~= before.push((key@, dv)));
            }
        },
    }
}

/// Removes the member named `key`, if there is one.
pub fn remove_member(ms: &mut Vec<JsonMember>, key: &str)
    ensures
        spec_members(final(ms)@) == spec_remove(spec_members(old(ms)@), key@),
{
    let ghost before = spec_members(ms@);
    if let Some(i) = find_member(ms, key) {
        proof {
            lemma_find(before, key@);
        }
        ms.remove(i);
        proof {
            assert(spec_members(ms@) =~= before.remove(i as int));
        }
    }
}

/// Adds the member `key` as `value` where it is missing.
pub fn entry_or_insert(ms: &mut Vec<JsonMember>, key: &str, value: JsonValue)
    ensures
        spec_members(final(ms)@) == spec_entry_or(spec_members(old(ms)@), key@, value.deep()),
{
    let ghost before = spec_members(ms@);
    let ghost dv = value.deep();
    if find_member(ms, key).is_none() {
        ms.push(JsonMember { key: key.to_owned(), value });
        proof {
            assert(spec_members(ms@) =~= before.push((key@, dv)));
        }
    }
}

/// Setting a member leaves every other member's value as it was.
pub proof fn lemma_lookup_insert(
    ms: Seq<(Seq<char>, JsonView)>,
    key: Seq<char>,
    v: JsonView,
    other: Seq<char>,
)
    ensures
        spec_lookup(spec_insert(ms, key, v), other) == if other == key {
            Some(v)
        } else {
            spec_lookup(ms, other)
        },
{
    let n = spec_insert(ms, key, v);
    lemma_find(ms, key);
    lemma_find(ms, other);
    lemma_find(n, other);
    match spec_find(ms, key) {
        Some(i) => {
            assert(forall|j: int| 0 <= j < ms.len() ==> n[j].0 == ms[j].0);
            if other == key {
                lemma_find_first(n, key, i);
            } else {
                if let Some(j) = spec_find(ms, other) {
                    lemma_find_first(n, other, j);
                }
            }
        },
        None => {
            assert(forall|j: int| 0 <= j < ms.len() ==> n[j] == ms[j]);
            if other == key {
                lemma_find_first(n, key, ms.len() as int);
            } else {
                if let Some(j) = spec_find(ms, other) {
                    lemma_find_first(n, other, j);
                }
            }
        },
    }
}

/// Removing a member leaves every other member's value as it was.
pub proof fn lemma_lookup_remove(ms: Seq<(Seq<char>, JsonView)>, key: Seq<char>, other: Seq<char>)
    requires
        other != key,
    ensures
        spec_lookup(spec_remove(ms, key), other) == spec_lookup(ms, other),
{
    lemma_find(ms, key);
    lemma_find(ms, other);
    if let Some(i) = spec_find(ms, key) {
        let n = ms.remove(i);
        lemma_find(n, other);
        match spec_find(ms, other) {
            Some(j) => {
                if j < i {
                    assert(n[j] == ms[j]);
                    lemma_find_first(n, other, j);
                } else {
                    assert(n[j - 1] == ms[j]);
                    assert forall|t: int| 0 <= t < j - 1 implies n[t].0 != other by {
                        if t < i {
                            assert(n[t] == ms[t]);
                        } else {
                            assert(n[t] == ms[t + 1]);
                        }
                    }
                    lemma_find_first(n, other, j - 1);
                }
            },
            None => {
                assert forall|t: int| 0 <= t < n.len() implies n[t].0 != other by {
                    if t < i {
                        assert(n[t] == ms[t]);
                    } else {
                        assert(n[t] == ms[t + 1]);
                    }
                }
            },
        }
    }
}

/// Adding a missing member leaves every other member's value as it was.
pub proof fn lemma_lookup_entry_or(
    ms: Seq<(Seq<char>, JsonView)>,
    key: Seq<char>,
    v: JsonView,
    other: Seq<char>,
)
    ensures
        spec_lookup(spec_entry_or(ms, key, v), other) == if other == key {
            match spec_lookup(ms, key) {
                Some(old) => Some(old),
                None => Some(v),
            }
        } else {
            spec_lookup(ms, other)
        },
{
    lemma_find(ms, key);
    if spec_find(ms, key) is None {
        lemma_lookup_insert(ms, key, v, other);
    }
}

/// Setting a member twice is setting it to the second value.
pub proof fn lemma_insert_twice(
    ms: Seq<(Seq<char>, JsonView)>,
    key: Seq<char>,
    v1: JsonView,
    v2: JsonView,
)
    ensures
        spec_insert(spec_insert(ms, key, v1), key, v2) == spec_insert(ms, key, v2),
{
    let n = spec_insert(ms, key, v1);
    lemma_find(ms, key);
    match spec_find(ms, key) {
        Some(i) => {
            assert(forall|j: int| 0 <= j < ms.len() ==> n[j].0 == ms[j].0);
            lemma_find_first(n, key, i);
            assert(spec_insert(n, key, v2) =~= spec_insert(ms, key, v2));
        },
        None => {
            lemma_find_first(n, key, ms.len() as int);
            assert(spec_insert(n, key, v2) =~= spec_insert(ms, key, v2));
        },
    }
}

/// The members of the object under `key`; none where it is missing.
pub open spec fn spec_child_object(ms: Seq<(Seq<char>, JsonView)>, key: Seq<char>) -> Seq<
    (Seq<char>, JsonView),
> {
    match spec_lookup(ms, key) {
        Some(JsonView::Object(c)) => c,
        _ => Seq::empty(),
    }
}

/// The elements of the array under `key`; none where it is missing.
pub open spec fn spec_child_array(ms: Seq<(Seq<char>, JsonView)>, key: Seq<char>) -> Seq<JsonView> {
    match spec_lookup(ms, key) {
        Some(JsonView::Array(a)) => a,
        _ => Seq::empty(),
    }
}

/// The member `key` is an object or missing.
pub open spec fn spec_object_or_absent(ms: Seq<(Seq<char>, JsonView)>, key: Seq<char>) -> bool {
    match spec_lookup(ms, key) {
        None => true,
        Some(JsonView::Object(_)) => true,
        _ => false,
    }
}

/// The member `key` is an array or missing.
pub open spec fn spec_array_or_absent(ms: Seq<(Seq<char>, JsonView)>, key: Seq<char>) -> bool {
    match spec_lookup(ms, key) {
        None => true,
        Some(JsonView::Array(_)) => true,
        _ => false,
    }
}

/// The members of the element at `index`, where it is an object.
pub open spec fn spec_element_object(a: Seq<JsonView>, index: int) -> Option<
    Seq<(Seq<char>, JsonView)>,
> {
    if 0 <= index < a.len() {
        match a[index] {
            JsonView::Object(o) => Some(o),
            _ => None,
        }
    } else {
        None
    }
}

proof fn lemma_empty_members()
    ensures
        spec_members(Seq::<JsonMember>::empty()) == Seq::<(Seq<char>, JsonView)>::empty(),
        spec_elements(Seq::<JsonValue>::empty()) == Seq::<JsonView>::empty(),
{
    assert(spec_members(Seq::<JsonMember>::empty()) =~= Seq::<(Seq<char>, JsonView)>::empty());
    assert(spec_elements(Seq::<JsonValue>::empty()) =~= Seq::<JsonView>::empty());
}

/// Takes the object under `key` out, leaving an empty one in its place (or
/// adding one where it was missing).
fn take_child_object(ms: &mut Vec<JsonMember>, key: &str) -> (r: Vec<JsonMember>)
    requires
        spec_object_or_absent(spec_members(old(ms)@), key@),
    ensures
        spec_members(r@) == spec_child_object(spec_members(old(ms)@), key@),
        spec_members(final(ms)@) == spec_insert(
            spec_members(old(ms)@),
            key@,
            JsonView::Object(Seq::empty()),
        ),
{
    let ghost before = spec_members(ms@);
    proof {
        lemma_empty_members();
        lemma_find(before, key@);
    }
    match find_member(ms, key) {
        Some(i) => {
            let m = ms.remove(i);
            let JsonMember { key: k, value } = m;
            ms.insert(i, JsonMember { key: k, value: JsonValue::Object(Vec::new()) });
            proof {
                assert(spec_members(ms@) =~= before.update(
                    i as int,
                    (key@, JsonView::Object(Seq::empty())),
                ));
            }
            match value {
                JsonValue::Object(c) => c,
                _ => {
                    assert(false);
                    Vec::new()
                },
            }
        },
        None => {
            ms.push(JsonMember { key: key.to_owned(), value: JsonValue::Object(Vec::new()) });
            proof {
                assert(spec_members(ms@) =~= before.push((key@, JsonView::Object(Seq::empty()))));
            }
            Vec::new()
        },
    }
}

/// Takes the array under `key` out, leaving an empty one in its place (or
/// adding one where it was missing).
fn take_child_array(ms: &mut Vec<JsonMember>, key: &str) -> (r: Vec<JsonValue>)
    requires
        spec_array_or_absent(spec_members(old(ms)@), key@),
    ensures
        spec_elements(r@) == spec_child_array(spec_members(old(ms)@), key@),
        spec_members(final(ms)@) == spec_insert(
            spec_members(old(ms)@),
            key@,
            JsonView::Array(Seq::empty()),
        ),
{
    let ghost before = spec_members(ms@);
    proof {
        lemma_empty_members();
        lemma_find(before, key@);
    }
    match find_member(ms, key) {
        Some(i) => {
            let m = ms.remove(i);
            let JsonMember { key: k, value } = m;
            ms.insert(i, JsonMember { key: k, value: JsonValue::Array(Vec::new()) });
            proof {
                assert(spec_members(ms@) =~= before.update(
                    i as int,
                    (key@, JsonView::Array(Seq::empty())),
                ));
            }
            match value {
                JsonValue::Array(c) => c,
                _ => {
                    assert(false);
                    Vec::new()
                },
            }
        },
        None => {
            ms.push(JsonMember { key: key.to_owned(), value: JsonValue::Array(Vec::new()) });
            proof {
                assert(spec_members(ms@) =~= before.push((key@, JsonView::Array(Seq::empty()))));
            }
            Vec::new()
        },
    }
}

/// Takes the object at `index` out of an array, leaving an empty object in
/// its place; nothing where there is no object there.
fn take_element_object(vs: &mut Vec<JsonValue>, index: usize) -> (r: Option<Vec<JsonMember>>)
    ensures
        match spec_element_object(spec_elements(old(vs)@), index as int) {
            Some(o) => r matches Some(ms) && spec_members(ms@) == o && spec_elements(final(vs)@)
                == spec_elements(old(vs)@).update(index as int, JsonView::Object(Seq::empty())),
            None => r is None && final(vs)@ == old(vs)@,
        },
{
    let ghost before = spec_elements(vs@);
    proof {
        lemma_empty_members();
    }
    if index >= vs.len() {
        return None;
    }
    let is_object = match &vs[index] {
        JsonValue::Object(_) => true,
        _ => false,
    };
    if !is_object {
        return None;
    }
    let value = vs.remove(index);
    vs.insert(index, JsonValue::Object(Vec::new()));
    proof {
        assert(spec_elements(vs@) =~= before.update(index as int, JsonView::Object(Seq::empty())));
    }
    match value {
        JsonValue::Object(ms) => Some(ms),
        _ => {
            assert(false);
            None
        },
    }
}

/// Puts an object at `index` of an array.
fn put_element(vs: &mut Vec<JsonValue>, index: usize, value: JsonValue)
    requires
        index < old(vs)@.len(),
    ensures
        spec_elements(final(vs)@) == spec_elements(old(vs)@).update(index as int, value.deep()),
{
    let ghost before = spec_elements(vs@);
    let ghost dv = value.deep();
    vs.remove(index);
    vs.insert(index, value);
    proof {
        assert(spec_elements(vs@) =~= before.update(index as int, dv));
    }
}

/// The object under `child` with `key` set to `v` (the object is created
/// where it was missing).
pub open spec fn spec_set_child_member(
    ms: Seq<(Seq<char>, JsonView)>,
    child: Seq<char>,
    key: Seq<char>,
    v: JsonView,
) -> Seq<(Seq<char>, JsonView)> {
    spec_insert(ms, child, JsonView::Object(spec_insert(spec_child_object(ms, child), key, v)))
}

/// The root after editing the object at `index` of the array under `key`
/// with `f` (the array is created where it was missing; nothing else changes
/// where there is no object at `index`).
pub open spec fn spec_edit_element(
    root: Seq<(Seq<char>, JsonView)>,
    key: Seq<char>,
    index: int,
    f: spec_fn(Seq<(Seq<char>, JsonView)>) -> Seq<(Seq<char>, JsonView)>,
) -> Seq<(Seq<char>, JsonView)> {
    let a = spec_child_array(root, key);
    match spec_element_object(a, index) {
        Some(o) => spec_insert(root, key, JsonView::Array(a.update(index, JsonView::Object(f(o))))),
        None => spec_insert(root, key, JsonView::Array(a)),
    }
}

/// Sets `key` in the object under `child`.
fn set_child_member(ms: &mut Vec<JsonMember>, child: &str, key: &str, value: JsonValue)
    requires
        spec_object_or_absent(spec_members(old(ms)@), child@),
    ensures
        spec_members(final(ms)@) == spec_set_child_member(
            spec_members(old(ms)@),
            child@,
            key@,
            value.deep(),
        ),
{
    let ghost before = spec_members(ms@);
    let mut c = take_child_object(ms, child);
    insert_member(&mut c, key, value);
    let ghost cv = spec_members(c@);
    insert_member(ms, child, JsonValue::Object(c));
    proof {
        lemma_insert_twice(before, child@, JsonView::Object(Seq::empty()), JsonView::Object(cv));
    }
}

/// Opens the object at `index` of the array under `key`: the array comes
/// out (an empty one stands in its place), and so do the object's members
/// (an empty object stands in their place) where there is an object there.
fn open_element(root: &mut Vec<JsonMember>, key: &str, index: usize) -> (r: (
    Vec<JsonValue>,
    Option<Vec<JsonMember>>,
))
    requires
        spec_array_or_absent(spec_members(old(root)@), key@),
    ensures
        spec_members(final(root)@) == spec_insert(
            spec_members(old(root)@),
            key@,
            JsonView::Array(Seq::empty()),
        ),
        match spec_element_object(spec_child_array(spec_members(old(root)@), key@), index as int) {
            Some(o) => r.1 matches Some(ms) && spec_members(ms@) == o && spec_elements(r.0@)
                == spec_child_array(spec_members(old(root)@), key@).update(
                index as int,
                JsonView::Object(Seq::empty()),
            ),
            None => r.1 is None && spec_elements(r.0@) == spec_child_array(
                spec_members(old(root)@),
                key@,
            ),
        },
{
    let mut a = take_child_array(root, key);
    let taken = take_element_object(&mut a, index);
    (a, taken)
}

/// Puts an array back under `key`.
fn close_array(root: &mut Vec<JsonMember>, key: &str, a: Vec<JsonValue>)
    ensures
        spec_members(final(root)@) == spec_insert(
            spec_members(old(root)@),
            key@,
            JsonView::Array(spec_elements(a@)),
        ),
{
    insert_member(root, key, JsonValue::Array(a));
}

/// The keys of the arrays the editor edits.
pub open spec fn spec_array_key(key: Seq<char>) -> bool {
    key == "layers"@ || key == "rule_sets"@ || key == "plugins"@
}

proof fn lemma_root_keys()
    ensures
        "listener"@ != "cloudflare"@,
        "listener"@ != "layers"@,
        "listener"@ != "rule_sets"@,
        "listener"@ != "plugins"@,
        "cloudflare"@ != "layers"@,
        "cloudflare"@ != "rule_sets"@,
        "cloudflare"@ != "plugins"@,
        "layers"@ != "rule_sets"@,
        "layers"@ != "plugins"@,
        "rule_sets"@ != "plugins"@,
{
    reveal_strlit("listener");
    reveal_strlit("cloudflare");
    reveal_strlit("layers");
    reveal_strlit("rule_sets");
    reveal_strlit("plugins");
    assert("listener"@.len() == 8);
    assert("cloudflare"@.len() == 10);
    assert("layers"@.len() == 6);
    assert("rule_sets"@.len() == 9);
    assert("plugins"@.len() == 7);
}

/// A configuration being edited: its JSON root object, the outcome of the
/// last check of that object as a configuration, and whether it has
/// changed since it was loaded or saved. An edit marks the document
/// changed; the caller checks the edited object again and records the
/// outcome with `revalidate`.
pub struct ConfigDocument {
    config_path: String,
    root: Vec<JsonMember>,
    validated: Option<FileConfig>,
    validation_error: Option<String>,
    dirty: bool,
}

impl ConfigDocument {
    pub closed spec fn spec_root(&self) -> Seq<(Seq<char>, JsonView)> {
        spec_members(self.root@)
    }

    pub closed spec fn spec_path(&self) -> Seq<char> {
        self.config_path@
    }

    pub closed spec fn spec_dirty(&self) -> bool {
        self.dirty
    }

    /// The message of the last check, where it failed.
    pub closed spec fn spec_error(&self) -> Option<Seq<char>> {
        match self.validation_error {
            Some(e) => Some(e@),
            None => None,
        }
    }

    /// The listener of the last configuration that passed the check.
    pub closed spec fn spec_listener(&self) -> Option<SocketAddress> {
        match self.validated {
            Some(c) => Some(c.listener.address),
            None => None,
        }
    }

    /// A document from a parsed root object and the outcome of checking it
    /// as a configuration; one that fails the check is refused with the
    /// check's message.
    pub fn from_parsed(config_path: String, root: Vec<JsonMember>, check: Result<FileConfig, String>) -> (r:
        Result<ConfigDocument, String>)
        ensures
            match check {
                Ok(c) => r matches Ok(d) && d.spec_root() == spec_members(root@)
                    && !d.spec_dirty() && d.spec_error() is None && d.spec_listener() == Some(
                    c.listener.address,
                ) && d.spec_path() == config_path@,
                Err(e) => r matches Err(m) && m@ == e@,
            },
    {
        match check {
            Ok(c) => Ok(
                ConfigDocument {
                    config_path,
                    root,
                    validated: Some(c),
                    validation_error: None,
                    dirty: false,
                },
            ),
            Err(e) => Err(e),
        }
    }

    /// Records a fresh check of the current root as a configuration.
    pub fn revalidate(&mut self, check: Result<FileConfig, String>)
        ensures
            final(self).spec_root() == old(self).spec_root(),
            final(self).spec_dirty() == old(self).spec_dirty(),
            final(self).spec_path() == old(self).spec_path(),
            match check {
                Ok(c) => final(self).spec_error() is None && final(self).spec_listener() == Some(
                    c.listener.address,
                ),
                Err(e) => final(self).spec_error() == Some(e@) && final(self).spec_listener() is None,
            },
    {
        match check {
            Ok(c) => {
                self.validated = Some(c);
                self.validation_error = None;
            },
            Err(e) => {
                self.validated = None;
                self.validation_error = Some(e);
            },
        }
    }

    /// The document was written out: it is no longer a draft.
    pub fn mark_saved(&mut self)
        ensures
            final(self).spec_root() == old(self).spec_root(),
            !final(self).spec_dirty(),
            final(self).spec_error() == old(self).spec_error(),
            final(self).spec_listener() == old(self).spec_listener(),
            final(self).spec_path() == old(self).spec_path(),
    {
        self.dirty = false;
    }

    /// The root object's members, for writing the document out.
    pub fn root(&self) -> (r: &Vec<JsonMember>)
        ensures
            spec_members(r@) == self.spec_root(),
    {
        &self.root
    }

    /// The file the document is loaded from and saved to.
    pub fn config_path(&self) -> (r: &str)
        ensures
            r@ == self.spec_path(),
    {
        self.config_path.as_str()
    }

    /// Points the document at another file.
    pub fn set_config_path(&mut self, path: String)
        ensures
            final(self).spec_path() == path@,
            final(self).spec_root() == old(self).spec_root(),
            final(self).spec_dirty() == old(self).spec_dirty(),
            final(self).spec_error() == old(self).spec_error(),
            final(self).spec_listener() == old(self).spec_listener(),
    {
        self.config_path = path;
    }

    pub fn is_valid(&self) -> (r: bool)
        ensures
            r == (self.spec_error() is None),
    {
        self.validation_error.is_none()
    }

    pub fn is_dirty(&self) -> (r: bool)
        ensures
            r == self.spec_dirty(),
    {
        self.dirty
    }

    /// The checked listener address; 127.0.0.1:53 where the document has
    /// not passed the check.
    pub fn listener_address(&self) -> (r: SocketAddress)
        ensures
            r == match self.spec_listener() {
                Some(a) => a,
                None => SocketAddress { ip: IpAddress::V4(0x7f00_0001), port: 53 },
            },
    {
        match &self.validated {
            Some(c) => c.listener.address,
            None => SocketAddress { ip: IpAddress::V4(0x7f00_0001), port: 53 },
        }
    }

    /// One line on the state of the document.
    pub fn validation_summary(&self, language: Language) -> (r: String)
        ensures
            r@ == match self.spec_error() {
                Some(e) => language.spec_text("Schema invalid"@) + ": "@ + e,
                None => if self.spec_dirty() {
                    "Valid draft, not saved"@
                } else {
                    "Valid and saved"@
                },
            },
    {
        match &self.validation_error {
            Some(e) => {
                let mut out = chars_of(language.text("Schema invalid"));
                let sep = chars_of(": ");
                extend_chars(&mut out, sep.as_slice());
                let detail = chars_of(e.as_str());
                extend_chars(&mut out, detail.as_slice());
                string_from_chars(&out)
            },
            None => if self.dirty {
                "Valid draft, not saved".to_owned()
            } else {
                "Valid and saved".to_owned()
            },
        }
    }
}

/// A form field read as a whole number, as `parse_u64` reads it.
pub open spec fn spec_number(value: Seq<char>) -> Option<u64> {
    match spec_parse_unsigned(spec_trim(value), u64::MAX as nat) {
        Some(v) => Some(v as u64),
        None => None,
    }
}

impl ConfigDocument {
    /// This document is `old` with the root `root`, marked changed where
    /// `changed` holds; the check's outcome is left as it was until the
    /// next `revalidate`.
    pub open spec fn spec_edited(
        &self,
        old: ConfigDocument,
        root: Seq<(Seq<char>, JsonView)>,
        changed: bool,
    ) -> bool {
        &&& self.spec_root() == root
        &&& self.spec_dirty() == (old.spec_dirty() || changed)
        &&& self.spec_error() == old.spec_error()
        &&& self.spec_listener() == old.spec_listener()
        &&& self.spec_path() == old.spec_path()
    }

    pub fn set_listener_address(&mut self, value: String)
        requires
            spec_object_or_absent(old(self).spec_root(), "listener"@),
        ensures
            final(self).spec_edited(
                *old(self),
                spec_set_child_member(
                    old(self).spec_root(),
                    "listener"@,
                    "address"@,
                    JsonView::Text(value@),
                ),
                true,
            ),
    {
        let ghost r0 = self.spec_root();
        let ghost v = value@;
        set_child_member(&mut self.root, "listener", "address", JsonValue::Text(value));
        self.dirty = true;
    }

    pub fn set_listener_allow_remote(&mut self, value: bool)
        requires
            spec_object_or_absent(old(self).spec_root(), "listener"@),
        ensures
            final(self).spec_edited(
                *old(self),
                spec_set_child_member(
                    old(self).spec_root(),
                    "listener"@,
                    "allow_remote"@,
                    JsonView::Bool(value),
                ),
                true,
            ),
    {
        let ghost r0 = self.spec_root();
        set_child_member(&mut self.root, "listener", "allow_remote", JsonValue::Bool(value));
        self.dirty = true;
    }

    /// Sets a text at the root (the entry layer's tag).
    pub fn set_top_string(&mut self, key: &str, value: String)
        ensures
            final(self).spec_edited(
                *old(self),
                spec_insert(old(self).spec_root(), key@, JsonView::Text(value@)),
                true,
            ),
    {
        let ghost r0 = self.spec_root();
        let ghost v = value@;
        insert_member(&mut self.root, key, JsonValue::Text(value));
        self.dirty = true;
    }

    /// Sets a whole number at the root where the field reads as one;
    /// otherwise nothing changes.
    pub fn set_top_number(&mut self, key: &str, value: String)
        ensures
            match spec_number(value@) {
                Some(n) => final(self).spec_edited(
                    *old(self),
                    spec_insert(old(self).spec_root(), key@, JsonView::Integer(n)),
                    true,
                ),
                None => final(self).spec_edited(*old(self), old(self).spec_root(), false),
            },
    {
        if let Some(n) = parse_u64(value.as_str()) {
            let ghost r0 = self.spec_root();
            insert_member(&mut self.root, key, JsonValue::Integer(n));
            self.dirty = true;
        }
    }

    /// Sets a whole number in the Cloudflare settings where the field reads
    /// as one; otherwise nothing changes.
    pub fn set_cloudflare_number(&mut self, key: &str, value: String)
        requires
            spec_number(value@) is Some ==> spec_object_or_absent(old(self).spec_root(), "cloudflare"@),
        ensures
            match spec_number(value@) {
                Some(n) => final(self).spec_edited(
                    *old(self),
                    spec_set_child_member(old(self).spec_root(), "cloudflare"@, key@, JsonView::Integer(n)),
                    true,
                ),
                None => final(self).spec_edited(*old(self), old(self).spec_root(), false),
            },
    {
        if let Some(n) = parse_u64(value.as_str()) {
            let ghost r0 = self.spec_root();
            set_child_member(&mut self.root, "cloudflare", key, JsonValue::Integer(n));
            self.dirty = true;
        }
    }
}

/// An optional text as its characters.
pub open spec fn spec_opt_str(value: Option<&str>) -> Option<Seq<char>> {
    match value {
        Some(s) => Some(s@),
        None => None,
    }
}

/// The kinds of resolver layer the form offers.
#[derive(Debug, Clone, Copy, PartialEq, Eq, Structural)]
pub enum LayerKind {
    Udp,
    Tcp,
    Doh,
    Dot,
    Local,
    Interceptor,
}

impl LayerKind {
    pub open spec fn spec_all() -> Seq<LayerKind> {
        seq![
            LayerKind::Udp,
            LayerKind::Tcp,
            LayerKind::Doh,
            LayerKind::Dot,
            LayerKind::Local,
            LayerKind::Interceptor,
        ]
    }

    /// The `type` the configuration gives this kind.
    pub open spec fn spec_wire_name(self) -> Seq<char> {
        match self {
            LayerKind::Udp => "udp"@,
            LayerKind::Tcp => "tcp"@,
            LayerKind::Doh => "doh"@,
            LayerKind::Dot => "dot"@,
            LayerKind::Local => "local"@,
            LayerKind::Interceptor => "interceptor"@,
        }
    }

    pub open spec fn spec_title(self) -> Seq<char> {
        match self {
            LayerKind::Udp => "UDP"@,
            LayerKind::Tcp => "TCP"@,
            LayerKind::Doh => "DoH"@,
            LayerKind::Dot => "DoT"@,
            LayerKind::Local => "Dynamic local DNS"@,
            LayerKind::Interceptor => "Interceptor"@,
        }
    }

    /// The kind a `type` names; an unknown or missing one reads as dynamic
    /// local DNS.
    pub open spec fn spec_from_value(value: Option<Seq<char>>) -> LayerKind {
        match value {
            Some(v) => if v == "udp"@ {
                LayerKind::Udp
            } else if v == "tcp"@ {
                LayerKind::Tcp
            } else if v == "doh"@ {
                LayerKind::Doh
            } else if v == "dot"@ {
                LayerKind::Dot
            } else if v == "interceptor"@ {
                LayerKind::Interceptor
            } else {
                LayerKind::Local
            },
            None => LayerKind::Local,
        }
    }

    pub fn all() -> (r: Vec<LayerKind>)
        ensures
            r@ == LayerKind::spec_all(),
    {
        vec![
            LayerKind::Udp,
            LayerKind::Tcp,
            LayerKind::Doh,
            LayerKind::Dot,
            LayerKind::Local,
            LayerKind::Interceptor,
        ]
    }

    pub fn wire_name(self) -> (r: &'static str)
        ensures
            r@ == self.spec_wire_name(),
    {
        match self {
            LayerKind::Udp => "udp",
            LayerKind::Tcp => "tcp",
            LayerKind::Doh => "doh",
            LayerKind::Dot => "dot",
            LayerKind::Local => "local",
            LayerKind::Interceptor => "interceptor",
        }
    }

    pub fn label(self, language: Language) -> (r: &'static str)
        ensures
            r@ == language.spec_text(self.spec_title()),
    {
        language.text(
            match self {
                LayerKind::Udp => "UDP",
                LayerKind::Tcp => "TCP",
                LayerKind::Doh => "DoH",
                LayerKind::Dot => "DoT",
                LayerKind::Local => "Dynamic local DNS",
                LayerKind::Interceptor => "Interceptor",
            },
        )
    }

    pub fn from_value(value: Option<&str>) -> (r: LayerKind)
        ensures
            r == LayerKind::spec_from_value(spec_opt_str(value)),
    {
        match value {
            Some(v) => if str_equal(v, "udp") {
                LayerKind::Udp
            } else if str_equal(v, "tcp") {
                LayerKind::Tcp
            } else if str_equal(v, "doh") {
                LayerKind::Doh
            } else if str_equal(v, "dot") {
                LayerKind::Dot
            } else if str_equal(v, "interceptor") {
                LayerKind::Interceptor
            } else {
                LayerKind::Local
            },
            None => LayerKind::Local,
        }
    }
}

/// A layer kind written by its `type` reads back as the same kind.
pub proof fn law_layer_kind_reads_back(kind: LayerKind)
    ensures
        LayerKind::spec_from_value(Some(kind.spec_wire_name())) == kind,
{
    reveal_strlit("udp");
    reveal_strlit("tcp");
    reveal_strlit("doh");
    reveal_strlit("dot");
    reveal_strlit("local");
    reveal_strlit("interceptor");
    assert("udp"@[0] == 'u' && "tcp"@[0] == 't' && "doh"@[0] == 'd' && "dot"@[0] == 'd');
    assert("doh"@[2] == 'h' && "dot"@[2] == 't');
    assert("local"@.len() == 5 && "interceptor"@.len() == 11 && "udp"@.len() == 3);
    assert("tcp"@.len() == 3 && "doh"@.len() == 3 && "dot"@.len() == 3);
}

/// How a layer's keywords are matched.
#[derive(Debug, Clone, Copy, PartialEq, Eq, Structural)]
pub enum MatchMode {
    Label,
    Contains,
}

impl MatchMode {
    pub open spec fn spec_all() -> Seq<MatchMode> {
        seq![MatchMode::Label, MatchMode::Contains]
    }

    pub open spec fn spec_wire_name(self) -> Seq<char> {
        match self {
            MatchMode::Label => "label"@,
            MatchMode::Contains => "contains"@,
        }
    }

    pub open spec fn spec_title(self) -> Seq<char> {
        match self {
            MatchMode::Label => "Full DNS label"@,
            MatchMode::Contains => "Literal substring"@,
        }
    }

    /// Only `contains` selects substring matching.
    pub open spec fn spec_from_value(value: Option<Seq<char>>) -> MatchMode {
        if value == Some("contains"@) {
            MatchMode::Contains
        } else {
            MatchMode::Label
        }
    }

    pub fn all() -> (r: Vec<MatchMode>)
        ensures
            r@ == MatchMode::spec_all(),
    {
        vec![MatchMode::Label, MatchMode::Contains]
    }

    pub fn wire_name(self) -> (r: &'static str)
        ensures
            r@ == self.spec_wire_name(),
    {
        match self {
            MatchMode::Label => "label",
            MatchMode::Contains => "contains",
        }
    }

    pub fn label(self, language: Language) -> (r: &'static str)
        ensures
            r@ == language.spec_text(self.spec_title()),
    {
        language.text(
            match self {
                MatchMode::Label => "Full DNS label",
                MatchMode::Contains => "Literal substring",
            },
        )
    }

    pub fn from_value(value: Option<&str>) -> (r: MatchMode)
        ensures
            r == MatchMode::spec_from_value(spec_opt_str(value)),
    {
        match value {
            Some(v) => if str_equal(v, "contains") {
                MatchMode::Contains
            } else {
                MatchMode::Label
            },
            None => MatchMode::Label,
        }
    }
}

/// A match mode written by its name reads back as the same mode.
pub proof fn law_match_mode_reads_back(mode: MatchMode)
    ensures
        MatchMode::spec_from_value(Some(mode.spec_wire_name())) == mode,
{
    reveal_strlit("label");
    reveal_strlit("contains");
    assert("label"@.len() == 5 && "contains"@.len() == 8);
}

/// Where a rule set comes from.
#[derive(Debug, Clone, Copy, PartialEq, Eq, Structural)]
pub enum RuleSetKind {
    Remote,
    Local,
}

impl RuleSetKind {
    pub open spec fn spec_all() -> Seq<RuleSetKind> {
        seq![RuleSetKind::Remote, RuleSetKind::Local]
    }

    pub open spec fn spec_wire_name(self) -> Seq<char> {
        match self {
            RuleSetKind::Remote => "remote"@,
            RuleSetKind::Local => "local"@,
        }
    }

    pub open spec fn spec_title(self) -> Seq<char> {
        match self {
            RuleSetKind::Remote => "Remote SRS"@,
            RuleSetKind::Local => "Local SRS"@,
        }
    }

    /// Only `local` selects a file; anything else reads as remote.
    pub open spec fn spec_from_value(value: Option<Seq<char>>) -> RuleSetKind {
        if value == Some("local"@) {
            RuleSetKind::Local
        } else {
            RuleSetKind::Remote
        }
    }

    pub fn all() -> (r: Vec<RuleSetKind>)
        ensures
            r@ == RuleSetKind::spec_all(),
    {
        vec![RuleSetKind::Remote, RuleSetKind::Local]
    }

    pub fn wire_name(self) -> (r: &'static str)
        ensures
            r@ == self.spec_wire_name(),
    {
        match self {
            RuleSetKind::Remote => "remote",
            RuleSetKind::Local => "local",
        }
    }

    pub fn label(self, language: Language) -> (r: &'static str)
        ensures
            r@ == language.spec_text(self.spec_title()),
    {
        language.text(
            match self {
                RuleSetKind::Remote => "Remote SRS",
                RuleSetKind::Local => "Local SRS",
            },
        )
    }

    pub fn from_value(value: Option<&str>) -> (r: RuleSetKind)
        ensures
            r == RuleSetKind::spec_from_value(spec_opt_str(value)),
    {
        match value {
            Some(v) => if str_equal(v, "local") {
                RuleSetKind::Local
            } else {
                RuleSetKind::Remote
            },
            None => RuleSetKind::Remote,
        }
    }
}

/// A rule-set kind written by its name reads back as the same kind.
pub proof fn law_rule_set_kind_reads_back(kind: RuleSetKind)
    ensures
        RuleSetKind::spec_from_value(Some(kind.spec_wire_name())) == kind,
{
    reveal_strlit("remote");
    reveal_strlit("local");
    assert("remote"@.len() == 6 && "local"@.len() == 5);
}

/// No key twice.
pub open spec fn spec_distinct(ms: Seq<(Seq<char>, JsonView)>) -> bool {
    forall|i: int, j: int| 0 <= i < j < ms.len() ==> #[trigger] ms[i].0 != #[trigger] ms[j].0
}

proof fn lemma_remove_step(ms: Seq<(Seq<char>, JsonView)>, key: Seq<char>, k: Seq<char>)
    requires
        spec_distinct(ms),
    ensures
        spec_distinct(spec_remove(ms, key)),
        spec_lookup(spec_remove(ms, key), k) == if k == key {
            None
        } else {
            spec_lookup(ms, k)
        },
{
    lemma_find(ms, key);
    let n = spec_remove(ms, key);
    if let Some(i) = spec_find(ms, key) {
        assert forall|a: int, b: int| 0 <= a < b < n.len() implies #[trigger] n[a].0 != #[trigger] n[b].0 by {
            let a0 = if a < i { a } else { a + 1 };
            let b0 = if b < i { b } else { b + 1 };
            assert(n[a] == ms[a0] && n[b] == ms[b0]);
        }
    }
    if k == key {
        lemma_find(n, key);
        if let Some(i) = spec_find(ms, key) {
            if let Some(t) = spec_find(n, key) {
                let t0 = if t < i { t } else { t + 1 };
                assert(n[t] == ms[t0]);
                if t0 < i {
                    assert(ms[t0].0 != ms[i].0);
                } else {
                    assert(ms[i].0 != ms[t0].0);
                }
            }
        }
    } else {
        lemma_lookup_remove(ms, key, k);
    }
}

proof fn lemma_entry_step(ms: Seq<(Seq<char>, JsonView)>, key: Seq<char>, v: JsonView, k: Seq<char>)
    requires
        spec_distinct(ms),
    ensures
        spec_distinct(spec_entry_or(ms, key, v)),
        spec_lookup(spec_entry_or(ms, key, v), k) == if k == key {
            match spec_lookup(ms, key) {
                Some(old) => Some(old),
                None => Some(v),
            }
        } else {
            spec_lookup(ms, k)
        },
{
    lemma_find(ms, key);
    lemma_lookup_entry_or(ms, key, v, k);
    let n = spec_entry_or(ms, key, v);
    if spec_find(ms, key) is None {
        assert forall|a: int, b: int| 0 <= a < b < n.len() implies #[trigger] n[a].0 != #[trigger] n[b].0 by {
            if b == ms.len() {
                assert(n[a] == ms[a]);
            } else {
                assert(n[a] == ms[a] && n[b] == ms[b]);
            }
        }
    }
}

proof fn lemma_layer_keys()
    ensures
        "refresh_secs"@.len() == 12,
        "url"@.len() == 3,
        "server_name"@.len() == 11,
        "plugin"@.len() == 6,
        "address"@.len() == 7,
        "timeout_ms"@.len() == 10,
        "fallback"@.len() == 8,
        "match"@.len() == 5,
        "type"@.len() == 4,
        "tag"@.len() == 3,
        "url"@ != "tag"@,
{
    reveal_strlit("refresh_secs");
    reveal_strlit("url");
    reveal_strlit("server_name");
    reveal_strlit("plugin");
    reveal_strlit("address");
    reveal_strlit("timeout_ms");
    reveal_strlit("fallback");
    reveal_strlit("match");
    reveal_strlit("type");
    reveal_strlit("tag");
    assert("url"@[0] != "tag"@[0]);
}

/// A layer object brought to the fields of `kind`: the fields the kind
/// does not use are dropped, and the ones it needs get a default where
/// they are missing.
pub open spec fn spec_normalize_layer(o: Seq<(Seq<char>, JsonView)>, kind: LayerKind) -> Seq<
    (Seq<char>, JsonView),
> {
    match kind {
        LayerKind::Udp | LayerKind::Tcp => {
            let o = spec_remove(o, "refresh_secs"@);
            let o = spec_remove(o, "url"@);
            let o = spec_remove(o, "server_name"@);
            let o = spec_remove(o, "plugin"@);
            let o = spec_entry_or(o, "address"@, JsonView::Text("1.1.1.1:53"@));
            spec_entry_or(o, "timeout_ms"@, JsonView::Integer(3000))
        },
        LayerKind::Doh => {
            let o = spec_remove(o, "refresh_secs"@);
            let o = spec_remove(o, "server_name"@);
            let o = spec_remove(o, "plugin"@);
            let o = spec_entry_or(o, "address"@, JsonView::Text("1.1.1.1:443"@));
            let o = spec_entry_or(o, "url"@, JsonView::Text("https://cloudflare-dns.com/dns-query"@));
            spec_entry_or(o, "timeout_ms"@, JsonView::Integer(3000))
        },
        LayerKind::Dot => {
            let o = spec_remove(o, "refresh_secs"@);
            let o = spec_remove(o, "url"@);
            let o = spec_remove(o, "plugin"@);
            let o = spec_entry_or(o, "address"@, JsonView::Text("1.1.1.1:853"@));
            let o = spec_entry_or(o, "server_name"@, JsonView::Text("cloudflare-dns.com"@));
            spec_entry_or(o, "timeout_ms"@, JsonView::Integer(3000))
        },
        LayerKind::Local => {
            let o = spec_remove(o, "address"@);
            let o = spec_remove(o, "url"@);
            let o = spec_remove(o, "server_name"@);
            let o = spec_remove(o, "plugin"@);
            let o = spec_entry_or(o, "timeout_ms"@, JsonView::Integer(1800));
            spec_entry_or(o, "refresh_secs"@, JsonView::Integer(30))
        },
        LayerKind::Interceptor => {
            let o = spec_remove(o, "address"@);
            let o = spec_remove(o, "timeout_ms"@);
            let o = spec_remove(o, "refresh_secs"@);
            let o = spec_remove(o, "url"@);
            let o = spec_remove(o, "server_name"@);
            let o = spec_entry_or(o, "plugin"@, JsonView::Text(Seq::empty()));
            spec_entry_or(o, "fallback"@, JsonView::Text(Seq::empty()))
        },
    }
}

/// The fields a layer of `kind` does not use.
pub open spec fn spec_layer_drops(kind: LayerKind, k: Seq<char>) -> bool {
    match kind {
        LayerKind::Udp | LayerKind::Tcp => k == "refresh_secs"@ || k == "url"@ || k == "server_name"@
            || k == "plugin"@,
        LayerKind::Doh => k == "refresh_secs"@ || k == "server_name"@ || k == "plugin"@,
        LayerKind::Dot => k == "refresh_secs"@ || k == "url"@ || k == "plugin"@,
        LayerKind::Local => k == "address"@ || k == "url"@ || k == "server_name"@ || k == "plugin"@,
        LayerKind::Interceptor => k == "address"@ || k == "timeout_ms"@ || k == "refresh_secs"@ || k
            == "url"@ || k == "server_name"@,
    }
}

/// The default a layer of `kind` gets for a field it needs.
pub open spec fn spec_layer_default(kind: LayerKind, k: Seq<char>) -> Option<JsonView> {
    match kind {
        LayerKind::Udp | LayerKind::Tcp => if k == "address"@ {
            Some(JsonView::Text("1.1.1.1:53"@))
        } else if k == "timeout_ms"@ {
            Some(JsonView::Integer(3000))
        } else {
            None
        },
        LayerKind::Doh => if k == "address"@ {
            Some(JsonView::Text("1.1.1.1:443"@))
        } else if k == "url"@ {
            Some(JsonView::Text("https://cloudflare-dns.com/dns-query"@))
        } else if k == "timeout_ms"@ {
            Some(JsonView::Integer(3000))
        } else {
            None
        },
        LayerKind::Dot => if k == "address"@ {
            Some(JsonView::Text("1.1.1.1:853"@))
        } else if k == "server_name"@ {
            Some(JsonView::Text("cloudflare-dns.com"@))
        } else if k == "timeout_ms"@ {
            Some(JsonView::Integer(3000))
        } else {
            None
        },
        LayerKind::Local => if k == "timeout_ms"@ {
            Some(JsonView::Integer(1800))
        } else if k == "refresh_secs"@ {
            Some(JsonView::Integer(30))
        } else {
            None
        },
        LayerKind::Interceptor => if k == "plugin"@ || k == "fallback"@ {
            Some(JsonView::Text(Seq::empty()))
        } else {
            None
        },
    }
}

/// A field of a layer of `kind` after normalizing: dropped, defaulted
/// where missing, or as it was.
pub open spec fn spec_layer_field(o: Seq<(Seq<char>, JsonView)>, kind: LayerKind, k: Seq<char>) -> Option<
    JsonView,
> {
    if spec_layer_drops(kind, k) {
        None
    } else {
        match spec_layer_default(kind, k) {
            Some(d) => match spec_lookup(o, k) {
                Some(v) => Some(v),
                None => Some(d),
            },
            None => spec_lookup(o, k),
        }
    }
}

/// Normalizing a layer with distinct fields drops the fields its kind
/// does not use, defaults the ones it needs, keeps every other field, and
/// leaves the fields distinct.
pub proof fn law_normalize_layer_fields(o: Seq<(Seq<char>, JsonView)>, kind: LayerKind, k: Seq<char>)
    requires
        spec_distinct(o),
    ensures
        spec_distinct(spec_normalize_layer(o, kind)),
        spec_lookup(spec_normalize_layer(o, kind), k) == spec_layer_field(o, kind, k),
{
    lemma_layer_keys();
    match kind {
        LayerKind::Udp | LayerKind::Tcp => {
            let o1 = spec_remove(o, "refresh_secs"@);
            lemma_remove_step(o, "refresh_secs"@, k);
            let o2 = spec_remove(o1, "url"@);
            lemma_remove_step(o1, "url"@, k);
            let o3 = spec_remove(o2, "server_name"@);
            lemma_remove_step(o2, "server_name"@, k);
            let o4 = spec_remove(o3, "plugin"@);
            lemma_remove_step(o3, "plugin"@, k);
            lemma_remove_step(o3, "plugin"@, "address"@);
            lemma_remove_step(o2, "server_name"@, "address"@);
            lemma_remove_step(o1, "url"@, "address"@);
            lemma_remove_step(o, "refresh_secs"@, "address"@);
            let o5 = spec_entry_or(o4, "address"@, JsonView::Text("1.1.1.1:53"@));
            lemma_entry_step(o4, "address"@, JsonView::Text("1.1.1.1:53"@), k);
            lemma_entry_step(o4, "address"@, JsonView::Text("1.1.1.1:53"@), "timeout_ms"@);
            lemma_remove_step(o3, "plugin"@, "timeout_ms"@);
            lemma_remove_step(o2, "server_name"@, "timeout_ms"@);
            lemma_remove_step(o1, "url"@, "timeout_ms"@);
            lemma_remove_step(o, "refresh_secs"@, "timeout_ms"@);
            lemma_entry_step(o5, "timeout_ms"@, JsonView::Integer(3000), k);
        },
        LayerKind::Doh => {
            let o1 = spec_remove(o, "refresh_secs"@);
            let o2 = spec_remove(o1, "server_name"@);
            let o3 = spec_remove(o2, "plugin"@);
            let d1 = JsonView::Text("1.1.1.1:443"@);
            let d2 = JsonView::Text("https://cloudflare-dns.com/dns-query"@);
            let o4 = spec_entry_or(o3, "address"@, d1);
            let o5 = spec_entry_or(o4, "url"@, d2);
            lemma_remove_step(o, "refresh_secs"@, k);
            lemma_remove_step(o1, "server_name"@, k);
            lemma_remove_step(o2, "plugin"@, k);
            lemma_entry_step(o3, "address"@, d1, k);
            lemma_entry_step(o4, "url"@, d2, k);
            lemma_entry_step(o5, "timeout_ms"@, JsonView::Integer(3000), k);
            lemma_remove_step(o, "refresh_secs"@, "address"@);
            lemma_remove_step(o1, "server_name"@, "address"@);
            lemma_remove_step(o2, "plugin"@, "address"@);
            lemma_remove_step(o, "refresh_secs"@, "url"@);
            lemma_remove_step(o1, "server_name"@, "url"@);
            lemma_remove_step(o2, "plugin"@, "url"@);
            lemma_entry_step(o3, "address"@, d1, "url"@);
            lemma_remove_step(o, "refresh_secs"@, "timeout_ms"@);
            lemma_remove_step(o1, "server_name"@, "timeout_ms"@);
            lemma_remove_step(o2, "plugin"@, "timeout_ms"@);
            lemma_entry_step(o3, "address"@, d1, "timeout_ms"@);
            lemma_entry_step(o4, "url"@, d2, "timeout_ms"@);
        },
        LayerKind::Dot => {
            let o1 = spec_remove(o, "refresh_secs"@);
            let o2 = spec_remove(o1, "url"@);
            let o3 = spec_remove(o2, "plugin"@);
            let d1 = JsonView::Text("1.1.1.1:853"@);
            let d2 = JsonView::Text("cloudflare-dns.com"@);
            let o4 = spec_entry_or(o3, "address"@, d1);
            let o5 = spec_entry_or(o4, "server_name"@, d2);
            lemma_remove_step(o, "refresh_secs"@, k);
            lemma_remove_step(o1, "url"@, k);
            lemma_remove_step(o2, "plugin"@, k);
            lemma_entry_step(o3, "address"@, d1, k);
            lemma_entry_step(o4, "server_name"@, d2, k);
            lemma_entry_step(o5, "timeout_ms"@, JsonView::Integer(3000), k);
            lemma_remove_step(o, "refresh_secs"@, "address"@);
            lemma_remove_step(o1, "url"@, "address"@);
            lemma_remove_step(o2, "plugin"@, "address"@);
            lemma_remove_step(o, "refresh_secs"@, "server_name"@);
            lemma_remove_step(o1, "url"@, "server_name"@);
            lemma_remove_step(o2, "plugin"@, "server_name"@);
            lemma_entry_step(o3, "address"@, d1, "server_name"@);
            lemma_remove_step(o, "refresh_secs"@, "timeout_ms"@);
            lemma_remove_step(o1, "url"@, "timeout_ms"@);
            lemma_remove_step(o2, "plugin"@, "timeout_ms"@);
            lemma_entry_step(o3, "address"@, d1, "timeout_ms"@);
            lemma_entry_step(o4, "server_name"@, d2, "timeout_ms"@);
        },
        LayerKind::Local => {
            let o1 = spec_remove(o, "address"@);
            let o2 = spec_remove(o1, "url"@);
            let o3 = spec_remove(o2, "server_name"@);
            let o4 = spec_remove(o3, "plugin"@);
            let o5 = spec_entry_or(o4, "timeout_ms"@, JsonView::Integer(1800));
            lemma_remove_step(o, "address"@, k);
            lemma_remove_step(o1, "url"@, k);
            lemma_remove_step(o2, "server_name"@, k);
            lemma_remove_step(o3, "plugin"@, k);
            lemma_entry_step(o4, "timeout_ms"@, JsonView::Integer(1800), k);
            lemma_entry_step(o5, "refresh_secs"@, JsonView::Integer(30), k);
            lemma_remove_step(o, "address"@, "timeout_ms"@);
            lemma_remove_step(o1, "url"@, "timeout_ms"@);
            lemma_remove_step(o2, "server_name"@, "timeout_ms"@);
            lemma_remove_step(o3, "plugin"@, "timeout_ms"@);
            lemma_remove_step(o, "address"@, "refresh_secs"@);
            lemma_remove_step(o1, "url"@, "refresh_secs"@);
            lemma_remove_step(o2, "server_name"@, "refresh_secs"@);
            lemma_remove_step(o3, "plugin"@, "refresh_secs"@);
            lemma_entry_step(o4, "timeout_ms"@, JsonView::Integer(1800), "refresh_secs"@);
        },
        LayerKind::Interceptor => {
            let o1 = spec_remove(o, "address"@);
            let o2 = spec_remove(o1, "timeout_ms"@);
            let o3 = spec_remove(o2, "refresh_secs"@);
            let o4 = spec_remove(o3, "url"@);
            let o5 = spec_remove(o4, "server_name"@);
            let e = JsonView::Text(Seq::empty());
            let o6 = spec_entry_or(o5, "plugin"@, e);
            lemma_remove_step(o, "address"@, k);
            lemma_remove_step(o1, "timeout_ms"@, k);
            lemma_remove_step(o2, "refresh_secs"@, k);
            lemma_remove_step(o3, "url"@, k);
            lemma_remove_step(o4, "server_name"@, k);
            lemma_entry_step(o5, "plugin"@, e, k);
            lemma_entry_step(o6, "fallback"@, e, k);
            lemma_remove_step(o, "address"@, "plugin"@);
            lemma_remove_step(o1, "timeout_ms"@, "plugin"@);
            lemma_remove_step(o2, "refresh_secs"@, "plugin"@);
            lemma_remove_step(o3, "url"@, "plugin"@);
            lemma_remove_step(o4, "server_name"@, "plugin"@);
            lemma_remove_step(o, "address"@, "fallback"@);
            lemma_remove_step(o1, "timeout_ms"@, "fallback"@);
            lemma_remove_step(o2, "refresh_secs"@, "fallback"@);
            lemma_remove_step(o3, "url"@, "fallback"@);
            lemma_remove_step(o4, "server_name"@, "fallback"@);
            lemma_entry_step(o5, "plugin"@, e, "fallback"@);
        },
    }
}

/// A field none of the layer kinds touches.
pub open spec fn spec_layer_untouched(k: Seq<char>) -> bool {
    k != "refresh_secs"@ && k != "url"@ && k != "server_name"@ && k != "plugin"@ && k != "address"@
        && k != "timeout_ms"@ && k != "fallback"@
}

/// Normalizing leaves a field that no kind touches as it was, whatever the
/// object.
proof fn lemma_normalize_layer_other(o: Seq<(Seq<char>, JsonView)>, kind: LayerKind, k: Seq<char>)
    requires
        spec_layer_untouched(k),
    ensures
        spec_lookup(spec_normalize_layer(o, kind), k) == spec_lookup(o, k),
{
    match kind {
        LayerKind::Udp | LayerKind::Tcp => {
            let o1 = spec_remove(o, "refresh_secs"@);
            let o2 = spec_remove(o1, "url"@);
            let o3 = spec_remove(o2, "server_name"@);
            let o4 = spec_remove(o3, "plugin"@);
            let o5 = spec_entry_or(o4, "address"@, JsonView::Text("1.1.1.1:53"@));
            lemma_lookup_remove(o, "refresh_secs"@, k);
            lemma_lookup_remove(o1, "url"@, k);
            lemma_lookup_remove(o2, "server_name"@, k);
            lemma_lookup_remove(o3, "plugin"@, k);
            lemma_lookup_entry_or(o4, "address"@, JsonView::Text("1.1.1.1:53"@), k);
            lemma_lookup_entry_or(o5, "timeout_ms"@, JsonView::Integer(3000), k);
        },
        LayerKind::Doh => {
            let o1 = spec_remove(o, "refresh_secs"@);
            let o2 = spec_remove(o1, "server_name"@);
            let o3 = spec_remove(o2, "plugin"@);
            let d1 = JsonView::Text("1.1.1.1:443"@);
            let d2 = JsonView::Text("https://cloudflare-dns.com/dns-query"@);
            let o4 = spec_entry_or(o3, "address"@, d1);
            let o5 = spec_entry_or(o4, "url"@, d2);
            lemma_lookup_remove(o, "refresh_secs"@, k);
            lemma_lookup_remove(o1, "server_name"@, k);
            lemma_lookup_remove(o2, "plugin"@, k);
            lemma_lookup_entry_or(o3, "address"@, d1, k);
            lemma_lookup_entry_or(o4, "url"@, d2, k);
            lemma_lookup_entry_or(o5, "timeout_ms"@, JsonView::Integer(3000), k);
        },
        LayerKind::Dot => {
            let o1 = spec_remove(o, "refresh_secs"@);
            let o2 = spec_remove(o1, "url"@);
            let o3 = spec_remove(o2, "plugin"@);
            let d1 = JsonView::Text("1.1.1.1:853"@);
            let d2 = JsonView::Text("cloudflare-dns.com"@);
            let o4 = spec_entry_or(o3, "address"@, d1);
            let o5 = spec_entry_or(o4, "server_name"@, d2);
            lemma_lookup_remove(o, "refresh_secs"@, k);
            lemma_lookup_remove(o1, "url"@, k);
            lemma_lookup_remove(o2, "plugin"@, k);
            lemma_lookup_entry_or(o3, "address"@, d1, k);
            lemma_lookup_entry_or(o4, "server_name"@, d2, k);
            lemma_lookup_entry_or(o5, "timeout_ms"@, JsonView::Integer(3000), k);
        },
        LayerKind::Local => {
            let o1 = spec_remove(o, "address"@);
            let o2 = spec_remove(o1, "url"@);
            let o3 = spec_remove(o2, "server_name"@);
            let o4 = spec_remove(o3, "plugin"@);
            let o5 = spec_entry_or(o4, "timeout_ms"@, JsonView::Integer(1800));
            lemma_lookup_remove(o, "address"@, k);
            lemma_lookup_remove(o1, "url"@, k);
            lemma_lookup_remove(o2, "server_name"@, k);
            lemma_lookup_remove(o3, "plugin"@, k);
            lemma_lookup_entry_or(o4, "timeout_ms"@, JsonView::Integer(1800), k);
            lemma_lookup_entry_or(o5, "refresh_secs"@, JsonView::Integer(30), k);
        },
        LayerKind::Interceptor => {
            let o1 = spec_remove(o, "address"@);
            let o2 = spec_remove(o1, "timeout_ms"@);
            let o3 = spec_remove(o2, "refresh_secs"@);
            let o4 = spec_remove(o3, "url"@);
            let o5 = spec_remove(o4, "server_name"@);
            let e = JsonView::Text(Seq::empty());
            let o6 = spec_entry_or(o5, "plugin"@, e);
            lemma_lookup_remove(o, "address"@, k);
            lemma_lookup_remove(o1, "timeout_ms"@, k);
            lemma_lookup_remove(o2, "refresh_secs"@, k);
            lemma_lookup_remove(o3, "url"@, k);
            lemma_lookup_remove(o4, "server_name"@, k);
            lemma_lookup_entry_or(o5, "plugin"@, e, k);
            lemma_lookup_entry_or(o6, "fallback"@, e, k);
        },
    }
}

fn normalize_network_layer(layer: &mut Vec<JsonMember>, kind: LayerKind)
    requires
        kind is Udp || kind is Tcp,
    ensures
        spec_members(final(layer)@) == spec_normalize_layer(spec_members(old(layer)@), kind),
{
    remove_member(layer, "refresh_secs");
    remove_member(layer, "url");
    remove_member(layer, "server_name");
    remove_member(layer, "plugin");
    entry_or_insert(layer, "address", JsonValue::Text("1.1.1.1:53".to_owned()));
    entry_or_insert(layer, "timeout_ms", JsonValue::Integer(3000));
}

fn normalize_doh_layer(layer: &mut Vec<JsonMember>)
    ensures
        spec_members(final(layer)@) == spec_normalize_layer(spec_members(old(layer)@), LayerKind::Doh),
{
    remove_member(layer, "refresh_secs");
    remove_member(layer, "server_name");
    remove_member(layer, "plugin");
    entry_or_insert(layer, "address", JsonValue::Text("1.1.1.1:443".to_owned()));
    entry_or_insert(layer, "url", JsonValue::Text("https://cloudflare-dns.com/dns-query".to_owned()));
    entry_or_insert(layer, "timeout_ms", JsonValue::Integer(3000));
}

fn normalize_dot_layer(layer: &mut Vec<JsonMember>)
    ensures
        spec_members(final(layer)@) == spec_normalize_layer(spec_members(old(layer)@), LayerKind::Dot),
{
    remove_member(layer, "refresh_secs");
    remove_member(layer, "url");
    remove_member(layer, "plugin");
    entry_or_insert(layer, "address", JsonValue::Text("1.1.1.1:853".to_owned()));
    entry_or_insert(layer, "server_name", JsonValue::Text("cloudflare-dns.com".to_owned()));
    entry_or_insert(layer, "timeout_ms", JsonValue::Integer(3000));
}

fn normalize_local_layer(layer: &mut Vec<JsonMember>)
    ensures
        spec_members(final(layer)@) == spec_normalize_layer(spec_members(old(layer)@), LayerKind::Local),
{
    remove_member(layer, "address");
    remove_member(layer, "url");
    remove_member(layer, "server_name");
    remove_member(layer, "plugin");
    entry_or_insert(layer, "timeout_ms", JsonValue::Integer(1800));
    entry_or_insert(layer, "refresh_secs", JsonValue::Integer(30));
}

fn normalize_interceptor_layer(layer: &mut Vec<JsonMember>)
    ensures
        spec_members(final(layer)@) == spec_normalize_layer(
            spec_members(old(layer)@),
            LayerKind::Interceptor,
        ),
{
    remove_member(layer, "address");
    remove_member(layer, "timeout_ms");
    remove_member(layer, "refresh_secs");
    remove_member(layer, "url");
    remove_member(layer, "server_name");
    entry_or_insert(layer, "plugin", JsonValue::Text(String::new()));
    entry_or_insert(layer, "fallback", JsonValue::Text(String::new()));
}

/// Brings a layer object to the fields of `kind`.
pub fn normalize_layer(layer: &mut Vec<JsonMember>, kind: LayerKind)
    ensures
        spec_members(final(layer)@) == spec_normalize_layer(spec_members(old(layer)@), kind),
        spec_distinct(spec_members(old(layer)@)) ==> spec_distinct(spec_members(final(layer)@)),
        spec_distinct(spec_members(old(layer)@)) ==> forall|k: Seq<char>|
            spec_lookup(spec_members(final(layer)@), k) == #[trigger] spec_layer_field(
                spec_members(old(layer)@),
                kind,
                k,
            ),
{
    let ghost before = spec_members(layer@);
    match kind {
        LayerKind::Udp | LayerKind::Tcp => normalize_network_layer(layer, kind),
        LayerKind::Doh => normalize_doh_layer(layer),
        LayerKind::Dot => normalize_dot_layer(layer),
        LayerKind::Local => normalize_local_layer(layer),
        LayerKind::Interceptor => normalize_interceptor_layer(layer),
    }
    proof {
        if spec_distinct(before) {
            law_normalize_layer_fields(before, kind, Seq::empty());
            assert forall|k: Seq<char>|
                spec_lookup(spec_members(layer@), k) == #[trigger] spec_layer_field(before, kind, k) by {
                law_normalize_layer_fields(before, kind, k);
            }
        }
    }
}

/// The members a new layer starts from: its tag and its type.
pub open spec fn spec_layer_base(tag: Seq<char>, kind: LayerKind) -> Seq<(Seq<char>, JsonView)> {
    seq![("tag"@, JsonView::Text(tag)), ("type"@, JsonView::Text(kind.spec_wire_name()))]
}

/// A new layer of `kind` with the defaults of its fields.
pub open spec fn spec_default_layer(tag: Seq<char>, kind: LayerKind) -> JsonView {
    JsonView::Object(spec_normalize_layer(spec_layer_base(tag, kind), kind))
}

pub fn default_layer(tag: &str, kind: LayerKind) -> (r: JsonValue)
    ensures
        r.deep() == spec_default_layer(tag@, kind),
{
    let mut layer: Vec<JsonMember> = Vec::new();
    layer.push(JsonMember { key: "tag".to_owned(), value: JsonValue::Text(tag.to_owned()) });
    layer.push(JsonMember { key: "type".to_owned(), value: JsonValue::Text(kind.wire_name().to_owned()) });
    proof {
        assert(spec_members(layer@) =~= spec_layer_base(tag@, kind));
    }
    normalize_layer(&mut layer, kind);
    JsonValue::Object(layer)
}

/// The texts among the values, in order.
pub open spec fn spec_texts(a: Seq<JsonView>) -> Seq<Seq<char>>
    decreases a.len(),
{
    if a.len() == 0 {
        Seq::empty()
    } else {
        let rest = spec_texts(a.drop_last());
        match a.last() {
            JsonView::Text(t) => rest.push(t),
            _ => rest,
        }
    }
}

/// The text under `key`, if it is one.
pub open spec fn spec_text_of(o: Seq<(Seq<char>, JsonView)>, key: Seq<char>) -> Option<Seq<char>> {
    match spec_lookup(o, key) {
        Some(JsonView::Text(t)) => Some(t),
        _ => None,
    }
}

/// The tags of the objects among the values, in order.
pub open spec fn spec_tags(a: Seq<JsonView>) -> Seq<Seq<char>>
    decreases a.len(),
{
    if a.len() == 0 {
        Seq::empty()
    } else {
        let rest = spec_tags(a.drop_last());
        match a.last() {
            JsonView::Object(o) => match spec_text_of(o, "tag"@) {
                Some(t) => rest.push(t),
                None => rest,
            },
            _ => rest,
        }
    }
}

/// The text under `key`, if it is one.
pub fn object_string<'a>(o: &'a Vec<JsonMember>, key: &str) -> (r: Option<&'a str>)
    ensures
        spec_opt_str(r) == spec_text_of(spec_members(o@), key@),
{
    let ghost v = spec_members(o@);
    match find_member(o, key) {
        Some(i) => {
            proof {
                lemma_find(v, key@);
            }
            match &o[i].value {
                JsonValue::Text(t) => Some(t.as_str()),
                _ => None,
            }
        },
        None => None,
    }
}

/// The whole number under `key`, else `default`.
pub fn object_number(o: &Vec<JsonMember>, key: &str, default: u64) -> (r: u64)
    ensures
        r == match spec_lookup(spec_members(o@), key@) {
            Some(JsonView::Integer(n)) => n,
            _ => default,
        },
{
    let ghost v = spec_members(o@);
    match find_member(o, key) {
        Some(i) => {
            proof {
                lemma_find(v, key@);
            }
            match &o[i].value {
                JsonValue::Integer(n) => *n,
                _ => default,
            }
        },
        None => default,
    }
}

/// The flag under `key`, else `default`.
pub fn object_bool(o: &Vec<JsonMember>, key: &str, default: bool) -> (r: bool)
    ensures
        r == match spec_lookup(spec_members(o@), key@) {
            Some(JsonView::Bool(b)) => b,
            _ => default,
        },
{
    let ghost v = spec_members(o@);
    match find_member(o, key) {
        Some(i) => {
            proof {
                lemma_find(v, key@);
            }
            match &o[i].value {
                JsonValue::Bool(b) => *b,
                _ => default,
            }
        },
        None => default,
    }
}

/// The texts of the array under `key`, joined with ", " for a form field;
/// empty where there is no array.
pub fn object_list(o: &Vec<JsonMember>, key: &str) -> (r: String)
    ensures
        r@ == match spec_lookup(spec_members(o@), key@) {
            Some(JsonView::Array(a)) => spec_join(spec_texts(a), ", "@),
            _ => Seq::empty(),
        },
{
    let ghost v = spec_members(o@);
    match find_member(o, key) {
        Some(i) => {
            proof {
                lemma_find(v, key@);
            }
            match &o[i].value {
                JsonValue::Array(vs) => {
                    let ghost ev = spec_elements(vs@);
                    let mut parts: Vec<Vec<char>> = Vec::new();
                    let mut j: usize = 0;
                    while j < vs.len()
                        invariant
                            j <= vs@.len(),
                            ev == spec_elements(vs@),
                            spec_char_lists(parts@) == spec_texts(ev.take(j as int)),
                        decreases vs@.len() - j,
                    {
                        proof {
                            assert(ev.take(j + 1).drop_last() =~= ev.take(j as int));
                        }
                        match &vs[j] {
                            JsonValue::Text(t) => {
                                let ghost before = parts@;
                                parts.push(chars_of(t.as_str()));
                                proof {
                                    assert(spec_char_lists(parts@) =~= spec_char_lists(before).push(t@));
                                }
                            },
                            _ => {},
                        }
                        j += 1;
                    }
                    proof {
                        assert(ev.take(vs@.len() as int) =~= ev);
                    }
                    let sep = chars_of(", ");
                    string_from_chars(&join_chars(&parts, sep.as_slice()))
                },
                _ => String::new(),
            }
        },
        None => String::new(),
    }
}

impl ConfigDocument {
    fn array_of(&self, key: &str) -> (r: &[JsonValue])
        ensures
            spec_elements(r@) == spec_child_array(self.spec_root(), key@),
    {
        let ghost v = self.spec_root();
        proof {
            lemma_empty_members();
        }
        match find_member(&self.root, key) {
            Some(i) => {
                proof {
                    lemma_find(v, key@);
                }
                match &self.root[i].value {
                    JsonValue::Array(vs) => vs.as_slice(),
                    _ => {
                        let r: &[JsonValue] = &[];
                        assert(spec_elements(r@) =~= Seq::<JsonView>::empty());
                        r
                    },
                }
            },
            None => {
                let r: &[JsonValue] = &[];
                assert(spec_elements(r@) =~= Seq::<JsonView>::empty());
                r
            },
        }
    }

    fn element_of(&self, key: &str, index: usize) -> (r: Option<&Vec<JsonMember>>)
        ensures
            match spec_element_object(spec_child_array(self.spec_root(), key@), index as int) {
                Some(o) => r matches Some(ms) && spec_members(ms@) == o,
                None => r is None,
            },
    {
        let a = self.array_of(key);
        if index < a.len() {
            match &a[index] {
                JsonValue::Object(ms) => Some(ms),
                _ => None,
            }
        } else {
            None
        }
    }

    fn tags_of(&self, key: &str) -> (r: Vec<String>)
        ensures
            r@.map_values(|s: String| s@) == spec_tags(spec_child_array(self.spec_root(), key@)),
            r@.len() <= spec_child_array(self.spec_root(), key@).len(),
    {
        let a = self.array_of(key);
        let ghost ev = spec_elements(a@);
        let mut tags: Vec<String> = Vec::new();
        let mut j: usize = 0;
        while j < a.len()
            invariant
                j <= a@.len(),
                ev == spec_elements(a@),
                tags@.map_values(|s: String| s@) == spec_tags(ev.take(j as int)),
                tags@.len() <= j,
            decreases a@.len() - j,
        {
            proof {
                assert(ev.take(j + 1).drop_last() =~= ev.take(j as int));
            }
            match &a[j] {
                JsonValue::Object(ms) => {
                    match object_string(ms, "tag") {
                        Some(t) => {
                            let ghost before = tags@;
                            tags.push(t.to_owned());
                            proof {
                                assert(tags@.map_values(|s: String| s@) =~= before.map_values(
                                    |s: String| s@,
                                ).push(t@));
                            }
                        },
                        None => {},
                    }
                },
                _ => {},
            }
            j += 1;
        }
        proof {
            assert(ev.take(a@.len() as int) =~= ev);
        }
        tags
    }

    /// The layers; none where there is no array of them.
    pub fn layers(&self) -> (r: &[JsonValue])
        ensures
            spec_elements(r@) == spec_child_array(self.spec_root(), "layers"@),
    {
        self.array_of("layers")
    }

    pub fn rule_sets(&self) -> (r: &[JsonValue])
        ensures
            spec_elements(r@) == spec_child_array(self.spec_root(), "rule_sets"@),
    {
        self.array_of("rule_sets")
    }

    pub fn plugins(&self) -> (r: &[JsonValue])
        ensures
            spec_elements(r@) == spec_child_array(self.spec_root(), "plugins"@),
    {
        self.array_of("plugins")
    }

    /// The layer at `index`, where it is an object.
    pub fn layer(&self, index: usize) -> (r: Option<&Vec<JsonMember>>)
        ensures
            match spec_element_object(spec_child_array(self.spec_root(), "layers"@), index as int) {
                Some(o) => r matches Some(ms) && spec_members(ms@) == o,
                None => r is None,
            },
    {
        self.element_of("layers", index)
    }

    pub fn rule_set(&self, index: usize) -> (r: Option<&Vec<JsonMember>>)
        ensures
            match spec_element_object(spec_child_array(self.spec_root(), "rule_sets"@), index as int) {
                Some(o) => r matches Some(ms) && spec_members(ms@) == o,
                None => r is None,
            },
    {
        self.element_of("rule_sets", index)
    }

    pub fn plugin(&self, index: usize) -> (r: Option<&Vec<JsonMember>>)
        ensures
            match spec_element_object(spec_child_array(self.spec_root(), "plugins"@), index as int) {
                Some(o) => r matches Some(ms) && spec_members(ms@) == o,
                None => r is None,
            },
    {
        self.element_of("plugins", index)
    }

    pub fn layer_tags(&self) -> (r: Vec<String>)
        ensures
            r@.map_values(|s: String| s@) == spec_tags(spec_child_array(self.spec_root(), "layers"@)),
            r@.len() <= spec_child_array(self.spec_root(), "layers"@).len(),
    {
        self.tags_of("layers")
    }

    pub fn rule_set_tags(&self) -> (r: Vec<String>)
        ensures
            r@.map_values(|s: String| s@) == spec_tags(spec_child_array(self.spec_root(), "rule_sets"@)),
            r@.len() <= spec_child_array(self.spec_root(), "rule_sets"@).len(),
    {
        self.tags_of("rule_sets")
    }

    pub fn plugin_tags(&self) -> (r: Vec<String>)
        ensures
            r@.map_values(|s: String| s@) == spec_tags(spec_child_array(self.spec_root(), "plugins"@)),
            r@.len() <= spec_child_array(self.spec_root(), "plugins"@).len(),
    {
        self.tags_of("plugins")
    }
}

/// The object at `index` of the array under `array`, where there is one,
/// has its member `key` as an object or not at all.
pub open spec fn spec_element_shape(
    root: Seq<(Seq<char>, JsonView)>,
    array: Seq<char>,
    index: int,
    key: Seq<char>,
) -> bool {
    match spec_element_object(spec_child_array(root, array), index) {
        Some(o) => spec_object_or_absent(o, key),
        None => true,
    }
}

/// Putting an opened object back with members `o2` is setting it once.
proof fn lemma_close_element(
    root: Seq<(Seq<char>, JsonView)>,
    key: Seq<char>,
    index: int,
    o2: Seq<(Seq<char>, JsonView)>,
)
    requires
        spec_element_object(spec_child_array(root, key), index) is Some,
    ensures
        spec_insert(
            spec_insert(root, key, JsonView::Array(Seq::empty())),
            key,
            JsonView::Array(
                spec_child_array(root, key).update(index, JsonView::Object(Seq::empty())).update(
                    index,
                    JsonView::Object(o2),
                ),
            ),
        ) == spec_insert(
            root,
            key,
            JsonView::Array(spec_child_array(root, key).update(index, JsonView::Object(o2))),
        ),
{
    let a = spec_child_array(root, key);
    let a2 = a.update(index, JsonView::Object(o2));
    assert(a.update(index, JsonView::Object(Seq::empty())).update(index, JsonView::Object(o2)) =~= a2);
    lemma_insert_twice(root, key, JsonView::Array(Seq::empty()), JsonView::Array(a2));
}

proof fn lemma_plugin_keys()
    ensures
        "preferred"@ != "optimizer"@,
        "preferred"@.len() == 9,
        "optimizer"@.len() == 9,
{
    reveal_strlit("preferred");
    reveal_strlit("optimizer");
    assert("preferred"@[0] != "optimizer"@[0]);
}

impl ConfigDocument {
    /// Sets a member of the object at `index` of the array under `array`;
    /// the array is created where it is missing, and nothing else changes
    /// where there is no object at `index`.
    fn set_element_member(&mut self, array: &str, index: usize, key: &str, value: JsonValue)
        requires
            spec_array_or_absent(old(self).spec_root(), array@),
        ensures
            final(self).spec_edited(
                *old(self),
                spec_edit_element(
                    old(self).spec_root(),
                    array@,
                    index as int,
                    |o: Seq<(Seq<char>, JsonView)>| spec_insert(o, key@, value.deep()),
                ),
                spec_element_object(spec_child_array(old(self).spec_root(), array@), index as int)
                    is Some,
            ),
    {
        let ghost r0 = self.spec_root();
        let ghost dv = value.deep();
        let (a, taken) = self.open(array, index);
        match taken {
            Some(mut o) => {
                insert_member(&mut o, key, value);
                self.close_with(array, a, index, o, true, Ghost(r0));
            },
            None => self.close_unchanged(array, a, Ghost(r0)),
        }
    }

    /// Sets a text field of a layer.
    pub fn set_layer_string(&mut self, index: usize, key: &str, value: String)
        requires
            spec_array_or_absent(old(self).spec_root(), "layers"@),
        ensures
            final(self).spec_edited(
                *old(self),
                spec_edit_element(
                    old(self).spec_root(),
                    "layers"@,
                    index as int,
                    |o: Seq<(Seq<char>, JsonView)>| spec_insert(o, key@, JsonView::Text(value@)),
                ),
                spec_element_object(spec_child_array(old(self).spec_root(), "layers"@), index as int)
                    is Some,
            ),
    {
        self.set_element_member("layers", index, key, JsonValue::Text(value));
    }
}

/// Texts as JSON texts.
pub open spec fn spec_text_array(items: Seq<Seq<char>>) -> Seq<JsonView> {
    items.map_values(|t: Seq<char>| JsonView::Text(t))
}

/// A comma-separated form field as a JSON array of its distinct entries.
pub open spec fn spec_list_field(value: Seq<char>) -> JsonView {
    JsonView::Array(spec_text_array(spec_list_values(spec_pieces(value, ','))))
}

/// A comma-separated form field as a JSON array: the entries trimmed,
/// blanks dropped, and each kept once regardless of ASCII case.
pub fn string_list_json(value: &str) -> (r: JsonValue)
    ensures
        r.deep() == spec_list_field(value@),
{
    let items = string_list_value(value);
    let ghost iv = items@.map_values(|s: String| s@);
    let mut out: Vec<JsonValue> = Vec::new();
    let mut i: usize = 0;
    while i < items.len()
        invariant
            i <= items@.len(),
            iv == items@.map_values(|s: String| s@),
            spec_elements(out@) == spec_text_array(iv.take(i as int)),
        decreases items@.len() - i,
    {
        let ghost before = spec_elements(out@);
        out.push(JsonValue::Text(items[i].clone()));
        proof {
            assert(spec_elements(out@) =~= before.push(JsonView::Text(iv[i as int])));
            assert(spec_text_array(iv.take(i + 1)) =~= spec_text_array(iv.take(i as int)).push(
                JsonView::Text(iv[i as int]),
            ));
        }
        i += 1;
    }
    proof {
        assert(iv.take(items@.len() as int) =~= iv);
    }
    JsonValue::Array(out)
}

impl ConfigDocument {
    /// Opens the object at `index` of the array under `array` for an edit.
    fn open(&mut self, array: &str, index: usize) -> (r: (Vec<JsonValue>, Option<Vec<JsonMember>>))
        requires
            spec_array_or_absent(old(self).spec_root(), array@),
        ensures
            final(self).spec_root() == spec_insert(
                old(self).spec_root(),
                array@,
                JsonView::Array(Seq::empty()),
            ),
            final(self).spec_dirty() == old(self).spec_dirty(),
            final(self).spec_error() == old(self).spec_error(),
            final(self).spec_listener() == old(self).spec_listener(),
            final(self).spec_path() == old(self).spec_path(),
            match spec_element_object(spec_child_array(old(self).spec_root(), array@), index as int) {
                Some(o) => r.1 matches Some(ms) && spec_members(ms@) == o && spec_elements(r.0@)
                    == spec_child_array(old(self).spec_root(), array@).update(
                    index as int,
                    JsonView::Object(Seq::empty()),
                ) && index < r.0@.len(),
                None => r.1 is None && spec_elements(r.0@) == spec_child_array(
                    old(self).spec_root(),
                    array@,
                ),
            },
    {
        let (a, taken) = open_element(&mut self.root, array, index);
        assert(spec_elements(a@).len() == a@.len());
        (a, taken)
    }

    /// Puts an opened object back with its new members, marking the
    /// document changed where `changed` holds.
    fn close_with(
        &mut self,
        array: &str,
        a: Vec<JsonValue>,
        index: usize,
        o: Vec<JsonMember>,
        changed: bool,
        Ghost(r0): Ghost<Seq<(Seq<char>, JsonView)>>,
    )
        requires
            old(self).spec_root() == spec_insert(r0, array@, JsonView::Array(Seq::empty())),
            spec_element_object(spec_child_array(r0, array@), index as int) is Some,
            spec_elements(a@) == spec_child_array(r0, array@).update(
                index as int,
                JsonView::Object(Seq::empty()),
            ),
            index < a@.len(),
        ensures
            final(self).spec_root() == spec_insert(
                r0,
                array@,
                JsonView::Array(
                    spec_child_array(r0, array@).update(index as int, JsonView::Object(spec_members(o@))),
                ),
            ),
            final(self).spec_dirty() == (old(self).spec_dirty() || changed),
            final(self).spec_error() == old(self).spec_error(),
            final(self).spec_listener() == old(self).spec_listener(),
            final(self).spec_path() == old(self).spec_path(),
    {
        let ghost o2 = spec_members(o@);
        let mut a = a;
        put_element(&mut a, index, JsonValue::Object(o));
        close_array(&mut self.root, array, a);
        if changed {
            self.dirty = true;
        }
        proof {
            lemma_close_element(r0, array@, index as int, o2);
        }
    }

    /// Puts an opened array back as it was.
    fn close_unchanged(&mut self, array: &str, a: Vec<JsonValue>, Ghost(r0): Ghost<Seq<(Seq<char>, JsonView)>>)
        requires
            old(self).spec_root() == spec_insert(r0, array@, JsonView::Array(Seq::empty())),
            spec_elements(a@) == spec_child_array(r0, array@),
        ensures
            final(self).spec_root() == spec_insert(r0, array@, JsonView::Array(spec_child_array(r0, array@))),
            final(self).spec_dirty() == old(self).spec_dirty(),
            final(self).spec_error() == old(self).spec_error(),
            final(self).spec_listener() == old(self).spec_listener(),
            final(self).spec_path() == old(self).spec_path(),
    {
        close_array(&mut self.root, array, a);
        proof {
            lemma_insert_twice(
                r0,
                array@,
                JsonView::Array(Seq::empty()),
                JsonView::Array(spec_child_array(r0, array@)),
            );
        }
    }

    /// Sets a layer field that may be left out: a blank value removes it.
    pub fn set_layer_optional_string(&mut self, index: usize, key: &str, value: String)
        requires
            spec_array_or_absent(old(self).spec_root(), "layers"@),
        ensures
            final(self).spec_edited(
                *old(self),
                spec_edit_element(
                    old(self).spec_root(),
                    "layers"@,
                    index as int,
                    |o: Seq<(Seq<char>, JsonView)>|
                        if spec_blank(value@) {
                            spec_remove(o, key@)
                        } else {
                            spec_insert(o, key@, JsonView::Text(value@))
                        },
                ),
                spec_element_object(spec_child_array(old(self).spec_root(), "layers"@), index as int)
                    is Some,
            ),
    {
        let ghost r0 = self.spec_root();
        let (a, taken) = self.open("layers", index);
        match taken {
            Some(mut o) => {
                if is_blank(value.as_str()) {
                    remove_member(&mut o, key);
                } else {
                    insert_member(&mut o, key, JsonValue::Text(value));
                }
                self.close_with("layers", a, index, o, true, Ghost(r0));
            },
            None => self.close_unchanged("layers", a, Ghost(r0)),
        }
    }

    /// Sets a whole-number field of a layer where the value reads as one;
    /// otherwise nothing changes.
    pub fn set_layer_number(&mut self, index: usize, key: &str, value: String)
        requires
            spec_number(value@) is Some ==> spec_array_or_absent(old(self).spec_root(), "layers"@),
        ensures
            match spec_number(value@) {
                Some(n) => final(self).spec_edited(
                    *old(self),
                    spec_edit_element(
                        old(self).spec_root(),
                        "layers"@,
                        index as int,
                        |o: Seq<(Seq<char>, JsonView)>| spec_insert(o, key@, JsonView::Integer(n)),
                    ),
                    spec_element_object(spec_child_array(old(self).spec_root(), "layers"@), index as int)
                        is Some,
                ),
                None => final(self).spec_edited(*old(self), old(self).spec_root(), false),
            },
    {
        if let Some(n) = parse_u64(value.as_str()) {
            self.set_element_member("layers", index, key, JsonValue::Integer(n));
        }
    }

    /// Changes a layer's type and brings its fields to the new kind.
    pub fn set_layer_type(&mut self, index: usize, kind: LayerKind)
        requires
            spec_array_or_absent(old(self).spec_root(), "layers"@),
        ensures
            final(self).spec_edited(
                *old(self),
                spec_edit_element(
                    old(self).spec_root(),
                    "layers"@,
                    index as int,
                    |o: Seq<(Seq<char>, JsonView)>|
                        spec_normalize_layer(
                            spec_insert(o, "type"@, JsonView::Text(kind.spec_wire_name())),
                            kind,
                        ),
                ),
                spec_element_object(spec_child_array(old(self).spec_root(), "layers"@), index as int)
                    is Some,
            ),
    {
        let ghost r0 = self.spec_root();
        let (a, taken) = self.open("layers", index);
        match taken {
            Some(mut o) => {
                insert_member(&mut o, "type", JsonValue::Text(kind.wire_name().to_owned()));
                normalize_layer(&mut o, kind);
                self.close_with("layers", a, index, o, true, Ghost(r0));
            },
            None => self.close_unchanged("layers", a, Ghost(r0)),
        }
    }

    /// Sets how a layer's keywords are matched.
    pub fn set_layer_match_mode(&mut self, index: usize, mode: MatchMode)
        requires
            spec_array_or_absent(old(self).spec_root(), "layers"@),
            spec_element_shape(old(self).spec_root(), "layers"@, index as int, "match"@),
        ensures
            final(self).spec_edited(
                *old(self),
                spec_edit_element(
                    old(self).spec_root(),
                    "layers"@,
                    index as int,
                    |o: Seq<(Seq<char>, JsonView)>|
                        spec_set_child_member(o, "match"@, "mode"@, JsonView::Text(mode.spec_wire_name())),
                ),
                spec_element_object(spec_child_array(old(self).spec_root(), "layers"@), index as int)
                    is Some,
            ),
    {
        let ghost r0 = self.spec_root();
        let (a, taken) = self.open("layers", index);
        match taken {
            Some(mut o) => {
                set_child_member(&mut o, "match", "mode", JsonValue::Text(mode.wire_name().to_owned()));
                self.close_with("layers", a, index, o, true, Ghost(r0));
            },
            None => self.close_unchanged("layers", a, Ghost(r0)),
        }
    }

    /// Sets a list of a layer's keyword match from a comma-separated field.
    pub fn set_layer_match_list(&mut self, index: usize, key: &str, value: String)
        requires
            spec_array_or_absent(old(self).spec_root(), "layers"@),
            spec_element_shape(old(self).spec_root(), "layers"@, index as int, "match"@),
        ensures
            final(self).spec_edited(
                *old(self),
                spec_edit_element(
                    old(self).spec_root(),
                    "layers"@,
                    index as int,
                    |o: Seq<(Seq<char>, JsonView)>|
                        spec_set_child_member(o, "match"@, key@, spec_list_field(value@)),
                ),
                spec_element_object(spec_child_array(old(self).spec_root(), "layers"@), index as int)
                    is Some,
            ),
    {
        let ghost r0 = self.spec_root();
        let (a, taken) = self.open("layers", index);
        match taken {
            Some(mut o) => {
                set_child_member(&mut o, "match", key, string_list_json(value.as_str()));
                self.close_with("layers", a, index, o, true, Ghost(r0));
            },
            None => self.close_unchanged("layers", a, Ghost(r0)),
        }
    }
}

/// The neighbour a layer moves to: the one before it, or the one after it
/// where there is one.
pub open spec fn spec_move_target(len: int, index: int, upward: bool) -> Option<int> {
    if upward {
        if index >= 1 {
            Some(index - 1)
        } else {
            None
        }
    } else if index + 1 < len {
        Some(index + 1)
    } else {
        None
    }
}

/// The layers after moving the one at `index`.
pub open spec fn spec_moved(a: Seq<JsonView>, index: int, upward: bool) -> Seq<JsonView> {
    match spec_move_target(a.len() as int, index, upward) {
        Some(d) => spec_swap(a, index, d),
        None => a,
    }
}

/// The values with the ones at `i` and `j` exchanged.
pub open spec fn spec_swap(a: Seq<JsonView>, i: int, j: int) -> Seq<JsonView> {
    a.update(i, a[j]).update(j, a[i])
}

fn swap_elements(a: &mut Vec<JsonValue>, i: usize, j: usize)
    requires
        i < old(a)@.len(),
        j < old(a)@.len(),
        i != j,
    ensures
        spec_elements(final(a)@) == spec_swap(spec_elements(old(a)@), i as int, j as int),
        final(a)@.len() == old(a)@.len(),
{
    let ghost before = spec_elements(a@);
    let (lo, hi) = if i < j {
        (i, j)
    } else {
        (j, i)
    };
    let vh = a.remove(hi);
    let vl = a.remove(lo);
    a.insert(lo, vh);
    a.insert(hi, vl);
    proof {
        assert(spec_elements(a@) =~= spec_swap(before, i as int, j as int));
    }
}

impl ConfigDocument {
    /// Takes the array under `array` out for an edit.
    fn take_array(&mut self, array: &str) -> (r: Vec<JsonValue>)
        requires
            spec_array_or_absent(old(self).spec_root(), array@),
        ensures
            spec_elements(r@) == spec_child_array(old(self).spec_root(), array@),
            final(self).spec_root() == spec_insert(
                old(self).spec_root(),
                array@,
                JsonView::Array(Seq::empty()),
            ),
            final(self).spec_dirty() == old(self).spec_dirty(),
            final(self).spec_error() == old(self).spec_error(),
            final(self).spec_listener() == old(self).spec_listener(),
            final(self).spec_path() == old(self).spec_path(),
    {
        take_child_array(&mut self.root, array)
    }

    /// Puts an edited array back.
    fn put_array(
        &mut self,
        array: &str,
        a: Vec<JsonValue>,
        changed: bool,
        Ghost(r0): Ghost<Seq<(Seq<char>, JsonView)>>,
    )
        requires
            old(self).spec_root() == spec_insert(r0, array@, JsonView::Array(Seq::empty())),
        ensures
            final(self).spec_root() == spec_insert(r0, array@, JsonView::Array(spec_elements(a@))),
            final(self).spec_dirty() == (old(self).spec_dirty() || changed),
            final(self).spec_error() == old(self).spec_error(),
            final(self).spec_listener() == old(self).spec_listener(),
            final(self).spec_path() == old(self).spec_path(),
    {
        let ghost av = spec_elements(a@);
        close_array(&mut self.root, array, a);
        if changed {
            self.dirty = true;
        }
        proof {
            lemma_insert_twice(r0, array@, JsonView::Array(Seq::empty()), JsonView::Array(av));
        }
    }

    /// Appends a new layer of `kind` under a fresh `new-layer-N` tag and
    /// gives its index.
    pub fn add_layer(&mut self, kind: LayerKind) -> (r: usize)
        requires
            spec_array_or_absent(old(self).spec_root(), "layers"@),
            spec_child_array(old(self).spec_root(), "layers"@).len() < u32::MAX,
        ensures
            r == spec_child_array(old(self).spec_root(), "layers"@).len(),
            final(self).spec_edited(
                *old(self),
                spec_insert(
                    old(self).spec_root(),
                    "layers"@,
                    JsonView::Array(
                        spec_child_array(old(self).spec_root(), "layers"@).push(
                            spec_default_layer(
                                spec_unique_tag(
                                    "new-layer"@,
                                    spec_tags(spec_child_array(old(self).spec_root(), "layers"@)),
                                ),
                                kind,
                            ),
                        ),
                    ),
                ),
                true,
            ),
    {
        let ghost r0 = self.spec_root();
        let tags = self.layer_tags();
        let tag = unique_tag("new-layer", &tags);
        let layer = default_layer(tag.as_str(), kind);
        let mut a = self.take_array("layers");
        let ghost before = spec_elements(a@);
        let ghost lv = layer.deep();
        a.push(layer);
        proof {
            assert(spec_elements(a@) =~= before.push(lv));
        }
        let index = a.len() - 1;
        self.put_array("layers", a, true, Ghost(r0));
        index
    }

    fn remove_element(&mut self, array: &str, index: usize)
        requires
            spec_array_or_absent(old(self).spec_root(), array@),
        ensures
            final(self).spec_edited(
                *old(self),
                spec_insert(
                    old(self).spec_root(),
                    array@,
                    JsonView::Array(
                        if index < spec_child_array(old(self).spec_root(), array@).len() {
                            spec_child_array(old(self).spec_root(), array@).remove(index as int)
                        } else {
                            spec_child_array(old(self).spec_root(), array@)
                        },
                    ),
                ),
                index < spec_child_array(old(self).spec_root(), array@).len(),
            ),
    {
        let ghost r0 = self.spec_root();
        let ghost a0 = spec_child_array(r0, array@);
        let mut a = self.take_array(array);
        assert(spec_elements(a@).len() == a@.len());
        if index < a.len() {
            a.remove(index);
            proof {
                assert(spec_elements(a@) =~= a0.remove(index as int));
            }
            self.put_array(array, a, true, Ghost(r0));
        } else {
            self.put_array(array, a, false, Ghost(r0));
        }
    }

    pub fn remove_layer(&mut self, index: usize)
        requires
            spec_array_or_absent(old(self).spec_root(), "layers"@),
        ensures
            final(self).spec_edited(
                *old(self),
                spec_insert(
                    old(self).spec_root(),
                    "layers"@,
                    JsonView::Array(
                        if index < spec_child_array(old(self).spec_root(), "layers"@).len() {
                            spec_child_array(old(self).spec_root(), "layers"@).remove(index as int)
                        } else {
                            spec_child_array(old(self).spec_root(), "layers"@)
                        },
                    ),
                ),
                index < spec_child_array(old(self).spec_root(), "layers"@).len(),
            ),
    {
        self.remove_element("layers", index);
    }

    /// Moves a layer one place up or down; at either end nothing moves.
    pub fn move_layer(&mut self, index: usize, upward: bool)
        requires
            spec_array_or_absent(old(self).spec_root(), "layers"@),
            upward && index >= 1 ==> index < spec_child_array(old(self).spec_root(), "layers"@).len(),
        ensures
            final(self).spec_edited(
                *old(self),
                spec_insert(
                    old(self).spec_root(),
                    "layers"@,
                    JsonView::Array(
                        spec_moved(spec_child_array(old(self).spec_root(), "layers"@), index as int, upward),
                    ),
                ),
                spec_move_target(
                    spec_child_array(old(self).spec_root(), "layers"@).len() as int,
                    index as int,
                    upward,
                ) is Some,
            ),
    {
        let ghost r0 = self.spec_root();
        let ghost a0 = spec_child_array(r0, "layers"@);
        let mut a = self.take_array("layers");
        assert(spec_elements(a@).len() == a@.len());
        let len = a.len();
        let target: Option<usize> = if upward {
            if index >= 1 {
                Some(index - 1)
            } else {
                None
            }
        } else if index < usize::MAX && index + 1 < len {
            Some(index + 1)
        } else {
            None
        };
        match target {
            Some(d) => {
                swap_elements(&mut a, index, d);
                self.put_array("layers", a, true, Ghost(r0));
            },
            None => {
                self.put_array("layers", a, false, Ghost(r0));
            },
        }
    }
}

proof fn lemma_rule_set_keys()
    ensures
        "path"@.len() == 4,
        "url"@.len() == 3,
        "update_interval_secs"@.len() == 20,
        "timeout_ms"@.len() == 10,
        "type"@.len() == 4,
        "tag"@.len() == 3,
        "path"@ != "type"@,
        "url"@ != "tag"@,
{
    reveal_strlit("path");
    reveal_strlit("url");
    reveal_strlit("update_interval_secs");
    reveal_strlit("timeout_ms");
    reveal_strlit("type");
    reveal_strlit("tag");
    assert("path"@[0] != "type"@[0]);
    assert("url"@[0] != "tag"@[0]);
}

/// A rule-set object brought to the fields of `kind`.
pub open spec fn spec_normalize_rule_set(o: Seq<(Seq<char>, JsonView)>, kind: RuleSetKind) -> Seq<
    (Seq<char>, JsonView),
> {
    match kind {
        RuleSetKind::Remote => {
            let o = spec_remove(o, "path"@);
            let o = spec_entry_or(o, "url"@, JsonView::Text("https://example.com/rules.srs"@));
            let o = spec_entry_or(o, "update_interval_secs"@, JsonView::Integer(86400));
            spec_entry_or(o, "timeout_ms"@, JsonView::Integer(10000))
        },
        RuleSetKind::Local => {
            let o = spec_remove(o, "url"@);
            let o = spec_remove(o, "timeout_ms"@);
            let o = spec_entry_or(o, "path"@, JsonView::Text("/path/to/rules.srs"@));
            spec_entry_or(o, "update_interval_secs"@, JsonView::Integer(60))
        },
    }
}

/// The fields a rule set of `kind` does not use.
pub open spec fn spec_rule_set_drops(kind: RuleSetKind, k: Seq<char>) -> bool {
    match kind {
        RuleSetKind::Remote => k == "path"@,
        RuleSetKind::Local => k == "url"@ || k == "timeout_ms"@,
    }
}

/// The default a rule set of `kind` gets for a field it needs.
pub open spec fn spec_rule_set_default(kind: RuleSetKind, k: Seq<char>) -> Option<JsonView> {
    match kind {
        RuleSetKind::Remote => if k == "url"@ {
            Some(JsonView::Text("https://example.com/rules.srs"@))
        } else if k == "update_interval_secs"@ {
            Some(JsonView::Integer(86400))
        } else if k == "timeout_ms"@ {
            Some(JsonView::Integer(10000))
        } else {
            None
        },
        RuleSetKind::Local => if k == "path"@ {
            Some(JsonView::Text("/path/to/rules.srs"@))
        } else if k == "update_interval_secs"@ {
            Some(JsonView::Integer(60))
        } else {
            None
        },
    }
}

/// A field of a rule set of `kind` after normalizing.
pub open spec fn spec_rule_set_field(o: Seq<(Seq<char>, JsonView)>, kind: RuleSetKind, k: Seq<char>) -> Option<
    JsonView,
> {
    if spec_rule_set_drops(kind, k) {
        None
    } else {
        match spec_rule_set_default(kind, k) {
            Some(d) => match spec_lookup(o, k) {
                Some(v) => Some(v),
                None => Some(d),
            },
            None => spec_lookup(o, k),
        }
    }
}

/// Normalizing a rule set with distinct fields drops the fields its kind
/// does not use, defaults the ones it needs, keeps every other field, and
/// leaves the fields distinct.
pub proof fn law_normalize_rule_set_fields(
    o: Seq<(Seq<char>, JsonView)>,
    kind: RuleSetKind,
    k: Seq<char>,
)
    requires
        spec_distinct(o),
    ensures
        spec_distinct(spec_normalize_rule_set(o, kind)),
        spec_lookup(spec_normalize_rule_set(o, kind), k) == spec_rule_set_field(o, kind, k),
{
    lemma_rule_set_keys();
    match kind {
        RuleSetKind::Remote => {
            let d1 = JsonView::Text("https://example.com/rules.srs"@);
            let d2 = JsonView::Integer(86400);
            let o1 = spec_remove(o, "path"@);
            let o2 = spec_entry_or(o1, "url"@, d1);
            let o3 = spec_entry_or(o2, "update_interval_secs"@, d2);
            lemma_remove_step(o, "path"@, k);
            lemma_entry_step(o1, "url"@, d1, k);
            lemma_entry_step(o2, "update_interval_secs"@, d2, k);
            lemma_entry_step(o3, "timeout_ms"@, JsonView::Integer(10000), k);
            lemma_remove_step(o, "path"@, "url"@);
            lemma_remove_step(o, "path"@, "update_interval_secs"@);
            lemma_entry_step(o1, "url"@, d1, "update_interval_secs"@);
            lemma_remove_step(o, "path"@, "timeout_ms"@);
            lemma_entry_step(o1, "url"@, d1, "timeout_ms"@);
            lemma_entry_step(o2, "update_interval_secs"@, d2, "timeout_ms"@);
        },
        RuleSetKind::Local => {
            let d1 = JsonView::Text("/path/to/rules.srs"@);
            let o1 = spec_remove(o, "url"@);
            let o2 = spec_remove(o1, "timeout_ms"@);
            let o3 = spec_entry_or(o2, "path"@, d1);
            lemma_remove_step(o, "url"@, k);
            lemma_remove_step(o1, "timeout_ms"@, k);
            lemma_entry_step(o2, "path"@, d1, k);
            lemma_entry_step(o3, "update_interval_secs"@, JsonView::Integer(60), k);
            lemma_remove_step(o, "url"@, "path"@);
            lemma_remove_step(o1, "timeout_ms"@, "path"@);
            lemma_remove_step(o, "url"@, "update_interval_secs"@);
            lemma_remove_step(o1, "timeout_ms"@, "update_interval_secs"@);
            lemma_entry_step(o2, "path"@, d1, "update_interval_secs"@);
        },
    }
}

/// Brings a rule-set object to the fields of `kind`.
pub fn normalize_rule_set(rule_set: &mut Vec<JsonMember>, kind: RuleSetKind)
    ensures
        spec_members(final(rule_set)@) == spec_normalize_rule_set(spec_members(old(rule_set)@), kind),
        spec_distinct(spec_members(old(rule_set)@)) ==> spec_distinct(spec_members(final(rule_set)@)),
        spec_distinct(spec_members(old(rule_set)@)) ==> forall|k: Seq<char>|
            spec_lookup(spec_members(final(rule_set)@), k) == #[trigger] spec_rule_set_field(
                spec_members(old(rule_set)@),
                kind,
                k,
            ),
{
    let ghost before = spec_members(rule_set@);
    match kind {
        RuleSetKind::Remote => {
            remove_member(rule_set, "path");
            entry_or_insert(rule_set, "url", JsonValue::Text("https://example.com/rules.srs".to_owned()));
            entry_or_insert(rule_set, "update_interval_secs", JsonValue::Integer(86400));
            entry_or_insert(rule_set, "timeout_ms", JsonValue::Integer(10000));
        },
        RuleSetKind::Local => {
            remove_member(rule_set, "url");
            remove_member(rule_set, "timeout_ms");
            entry_or_insert(rule_set, "path", JsonValue::Text("/path/to/rules.srs".to_owned()));
            entry_or_insert(rule_set, "update_interval_secs", JsonValue::Integer(60));
        },
    }
    proof {
        if spec_distinct(before) {
            law_normalize_rule_set_fields(before, kind, Seq::empty());
            assert forall|k: Seq<char>|
                spec_lookup(spec_members(rule_set@), k) == #[trigger] spec_rule_set_field(before, kind, k) by {
                law_normalize_rule_set_fields(before, kind, k);
            }
        }
    }
}

/// A new rule set of `kind` with the defaults of its fields.
pub open spec fn spec_default_rule_set(tag: Seq<char>, kind: RuleSetKind) -> JsonView {
    JsonView::Object(
        spec_normalize_rule_set(
            seq![("tag"@, JsonView::Text(tag)), ("type"@, JsonView::Text(kind.spec_wire_name()))],
            kind,
        ),
    )
}

pub fn default_rule_set(tag: &str, kind: RuleSetKind) -> (r: JsonValue)
    ensures
        r.deep() == spec_default_rule_set(tag@, kind),
{
    let mut rule_set: Vec<JsonMember> = Vec::new();
    rule_set.push(JsonMember { key: "tag".to_owned(), value: JsonValue::Text(tag.to_owned()) });
    rule_set.push(
        JsonMember { key: "type".to_owned(), value: JsonValue::Text(kind.wire_name().to_owned()) },
    );
    proof {
        assert(spec_members(rule_set@) =~= seq![
            ("tag"@, JsonView::Text(tag@)),
            ("type"@, JsonView::Text(kind.spec_wire_name())),
        ]);
    }
    normalize_rule_set(&mut rule_set, kind);
    JsonValue::Object(rule_set)
}

/// The field a rule set's source is written to: a path for a local file,
/// else a URL.
pub open spec fn spec_source_key(o: Seq<(Seq<char>, JsonView)>) -> Seq<char> {
    match RuleSetKind::spec_from_value(spec_text_of(o, "type"@)) {
        RuleSetKind::Local => "path"@,
        RuleSetKind::Remote => "url"@,
    }
}

impl ConfigDocument {
    /// Appends a new rule set of `kind` under a fresh `new-rule-set-N` tag
    /// and gives its index.
    pub fn add_rule_set(&mut self, kind: RuleSetKind) -> (r: usize)
        requires
            spec_array_or_absent(old(self).spec_root(), "rule_sets"@),
            spec_child_array(old(self).spec_root(), "rule_sets"@).len() < u32::MAX,
        ensures
            r == spec_child_array(old(self).spec_root(), "rule_sets"@).len(),
            final(self).spec_edited(
                *old(self),
                spec_insert(
                    old(self).spec_root(),
                    "rule_sets"@,
                    JsonView::Array(
                        spec_child_array(old(self).spec_root(), "rule_sets"@).push(
                            spec_default_rule_set(
                                spec_unique_tag(
                                    "new-rule-set"@,
                                    spec_tags(spec_child_array(old(self).spec_root(), "rule_sets"@)),
                                ),
                                kind,
                            ),
                        ),
                    ),
                ),
                true,
            ),
    {
        let ghost r0 = self.spec_root();
        let tags = self.rule_set_tags();
        let tag = unique_tag("new-rule-set", &tags);
        let rule_set = default_rule_set(tag.as_str(), kind);
        let mut a = self.take_array("rule_sets");
        let ghost before = spec_elements(a@);
        let ghost rv = rule_set.deep();
        a.push(rule_set);
        proof {
            assert(spec_elements(a@) =~= before.push(rv));
        }
        let index = a.len() - 1;
        self.put_array("rule_sets", a, true, Ghost(r0));
        index
    }

    pub fn remove_rule_set(&mut self, index: usize)
        requires
            spec_array_or_absent(old(self).spec_root(), "rule_sets"@),
        ensures
            final(self).spec_edited(
                *old(self),
                spec_insert(
                    old(self).spec_root(),
                    "rule_sets"@,
                    JsonView::Array(
                        if index < spec_child_array(old(self).spec_root(), "rule_sets"@).len() {
                            spec_child_array(old(self).spec_root(), "rule_sets"@).remove(index as int)
                        } else {
                            spec_child_array(old(self).spec_root(), "rule_sets"@)
                        },
                    ),
                ),
                index < spec_child_array(old(self).spec_root(), "rule_sets"@).len(),
            ),
    {
        self.remove_element("rule_sets", index);
    }

    pub fn set_rule_set_string(&mut self, index: usize, key: &str, value: String)
        requires
            spec_array_or_absent(old(self).spec_root(), "rule_sets"@),
        ensures
            final(self).spec_edited(
                *old(self),
                spec_edit_element(
                    old(self).spec_root(),
                    "rule_sets"@,
                    index as int,
                    |o: Seq<(Seq<char>, JsonView)>| spec_insert(o, key@, JsonView::Text(value@)),
                ),
                spec_element_object(spec_child_array(old(self).spec_root(), "rule_sets"@), index as int)
                    is Some,
            ),
    {
        self.set_element_member("rule_sets", index, key, JsonValue::Text(value));
    }

    pub fn set_rule_set_number(&mut self, index: usize, key: &str, value: String)
        requires
            spec_number(value@) is Some ==> spec_array_or_absent(old(self).spec_root(), "rule_sets"@),
        ensures
            match spec_number(value@) {
                Some(n) => final(self).spec_edited(
                    *old(self),
                    spec_edit_element(
                        old(self).spec_root(),
                        "rule_sets"@,
                        index as int,
                        |o: Seq<(Seq<char>, JsonView)>| spec_insert(o, key@, JsonView::Integer(n)),
                    ),
                    spec_element_object(spec_child_array(old(self).spec_root(), "rule_sets"@), index as int)
                        is Some,
                ),
                None => final(self).spec_edited(*old(self), old(self).spec_root(), false),
            },
    {
        if let Some(n) = parse_u64(value.as_str()) {
            self.set_element_member("rule_sets", index, key, JsonValue::Integer(n));
        }
    }

    /// Changes a rule set's type and brings its fields to the new kind.
    pub fn set_rule_set_type(&mut self, index: usize, kind: RuleSetKind)
        requires
            spec_array_or_absent(old(self).spec_root(), "rule_sets"@),
        ensures
            final(self).spec_edited(
                *old(self),
                spec_edit_element(
                    old(self).spec_root(),
                    "rule_sets"@,
                    index as int,
                    |o: Seq<(Seq<char>, JsonView)>|
                        spec_normalize_rule_set(
                            spec_insert(o, "type"@, JsonView::Text(kind.spec_wire_name())),
                            kind,
                        ),
                ),
                spec_element_object(spec_child_array(old(self).spec_root(), "rule_sets"@), index as int)
                    is Some,
            ),
    {
        let ghost r0 = self.spec_root();
        let (a, taken) = self.open("rule_sets", index);
        match taken {
            Some(mut o) => {
                insert_member(&mut o, "type", JsonValue::Text(kind.wire_name().to_owned()));
                normalize_rule_set(&mut o, kind);
                self.close_with("rule_sets", a, index, o, true, Ghost(r0));
            },
            None => self.close_unchanged("rule_sets", a, Ghost(r0)),
        }
    }

    /// Sets where a rule set is read from: its path for a local file, its
    /// URL otherwise.
    pub fn set_rule_set_source(&mut self, index: usize, value: String)
        requires
            spec_array_or_absent(old(self).spec_root(), "rule_sets"@),
        ensures
            final(self).spec_edited(
                *old(self),
                spec_edit_element(
                    old(self).spec_root(),
                    "rule_sets"@,
                    index as int,
                    |o: Seq<(Seq<char>, JsonView)>|
                        spec_insert(o, spec_source_key(o), JsonView::Text(value@)),
                ),
                spec_element_object(spec_child_array(old(self).spec_root(), "rule_sets"@), index as int)
                    is Some,
            ),
    {
        let ghost r0 = self.spec_root();
        let (a, taken) = self.open("rule_sets", index);
        match taken {
            Some(mut o) => {
                let kind = RuleSetKind::from_value(object_string(&o, "type"));
                let key = match kind {
                    RuleSetKind::Remote => "url",
                    RuleSetKind::Local => "path",
                };
                insert_member(&mut o, key, JsonValue::Text(value));
                self.close_with("rule_sets", a, index, o, true, Ghost(r0));
            },
            None => self.close_unchanged("rule_sets", a, Ghost(r0)),
        }
    }
}

/// The optimizer settings of a new plugin: off, with the stock probe.
pub open spec fn spec_default_optimizer() -> Seq<(Seq<char>, JsonView)> {
    seq![
        ("enabled"@, JsonView::Bool(false)),
        ("interval_secs"@, JsonView::Integer(21600)),
        ("test_host"@, JsonView::Text("www.cloudflare.com"@)),
        ("test_path"@, JsonView::Text("/cdn-cgi/trace"@)),
        ("test_port"@, JsonView::Integer(443)),
        ("timeout_ms"@, JsonView::Integer(3000)),
        ("concurrency"@, JsonView::Integer(32)),
        ("samples_per_cidr"@, JsonView::Integer(40)),
        ("probes_per_candidate"@, JsonView::Integer(3)),
        ("compatibility_hosts"@, JsonView::Array(Seq::empty())),
        ("excluded_candidates"@, JsonView::Array(Seq::empty())),
        ("max_candidates"@, JsonView::Integer(640)),
        ("candidates"@, JsonView::Array(Seq::empty())),
    ]
}

/// A new Cloudflare-preferred plugin: a one-minute rewrite TTL, no
/// preferred address, and the optimizer off.
pub open spec fn spec_default_plugin(tag: Seq<char>) -> JsonView {
    JsonView::Object(
        seq![
            ("tag"@, JsonView::Text(tag)),
            ("type"@, JsonView::Text("cloudflare_preferred"@)),
            ("rewrite_ttl_secs"@, JsonView::Integer(60)),
            ("preferred"@, JsonView::Object(Seq::empty())),
            ("optimizer"@, JsonView::Object(spec_default_optimizer())),
        ],
    )
}

fn member(key: &str, value: JsonValue) -> (r: JsonMember)
    ensures
        r.key@ == key@,
        r.value == value,
{
    JsonMember { key: key.to_owned(), value }
}

fn empty_array() -> (r: JsonValue)
    ensures
        r.deep() == JsonView::Array(Seq::empty()),
{
    let v: Vec<JsonValue> = Vec::new();
    assert(spec_elements(v@) =~= Seq::<JsonView>::empty());
    JsonValue::Array(v)
}

pub fn default_plugin(tag: &str) -> (r: JsonValue)
    ensures
        r.deep() == spec_default_plugin(tag@),
{
    let mut optimizer: Vec<JsonMember> = Vec::new();
    optimizer.push(member("enabled", JsonValue::Bool(false)));
    optimizer.push(member("interval_secs", JsonValue::Integer(21600)));
    optimizer.push(member("test_host", JsonValue::Text("www.cloudflare.com".to_owned())));
    optimizer.push(member("test_path", JsonValue::Text("/cdn-cgi/trace".to_owned())));
    optimizer.push(member("test_port", JsonValue::Integer(443)));
    optimizer.push(member("timeout_ms", JsonValue::Integer(3000)));
    optimizer.push(member("concurrency", JsonValue::Integer(32)));
    optimizer.push(member("samples_per_cidr", JsonValue::Integer(40)));
    optimizer.push(member("probes_per_candidate", JsonValue::Integer(3)));
    optimizer.push(member("compatibility_hosts", empty_array()));
    optimizer.push(member("excluded_candidates", empty_array()));
    optimizer.push(member("max_candidates", JsonValue::Integer(640)));
    optimizer.push(member("candidates", empty_array()));
    proof {
        assert(spec_members(optimizer@) =~= spec_default_optimizer());
    }
    let preferred: Vec<JsonMember> = Vec::new();
    proof {
        lemma_empty_members();
    }
    let mut plugin: Vec<JsonMember> = Vec::new();
    plugin.push(member("tag", JsonValue::Text(tag.to_owned())));
    plugin.push(member("type", JsonValue::Text("cloudflare_preferred".to_owned())));
    plugin.push(member("rewrite_ttl_secs", JsonValue::Integer(60)));
    plugin.push(member("preferred", JsonValue::Object(preferred)));
    plugin.push(member("optimizer", JsonValue::Object(optimizer)));
    proof {
        assert(spec_members(plugin@) =~= seq![
            ("tag"@, JsonView::Text(tag@)),
            ("type"@, JsonView::Text("cloudflare_preferred"@)),
            ("rewrite_ttl_secs"@, JsonView::Integer(60)),
            ("preferred"@, JsonView::Object(Seq::empty())),
            ("optimizer"@, JsonView::Object(spec_default_optimizer())),
        ]);
    }
    JsonValue::Object(plugin)
}

/// The value a form writes to an optimizer field: the probe's host and
/// path as texts, any other field as a whole number where it reads as one.
pub open spec fn spec_optimizer_value(key: Seq<char>, value: Seq<char>) -> Option<JsonView> {
    if key == "test_host"@ || key == "test_path"@ {
        Some(JsonView::Text(value))
    } else {
        match spec_number(value) {
            Some(n) => Some(JsonView::Integer(n)),
            None => None,
        }
    }
}

impl ConfigDocument {
    /// Appends a new plugin under a fresh `cloudflare-preferred-N` tag and
    /// gives its index.
    pub fn add_plugin(&mut self) -> (r: usize)
        requires
            spec_array_or_absent(old(self).spec_root(), "plugins"@),
            spec_child_array(old(self).spec_root(), "plugins"@).len() < u32::MAX,
        ensures
            r == spec_child_array(old(self).spec_root(), "plugins"@).len(),
            final(self).spec_edited(
                *old(self),
                spec_insert(
                    old(self).spec_root(),
                    "plugins"@,
                    JsonView::Array(
                        spec_child_array(old(self).spec_root(), "plugins"@).push(
                            spec_default_plugin(
                                spec_unique_tag(
                                    "cloudflare-preferred"@,
                                    spec_tags(spec_child_array(old(self).spec_root(), "plugins"@)),
                                ),
                            ),
                        ),
                    ),
                ),
                true,
            ),
    {
        let ghost r0 = self.spec_root();
        let tags = self.plugin_tags();
        let tag = unique_tag("cloudflare-preferred", &tags);
        let plugin = default_plugin(tag.as_str());
        let mut a = self.take_array("plugins");
        let ghost before = spec_elements(a@);
        let ghost pv = plugin.deep();
        a.push(plugin);
        proof {
            assert(spec_elements(a@) =~= before.push(pv));
        }
        let index = a.len() - 1;
        self.put_array("plugins", a, true, Ghost(r0));
        index
    }

    pub fn remove_plugin(&mut self, index: usize)
        requires
            spec_array_or_absent(old(self).spec_root(), "plugins"@),
        ensures
            final(self).spec_edited(
                *old(self),
                spec_insert(
                    old(self).spec_root(),
                    "plugins"@,
                    JsonView::Array(
                        if index < spec_child_array(old(self).spec_root(), "plugins"@).len() {
                            spec_child_array(old(self).spec_root(), "plugins"@).remove(index as int)
                        } else {
                            spec_child_array(old(self).spec_root(), "plugins"@)
                        },
                    ),
                ),
                index < spec_child_array(old(self).spec_root(), "plugins"@).len(),
            ),
    {
        self.remove_element("plugins", index);
    }

    pub fn set_plugin_string(&mut self, index: usize, key: &str, value: String)
        requires
            spec_array_or_absent(old(self).spec_root(), "plugins"@),
        ensures
            final(self).spec_edited(
                *old(self),
                spec_edit_element(
                    old(self).spec_root(),
                    "plugins"@,
                    index as int,
                    |o: Seq<(Seq<char>, JsonView)>| spec_insert(o, key@, JsonView::Text(value@)),
                ),
                spec_element_object(spec_child_array(old(self).spec_root(), "plugins"@), index as int)
                    is Some,
            ),
    {
        self.set_element_member("plugins", index, key, JsonValue::Text(value));
    }

    pub fn set_plugin_number(&mut self, index: usize, key: &str, value: String)
        requires
            spec_number(value@) is Some ==> spec_array_or_absent(old(self).spec_root(), "plugins"@),
        ensures
            match spec_number(value@) {
                Some(n) => final(self).spec_edited(
                    *old(self),
                    spec_edit_element(
                        old(self).spec_root(),
                        "plugins"@,
                        index as int,
                        |o: Seq<(Seq<char>, JsonView)>| spec_insert(o, key@, JsonView::Integer(n)),
                    ),
                    spec_element_object(spec_child_array(old(self).spec_root(), "plugins"@), index as int)
                        is Some,
                ),
                None => final(self).spec_edited(*old(self), old(self).spec_root(), false),
            },
    {
        if let Some(n) = parse_u64(value.as_str()) {
            self.set_element_member("plugins", index, key, JsonValue::Integer(n));
        }
    }

    /// Sets a plugin's preferred address of one family; a blank value
    /// removes it.
    pub fn set_plugin_preferred(&mut self, index: usize, key: &str, value: String)
        requires
            spec_array_or_absent(old(self).spec_root(), "plugins"@),
            spec_element_shape(old(self).spec_root(), "plugins"@, index as int, "preferred"@),
        ensures
            final(self).spec_edited(
                *old(self),
                spec_edit_element(
                    old(self).spec_root(),
                    "plugins"@,
                    index as int,
                    |o: Seq<(Seq<char>, JsonView)>|
                        spec_insert(
                            o,
                            "preferred"@,
                            JsonView::Object(
                                if spec_blank(value@) {
                                    spec_remove(spec_child_object(o, "preferred"@), key@)
                                } else {
                                    spec_insert(spec_child_object(o, "preferred"@), key@, JsonView::Text(value@))
                                },
                            ),
                        ),
                ),
                spec_element_object(spec_child_array(old(self).spec_root(), "plugins"@), index as int)
                    is Some,
            ),
    {
        let ghost r0 = self.spec_root();
        let (a, taken) = self.open("plugins", index);
        match taken {
            Some(mut o) => {
                let ghost ov = spec_members(o@);
                let mut p = take_child_object(&mut o, "preferred");
                if is_blank(value.as_str()) {
                    remove_member(&mut p, key);
                } else {
                    insert_member(&mut p, key, JsonValue::Text(value));
                }
                let ghost pv = spec_members(p@);
                insert_member(&mut o, "preferred", JsonValue::Object(p));
                proof {
                    lemma_insert_twice(ov, "preferred"@, JsonView::Object(Seq::empty()), JsonView::Object(pv));
                }
                self.close_with("plugins", a, index, o, true, Ghost(r0));
            },
            None => self.close_unchanged("plugins", a, Ghost(r0)),
        }
    }

    /// Sets an on/off optimizer setting of a plugin.
    pub fn set_optimizer_bool(&mut self, index: usize, key: &str, value: bool)
        requires
            spec_array_or_absent(old(self).spec_root(), "plugins"@),
            spec_element_shape(old(self).spec_root(), "plugins"@, index as int, "optimizer"@),
        ensures
            final(self).spec_edited(
                *old(self),
                spec_edit_element(
                    old(self).spec_root(),
                    "plugins"@,
                    index as int,
                    |o: Seq<(Seq<char>, JsonView)>|
                        spec_set_child_member(o, "optimizer"@, key@, JsonView::Bool(value)),
                ),
                spec_element_object(spec_child_array(old(self).spec_root(), "plugins"@), index as int)
                    is Some,
            ),
    {
        let ghost r0 = self.spec_root();
        let (a, taken) = self.open("plugins", index);
        match taken {
            Some(mut o) => {
                set_child_member(&mut o, "optimizer", key, JsonValue::Bool(value));
                self.close_with("plugins", a, index, o, true, Ghost(r0));
            },
            None => self.close_unchanged("plugins", a, Ghost(r0)),
        }
    }

    /// Sets an optimizer setting of a plugin from a form field: the probe's
    /// host and path as texts, any other field where it reads as a whole
    /// number. A field that does not read as one changes nothing (the
    /// plugin still gets an optimizer object where it had none).
    pub fn set_optimizer_field(&mut self, index: usize, key: &str, value: String)
        requires
            spec_array_or_absent(old(self).spec_root(), "plugins"@),
            spec_element_shape(old(self).spec_root(), "plugins"@, index as int, "optimizer"@),
        ensures
            final(self).spec_edited(
                *old(self),
                spec_edit_element(
                    old(self).spec_root(),
                    "plugins"@,
                    index as int,
                    |o: Seq<(Seq<char>, JsonView)>|
                        match spec_optimizer_value(key@, value@) {
                            Some(v) => spec_set_child_member(o, "optimizer"@, key@, v),
                            None => spec_insert(
                                o,
                                "optimizer"@,
                                JsonView::Object(spec_child_object(o, "optimizer"@)),
                            ),
                        },
                ),
                spec_element_object(spec_child_array(old(self).spec_root(), "plugins"@), index as int)
                    is Some && spec_optimizer_value(key@, value@) is Some,
            ),
    {
        let ghost r0 = self.spec_root();
        let (a, taken) = self.open("plugins", index);
        match taken {
            Some(mut o) => {
                let ghost ov = spec_members(o@);
                let mut opt = take_child_object(&mut o, "optimizer");
                let changed = if str_equal(key, "test_host") || str_equal(key, "test_path") {
                    insert_member(&mut opt, key, JsonValue::Text(value));
                    true
                } else if let Some(n) = parse_u64(value.as_str()) {
                    insert_member(&mut opt, key, JsonValue::Integer(n));
                    true
                } else {
                    false
                };
                let ghost nv = spec_members(opt@);
                insert_member(&mut o, "optimizer", JsonValue::Object(opt));
                proof {
                    lemma_insert_twice(ov, "optimizer"@, JsonView::Object(Seq::empty()), JsonView::Object(nv));
                }
                self.close_with("plugins", a, index, o, changed, Ghost(r0));
            },
            None => self.close_unchanged("plugins", a, Ghost(r0)),
        }
    }

    /// Sets a list of a plugin's optimizer from a comma-separated field.
    pub fn set_optimizer_list(&mut self, index: usize, key: &str, value: String)
        requires
            spec_array_or_absent(old(self).spec_root(), "plugins"@),
            spec_element_shape(old(self).spec_root(), "plugins"@, index as int, "optimizer"@),
        ensures
            final(self).spec_edited(
                *old(self),
                spec_edit_element(
                    old(self).spec_root(),
                    "plugins"@,
                    index as int,
                    |o: Seq<(Seq<char>, JsonView)>|
                        spec_set_child_member(o, "optimizer"@, key@, spec_list_field(value@)),
                ),
                spec_element_object(spec_child_array(old(self).spec_root(), "plugins"@), index as int)
                    is Some,
            ),
    {
        let ghost r0 = self.spec_root();
        let (a, taken) = self.open("plugins", index);
        match taken {
            Some(mut o) => {
                set_child_member(&mut o, "optimizer", key, string_list_json(value.as_str()));
                self.close_with("plugins", a, index, o, true, Ghost(r0));
            },
            None => self.close_unchanged("plugins", a, Ghost(r0)),
        }
    }
}

} // verus!
