//! A call's configuration: a JSON object of options, kept as its keys and what
//! the logic reads of each value, beside the JSON value itself for Grust.
use vstd::prelude::*;
use vstd::string::*;

use crate::catalog::text_lt;
use crate::text::{chars_of, eq_ignore_case, eq_ignore_case_chars, is_space, trim, trim_chars};

verus! {

#[verifier::external_type_specification]
#[verifier::external_body]
pub struct ExJsonValue(serde_json::Value);

/// `serde_json::Value`'s `Clone`: a copy of the value.
pub assume_specification[ <serde_json::Value as Clone>::clone ](v: &serde_json::Value) -> serde_json::Value;

/// What the logic reads of a JSON value.
#[derive(Clone, Debug, PartialEq, Eq)]
pub enum JsonKind {
    /// A JSON string, and the string.
    Text(String),
    /// A JSON number, and its value when it is a non-negative integer that
    /// fits in 64 bits (`serde_json::Number::as_u64`).
    Number(Option<u64>),
    /// A JSON array, and the text of each item: a string item's string, any
    /// other item's JSON rendering.
    Array(Vec<String>),
    /// `null`, a boolean or an object.
    Other,
}

/// What the contracts see of a [`JsonKind`].
pub ghost enum JsonView {
    Text(Seq<char>),
    Number(Option<u64>),
    Array(Seq<Seq<char>>),
    Other,
}

impl JsonKind {
    pub open spec fn view(&self) -> JsonView {
        match self {
            JsonKind::Text(t) => JsonView::Text(t@),
            JsonKind::Number(n) => JsonView::Number(*n),
            JsonKind::Array(items) => JsonView::Array(items@.map_values(|s: String| s@)),
            JsonKind::Other => JsonView::Other,
        }
    }

    /// A copy.
    pub fn duplicate(&self) -> (r: JsonKind)
        ensures
            r@ == self@,
    {
        match self {
            JsonKind::Text(t) => JsonKind::Text(t.clone()),
            JsonKind::Number(n) => JsonKind::Number(*n),
            JsonKind::Array(items) => {
                let mut out: Vec<String> = Vec::new();
                let mut i: usize = 0;
                while i < items.len()
                    invariant
                        i <= items@.len(),
                        out@.map_values(|s: String| s@) == items@.subrange(0, i as int).map_values(|s: String| s@),
                    decreases items@.len() - i,
                {
                    let ghost before = out@;
                    let c = items[i].clone();
                    out.push(c);
                    assert(out@.map_values(|s: String| s@) =~= before.map_values(|s: String| s@).push(c@));
                    assert(items@.subrange(0, i + 1).map_values(|s: String| s@) =~= items@.subrange(0, i as int).map_values(|s: String| s@).push(items@[i as int]@));
                    i = i + 1;
                }
                assert(items@.subrange(0, items@.len() as int) == items@);
                JsonKind::Array(out)
            },
            JsonKind::Other => JsonKind::Other,
        }
    }
}

/// One option's value: the JSON value Grust receives, and what the logic reads
/// of it.
#[derive(Debug)]
pub struct OptionValue {
    pub json: serde_json::Value,
    pub kind: JsonKind,
}

/// What [`kind_of_json`] reads a JSON value as.
pub uninterp spec fn json_kind(json: serde_json::Value) -> JsonView;

/// The library's reading of a JSON value, variant by variant.
#[verifier::external_body]
fn kind_of_json(json: &serde_json::Value) -> (r: JsonKind)
    ensures
        r@ == json_kind(*json),
{
    match json {
        serde_json::Value::String(s) => JsonKind::Text(s.clone()),
        serde_json::Value::Number(n) => JsonKind::Number(n.as_u64()),
        serde_json::Value::Array(items) => JsonKind::Array(items.iter().map(|v| match v {
            serde_json::Value::String(s) => s.clone(),
            other => other.to_string(),
        }).collect()),
        _ => JsonKind::Other,
    }
}

/// The JSON rendering of a value (`serde_json::Value`'s `Display`).
#[verifier::external_body]
pub(crate) fn json_rendering(json: &serde_json::Value) -> String {
    json.to_string()
}

/// `serde_json::Value::String`.
#[verifier::external_body]
fn json_string(s: &str) -> serde_json::Value {
    serde_json::Value::String(s.to_string())
}

/// `serde_json::Value::Array` of `Value::String`s.
#[verifier::external_body]
fn json_texts(items: &Vec<String>) -> serde_json::Value {
    serde_json::Value::Array(items.iter().map(|s| serde_json::Value::String(s.clone())).collect())
}

impl OptionValue {
    /// A value as it arrives in a JSON configuration.
    pub fn from_json(json: serde_json::Value) -> (r: OptionValue)
        ensures
            r.json == json,
            r.kind@ == json_kind(json),
    {
        let kind = kind_of_json(&json);
        OptionValue { json, kind }
    }

    /// A JSON string value.
    pub fn text(s: &str) -> (r: OptionValue)
        ensures
            r.kind matches JsonKind::Text(t) && t@ == s@,
    {
        OptionValue { json: json_string(s), kind: JsonKind::Text(String::from_str(s)) }
    }

    /// A JSON array of strings.
    pub fn texts(items: &Vec<String>) -> (r: OptionValue)
        ensures
            r.kind@ == JsonView::Array(items@.map_values(|s: String| s@)),
    {
        let mut copied: Vec<String> = Vec::new();
        let mut i: usize = 0;
        while i < items.len()
            invariant
                i <= items@.len(),
                copied@.len() == i,
                forall|j: int| 0 <= j < i ==> #[trigger] copied@[j]@ == items@[j]@,
            decreases items@.len() - i,
        {
            copied.push(items[i].clone());
            i = i + 1;
        }
        assert(copied@.map_values(|s: String| s@) =~= items@.map_values(|s: String| s@));
        OptionValue { json: json_texts(items), kind: JsonKind::Array(copied) }
    }

    /// A copy.
    pub fn duplicate(&self) -> (r: OptionValue)
        ensures
            r.kind@ == self.kind@,
    {
        OptionValue { json: self.json.clone(), kind: self.kind.duplicate() }
    }

    /// `json_text`: a string value's string, any other value's rendering.
    pub fn text_of(&self) -> (r: String)
        ensures
            self.kind matches JsonKind::Text(t) ==> r@ == t@,
    {
        match &self.kind {
            JsonKind::Text(t) => t.clone(),
            _ => json_rendering(&self.json),
        }
    }
}

/// One entry of an [`Options`], as its contracts see it.
pub open spec fn entry_view(e: (String, OptionValue)) -> (Seq<char>, JsonView) {
    (e.0@, e.1.kind@)
}

pub open spec fn keys_of(s: Seq<(Seq<char>, JsonView)>) -> Seq<Seq<char>> {
    s.map_values(|e: (Seq<char>, JsonView)| e.0)
}

pub open spec fn strictly_sorted(keys: Seq<Seq<char>>) -> bool {
    forall|i: int, j: int| 0 <= i < j < keys.len() ==> text_lt(keys[i], keys[j])
}

/// The index of the first key equal to `name` but for ASCII case.
pub open spec fn first_match(keys: Seq<Seq<char>>, name: Seq<char>) -> Option<int>
    decreases keys.len(),
{
    if keys.len() == 0 {
        None
    } else if eq_ignore_case(keys[0], name) {
        Some(0)
    } else {
        match first_match(keys.drop_first(), name) {
            Some(j) => Some(j + 1),
            None => None,
        }
    }
}

/// Taking one option out by name, in any case: its value, if a key matched,
/// and the entries left.
pub open spec fn take_spec(entries: Seq<(Seq<char>, JsonView)>, name: Seq<char>) -> (
    Option<JsonView>,
    Seq<(Seq<char>, JsonView)>,
) {
    match first_match(keys_of(entries), name) {
        Some(i) => (Some(entries[i].1), entries.remove(i)),
        None => (None, entries),
    }
}

/// A JSON object of options, keyed by text, its keys in `String` order as
/// `serde_json::Map` keeps them.
#[derive(Debug)]
pub struct Options {
    entries: Vec<(String, OptionValue)>,
}

pub proof fn lemma_text_lt_irreflexive(a: Seq<char>)
    ensures
        !text_lt(a, a),
    decreases a.len(),
{
    if a.len() > 0 {
        lemma_text_lt_irreflexive(a.drop_first());
    }
}

pub proof fn lemma_text_lt_transitive(a: Seq<char>, b: Seq<char>, c: Seq<char>)
    requires
        text_lt(a, b),
        text_lt(b, c),
    ensures
        text_lt(a, c),
    decreases a.len(),
{
    if a.len() > 0 && b.len() > 0 && c.len() > 0 && a[0] == b[0] && b[0] == c[0] {
        lemma_text_lt_transitive(a.drop_first(), b.drop_first(), c.drop_first());
    }
}

pub proof fn lemma_text_lt_total(a: Seq<char>, b: Seq<char>)
    ensures
        a != b ==> text_lt(a, b) || text_lt(b, a),
    decreases a.len(),
{
    if a.len() > 0 && b.len() > 0 && a[0] == b[0] {
        lemma_text_lt_total(a.drop_first(), b.drop_first());
        if a.drop_first() == b.drop_first() {
            assert(a == seq![a[0]] + a.drop_first());
            assert(b == seq![b[0]] + b.drop_first());
        }
    } else if a.len() == 0 && b.len() == 0 {
        assert(a == b);
    }
}

proof fn lemma_first_match_index(keys: Seq<Seq<char>>, name: Seq<char>, i: int)
    requires
        0 <= i <= keys.len(),
        forall|j: int| 0 <= j < i ==> !eq_ignore_case(#[trigger] keys[j], name),
    ensures
        first_match(keys, name) == match first_match(keys.subrange(i, keys.len() as int), name) {
            Some(j) => Some(j + i),
            None => None::<int>,
        },
    decreases i,
{
    if i > 0 {
        assert(!eq_ignore_case(keys[0], name));
        let rest = keys.drop_first();
        assert forall|j: int| 0 <= j < i - 1 implies !eq_ignore_case(#[trigger] rest[j], name) by {
            assert(rest[j] == keys[j + 1]);
        }
        lemma_first_match_index(rest, name, i - 1);
        assert(rest.subrange(i - 1, rest.len() as int) == keys.subrange(i, keys.len() as int));
    } else {
        assert(keys.subrange(0, keys.len() as int) == keys);
    }
}

impl Options {
    /// The entries: each key with what the logic reads of its value.
    pub closed spec fn view(&self) -> Seq<(Seq<char>, JsonView)> {
        self.entries@.map_values(|e: (String, OptionValue)| entry_view(e))
    }

    #[verifier::type_invariant]
    spec fn keys_sorted(&self) -> bool {
        strictly_sorted(keys_of(self.view()))
    }

    /// No options.
    pub fn new() -> (r: Options)
        ensures
            r@ == Seq::<(Seq<char>, JsonView)>::empty(),
    {
        let entries: Vec<(String, OptionValue)> = Vec::new();
        assert(keys_of(entries@.map_values(|e: (String, OptionValue)| entry_view(e))).len() == 0);
        let r = Options { entries };
        assert(r@ =~= Seq::<(Seq<char>, JsonView)>::empty());
        r
    }

    pub fn len(&self) -> (r: usize)
        ensures
            r == self@.len(),
    {
        self.entries.len()
    }

    /// The keys, in order.
    pub fn keys(&self) -> (r: Vec<String>)
        ensures
            r@.map_values(|k: String| k@) == keys_of(self@),
    {
        let mut out: Vec<String> = Vec::new();
        let mut i: usize = 0;
        while i < self.entries.len()
            invariant
                i <= self@.len(),
                self@.len() == self.entries@.len(),
                out@.map_values(|k: String| k@) == keys_of(self@).subrange(0, i as int),
            decreases self@.len() - i,
        {
            let k = self.entries[i].0.clone();
            let ghost before = out@;
            out.push(k);
            proof {
                assert(keys_of(self@)[i as int] == self.entries@[i as int].0@);
                assert(out@.map_values(|k: String| k@) =~= before.map_values(|k: String| k@).push(k@));
                assert(keys_of(self@).subrange(0, i + 1) =~= keys_of(self@).subrange(0, i as int).push(keys_of(self@)[i as int]));
            }
            i = i + 1;
        }
        assert(keys_of(self@).subrange(0, self@.len() as int) =~= keys_of(self@));
        out
    }

    /// The value under a key, compared exactly.
    pub fn get(&self, key: &str) -> (r: Option<&OptionValue>)
        ensures
            match r {
                Some(v) => exists|i: int|
                    0 <= i < self@.len() && self@[i].0 == key@ && self@[i].1 == v.kind@,
                None => forall|i: int| 0 <= i < self@.len() ==> self@[i].0 != key@,
            },
    {
        let want = chars_of(key);
        let mut i: usize = 0;
        while i < self.entries.len()
            invariant
                i <= self@.len(),
                self@.len() == self.entries@.len(),
                want@ == key@,
                forall|j: int| 0 <= j < i ==> self@[j].0 != key@,
            decreases self@.len() - i,
        {
            let k = chars_of(self.entries[i].0.as_str());
            if crate::text::eq_chars(k.as_slice(), want.as_slice()) {
                assert(self@[i as int].0 == key@);
                return Some(&self.entries[i].1);
            }
            i = i + 1;
        }
        None
    }

    /// Set `key` to `value`, replacing a value already under it: `key` holds
    /// `value` alone, and every other key what it held.
    pub fn insert(&mut self, key: String, value: OptionValue)
        ensures
            final(self)@.contains((key@, value.kind@)),
            forall|v: JsonView| #[trigger] final(self)@.contains((key@, v)) ==> v == value.kind@,
            forall|k: Seq<char>, v: JsonView|
                k != key@ ==> (#[trigger] final(self)@.contains((k, v)) <==> old(self)@.contains((k, v))),
            exists|i: int|
                0 <= i < final(self)@.len() && #[trigger] final(self)@[i] == (key@, value.kind@) && (
                if i < old(self)@.len() && old(self)@[i].0 == key@ {
                    final(self)@ == old(self)@.update(i, (key@, value.kind@))
                } else {
                    final(self)@ == old(self)@.insert(i, (key@, value.kind@))
                }),
    {
        proof {
            use_type_invariant(&*self);
        }
        let want = chars_of(key.as_str());
        let mut entries: Vec<(String, OptionValue)> = Vec::new();
        std::mem::swap(&mut entries, &mut self.entries);
        let ghost old_view = entries@.map_values(|e: (String, OptionValue)| entry_view(e));
        assert(old_view == old(self)@);
        let mut i: usize = 0;
        // The first key not below `key`.
        while i < entries.len() && text_lt_chars(chars_of(entries[i].0.as_str()).as_slice(), want.as_slice())
            invariant
                i <= entries@.len(),
                want@ == key@,
                entries@.map_values(|e: (String, OptionValue)| entry_view(e)) == old_view,
                forall|j: int| 0 <= j < i ==> text_lt(#[trigger] old_view[j].0, key@),
            decreases entries@.len() - i,
        {
            assert(old_view[i as int].0 == entries@[i as int].0@);
            i = i + 1;
        }
        let mut same = false;
        if i < entries.len() {
            let k = chars_of(entries[i].0.as_str());
            assert(old_view[i as int].0 == k@);
            same = crate::text::eq_chars(k.as_slice(), want.as_slice());
        }
        assert(i < old_view.len() ==> !text_lt(old_view[i as int].0, key@));
        assert(i < old_view.len() ==> (same <==> old_view[i as int].0 == key@));
        let ghost kv = (key@, value.kind@);
        if same {
            entries.set(i, (key, value));
            proof {
                let nv = entries@.map_values(|e: (String, OptionValue)| entry_view(e));
                assert(nv =~= old_view.update(i as int, kv));
                assert(keys_of(nv) =~= keys_of(old_view));
            }
        } else {
            entries.insert(i, (key, value));
            proof {
                let nv = entries@.map_values(|e: (String, OptionValue)| entry_view(e));
                assert(nv =~= old_view.insert(i as int, kv));
                if i < old_view.len() {
                    lemma_text_lt_total(old_view[i as int].0, key@);
                    assert(text_lt(key@, old_view[i as int].0));
                }
                assert forall|a: int, b: int| 0 <= a < b < nv.len() implies text_lt(
                    keys_of(nv)[a],
                    keys_of(nv)[b],
                ) by {
                    assert(strictly_sorted(keys_of(old_view)));
                    if a < i && b < i {
                        assert(keys_of(nv)[a] == keys_of(old_view)[a]);
                        assert(keys_of(nv)[b] == keys_of(old_view)[b]);
                    } else if a < i && b == i {
                        assert(text_lt(old_view[a].0, key@));
                    } else if a < i {
                        assert(keys_of(nv)[b] == keys_of(old_view)[b - 1]);
                        assert(text_lt(old_view[a].0, key@));
                        if i == b - 1 {
                        } else {
                            assert(text_lt(keys_of(old_view)[i as int], keys_of(old_view)[b - 1]));
                            lemma_text_lt_transitive(key@, keys_of(old_view)[i as int], keys_of(old_view)[b - 1]);
                        }
                        lemma_text_lt_transitive(old_view[a].0, key@, keys_of(old_view)[b - 1]);
                    } else if a == i {
                        assert(keys_of(nv)[b] == keys_of(old_view)[b - 1]);
                        if b - 1 > i {
                            assert(text_lt(keys_of(old_view)[i as int], keys_of(old_view)[b - 1]));
                            lemma_text_lt_transitive(key@, keys_of(old_view)[i as int], keys_of(old_view)[b - 1]);
                        }
                    } else {
                        assert(keys_of(nv)[a] == keys_of(old_view)[a - 1]);
                        assert(keys_of(nv)[b] == keys_of(old_view)[b - 1]);
                    }
                }
            }
        }
        self.entries = entries;
        proof {
            use_type_invariant(&*self);
            let fin = self@;
            assert(fin[i as int] == kv);
            assert forall|v: JsonView| #[trigger] fin.contains((key@, v)) implies v == value.kind@ by {
                let j = choose|j: int| 0 <= j < fin.len() && fin[j] == (key@, v);
                if j != i {
                    assert(keys_of(fin)[j] == key@);
                    assert(keys_of(fin)[i as int] == key@);
                    if j < i {
                        assert(text_lt(keys_of(fin)[j], keys_of(fin)[i as int]));
                    } else {
                        assert(text_lt(keys_of(fin)[i as int], keys_of(fin)[j]));
                    }
                    lemma_text_lt_irreflexive(key@);
                }
            }
            assert forall|k: Seq<char>, v: JsonView| k != key@ implies (#[trigger] fin.contains((k, v))
                <==> old_view.contains((k, v))) by {
                if same {
                    if fin.contains((k, v)) {
                        let j = choose|j: int| 0 <= j < fin.len() && fin[j] == (k, v);
                        assert(old_view[j] == fin[j]);
                    }
                    if old_view.contains((k, v)) {
                        let j = choose|j: int| 0 <= j < old_view.len() && old_view[j] == (k, v);
                        assert(fin[j] == old_view[j]);
                    }
                } else {
                    if fin.contains((k, v)) {
                        let j = choose|j: int| 0 <= j < fin.len() && fin[j] == (k, v);
                        if j < i {
                            assert(old_view[j] == fin[j]);
                        } else {
                            assert(old_view[j - 1] == fin[j]);
                        }
                    }
                    if old_view.contains((k, v)) {
                        let j = choose|j: int| 0 <= j < old_view.len() && old_view[j] == (k, v);
                        if j < i {
                            assert(fin[j] == old_view[j]);
                        } else {
                            assert(fin[j + 1] == old_view[j]);
                        }
                    }
                }
            }
        }
    }

    /// The index of the first key equal to `name` but for ASCII case
    /// (`str::eq_ignore_ascii_case`).
    pub fn find_ignore_case(&self, name: &str) -> (r: Option<usize>)
        ensures
            match first_match(keys_of(self@), name@) {
                Some(i) => r matches Some(j) && j as int == i,
                None => r is None,
            },
            r matches Some(i) ==> i < self@.len() && eq_ignore_case(keys_of(self@)[i as int], name@),
    {
        let want = chars_of(name);
        let ghost keys = keys_of(self@);
        let mut i: usize = 0;
        while i < self.entries.len()
            invariant
                i <= self@.len(),
                self@.len() == self.entries@.len(),
                keys == keys_of(self@),
                want@ == name@,
                forall|j: int| 0 <= j < i ==> !eq_ignore_case(#[trigger] keys[j], name@),
            decreases self@.len() - i,
        {
            let k = chars_of(self.entries[i].0.as_str());
            assert(keys[i as int] == k@);
            if eq_ignore_case_chars(k.as_slice(), want.as_slice()) {
                proof {
                    lemma_first_match_index(keys, name@, i as int);
                    assert(keys.subrange(i as int, keys.len() as int)[0] == keys[i as int]);
                }
                return Some(i);
            }
            i = i + 1;
        }
        proof {
            lemma_first_match_index(keys, name@, i as int);
        }
        None
    }

    /// Take one option out by name, in any case (see [`take_spec`]).
    pub fn take(&mut self, name: &str) -> (r: Option<OptionValue>)
        ensures
            take_spec(old(self)@, name@).1 == final(self)@,
            match take_spec(old(self)@, name@).0 {
                Some(k) => r matches Some(v) && v.kind@ == k,
                None => r is None,
            },
    {
        proof {
            use_type_invariant(&*self);
        }
        let found = self.find_ignore_case(name);
        match found {
            None => {
                assert(first_match(keys_of(old(self)@), name@) is None);
                None
            },
            Some(i) => {
                assert(first_match(keys_of(old(self)@), name@) == Some(i as int));
                let mut entries: Vec<(String, OptionValue)> = Vec::new();
        std::mem::swap(&mut entries, &mut self.entries);
                let ghost old_view = entries@.map_values(|e: (String, OptionValue)| entry_view(e));
                assert(old_view == old(self)@);
                let ghost old_entries = entries@;
                let (_, v) = entries.remove(i);
                proof {
                    let nv = entries@.map_values(|e: (String, OptionValue)| entry_view(e));
                    assert(entries@ == old_entries.remove(i as int));
                    assert forall|k: int| 0 <= k < nv.len() implies nv[k] == old_view.remove(i as int)[k] by {
                        if k < i {
                            assert(entries@[k] == old_entries[k]);
                        } else {
                            assert(entries@[k] == old_entries[k + 1]);
                        }
                    }
                    assert(nv =~= old_view.remove(i as int));
                    assert(strictly_sorted(keys_of(old_view)));
                    assert forall|a: int, b: int| 0 <= a < b < nv.len() implies text_lt(
                        keys_of(nv)[a],
                        keys_of(nv)[b],
                    ) by {
                        let a2 = if a < i { a } else { a + 1 };
                        let b2 = if b < i { b } else { b + 1 };
                        assert(keys_of(nv)[a] == keys_of(old_view)[a2]);
                        assert(keys_of(nv)[b] == keys_of(old_view)[b2]);
                    }
                }
                self.entries = entries;
                proof {
                    assert(self@ == old_view.remove(i as int));
                    assert(v.kind@ == old_view[i as int].1);
                    assert(take_spec(old(self)@, name@).1 == self@);
                    assert(take_spec(old(self)@, name@).0 == Some(v.kind@));
                }
                Some(v)
            },
        }
    }

    /// Remove entry `i`, returning its value.
    pub fn remove_index(&mut self, i: usize) -> (r: OptionValue)
        requires
            i < old(self)@.len(),
        ensures
            final(self)@ == old(self)@.remove(i as int),
            r.kind@ == old(self)@[i as int].1,
    {
        proof {
            use_type_invariant(&*self);
        }
        let mut entries: Vec<(String, OptionValue)> = Vec::new();
        std::mem::swap(&mut entries, &mut self.entries);
        let ghost old_view = entries@.map_values(|e: (String, OptionValue)| entry_view(e));
        let ghost old_entries = entries@;
        let (_, v) = entries.remove(i);
        proof {
            let nv = entries@.map_values(|e: (String, OptionValue)| entry_view(e));
            assert forall|k: int| 0 <= k < nv.len() implies nv[k] == old_view.remove(i as int)[k] by {
                if k < i {
                    assert(entries@[k] == old_entries[k]);
                } else {
                    assert(entries@[k] == old_entries[k + 1]);
                }
            }
            assert(nv =~= old_view.remove(i as int));
            assert forall|a: int, b: int| 0 <= a < b < nv.len() implies text_lt(
                keys_of(nv)[a],
                keys_of(nv)[b],
            ) by {
                let a2 = if a < i { a } else { a + 1 };
                let b2 = if b < i { b } else { b + 1 };
                assert(keys_of(nv)[a] == keys_of(old_view)[a2]);
                assert(keys_of(nv)[b] == keys_of(old_view)[b2]);
            }
        }
        self.entries = entries;
        v
    }

    /// Remove the value under `key`, compared exactly, if there is one.
    pub fn remove(&mut self, key: &str) -> (r: Option<OptionValue>)
        ensures
            match r {
                Some(v) => exists|i: int|
                    0 <= i < old(self)@.len() && old(self)@[i].0 == key@ && old(self)@[i].1 == v.kind@
                        && final(self)@ == old(self)@.remove(i) && forall|j: int|
                        0 <= j < i ==> old(self)@[j].0 != key@,
                None => final(self)@ == old(self)@ && forall|i: int|
                    0 <= i < old(self)@.len() ==> old(self)@[i].0 != key@,
            },
    {
        let want = chars_of(key);
        let mut i: usize = 0;
        while i < self.entries.len()
            invariant
                i <= self@.len(),
                self@.len() == self.entries@.len(),
                self@ == old(self)@,
                want@ == key@,
                forall|j: int| 0 <= j < i ==> self@[j].0 != key@,
            decreases self@.len() - i,
        {
            let k = chars_of(self.entries[i].0.as_str());
            if crate::text::eq_chars(k.as_slice(), want.as_slice()) {
                assert(self@[i as int].0 == key@);
                let v = self.remove_index(i);
                return Some(v);
            }
            i = i + 1;
        }
        None
    }

    /// A copy.
    pub fn duplicate(&self) -> (r: Options)
        ensures
            r@ == self@,
    {
        proof {
            use_type_invariant(self);
        }
        let mut entries: Vec<(String, OptionValue)> = Vec::new();
        let mut i: usize = 0;
        while i < self.entries.len()
            invariant
                i <= self.entries@.len(),
                entries@.map_values(|e: (String, OptionValue)| entry_view(e)) == self@.subrange(0, i as int),
                strictly_sorted(keys_of(self@)),
            decreases self.entries@.len() - i,
        {
            let e = &self.entries[i];
            let ghost before = entries@;
            let k = e.0.clone();
            let v = e.1.duplicate();
            entries.push((k, v));
            proof {
                assert(entry_view((k, v)) == entry_view(self.entries@[i as int]));
                assert(entries@.map_values(|e: (String, OptionValue)| entry_view(e)) =~= before.map_values(|e: (String, OptionValue)| entry_view(e)).push(entry_view((k, v))));
                assert(self@.subrange(0, i + 1) =~= self@.subrange(0, i as int).push(self@[i as int]));
            }
            i = i + 1;
        }
        assert(self@.subrange(0, self@.len() as int) == self@);
        assert(keys_of(entries@.map_values(|e: (String, OptionValue)| entry_view(e))) == keys_of(self@));
        Options { entries }
    }

    /// The JSON object Grust validates: every key with its value.
    #[verifier::external_body]
    pub fn to_json(&self) -> serde_json::Value {
        serde_json::Value::Object(
            self.entries.iter().map(|(k, v)| (k.clone(), v.json.clone())).collect(),
        )
    }
}

/// `a` sorts before `b` in `String` order.
pub fn text_lt_chars(a: &[char], b: &[char]) -> (r: bool)
    ensures
        r == text_lt(a@, b@),
{
    let mut i: usize = 0;
    assert(a@.skip(0) == a@ && b@.skip(0) == b@);
    while i < a.len() && i < b.len() && a[i] == b[i]
        invariant
            i <= a@.len(),
            i <= b@.len(),
            text_lt(a@, b@) == text_lt(a@.skip(i as int), b@.skip(i as int)),
        decreases a@.len() - i,
    {
        proof {
            assert(a@.skip(i as int).drop_first() == a@.skip(i + 1));
            assert(b@.skip(i as int).drop_first() == b@.skip(i + 1));
        }
        i = i + 1;
    }
    if i == a.len() {
        i < b.len()
    } else if i == b.len() {
        false
    } else {
        a[i] < b[i]
    }
}

/// The value `str::parse::<u64>` gives a text: an optional `+`, then one or
/// more ASCII digits, with no overflow.
pub open spec fn digits_value(s: Seq<char>) -> nat
    decreases s.len(),
{
    if s.len() == 0 {
        0
    } else {
        digits_value(s.drop_last()) * 10 + ((s.last() as u32) - 48) as nat
    }
}

pub open spec fn all_digits(s: Seq<char>) -> bool {
    forall|i: int| 0 <= i < s.len() ==> '0' <= #[trigger] s[i] <= '9'
}

pub open spec fn parse_u64_spec(s: Seq<char>) -> Option<u64> {
    let d = if s.len() > 0 && s[0] == '+' {
        s.drop_first()
    } else {
        s
    };
    if d.len() > 0 && all_digits(d) && digits_value(d) <= u64::MAX {
        Some(digits_value(d) as u64)
    } else {
        None
    }
}

/// `str::parse::<u64>`.
pub fn parse_u64(s: &[char]) -> (r: Option<u64>)
    ensures
        r == parse_u64_spec(s@),
{
    let start: usize = if s.len() > 0 && s[0] == '+' {
        1
    } else {
        0
    };
    let ghost d = if s@.len() > 0 && s@[0] == '+' {
        s@.drop_first()
    } else {
        s@
    };
    assert(d == s@.subrange(start as int, s@.len() as int));
    if start == s.len() {
        return None;
    }
    let mut value: u64 = 0;
    let mut i: usize = start;
    while i < s.len()
        invariant
            start <= i <= s@.len(),
            d == s@.subrange(start as int, s@.len() as int),
            d == (if s@.len() > 0 && s@[0] == '+' { s@.drop_first() } else { s@ }),
            all_digits(s@.subrange(start as int, i as int)),
            value == digits_value(s@.subrange(start as int, i as int)),
        decreases s@.len() - i,
    {
        let c = s[i];
        let ghost prefix = s@.subrange(start as int, i + 1);
        assert(prefix.drop_last() == s@.subrange(start as int, i as int));
        if c < '0' || c > '9' {
            assert(d[i - start] == c);
            assert(!all_digits(d));
            return None;
        }
        let digit = (c as u32 - 48) as u64;
        if value > (u64::MAX - digit) / 10 {
            proof {
                assert(prefix.last() == c);
                assert(digits_value(prefix) == value * 10 + digit);
                assert(prefix == d.subrange(0, i + 1 - start));
                assert(value * 10 + digit > u64::MAX) by (nonlinear_arith)
                    requires
                        value > (u64::MAX - digit) / 10,
                        digit <= 9,
                ;
                // A longer run of digits is worth at least as much.
                lemma_digits_prefix_bound(d, (i + 1 - start) as int);
            }
            return None;
        }
        value = value * 10 + digit;
        i = i + 1;
    }
    assert(s@.subrange(start as int, s@.len() as int) == d);
    Some(value)
}

proof fn lemma_digits_prefix_bound(d: Seq<char>, n: int)
    requires
        0 < n <= d.len(),
    ensures
        all_digits(d) ==> digits_value(d) >= digits_value(d.subrange(0, n)),
    decreases d.len() - n,
{
    if n < d.len() && all_digits(d) {
        lemma_digits_prefix_bound(d, n + 1);
        let p = d.subrange(0, n + 1);
        assert(p.drop_last() == d.subrange(0, n));
        assert(all_digits(p));
    } else if n == d.len() {
        assert(d.subrange(0, n) == d);
    }
}

} // verus!
