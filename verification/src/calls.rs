//! A call's configuration as Grust validates it: positional arguments taken
//! by name from the options, data source options given their declared type
//! and spelling, a JSON object of options, and the arguments a schema probe
//! runs with.
use vstd::prelude::*;
use vstd::string::*;

use crate::budget::{refusal_of, Refusal};
use crate::catalog::{kernel_names, procedures, views, Definition, FieldSpec, ValueKind};
use crate::error::{join2, join3, NutmegError};
use crate::options::{json_kind, JsonKind, JsonView, OptionValue, Options};
use crate::runs::definition_of;
use crate::text::{chars_of, is_space, lower_chars, lower_seq, string_of, trim, trim_chars};

verus! {


#[verifier::external_type_specification]
#[verifier::external_body]
pub struct ExResolvedProcedure(grust_procedures::ResolvedProcedure);

/// `ProcedureRegistry::resolve`.
#[verifier::external_body]
fn resolve(
    registry: &grust_procedures::ProcedureRegistry,
    name: &str,
) -> Result<grust_procedures::ResolvedProcedure, Refusal> {
    registry.resolve(name).map_err(refusal_of)
}

/// `ResolvedProcedure::definition`, as the library reads it.
#[verifier::external_body]
fn definition(resolved: &grust_procedures::ResolvedProcedure) -> Definition {
    crate::catalog::definition_of_grust(resolved.definition())
}

/// One positional argument of a call.
#[derive(Debug)]
pub enum CallArgument {
    /// A text.
    Text(String),
    /// A list of texts.
    Texts(Vec<String>),
}

/// `ResolvedProcedure::validate_arguments` of the positional arguments
/// (`Value::String`, `Value::StringArray`) followed by the configuration
/// (`Value::Json`).
#[verifier::external_body]
fn validate_arguments(
    resolved: &grust_procedures::ResolvedProcedure,
    args: Vec<CallArgument>,
    configuration: serde_json::Value,
) -> Result<grust_procedures::ValidatedArguments, Refusal> {
    let mut values: Vec<grust_core::Value> = args.into_iter().map(|a| match a {
        CallArgument::Text(t) => grust_core::Value::String(t),
        CallArgument::Texts(t) => grust_core::Value::StringArray(t),
    }).collect();
    values.push(grust_core::Value::Json(configuration));
    resolved.validate_arguments(values).map_err(refusal_of)
}

/// The definition Grust's registry resolves `algorithm` to; a name it does
/// not know is refused with Grust's message.
fn resolved(
    registry: &grust_procedures::ProcedureRegistry,
    algorithm: &str,
) -> (r: Result<grust_procedures::ResolvedProcedure, NutmegError>)
    ensures
        r is Err ==> r->Err_0 is Execution,
{
    let name = join2("grust.algorithms.", algorithm);
    match resolve(registry, name.as_str()) {
        Ok(r) => Ok(r),
        Err(refused) => Err(crate::budget::failure(&refused)),
    }
}

/// The pieces of `text` between commas, each trimmed.
pub open spec fn comma_pieces(text: Seq<char>) -> Seq<Seq<char>>
    decreases text.len(),
{
    comma_pieces_from(text, Seq::empty())
}

/// The pieces of `current + text` between commas, each trimmed.
pub open spec fn comma_pieces_from(text: Seq<char>, current: Seq<char>) -> Seq<Seq<char>>
    decreases text.len(),
{
    if text.len() == 0 {
        seq![trim(current)]
    } else if text[0] == ',' {
        seq![trim(current)] + comma_pieces_from(text.drop_first(), Seq::empty())
    } else {
        comma_pieces_from(text.drop_first(), current.push(text[0]))
    }
}

/// `text.split(',').map(str::trim)`: the pieces between commas, trimmed.
pub fn split_trimmed(text: &str) -> (r: Vec<String>)
    ensures
        r@.map_values(|s: String| s@) == comma_pieces(text@),
{
    let chars = chars_of(text);
    let mut out: Vec<String> = Vec::new();
    let mut current: Vec<char> = Vec::new();
    let mut i: usize = 0;
    assert(chars@.subrange(0, chars@.len() as int) == text@);
    assert(out@.map_values(|s: String| s@) + comma_pieces_from(text@, current@) =~= comma_pieces(text@));
    while i < chars.len()
        invariant
            i <= chars@.len(),
            out@.map_values(|s: String| s@) + comma_pieces_from(
                chars@.subrange(i as int, chars@.len() as int),
                current@,
            ) == comma_pieces(text@),
        decreases chars@.len() - i,
    {
        let ghost rest = chars@.subrange(i as int, chars@.len() as int);
        assert(rest.drop_first() == chars@.subrange(i + 1, chars@.len() as int));
        if chars[i] == ',' {
            let piece = trim_chars(current.as_slice());
            let s = string_of(piece.as_slice());
            let ghost before = out@;
            out.push(s);
            proof {
                assert(out@.map_values(|s: String| s@) =~= before.map_values(|s: String| s@).push(trim(current@)));
                assert(before.map_values(|s: String| s@).push(trim(current@)) =~= before.map_values(|s: String| s@) + seq![trim(current@)]);
            }
            current = Vec::new();
        } else {
            current.push(chars[i]);
        }
        i = i + 1;
    }
    let piece = trim_chars(current.as_slice());
    let s = string_of(piece.as_slice());
    let ghost before = out@;
    out.push(s);
    proof {
        assert(chars@.subrange(chars@.len() as int, chars@.len() as int) == Seq::<char>::empty());
        assert(out@.map_values(|s: String| s@) =~= before.map_values(|s: String| s@).push(trim(current@)));
    }
    out
}

/// What taking a call's positional arguments out of its options gives:
/// the name of the first that is missing, or each argument's value with
/// whether it is a list, and the options left.
pub enum ArgumentsTaken {
    Missing(Seq<char>),
    Taken(Seq<(bool, JsonView)>, Seq<(Seq<char>, JsonView)>),
}

/// The first entry of `entries` under `key`, compared exactly.
pub open spec fn key_position(entries: Seq<(Seq<char>, JsonView)>, key: Seq<char>) -> Option<int> {
    crate::order::index_of(crate::options::keys_of(entries), key)
}

/// Take the first `n` of the positional `arguments` (all but the one at
/// `options_argument`) out of `entries` in order, each by its exact name.
pub open spec fn take_arguments(
    arguments: Seq<FieldSpec>,
    options_argument: Option<usize>,
    entries: Seq<(Seq<char>, JsonView)>,
    n: nat,
) -> ArgumentsTaken
    decreases n,
{
    if n == 0 {
        ArgumentsTaken::Taken(Seq::empty(), entries)
    } else {
        let a = n - 1;
        match take_arguments(arguments, options_argument, entries, (n - 1) as nat) {
            ArgumentsTaken::Missing(name) => ArgumentsTaken::Missing(name),
            ArgumentsTaken::Taken(given, rest) => if options_argument == Some(a as usize) {
                ArgumentsTaken::Taken(given, rest)
            } else {
                match key_position(rest, arguments[a].name@) {
                    Some(i) => ArgumentsTaken::Taken(
                        given.push((arguments[a].value_type == ValueKind::Strings, rest[i].1)),
                        rest.remove(i),
                    ),
                    None => ArgumentsTaken::Missing(arguments[a].name@),
                }
            },
        }
    }
}

/// Whether `arg` is what a given value becomes as an argument: a list from
/// a JSON array, its items; from a string, the pieces between its commas,
/// trimmed; a single argument from a string, the string. (Other values are
/// rendered as JSON first.)
pub open spec fn argument_from(list: bool, given: JsonView, arg: CallArgument) -> bool {
    if list {
        arg matches CallArgument::Texts(t) && match given {
            JsonView::Array(items) => t@.map_values(|s: String| s@) == items,
            JsonView::Text(text) => t@.map_values(|s: String| s@) == comma_pieces(text),
            _ => true,
        }
    } else {
        arg matches CallArgument::Text(t) && (given matches JsonView::Text(text) ==> t@ == text)
    }
}

/// Take a call's positional arguments (`source`, `sources`) out of its
/// options, by name (see [`take_arguments`]): a list argument as a JSON array,
/// or as text split at commas; any other as text. A positional argument
/// missing is refused. What is left is the configuration.
pub fn call_arguments(algorithm: &str, d: &Definition, options: &Options) -> (r: Result<
    (Vec<CallArgument>, Options),
    NutmegError,
>)
    ensures
        match take_arguments(d.arguments@, d.options_argument, options@, d.arguments@.len()) {
            ArgumentsTaken::Missing(name) => r matches Err(NutmegError::Plan(m)) && m@ == "nutmeg: `"@
                + algorithm@ + "` needs `"@ + name + "`"@,
            ArgumentsTaken::Taken(given, rest) => r matches Ok((args, configuration)) && configuration@
                == rest && args@.len() == given.len() && forall|i: int|
                0 <= i < given.len() ==> argument_from(given[i].0, given[i].1, #[trigger] args@[i]),
        },
{
    let mut configuration = options.duplicate();
    let mut args: Vec<CallArgument> = Vec::new();
    let mut index: usize = 0;
    let ghost mut given: Seq<(bool, JsonView)> = Seq::empty();
    while index < d.arguments.len()
        invariant
            index <= d.arguments@.len(),
            take_arguments(d.arguments@, d.options_argument, options@, index as nat) == ArgumentsTaken::Taken(
                given,
                configuration@,
            ),
            args@.len() == given.len(),
            forall|i: int| 0 <= i < given.len() ==> argument_from(given[i].0, given[i].1, #[trigger] args@[i]),
        decreases d.arguments@.len() - index,
    {
        let is_options = match d.options_argument {
            Some(o) => o == index,
            None => false,
        };
        if !is_options {
            let name = d.arguments[index].name.as_str();
            let ghost before = configuration@;
            let given_value = match configuration.remove(name) {
                Some(v) => v,
                None => {
                    proof {
                        crate::order::lemma_index_of_contains(crate::options::keys_of(before), name@);
                        if crate::options::keys_of(before).contains(name@) {
                            let k = choose|k: int| 0 <= k < crate::options::keys_of(before).len()
                                && crate::options::keys_of(before)[k] == name@;
                            assert(before[k].0 == name@);
                        }
                        assert(take_arguments(d.arguments@, d.options_argument, options@, (index + 1) as nat)
                            == ArgumentsTaken::Missing(name@));
                        lemma_missing_stays(d.arguments@, d.options_argument, options@, (index + 1) as nat, d.arguments@.len());
                    }
                    let mut m = String::from_str("nutmeg: `");
                    m.append(algorithm);
                    m.append("` needs `");
                    m.append(name);
                    m.append("`");
                    return Err(NutmegError::Plan(m));
                },
            };
            proof {
                let i = choose|i: int|
                    0 <= i < before.len() && before[i].0 == name@ && before[i].1 == given_value.kind@
                        && configuration@ == before.remove(i) && forall|j: int| 0 <= j < i ==> before[j].0 != name@;
                assert(crate::options::keys_of(before)[i] == name@);
                assert forall|q: int| 0 <= q < i implies crate::options::keys_of(before)[q] != name@ by {
                    assert(crate::options::keys_of(before)[q] == before[q].0);
                }
                crate::nodes::lemma_index_of_first(crate::options::keys_of(before), name@, i);
            }
            let list = d.arguments[index].value_type == ValueKind::Strings;
            let argument = match (list, &given_value.kind) {
                (true, JsonKind::Array(items)) => {
                    let mut texts: Vec<String> = Vec::new();
                    let mut k: usize = 0;
                    while k < items.len()
                        invariant
                            k <= items@.len(),
                            texts@.len() == k,
                            forall|j: int| 0 <= j < k ==> #[trigger] texts@[j]@ == items@[j]@,
                        decreases items@.len() - k,
                    {
                        texts.push(items[k].clone());
                        k = k + 1;
                    }
                    assert(texts@.map_values(|s: String| s@) =~= items@.map_values(|s: String| s@));
                    CallArgument::Texts(texts)
                },
                (true, _) => CallArgument::Texts(split_trimmed(given_value.text_of().as_str())),
                (false, _) => CallArgument::Text(given_value.text_of()),
            };
            proof {
                assert(argument_from(list, given_value.kind@, argument));
                given = given.push((list, given_value.kind@));
            }
            args.push(argument);
        }
        index = index + 1;
    }
    (Ok((args, configuration)))
}

/// Once an argument is missing, taking more leaves it missing.
proof fn lemma_missing_stays(
    arguments: Seq<FieldSpec>,
    options_argument: Option<usize>,
    entries: Seq<(Seq<char>, JsonView)>,
    n: nat,
    m: nat,
)
    requires
        n <= m,
        take_arguments(arguments, options_argument, entries, n) is Missing,
    ensures
        take_arguments(arguments, options_argument, entries, m) == take_arguments(
            arguments,
            options_argument,
            entries,
            n,
        ),
    decreases m - n,
{
    if n < m {
        lemma_missing_stays(arguments, options_argument, entries, n, (m - 1) as nat);
    }
}

/// `m` is a refusal [`validate`] gives `algorithm` called with `options`:
/// a positional argument the definition declares and the options lack, or
/// Grust's refusal of the rest, after `nutmeg: {algorithm}: `.
pub open spec fn validate_refusal(algorithm: Seq<char>, options: Seq<(Seq<char>, JsonView)>, m: Seq<char>) -> bool {
    ||| exists|d: Definition|
        #[trigger] take_arguments(d.arguments@, d.options_argument, options, d.arguments@.len())
            matches ArgumentsTaken::Missing(name) && m == "nutmeg: `"@ + algorithm + "` needs `"@ + name + "`"@
    ||| exists|grust: Seq<char>| m == #[trigger] grust_refusal_text(algorithm, grust)
}

/// Grust's refusal `grust` of a call's arguments, as the call's error says it.
pub open spec fn grust_refusal_text(algorithm: Seq<char>, grust: Seq<char>) -> Seq<char> {
    "nutmeg: "@ + algorithm + ": "@ + grust
}

/// Turn a call's options into Grust's validated arguments: its positional
/// arguments taken out by name ([`call_arguments`]) and the rest validated by
/// Grust, which refuses an unknown option.
pub fn validate(algorithm: &str, options: &Options) -> (r: Result<
    grust_procedures::ValidatedArguments,
    NutmegError,
>)
    ensures
        r is Err ==> r->Err_0 is Plan || r->Err_0 is Execution,
        r is Ok ==> exists|d: Definition|
            #[trigger] take_arguments(d.arguments@, d.options_argument, options@, d.arguments@.len()) is Taken,
        r matches Err(NutmegError::Plan(m)) ==> validate_refusal(algorithm@, options@, m@),
{
    let registry = procedures();
    let resolved = match resolved(&registry, algorithm) {
        Ok(r) => r,
        Err(e) => {
            return Err(e);
        },
    };
    let d = definition(&resolved);
    let (args, configuration) = match call_arguments(algorithm, &d, options) {
        Ok(taken) => taken,
        Err(e) => {
            proof {
                if let ArgumentsTaken::Missing(name) = take_arguments(
                    d.arguments@,
                    d.options_argument,
                    options@,
                    d.arguments@.len(),
                ) {
                    assert(take_arguments(d.arguments@, d.options_argument, options@, d.arguments@.len())
                        == ArgumentsTaken::Missing(name));
                }
            }
            return Err(e);
        },
    };
    assert(take_arguments(d.arguments@, d.options_argument, options@, d.arguments@.len()) is Taken);
    match validate_arguments(&resolved, args, configuration.to_json()) {
        Ok(v) => Ok(v),
        Err(refused) => {
            let mut m = String::from_str("nutmeg: ");
            m.append(algorithm);
            m.append(": ");
            m.append(refused.message.as_str());
            assert(m@ == grust_refusal_text(algorithm@, refused.message@));
            Err(NutmegError::Plan(m))
        },
    }
}

/// What `serde_json::from_str` makes of `text`: the JSON value it holds, as
/// [`json_kind`] reads it, or `None` where it holds none.
pub uninterp spec fn json_value(text: Seq<char>) -> Option<JsonView>;

/// `serde_json::from_str`: the JSON value `text` holds, or `None` where it
/// holds none.
#[verifier::external_body]
fn parse_json(text: &str) -> (r: Option<serde_json::Value>)
    ensures
        match r {
            Some(v) => json_value(text@) == Some(json_kind(v)),
            None => json_value(text@) is None,
        },
{
    serde_json::from_str(text).ok()
}

/// The last of `fields` whose name, ASCII-lowercased, is `key`.
pub open spec fn last_named(fields: Seq<FieldSpec>, key: Seq<char>) -> Option<FieldSpec>
    decreases fields.len(),
{
    if fields.len() == 0 {
        None
    } else if lower_seq(fields.last().name@) == key {
        Some(fields.last())
    } else {
        last_named(fields.drop_last(), key)
    }
}

/// The declaration a lowercase `key` names in `d`: an argument wins over an
/// option of the same name, and a later declaration over an earlier one.
pub open spec fn declared_as(d: Definition, key: Seq<char>) -> Option<FieldSpec> {
    match last_named(d.arguments@, key) {
        Some(f) => Some(f),
        None => last_named(d.options@, key),
    }
}

/// The spelling `d` declares for a key given in any case; an undeclared key
/// as given.
pub open spec fn spelled_key(d: Definition, key: Seq<char>) -> Seq<char> {
    match declared_as(d, lower_seq(key)) {
        Some(f) => f.name@,
        None => key,
    }
}

/// Whether a value given under `key` stays a string: the key is declared
/// with a string type, or not declared.
pub open spec fn keeps_text(d: Definition, key: Seq<char>) -> bool {
    match declared_as(d, lower_seq(key)) {
        Some(f) => f.value_type == ValueKind::String,
        None => true,
    }
}

/// The value a string given under `key` becomes: the string itself where
/// the key keeps text; otherwise the JSON value it holds, or the string where
/// it holds none.
pub open spec fn spelled_value(d: Definition, key: Seq<char>, text: Seq<char>) -> JsonView {
    if keeps_text(d, key) {
        JsonView::Text(text)
    } else {
        match json_value(text) {
            Some(v) => v,
            None => JsonView::Text(text),
        }
    }
}

/// What a found declaration is, as the contracts see it.
pub open spec fn found_view(found: Option<(String, ValueKind)>) -> Option<(Seq<char>, ValueKind)> {
    match found {
        Some((n, k)) => Some((n@, k)),
        None => None,
    }
}

pub open spec fn field_view(f: Option<FieldSpec>) -> Option<(Seq<char>, ValueKind)> {
    match f {
        Some(f) => Some((f.name@, f.value_type)),
        None => None,
    }
}

/// The declared spelling and type of the option or argument whose lowercase
/// name is `key` (see [`declared_as`]).
pub fn declared(d: &Definition, key: &[char]) -> (r: Option<(String, ValueKind)>)
    ensures
        found_view(r) == field_view(declared_as(*d, key@)),
{
    let mut found: Option<(String, ValueKind)> = None;
    let mut i: usize = 0;
    while i < d.options.len()
        invariant
            i <= d.options@.len(),
            found_view(found) == field_view(last_named(d.options@.subrange(0, i as int), key@)),
        decreases d.options@.len() - i,
    {
        proof {
            let s = d.options@.subrange(0, i + 1);
            assert(s.drop_last() == d.options@.subrange(0, i as int));
            assert(s.last() == d.options@[i as int]);
        }
        let lowered = lower_chars(chars_of(d.options[i].name.as_str()).as_slice());
        if crate::text::eq_chars(lowered.as_slice(), key) {
            found = Some((d.options[i].name.clone(), d.options[i].value_type));
        }
        i = i + 1;
    }
    assert(d.options@.subrange(0, d.options@.len() as int) == d.options@);
    let ghost from_options = found_view(found);
    let mut j: usize = 0;
    while j < d.arguments.len()
        invariant
            j <= d.arguments@.len(),
            from_options == field_view(last_named(d.options@, key@)),
            found_view(found) == match last_named(d.arguments@.subrange(0, j as int), key@) {
                Some(f) => field_view(Some(f)),
                None => from_options,
            },
        decreases d.arguments@.len() - j,
    {
        proof {
            let s = d.arguments@.subrange(0, j + 1);
            assert(s.drop_last() == d.arguments@.subrange(0, j as int));
            assert(s.last() == d.arguments@[j as int]);
        }
        let lowered = lower_chars(chars_of(d.arguments[j].name.as_str()).as_slice());
        if crate::text::eq_chars(lowered.as_slice(), key) {
            found = Some((d.arguments[j].name.clone(), d.arguments[j].value_type));
        }
        j = j + 1;
    }
    assert(d.arguments@.subrange(0, d.arguments@.len() as int) == d.arguments@);
    found
}

/// Whether some entry of `out` has the key `k`.
pub open spec fn has_key(out: Seq<(Seq<char>, JsonView)>, k: Seq<char>) -> bool {
    exists|v: JsonView| #[trigger] out.contains((k, v))
}

/// What spelling string options by `d` gives `out`: every pair's key, in the
/// spelling `d` declares; no key that none of them gives; and under each key
/// the value of the last pair that gives it, kept as a string where the key
/// is declared a string or not declared.
#[verifier::opaque]
pub open spec fn spelled_as(d: Definition, pairs: Seq<(Seq<char>, Seq<char>)>, out: Seq<(Seq<char>, JsonView)>) -> bool {
    &&& forall|i: int| 0 <= i < pairs.len() ==> has_key(out, spelled_key(d, #[trigger] pairs[i].0))
    &&& forall|k: Seq<char>, v: JsonView|
        #[trigger] out.contains((k, v)) ==> exists|i: int|
            0 <= i < pairs.len() && spelled_key(d, #[trigger] pairs[i].0) == k
    &&& forall|i: int|
        0 <= i < pairs.len() && (forall|j: int|
            i < j < pairs.len() ==> spelled_key(d, #[trigger] pairs[j].0) != spelled_key(d, pairs[i].0))
            ==> #[trigger] out.contains((spelled_key(d, pairs[i].0), spelled_value(d, pairs[i].0, pairs[i].1)))
}

/// Restore `d`'s spelling of each key and give each value its declared JSON
/// type (see [`spelled_as`]): a value that is no JSON stays a string.
pub fn spell_options(d: &Definition, pairs: &Vec<(String, String)>) -> (r: Options)
    ensures
        spelled_as(*d, crate::source::pairs_text(pairs@), r@),
{
    let ghost ps = crate::source::pairs_text(pairs@);
    let mut out = Options::new();
    let mut i: usize = 0;
    while i < pairs.len()
        invariant
            i <= pairs@.len(),
            ps == crate::source::pairs_text(pairs@),
            forall|a: int| 0 <= a < i ==> has_key(out@, spelled_key(*d, #[trigger] ps[a].0)),
            forall|k: Seq<char>, v: JsonView|
                #[trigger] out@.contains((k, v)) ==> exists|a: int|
                    0 <= a < i && spelled_key(*d, #[trigger] ps[a].0) == k,
            forall|a: int|
                0 <= a < i && (forall|b: int|
                    a < b < i ==> spelled_key(*d, #[trigger] ps[b].0) != spelled_key(*d, ps[a].0))
                    ==> #[trigger] out@.contains((spelled_key(*d, ps[a].0), spelled_value(*d, ps[a].0, ps[a].1))),
        decreases pairs@.len() - i,
    {
        let key = &pairs[i].0;
        let value = &pairs[i].1;
        let lowered = lower_chars(chars_of(key.as_str()).as_slice());
        let (name, kind) = match declared(d, lowered.as_slice()) {
            Some((name, kind)) => (name, Some(kind)),
            None => (key.clone(), None),
        };
        let parsed = match kind {
            Some(ValueKind::String) | None => OptionValue::text(value.as_str()),
            Some(_) => match parse_json(value.as_str()) {
                Some(json) => OptionValue::from_json(json),
                None => OptionValue::text(value.as_str()),
            },
        };
        let ghost before = out@;
        let ghost k_i = spelled_key(*d, ps[i as int].0);
        let ghost pk = parsed.kind@;
        assert(name@ == k_i);
        assert(pk == spelled_value(*d, ps[i as int].0, ps[i as int].1));
        out.insert(name, parsed);
        proof {
            assert(out@.contains((k_i, pk)));
            assert forall|a: int| 0 <= a < i + 1 implies has_key(out@, spelled_key(*d, #[trigger] ps[a].0)) by {
                let ka = spelled_key(*d, ps[a].0);
                if ka == k_i {
                    assert(out@.contains((ka, pk)));
                } else {
                    assert(0 <= a < i);
                    assert(has_key(before, ka));
                    let v = choose|v: JsonView| #[trigger] before.contains((ka, v));
                    assert(before.contains((ka, v)));
                    assert(out@.contains((ka, v)));
                }
            }
            assert forall|k: Seq<char>, v: JsonView| #[trigger] out@.contains((k, v)) implies exists|a: int|
                0 <= a < i + 1 && spelled_key(*d, #[trigger] ps[a].0) == k by {
                if k != k_i {
                    assert(before.contains((k, v)));
                    let a = choose|a: int| 0 <= a < i && spelled_key(*d, #[trigger] ps[a].0) == k;
                    assert(0 <= a < i + 1 && spelled_key(*d, ps[a].0) == k);
                } else {
                    assert(spelled_key(*d, ps[i as int].0) == k);
                }
            }
            assert forall|a: int|
                0 <= a < i + 1 && (forall|b: int|
                    a < b < i + 1 ==> spelled_key(*d, #[trigger] ps[b].0) != spelled_key(*d, ps[a].0))
                    implies #[trigger] out@.contains((spelled_key(*d, ps[a].0), spelled_value(*d, ps[a].0, ps[a].1))) by {
                if a < i {
                    assert(spelled_key(*d, ps[i as int].0) != spelled_key(*d, ps[a].0));
                    assert(before.contains((spelled_key(*d, ps[a].0), spelled_value(*d, ps[a].0, ps[a].1))));
                }
            }
        }
        i = i + 1;
    }
    assert(ps.len() == i);
    proof {
        reveal(spelled_as);
    }
    out
}

/// Data source options arrive as lowercase-keyed strings; restore Grust's
/// spelling of each key and give each value its declared JSON type, so
/// `"0.9"` validates as a number and `["a","b"]` as an array (see
/// [`spell_options`], on the algorithm's registered definition). A value of a
/// string type, of an undeclared key, or that is no JSON, stays a string.
pub fn options_from_strings(algorithm: &str, pairs: Vec<(String, String)>) -> (r: Result<
    Options,
    NutmegError,
>)
    ensures
        r is Err ==> r->Err_0 is Execution,
        r matches Ok(o) ==> exists|d: Definition| #[trigger] spelled_as(d, crate::source::pairs_text(pairs@), o@),
{
    let registry = procedures();
    let resolved = match resolved(&registry, algorithm) {
        Ok(r) => r,
        Err(e) => {
            return Err(e);
        },
    };
    let d = definition(&resolved);
    let out = spell_options(&d, &pairs);
    let ghost ps = crate::source::pairs_text(pairs@);
    assert(spelled_as(d, ps, out@));
    assert(exists|d0: Definition| #[trigger] spelled_as(d0, ps, out@));
    let r = Ok(out);
    assert(r matches Ok(o) && o@ == out@);
    r
}

/// What `serde_json::from_str` makes of `text`, read as an object: its
/// entries, each value as [`json_kind`] reads it, in the order the map
/// gives; `None` for JSON that is no object; the parser's message for text
/// that is no JSON.
pub uninterp spec fn json_object(text: Seq<char>) -> Result<Option<Seq<(Seq<char>, JsonView)>>, Seq<char>>;

/// An entry of a parsed object, as the contracts see it.
pub open spec fn json_entry(e: (String, serde_json::Value)) -> (Seq<char>, JsonView) {
    (e.0@, json_kind(e.1))
}

/// `serde_json::from_str` of an object: its entries, or `None` for JSON that
/// is no object; the parser's message for text that is no JSON.
#[verifier::external_body]
fn parse_json_object(text: &str) -> (r: Result<Option<Vec<(String, serde_json::Value)>>, String>)
    ensures
        match r {
            Ok(Some(v)) => json_object(text@) == Ok::<Option<Seq<(Seq<char>, JsonView)>>, Seq<char>>(
                Some(v@.map_values(|e: (String, serde_json::Value)| json_entry(e))),
            ),
            Ok(None) => json_object(text@) == Ok::<Option<Seq<(Seq<char>, JsonView)>>, Seq<char>>(None),
            Err(m) => json_object(text@) == Err::<Option<Seq<(Seq<char>, JsonView)>>, Seq<char>>(m@),
        },
{
    match serde_json::from_str::<serde_json::Value>(text) {
        Ok(serde_json::Value::Object(map)) => Ok(Some(map.into_iter().collect())),
        Ok(_) => Ok(None),
        Err(e) => Err(e.to_string()),
    }
}

/// The value the last entry under `key` holds, if any.
pub open spec fn last_value(entries: Seq<(Seq<char>, JsonView)>, key: Seq<char>) -> Option<JsonView>
    decreases entries.len(),
{
    if entries.len() == 0 {
        None
    } else if entries.last().0 == key {
        Some(entries.last().1)
    } else {
        last_value(entries.drop_last(), key)
    }
}

/// Parse a JSON object of options; text that is empty or blank means none.
/// JSON that is no object, and text that is no JSON, are refused.
pub fn parse_options(json: &str) -> (r: Result<Options, NutmegError>)
    ensures
        trim(json@).len() == 0 ==> (r matches Ok(o) && o@.len() == 0),
        r is Err ==> r->Err_0 is Plan,
        trim(json@).len() > 0 ==> match json_object(json@) {
            Ok(Some(entries)) => r matches Ok(o) && forall|k: Seq<char>, v: JsonView|
                #[trigger] o@.contains((k, v)) <==> last_value(entries, k) == Some(v),
            Ok(None) => r matches Err(NutmegError::Plan(m)) && m@ == "nutmeg: options must be a JSON object"@,
            Err(t) => r matches Err(NutmegError::Plan(m)) && m@ == "nutmeg: options: "@ + t,
        },
{
    let chars = chars_of(json);
    let trimmed = trim_chars(chars.as_slice());
    if trimmed.len() == 0 {
        return Ok(Options::new());
    }
    match parse_json_object(json) {
        Ok(Some(entries)) => {
            let ghost all = entries@;
            let ghost views = all.map_values(|e: (String, serde_json::Value)| json_entry(e));
            let mut out = Options::new();
            let mut rest = entries;
            let mut reversed: Vec<(String, serde_json::Value)> = Vec::new();
            while rest.len() > 0
                invariant
                    all == rest@ + reversed@.reverse(),
                decreases rest@.len(),
            {
                let ghost r0 = rest@;
                let ghost v0 = reversed@;
                let e = rest.pop().unwrap();
                reversed.push(e);
                proof {
                    assert(r0 == rest@.push(e));
                    assert(reversed@.reverse() =~= seq![e] + v0.reverse());
                    assert(r0 + v0.reverse() =~= rest@ + (seq![e] + v0.reverse()));
                }
            }
            assert(rest@ + reversed@.reverse() =~= reversed@.reverse());
            let ghost n = all.len();
            while reversed.len() > 0
                invariant
                    n == all.len(),
                    views == all.map_values(|e: (String, serde_json::Value)| json_entry(e)),
                    reversed@.len() <= n,
                    reversed@.reverse() == all.subrange(n - reversed@.len(), n as int),
                    forall|k: Seq<char>, v: JsonView|
                        #[trigger] out@.contains((k, v)) <==> last_value(
                            views.subrange(0, n - reversed@.len()),
                            k,
                        ) == Some(v),
                decreases reversed@.len(),
            {
                let ghost t = n - reversed@.len();
                let ghost v0 = reversed@;
                let (k, v) = reversed.pop().unwrap();
                proof {
                    assert(v0 == reversed@.push((k, v)));
                    assert(v0.reverse() =~= seq![(k, v)] + reversed@.reverse());
                    assert(all[t] == (k, v)) by {
                        assert(v0.reverse()[0] == all.subrange(t, n as int)[0]);
                    }
                    assert(reversed@.reverse() =~= all.subrange(t + 1, n as int)) by {
                        assert forall|i: int| 0 <= i < reversed@.len() implies reversed@.reverse()[i]
                            == all.subrange(t + 1, n as int)[i] by {
                            assert(v0.reverse()[i + 1] == all.subrange(t, n as int)[i + 1]);
                        }
                    }
                    assert(views.subrange(0, t + 1) =~= views.subrange(0, t).push(json_entry((k, v))));
                }
                let value = OptionValue::from_json(v);
                let ghost key = k@;
                out.insert(k, value);
                proof {
                    assert forall|kk: Seq<char>, vv: JsonView| #[trigger] out@.contains((kk, vv)) <==> last_value(
                        views.subrange(0, t + 1),
                        kk,
                    ) == Some(vv) by {
                        let d = views.subrange(0, t + 1);
                        assert(d.last() == (key, value.kind@));
                        assert(d.drop_last() =~= views.subrange(0, t));
                    }
                }
            }
            assert(views.subrange(0, n as int) =~= views);
            Ok(out)
        },
        Ok(None) => Err(NutmegError::Plan(String::from_str("nutmeg: options must be a JSON object"))),
        Err(m) => Err(NutmegError::Plan(join2("nutmeg: options: ", m.as_str()))),
    }
}

/// The option through which a kernel is asked for the precision it keeps its
/// scores in. It is Grust's own option; Nutmeg reads it back because the
/// `score` column's Arrow type follows it.
pub const PRECISION_OPTION: &'static str = "precision";

/// The value of [`PRECISION_OPTION`] a call runs at, or `None` when the
/// algorithm does not declare the option. Read from the validated arguments,
/// so a call that does not name it gets Grust's declared default.
pub fn precision_of(algorithm: &str, args: &grust_procedures::ValidatedArguments) -> (r: Result<
    Option<String>,
    NutmegError,
>)
    ensures
        r is Err ==> r->Err_0 is Execution,
{
    let registry = procedures();
    let resolved = match resolved(&registry, algorithm) {
        Ok(r) => r,
        Err(e) => {
            return Err(e);
        },
    };
    let d = definition(&resolved);
    let mut declares = false;
    let mut i: usize = 0;
    while i < d.options.len()
        invariant
            i <= d.options@.len(),
        decreases d.options@.len() - i,
    {
        if crate::text::str_eq(d.options[i].name.as_str(), "precision") {
            declares = true;
        }
        i = i + 1;
    }
    if !declares {
        return Ok(None);
    }
    Ok(crate::runs::option_value(args, "precision").1)
}

/// The key an output schema is cached under: the algorithm's name, and the
/// precision it runs at where it declares one. `#` cannot occur in a
/// registered name, so no key collides.
pub open spec fn schema_key_spec(algorithm: Seq<char>, precision: Option<Seq<char>>) -> Seq<char> {
    match precision {
        Some(v) => algorithm + "#precision="@ + v,
        None => algorithm,
    }
}

/// See [`schema_key_spec`].
pub fn schema_key(algorithm: &str, precision: Option<&str>) -> (r: String)
    ensures
        r@ == schema_key_spec(
            algorithm@,
            match precision {
                Some(v) => Some(v@),
                None => None,
            },
        ),
{
    match precision {
        Some(value) => join3(algorithm, "#precision=", value),
        None => String::from_str(algorithm),
    }
}

/// The kind of column a kernel reads a node property from.
#[derive(Clone, Copy, Debug, PartialEq, Eq, Structural)]
pub enum PropertyKind {
    Number,
    Integer,
    Vector,
    Category,
}

/// The name a property kind has in a probe column's name.
pub open spec fn kind_name(kind: PropertyKind) -> Seq<char> {
    match kind {
        PropertyKind::Number => "number"@,
        PropertyKind::Integer => "integer"@,
        PropertyKind::Vector => "vector"@,
        PropertyKind::Category => "category"@,
    }
}

/// The probe column standing in for one declared property option, keyed by
/// option and kind together, so two kernels that share an option name with
/// different kinds do not collide.
pub fn probe_key(option: &str, kind: PropertyKind) -> (r: String)
    ensures
        r@ == "probe."@ + option@ + "."@ + kind_name(kind),
{
    let mut m = String::from_str("probe.");
    m.append(option);
    m.append(".");
    match kind {
        PropertyKind::Number => m.append("number"),
        PropertyKind::Integer => m.append("integer"),
        PropertyKind::Vector => m.append("vector"),
        PropertyKind::Category => m.append("category"),
    }
    m
}

/// The property options a projection kernel declares, each option's name
/// with the kind of column it reads; `None` for a name that is no projection
/// kernel's (`grust_algorithm_procedures::node_property_options`).
pub uninterp spec fn declared_properties(algorithm: Seq<char>) -> Option<Seq<(Seq<char>, PropertyKind)>>;

/// An option's name and kind, as the contracts see them.
pub open spec fn property_view(p: (String, PropertyKind)) -> (Seq<char>, PropertyKind) {
    (p.0@, p.1)
}

/// The property options a projection kernel declares, each with the kind of
/// column it reads (`grust_algorithm_procedures::node_property_options`).
#[verifier::external_body]
fn property_options(algorithm: &str) -> (r: Result<Vec<(String, PropertyKind)>, Refusal>)
    ensures
        match declared_properties(algorithm@) {
            Some(v) => r matches Ok(x) && x@.map_values(|p: (String, PropertyKind)| property_view(p)) == v,
            None => r is Err,
        },
{
    grust_algorithm_procedures::node_property_options(algorithm).map(|declared| {
        declared.iter().map(|d| (d.option.to_string(), match d.kind {
            grust_algorithms::PropertyKind::Number => PropertyKind::Number,
            grust_algorithms::PropertyKind::Integer => PropertyKind::Integer,
            grust_algorithms::PropertyKind::Vector => PropertyKind::Vector,
            grust_algorithms::PropertyKind::Category => PropertyKind::Category,
        })).collect()
    }).map_err(refusal_of)
}


/// The probe nodes' ids, which successive node arguments name in turn: a
/// kernel that takes a source and a target refuses the same node twice.
pub open spec fn probe_id(k: int) -> Seq<char> {
    if k % 3 == 0 {
        "a"@
    } else if k % 3 == 1 {
        "b"@
    } else {
        "c"@
    }
}

/// The value of the last of `writes` under `key`, if any is.
pub open spec fn last_write(writes: Seq<(Seq<char>, JsonView)>, key: Seq<char>) -> Option<JsonView>
    decreases writes.len(),
{
    if writes.len() == 0 {
        None
    } else if writes.last().0 == key {
        Some(writes.last().1)
    } else {
        last_write(writes.drop_last(), key)
    }
}

/// Whether `after` is `before` with `writes` made in order: each key holds
/// the value of its last write, and a key never written what it held.
pub open spec fn written(
    before: Seq<(Seq<char>, JsonView)>,
    writes: Seq<(Seq<char>, JsonView)>,
    after: Seq<(Seq<char>, JsonView)>,
) -> bool {
    forall|k: Seq<char>, v: JsonView|
        #[trigger] after.contains((k, v)) <==> match last_write(writes, k) {
            Some(w) => v == w,
            None => before.contains((k, v)),
        }
}

/// What a schema probe writes for the first `n` of `arguments`: each
/// positional one (all but the one at `options_argument`) names the next
/// probe node, `a`, `b`, `c` in turn, as a list of one where it takes a list.
pub open spec fn probe_argument_writes(arguments: Seq<FieldSpec>, options_argument: Option<usize>, n: nat) -> Seq<
    (Seq<char>, JsonView),
>
    decreases n,
{
    if n == 0 {
        Seq::empty()
    } else {
        let before = probe_argument_writes(arguments, options_argument, (n - 1) as nat);
        if options_argument == Some((n - 1) as usize) {
            before
        } else {
            let id = probe_id(before.len() as int);
            let value = if arguments[n - 1].value_type == ValueKind::Strings {
                JsonView::Array(seq![id])
            } else {
                JsonView::Text(id)
            };
            before.push((arguments[n - 1].name@, value))
        }
    }
}

/// What a schema probe writes for a kernel's declared node properties: each
/// option names the probe column for it ([`probe_key`]).
pub open spec fn probe_property_writes(declared: Seq<(Seq<char>, PropertyKind)>) -> Seq<(Seq<char>, JsonView)> {
    declared.map_values(
        |p: (Seq<char>, PropertyKind)| (p.0, JsonView::Text("probe."@ + p.0 + "."@ + kind_name(p.1))),
    )
}

/// Every write of a schema probe for a call of `d` reading `declared`.
pub open spec fn probe_writes(d: Definition, declared: Seq<(Seq<char>, PropertyKind)>) -> Seq<
    (Seq<char>, JsonView),
> {
    probe_argument_writes(d.arguments@, d.options_argument, d.arguments@.len()) + probe_property_writes(
        declared,
    )
}

/// Writing one more key keeps `written`.
proof fn lemma_written_push(
    before: Seq<(Seq<char>, JsonView)>,
    writes: Seq<(Seq<char>, JsonView)>,
    mid: Seq<(Seq<char>, JsonView)>,
    key: Seq<char>,
    value: JsonView,
    after: Seq<(Seq<char>, JsonView)>,
)
    requires
        written(before, writes, mid),
        after.contains((key, value)),
        forall|v: JsonView| #[trigger] after.contains((key, v)) ==> v == value,
        forall|k: Seq<char>, v: JsonView| k != key ==> (#[trigger] after.contains((k, v)) <==> mid.contains((k, v))),
    ensures
        written(before, writes.push((key, value)), after),
{
    let w = writes.push((key, value));
    assert(w.drop_last() =~= writes);
    assert forall|k: Seq<char>, v: JsonView| #[trigger] after.contains((k, v)) <==> match last_write(w, k) {
        Some(x) => v == x,
        None => before.contains((k, v)),
    } by {
        if k != key {
            assert(last_write(w, k) == last_write(writes, k));
            assert(mid.contains((k, v)) <==> match last_write(writes, k) {
                Some(x) => v == x,
                None => before.contains((k, v)),
            });
        }
    }
}

/// `options` with a schema probe's writes for a call of `d` made (see
/// [`probe_writes`]): a probe node for every positional argument, then, for
/// each node property the kernel reads (`declared`), its probe column.
pub fn probe_options(d: &Definition, declared: &Vec<(String, PropertyKind)>, options: Options) -> (r: Options)
    ensures
        written(
            options@,
            probe_writes(*d, declared@.map_values(|p: (String, PropertyKind)| property_view(p))),
            r@,
        ),
{
    let ghost start = options@;
    let mut options = options;
    let ids = vec!["a", "b", "c"];
    proof {
        reveal_strlit("a");
        reveal_strlit("b");
        reveal_strlit("c");
    }
    let mut k: usize = 0;
    let mut index: usize = 0;
    while index < d.arguments.len()
        invariant
            index <= d.arguments@.len(),
            ids@.len() == 3,
            ids@[0]@ == "a"@,
            ids@[1]@ == "b"@,
            ids@[2]@ == "c"@,
            k as int == probe_argument_writes(d.arguments@, d.options_argument, index as nat).len(),
            k <= index,
            written(start, probe_argument_writes(d.arguments@, d.options_argument, index as nat), options@),
        decreases d.arguments@.len() - index,
    {
        let is_options = match d.options_argument {
            Some(o) => o == index,
            None => false,
        };
        if !is_options {
            let id = ids[k % 3];
            assert(id@ == probe_id(k as int));
            let ghost writes = probe_argument_writes(d.arguments@, d.options_argument, index as nat);
            let ghost mid = options@;
            let list = d.arguments[index].value_type == ValueKind::Strings;
            let value = if list {
                let one = vec![String::from_str(id)];
                assert(one@.map_values(|s: String| s@) =~= seq![id@]);
                OptionValue::texts(&one)
            } else {
                OptionValue::text(id)
            };
            let ghost v = value.kind@;
            let name = d.arguments[index].name.clone();
            assert(probe_argument_writes(d.arguments@, d.options_argument, (index + 1) as nat) == writes.push(
                (name@, v),
            ));
            options.insert(name, value);
            proof {
                lemma_written_push(start, writes, mid, name@, v, options@);
            }
            k = k + 1;
        }
        index = index + 1;
    }
    let ghost args_written = probe_argument_writes(d.arguments@, d.options_argument, d.arguments@.len());
    let ghost props = declared@.map_values(|p: (String, PropertyKind)| property_view(p));
    let mut p: usize = 0;
    assert(args_written + probe_property_writes(props).subrange(0, 0) =~= args_written);
    while p < declared.len()
        invariant
            p <= declared@.len(),
            props == declared@.map_values(|p: (String, PropertyKind)| property_view(p)),
            written(start, args_written + probe_property_writes(props).subrange(0, p as int), options@),
        decreases declared@.len() - p,
    {
        let key = probe_key(declared[p].0.as_str(), declared[p].1);
        let ghost writes = args_written + probe_property_writes(props).subrange(0, p as int);
        let ghost mid = options@;
        let value = OptionValue::text(key.as_str());
        let ghost v = value.kind@;
        let name = declared[p].0.clone();
        assert(probe_property_writes(props)[p as int] == (name@, v));
        assert(args_written + probe_property_writes(props).subrange(0, p + 1) =~= writes.push((name@, v)));
        options.insert(name, value);
        proof {
            lemma_written_push(start, writes, mid, name@, v, options@);
        }
        p = p + 1;
    }
    assert(probe_property_writes(props).subrange(0, declared@.len() as int) =~= probe_property_writes(props));
    options
}

/// The arguments a schema probe runs with: `options`, plus a probe node for
/// every positional argument (`a`, `b`, `c`, then `a` again) and, for a
/// projection kernel, a probe column for every node property it declares
/// (see [`probe_options`]).
pub fn probe_args_with(algorithm: &str, options: Options) -> (r: Result<
    grust_procedures::ValidatedArguments,
    NutmegError,
>)
    ensures
        r is Err ==> r->Err_0 is Plan || r->Err_0 is Execution,
{
    let d = match definition_of(algorithm) {
        Ok(d) => d,
        Err(e) => {
            return Err(e);
        },
    };
    // A kernel that reads node properties would otherwise name its defaults,
    // which the probe graph does not have; point each at the probe's column.
    let kernels = kernel_names();
    let mut is_kernel = false;
    let mut j: usize = 0;
    while j < kernels.len()
        invariant
            j <= kernels@.len(),
        decreases kernels@.len() - j,
    {
        if crate::text::str_eq(kernels[j].as_str(), algorithm) {
            is_kernel = true;
        }
        j = j + 1;
    }
    let declared = if is_kernel {
        match property_options(algorithm) {
            Ok(d) => d,
            Err(refused) => {
                return Err(crate::budget::failure(&refused));
            },
        }
    } else {
        Vec::new()
    };
    let options = probe_options(&d, &declared, options);
    validate(algorithm, &options)
}

/// A kernel's declared property options as probe columns: each keyed by
/// [`probe_key`], with its kind.
pub open spec fn probe_entries(props: Seq<(Seq<char>, PropertyKind)>) -> Seq<(Seq<char>, PropertyKind)> {
    props.map_values(|p: (Seq<char>, PropertyKind)| ("probe."@ + p.0 + "."@ + kind_name(p.1), p.1))
}

/// The probe columns of every kernel of `kernels` in turn; `None` where a
/// name among them is no projection kernel's.
pub open spec fn kernel_probe_entries(kernels: Seq<Seq<char>>) -> Option<Seq<(Seq<char>, PropertyKind)>>
    decreases kernels.len(),
{
    if kernels.len() == 0 {
        Some(Seq::empty())
    } else {
        match (kernel_probe_entries(kernels.drop_last()), declared_properties(kernels.last())) {
            (Some(before), Some(props)) => Some(before + probe_entries(props)),
            _ => None,
        }
    }
}

/// The keys of probe columns.
pub open spec fn entry_keys(s: Seq<(Seq<char>, PropertyKind)>) -> Seq<Seq<char>> {
    s.map_values(|e: (Seq<char>, PropertyKind)| e.0)
}

/// `s` with each key kept at its first occurrence only.
pub open spec fn first_keys(s: Seq<(Seq<char>, PropertyKind)>) -> Seq<(Seq<char>, PropertyKind)>
    decreases s.len(),
{
    if s.len() == 0 {
        s
    } else {
        let d = first_keys(s.drop_last());
        if entry_keys(d).contains(s.last().0) {
            d
        } else {
            d.push(s.last())
        }
    }
}

/// Every property option any projection kernel declares, each once, keyed by
/// its probe column ([`probe_key`]), in the order the kernels and their
/// options are registered.
pub fn probe_columns() -> (r: Result<Vec<(String, PropertyKind)>, NutmegError>)
    ensures
        r is Err ==> r->Err_0 is Execution,
        exists|kernels: Seq<Seq<char>>|
            match #[trigger] kernel_probe_entries(kernels) {
                None => r is Err,
                Some(all) => r matches Ok(v) && v@.map_values(|p: (String, PropertyKind)| property_view(p))
                    == first_keys(all),
            },
{
    let kernels = kernel_names();
    let ghost names = views(kernels@);
    let ghost mut done: Seq<(Seq<char>, PropertyKind)> = Seq::empty();
    let mut seen: Vec<String> = Vec::new();
    let mut out: Vec<(String, PropertyKind)> = Vec::new();
    let mut i: usize = 0;
    assert(names.take(0) =~= Seq::<Seq<char>>::empty());
    assert(out@.map_values(|p: (String, PropertyKind)| property_view(p)) =~= first_keys(done));
    assert(views(seen@) =~= entry_keys(first_keys(done)));
    while i < kernels.len()
        invariant
            i <= kernels@.len(),
            names == views(kernels@),
            kernel_probe_entries(names.take(i as int)) == Some(done),
            out@.map_values(|p: (String, PropertyKind)| property_view(p)) == first_keys(done),
            views(seen@) == entry_keys(first_keys(done)),
        decreases kernels@.len() - i,
    {
        let declared = match property_options(kernels[i].as_str()) {
            Ok(d) => d,
            Err(refused) => {
                proof {
                    assert(names.take(i + 1).drop_last() =~= names.take(i as int));
                    assert(names.take(i + 1).last() == names[i as int]);
                    lemma_no_entries_extend(names, i + 1);
                }
                return Err(crate::budget::failure(&refused));
            },
        };
        let ghost props = declared@.map_values(|p: (String, PropertyKind)| property_view(p));
        let ghost entries = probe_entries(props);
        let mut p: usize = 0;
        assert(done + entries.take(0) =~= done);
        while p < declared.len()
            invariant
                p <= declared@.len(),
                props == declared@.map_values(|q: (String, PropertyKind)| property_view(q)),
                entries == probe_entries(props),
                out@.map_values(|q: (String, PropertyKind)| property_view(q)) == first_keys(
                    done + entries.take(p as int),
                ),
                views(seen@) == entry_keys(first_keys(done + entries.take(p as int))),
            decreases declared@.len() - p,
        {
            let key = probe_key(declared[p].0.as_str(), declared[p].1);
            let ghost before = done + entries.take(p as int);
            let ghost after = done + entries.take(p + 1);
            assert(after.drop_last() =~= before);
            assert(after.last() == (key@, declared@[p as int].1));
            let mut known = false;
            let mut s: usize = 0;
            while s < seen.len()
                invariant
                    s <= seen@.len(),
                    known == views(seen@).take(s as int).contains(key@),
                decreases seen@.len() - s,
            {
                let ghost shorter = views(seen@).take(s as int);
                let ghost longer = views(seen@).take(s + 1);
                assert(longer =~= shorter.push(seen@[s as int]@));
                if crate::text::str_eq(seen[s].as_str(), key.as_str()) {
                    known = true;
                }
                proof {
                    if known {
                        if shorter.contains(key@) {
                            let j = choose|j: int| 0 <= j < shorter.len() && shorter[j] == key@;
                            assert(longer[j] == key@);
                        } else {
                            assert(longer[s as int] == key@);
                        }
                    } else {
                        assert forall|j: int| 0 <= j < longer.len() implies longer[j] != key@ by {
                            if j < s {
                                assert(longer[j] == shorter[j]);
                            }
                        }
                    }
                }
                s = s + 1;
            }
            assert(views(seen@).take(seen@.len() as int) =~= views(seen@));
            if !known {
                let ghost seen_before = seen@;
                let ghost out_before = out@;
                seen.push(key.clone());
                out.push((key, declared[p].1));
                proof {
                    assert(views(seen@) =~= views(seen_before).push(key@));
                    assert(out@.map_values(|q: (String, PropertyKind)| property_view(q))
                        =~= out_before.map_values(|q: (String, PropertyKind)| property_view(q)).push(
                        (key@, declared@[p as int].1),
                    ));
                    assert(entry_keys(first_keys(before).push(after.last())) =~= entry_keys(
                        first_keys(before),
                    ).push(key@));
                }
            }
            p = p + 1;
        }
        proof {
            assert(entries.take(declared@.len() as int) =~= entries);
            assert(names.take(i + 1).drop_last() =~= names.take(i as int));
            assert(names.take(i + 1).last() == names[i as int]);
            done = done + entries;
        }
        i = i + 1;
    }
    assert(names.take(kernels@.len() as int) =~= names);
    Ok(out)
}

/// Once a kernel among the first `n` is no projection kernel's, there are no
/// probe columns for any longer prefix either.
proof fn lemma_no_entries_extend(names: Seq<Seq<char>>, n: int)
    requires
        0 < n <= names.len(),
        kernel_probe_entries(names.take(n)) is None,
    ensures
        kernel_probe_entries(names) is None,
    decreases names.len() - n,
{
    if n < names.len() {
        assert(names.take(n + 1).drop_last() =~= names.take(n));
        lemma_no_entries_extend(names, n + 1);
    } else {
        assert(names.take(n) =~= names);
    }
}

} // verus!
