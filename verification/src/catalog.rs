//! The algorithm catalog: Grust's procedure registry as the names Nutmeg
//! serves, how a name given in either spelling resolves, and the SQL names of
//! the table functions.
use vstd::prelude::*;

use crate::text::{
    chars_of, eq_chars, eq_ignore_case, eq_ignore_case_chars, is_upper, lower, lower_char, lower_chars,
    lower_seq, string_of, trim, trim_chars,
};

verus! {

/// The type a declared argument or option takes, as Grust's registry states it.
#[derive(Clone, Copy, Debug, PartialEq, Eq, Structural)]
pub enum ValueKind {
    Any,
    Boolean,
    Integer,
    Number,
    String,
    Mapping,
    Strings,
    Integers,
    Numbers,
}

/// One declared argument or option: its name and type.
#[derive(Clone, Debug)]
pub struct FieldSpec {
    pub name: String,
    pub value_type: ValueKind,
}

/// One declared output column: its name and whether it may hold nulls.
#[derive(Clone, Debug)]
pub struct OutputSpec {
    pub name: String,
    pub nullable: bool,
}

/// What the logic reads of one procedure Grust's registry defines.
#[derive(Clone, Debug)]
pub struct Definition {
    /// The registered name, with Grust's `grust.algorithms.` prefix.
    pub name: String,
    pub arguments: Vec<FieldSpec>,
    /// The index of the argument that takes the configuration map, if any.
    pub options_argument: Option<usize>,
    pub options: Vec<FieldSpec>,
    pub outputs: Vec<OutputSpec>,
}

/// The namespace Grust registers its algorithms under.
pub const PREFIX: &'static str = "grust.algorithms.";

pub open spec fn prefix_view() -> Seq<char> {
    seq![
        'g', 'r', 'u', 's', 't', '.', 'a', 'l', 'g', 'o', 'r', 'i', 't', 'h', 'm', 's', '.'
    ]
}

pub open spec fn views(s: Seq<String>) -> Seq<Seq<char>> {
    s.map_values(|x: String| x@)
}

pub open spec fn has_prefix(s: Seq<char>, p: Seq<char>) -> bool {
    p.len() <= s.len() && s.subrange(0, p.len() as int) == p
}

/// Code-point (equivalently, UTF-8 byte) lexicographic order, as `String`'s
/// `Ord` compares.
pub open spec fn text_lt(a: Seq<char>, b: Seq<char>) -> bool
    decreases a.len(),
{
    if a.len() == 0 {
        b.len() > 0
    } else if b.len() == 0 {
        false
    } else if a[0] != b[0] {
        a[0] < b[0]
    } else {
        text_lt(a.drop_first(), b.drop_first())
    }
}

pub open spec fn sorted_by_name(s: Seq<Definition>) -> bool {
    forall|i: int, j: int| 0 <= i < j < s.len() ==> !text_lt(s[j].name@, s[i].name@)
}

pub open spec fn is_algorithm(d: Definition) -> bool {
    has_prefix(d.name@, prefix_view())
}

/// The definitions Nutmeg serves: those under the algorithm namespace, by name.
pub open spec fn served(all: Seq<Definition>, r: Seq<Definition>) -> bool {
    &&& r.to_multiset() == all.filter(|d: Definition| is_algorithm(d)).to_multiset()
    &&& sorted_by_name(r)
}

/// The two inspection procedures Nutmeg serves itself, in Grust's spelling.
pub open spec fn inspections() -> Seq<Seq<char>> {
    seq!["estimateCsr"@, "projectionStats"@]
}

/// The first of `candidates` equal to `name` but for ASCII case, if any.
pub open spec fn first_case_match(candidates: Seq<Seq<char>>, name: Seq<char>) -> Option<
    Seq<char>,
>
    decreases candidates.len(),
{
    if candidates.len() == 0 {
        None
    } else if eq_ignore_case(candidates[0], name) {
        Some(candidates[0])
    } else {
        first_case_match(candidates.drop_first(), name)
    }
}

/// The spelling a case-folded registered name is shown in: a kernel's own
/// name, or an inspection's, when one matches; else the name as registered.
pub open spec fn spelled(kernels: Seq<Seq<char>>, registered: Seq<char>) -> Seq<char> {
    match first_case_match(kernels + inspections(), registered) {
        Some(s) => s,
        None => registered,
    }
}

/// A definition's short name: without the prefix, in Grust's spelling.
pub open spec fn short(kernels: Seq<Seq<char>>, d: Definition) -> Seq<char> {
    spelled(kernels, d.name@.subrange(prefix_view().len() as int, d.name@.len() as int))
}

pub open spec fn short_names(kernels: Seq<Seq<char>>, defs: Seq<Definition>) -> Seq<Seq<char>> {
    defs.map_values(|d: Definition| short(kernels, d))
}

/// One character of a SQL name: an upper-case letter becomes `_` and its
/// lower case.
pub open spec fn snake_piece(c: char) -> Seq<char> {
    if is_upper(c) {
        seq!['_', lower(c)]
    } else {
        seq![c]
    }
}

pub open spec fn snake_spec(s: Seq<char>) -> Seq<char>
    decreases s.len(),
{
    if s.len() == 0 {
        seq![]
    } else {
        snake_spec(s.drop_last()) + snake_piece(s.last())
    }
}

pub open spec fn is_separator(c: char) -> bool {
    c == '_' || c == '-'
}

/// A requested name as it is matched: trimmed, ASCII-lowercased, with `_` and
/// `-` removed.
pub open spec fn folded(s: Seq<char>) -> Seq<char> {
    lower_seq(trim(s)).filter(|c: char| !is_separator(c))
}

/// The first served name whose lower case is `wanted`.
pub open spec fn first_folded_match(names: Seq<Seq<char>>, wanted: Seq<char>) -> Option<Seq<char>>
    decreases names.len(),
{
    if names.len() == 0 {
        None
    } else if lower_seq(names[0]) == wanted {
        Some(names[0])
    } else {
        first_folded_match(names.drop_first(), wanted)
    }
}

pub open spec fn resolved(names: Seq<Seq<char>>, name: Seq<char>) -> Option<Seq<char>> {
    first_folded_match(names, folded(name))
}

pub open spec fn opt_view(o: Option<String>) -> Option<Seq<char>> {
    match o {
        Some(s) => Some(s@),
        None => None,
    }
}

#[verifier::external_type_specification]
#[verifier::external_body]
pub struct ExProcedureRegistry(grust_procedures::ProcedureRegistry);

/// Grust's registry of procedures with its algorithm catalog registered
/// (`grust_algorithm_procedures::register_algorithms`, then
/// `RegistryBuilder::build`).
#[verifier::external_body]
pub(crate) fn procedures() -> grust_procedures::ProcedureRegistry {
    let mut builder = grust_procedures::RegistryBuilder::default();
    grust_algorithm_procedures::register_algorithms(&mut builder).expect("grust algorithm procedures register");
    builder.build()
}

/// Every procedure `registry` holds (`ProcedureRegistry::definitions`), as
/// the library reads it.
#[verifier::external_body]
fn registered_definitions(registry: &grust_procedures::ProcedureRegistry) -> Vec<Definition> {
    registry.definitions().map(definition_of_grust).collect()
}

#[verifier::external_type_specification]
#[verifier::external_body]
pub struct ExProcedureDefinition(grust_procedures::ProcedureDefinition);

#[verifier::external_type_specification]
#[verifier::external_body]
pub struct ExGrustField(grust_procedures::Field);

#[verifier::external_type_specification]
#[verifier::external_body]
pub struct ExValueType(grust_procedures::ValueType);

/// The library's view of one of Grust's definitions.
#[verifier::external_body]
pub(crate) fn definition_of_grust(d: &grust_procedures::ProcedureDefinition) -> Definition {
    Definition {
        name: d.name.clone(),
        arguments: d.arguments.iter().map(|a| field_of_grust(&a.field)).collect(),
        options_argument: d.options_argument,
        options: d.options.iter().map(|o| field_of_grust(&o.field)).collect(),
        outputs: d.outputs.iter().map(output_of_grust).collect(),
    }
}

#[verifier::external_body]
fn field_of_grust(f: &grust_procedures::Field) -> FieldSpec {
    FieldSpec { name: f.name.clone(), value_type: kind_of_grust(f.value_type) }
}

#[verifier::external_body]
fn output_of_grust(f: &grust_procedures::Field) -> OutputSpec {
    OutputSpec { name: f.name.clone(), nullable: f.nullable }
}

#[verifier::external_body]
fn kind_of_grust(t: grust_procedures::ValueType) -> ValueKind {
    match t {
        grust_procedures::ValueType::Any => ValueKind::Any,
        grust_procedures::ValueType::Boolean => ValueKind::Boolean,
        grust_procedures::ValueType::Integer => ValueKind::Integer,
        grust_procedures::ValueType::Number => ValueKind::Number,
        grust_procedures::ValueType::String => ValueKind::String,
        grust_procedures::ValueType::Map => ValueKind::Mapping,
        grust_procedures::ValueType::Strings => ValueKind::Strings,
        grust_procedures::ValueType::Integers => ValueKind::Integers,
        grust_procedures::ValueType::Numbers => ValueKind::Numbers,
    }
}

/// `grust_algorithm_procedures::projection_kernel_names`: the kernels Grust
/// runs on a projection, in its own spelling.
#[verifier::external_body]
pub(crate) fn kernel_names() -> Vec<String> {
    grust_algorithm_procedures::projection_kernel_names().into_iter().map(String::from).collect()
}

/// `slice::sort_by` on the definitions' names, which std documents as
/// ordering them and keeping every element.
#[verifier::external_body]
fn sort_by_name(v: &mut Vec<Definition>)
    ensures
        final(v)@.to_multiset() == old(v)@.to_multiset(),
        sorted_by_name(final(v)@),
{
    v.sort_by(|a, b| a.name.cmp(&b.name));
}

pub fn starts_with(s: &[char], p: &[char]) -> (r: bool)
    ensures
        r == has_prefix(s@, p@),
{
    if p.len() > s.len() {
        return false;
    }
    let mut i: usize = 0;
    while i < p.len()
        invariant
            p@.len() <= s@.len(),
            i <= p@.len(),
            forall|k: int| 0 <= k < i ==> s@[k] == p@[k],
        decreases p@.len() - i,
    {
        if s[i] != p[i] {
            return false;
        }
        i = i + 1;
    }
    assert(s@.subrange(0, p@.len() as int) == p@);
    true
}

fn prefix_chars() -> (r: Vec<char>)
    ensures
        r@ == prefix_view(),
{
    let v = vec!['g', 'r', 'u', 's', 't', '.', 'a', 'l', 'g', 'o', 'r', 'i', 't', 'h', 'm', 's', '.'];
    assert(v@ == prefix_view());
    v
}

proof fn lemma_empty_multiset<A>(s: Seq<A>)
    requires
        s.len() == 0,
    ensures
        s.to_multiset() =~= vstd::multiset::Multiset::<A>::empty(),
{
    broadcast use vstd::multiset::group_multiset_axioms;
    s.to_multiset_ensures();
    assert forall|a: A| s.to_multiset().count(a) == 0 by {
        assert(!s.contains(a));
    }
}

/// The served definitions among `all`: the algorithm namespace, by name.
pub fn definitions_in(all: Vec<Definition>) -> (r: Vec<Definition>)
    ensures
        served(all@, r@),
{
    let prefix = prefix_chars();
    let ghost f = |d: Definition| is_algorithm(d);
    let mut rest = all;
    let mut out: Vec<Definition> = Vec::new();
    proof {
        lemma_empty_multiset(out@);
        broadcast use vstd::multiset::group_multiset_axioms;
        assert(out@.to_multiset().add(rest@.filter(f).to_multiset()) =~= rest@.filter(f).to_multiset());
    }
    while rest.len() > 0
        invariant
            prefix@ == prefix_view(),
            f == (|d: Definition| is_algorithm(d)),
            out@.to_multiset().add(rest@.filter(f).to_multiset()) == all@.filter(f).to_multiset(),
        decreases rest@.len(),
    {
        let ghost before = rest@;
        let d = rest.pop().unwrap();
        proof {
            assert(before == rest@.push(d));
            rest@.lemma_filter_push(d, f);
            rest@.to_multiset_ensures();
            rest@.filter(f).to_multiset_ensures();
            out@.to_multiset_ensures();
        }
        let name = chars_of(d.name.as_str());
        if starts_with(name.as_slice(), prefix.as_slice()) {
            proof {
                broadcast use vstd::multiset::group_multiset_axioms;
                assert(out@.push(d).to_multiset().add(rest@.filter(f).to_multiset()) =~= out@.to_multiset().add(rest@.filter(f).push(d).to_multiset()));
            }
            out.push(d);
        }
    }
    proof {
        assert(rest@.filter(f) =~= Seq::<Definition>::empty());
        lemma_empty_multiset(rest@.filter(f));
        broadcast use vstd::multiset::group_multiset_axioms;
        assert(out@.to_multiset().add(rest@.filter(f).to_multiset()) =~= out@.to_multiset());
    }
    sort_by_name(&mut out);
    out
}

pub proof fn lemma_served_are_algorithms(all: Seq<Definition>, defs: Seq<Definition>)
    requires
        served(all, defs),
    ensures
        forall|i: int| 0 <= i < defs.len() ==> is_algorithm(#[trigger] defs[i]),
{
    let f = |d: Definition| is_algorithm(d);
    assert forall|i: int| 0 <= i < defs.len() implies is_algorithm(#[trigger] defs[i]) by {
        let x = defs[i];
        assert(defs.contains(x));
        vstd::seq_lib::to_multiset_contains(defs, x);
        vstd::seq_lib::to_multiset_contains(all.filter(f), x);
        let j = choose|j: int| 0 <= j < all.filter(f).len() && all.filter(f)[j] == x;
        all.lemma_filter_pred(f, j);
    }
}

/// Grust's definitions of every algorithm, straight from its registry, by name.
pub fn definitions() -> (r: Vec<Definition>)
    ensures
        exists|all: Seq<Definition>| served(all, r@),
{
    definitions_in(registered_definitions(&procedures()))
}

fn first_case_match_in(candidates: &Vec<String>, name: &[char]) -> (r: Option<String>)
    ensures
        opt_view(r) == first_case_match(views(candidates@), name@),
{
    let mut i: usize = 0;
    assert(views(candidates@).subrange(0, candidates@.len() as int) == views(candidates@));
    while i < candidates.len()
        invariant
            i <= candidates@.len(),
            first_case_match(views(candidates@), name@) == first_case_match(
                views(candidates@).subrange(i as int, candidates@.len() as int),
                name@,
            ),
        decreases candidates@.len() - i,
    {
        let c = chars_of(candidates[i].as_str());
        let ghost rest = views(candidates@).subrange(i as int, candidates@.len() as int);
        assert(rest[0] == candidates@[i as int]@);
        if eq_ignore_case_chars(c.as_slice(), name) {
            return Some(candidates[i].clone());
        }
        assert(rest.drop_first() == views(candidates@).subrange(i + 1, candidates@.len() as int));
        i = i + 1;
    }
    None
}

fn inspection_names() -> (r: Vec<String>)
    ensures
        views(r@) == inspections(),
{
    let v = vec![String::from_str("estimateCsr"), String::from_str("projectionStats")];
    assert(views(v@) == inspections());
    v
}

/// The spelling of a case-folded registered name (see [`spelled`]).
pub fn spelled_in(kernels: &Vec<String>, registered: &[char]) -> (r: String)
    ensures
        r@ == spelled(views(kernels@), registered@),
{
    let mut candidates = kernels.clone();
    let mut extra = inspection_names();
    candidates.append(&mut extra);
    assert(views(candidates@) == views(kernels@) + inspections());
    match first_case_match_in(&candidates, registered) {
        Some(s) => s,
        None => string_of(registered),
    }
}

/// The short names of `defs`, in their order.
pub fn short_names_in(kernels: &Vec<String>, defs: &Vec<Definition>) -> (r: Vec<String>)
    requires
        forall|i: int| 0 <= i < defs@.len() ==> is_algorithm(#[trigger] defs@[i]),
    ensures
        views(r@) == short_names(views(kernels@), defs@),
{
    let plen: usize = 17;
    let mut out: Vec<String> = Vec::new();
    let mut i: usize = 0;
    while i < defs.len()
        invariant
            plen == prefix_view().len(),
            i <= defs@.len(),
            forall|k: int| 0 <= k < defs@.len() ==> is_algorithm(#[trigger] defs@[k]),
            views(out@) == short_names(views(kernels@), defs@).subrange(0, i as int),
        decreases defs@.len() - i,
    {
        let name = chars_of(defs[i].name.as_str());
        let mut rest: Vec<char> = Vec::new();
        let mut k: usize = plen;
        assert(is_algorithm(defs@[i as int]));
        while k < name.len()
            invariant
                plen <= k <= name@.len(),
                rest@ == name@.subrange(plen as int, k as int),
            decreases name@.len() - k,
        {
            rest.push(name[k]);
            assert(name@.subrange(plen as int, k + 1) == name@.subrange(plen as int, k as int).push(
                name@[k as int],
            ));
            k = k + 1;
        }
        let s = spelled_in(kernels, rest.as_slice());
        let ghost before = out@;
        out.push(s);
        proof {
            assert(s@ == short(views(kernels@), defs@[i as int]));
            assert(views(out@) =~= views(before).push(s@));
            assert(short_names(views(kernels@), defs@).subrange(0, i + 1) =~= short_names(
                views(kernels@),
                defs@,
            ).subrange(0, i as int).push(short(views(kernels@), defs@[i as int])));
        }
        i = i + 1;
    }
    out
}

/// Whether `names` are the short names of the algorithms Grust serves.
pub open spec fn registered_short_names(names: Seq<Seq<char>>) -> bool {
    exists|kernels: Seq<Seq<char>>, all: Seq<Definition>, defs: Seq<Definition>|
        served(all, defs) && names == short_names(kernels, defs)
}

/// Grust's short algorithm names (`pagerank`, `shortestPaths`, …), in the
/// order of their registered names.
pub fn algorithm_names() -> (r: Vec<String>)
    ensures
        exists|kernels: Seq<Seq<char>>, all: Seq<Definition>, defs: Seq<Definition>|
            served(all, defs) && views(r@) == short_names(kernels, defs),
        registered_short_names(views(r@)),
{
    let kernels = kernel_names();
    let defs = definitions();
    proof {
        let all = choose|all: Seq<Definition>| served(all, defs@);
        lemma_served_are_algorithms(all, defs@);
    }
    short_names_in(&kernels, &defs)
}

/// `shortestPaths` → `shortest_paths`, for SQL function names.
pub fn snake(name: &str) -> (r: String)
    ensures
        r@ == snake_spec(name@),
{
    let chars = chars_of(name);
    let mut out: Vec<char> = Vec::new();
    let mut i: usize = 0;
    while i < chars.len()
        invariant
            i <= chars@.len(),
            out@ == snake_spec(chars@.subrange(0, i as int)),
        decreases chars@.len() - i,
    {
        let c = chars[i];
        proof {
            let s = chars@.subrange(0, i + 1);
            assert(s.drop_last() == chars@.subrange(0, i as int));
            assert(s.last() == c);
        }
        if 'A' <= c && c <= 'Z' {
            out.push('_');
            out.push(lower_char(c));
            assert(out@ == snake_spec(chars@.subrange(0, i as int)) + seq!['_', lower(c)]);
        } else {
            out.push(c);
            assert(out@ == snake_spec(chars@.subrange(0, i as int)) + seq![c]);
        }
        i = i + 1;
    }
    assert(chars@.subrange(0, chars@.len() as int) == chars@);
    string_of(out.as_slice())
}

/// A requested name as it is matched (see [`folded`]).
pub fn fold_name(name: &str) -> (r: Vec<char>)
    ensures
        r@ == folded(name@),
{
    let chars = chars_of(name);
    let trimmed = trim_chars(chars.as_slice());
    let lowered = lower_chars(trimmed.as_slice());
    let mut out: Vec<char> = Vec::new();
    let mut i: usize = 0;
    let ghost f = |c: char| !is_separator(c);
    while i < lowered.len()
        invariant
            i <= lowered@.len(),
            out@ == lowered@.subrange(0, i as int).filter(f),
            f == (|c: char| !is_separator(c)),
        decreases lowered@.len() - i,
    {
        let c = lowered[i];
        proof {
            lowered@.subrange(0, i as int).lemma_filter_push(c, f);
            assert(lowered@.subrange(0, i + 1) == lowered@.subrange(0, i as int).push(c));
        }
        if c != '_' && c != '-' {
            out.push(c);
        }
        i = i + 1;
    }
    assert(lowered@.subrange(0, lowered@.len() as int) == lowered@);
    out
}

/// The first of `names` whose lower case is the folded `name`.
pub fn resolve_in(names: &Vec<String>, name: &str) -> (r: Option<String>)
    ensures
        opt_view(r) == resolved(views(names@), name@),
{
    let wanted = fold_name(name);
    let mut i: usize = 0;
    assert(views(names@).subrange(0, names@.len() as int) == views(names@));
    while i < names.len()
        invariant
            i <= names@.len(),
            wanted@ == folded(name@),
            first_folded_match(views(names@), wanted@) == first_folded_match(
                views(names@).subrange(i as int, names@.len() as int),
                wanted@,
            ),
        decreases names@.len() - i,
    {
        let ghost rest = views(names@).subrange(i as int, names@.len() as int);
        assert(rest[0] == names@[i as int]@);
        let c = chars_of(names[i].as_str());
        let l = lower_chars(c.as_slice());
        if eq_chars(l.as_slice(), wanted.as_slice()) {
            return Some(names[i].clone());
        }
        assert(rest.drop_first() == views(names@).subrange(i + 1, names@.len() as int));
        i = i + 1;
    }
    None
}

/// Resolve a user-supplied name in either spelling to Grust's.
pub fn resolve_algorithm(name: &str) -> (r: Option<String>)
    ensures
        exists|names: Seq<Seq<char>>| opt_view(r) == resolved(names, name@),
{
    let names = algorithm_names();
    resolve_in(&names, name)
}

} // verus!
