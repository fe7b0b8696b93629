//! The `nutmeg` data source: how a read's options choose an algorithm run on
//! a staged graph, or the listing of graphs, and how a write's options
//! choose the graph, part, layout, order and mode it stages with.
use vstd::prelude::*;
use vstd::string::*;

use crate::calls::options_from_strings;
use crate::catalog::{algorithm_names, resolve_algorithm};
use crate::columns::{choice, ColumnNames};
use crate::error::{join2, join3, NutmegError};
use crate::frame::debug_text;
use crate::layout::{mapping_slot, ColumnMapping};
use crate::options::Options;
use crate::order::StageOrder;
use crate::text::{chars_of, lower_chars, lower_seq, string_of};
use crate::Part;

verus! {

/// One layer of a read's or write's options, later layers overriding
/// earlier ones.
#[derive(Debug)]
pub enum OptionLayer {
    /// A table's properties.
    Properties(Vec<(String, String)>),
    /// Options given with the read or write.
    Options(Vec<(String, String)>),
    /// Any other layer, which holds no options of Nutmeg's.
    Other,
}

/// How a write treats what is there: Spark's save modes.
#[derive(Clone, Copy, Debug, PartialEq, Eq, Structural)]
pub enum SinkMode {
    Overwrite,
    OverwriteIf,
    OverwritePartitions,
    Append,
    ErrorIfExists,
    IgnoreIfExists,
}

pub open spec fn pair_text(p: (String, String)) -> (Seq<char>, Seq<char>) {
    (p.0@, p.1@)
}

pub open spec fn pairs_text(s: Seq<(String, String)>) -> Seq<(Seq<char>, Seq<char>)> {
    s.map_values(|p: (String, String)| pair_text(p))
}

/// Every option of the layers that hold options, in order.
pub open spec fn layer_items(layers: Seq<OptionLayer>) -> Seq<(Seq<char>, Seq<char>)>
    decreases layers.len(),
{
    if layers.len() == 0 {
        Seq::empty()
    } else {
        let rest = layer_items(layers.drop_last());
        match layers.last() {
            OptionLayer::Properties(items) => rest + pairs_text(items@),
            OptionLayer::Options(items) => rest + pairs_text(items@),
            OptionLayer::Other => rest,
        }
    }
}

/// Options with lowercase keys, each key once: a later option replaces an
/// earlier one of the same key, and goes last.
pub open spec fn flattened(items: Seq<(Seq<char>, Seq<char>)>) -> Seq<(Seq<char>, Seq<char>)>
    decreases items.len(),
{
    if items.len() == 0 {
        Seq::empty()
    } else {
        let key = lower_seq(items.last().0);
        flattened(items.drop_last()).filter(|p: (Seq<char>, Seq<char>)| p.0 != key).push(
            (key, items.last().1),
        )
    }
}

/// The options of `layers`, flattened (see [`flattened`]).
pub fn flatten_options(layers: &Vec<OptionLayer>) -> (r: Vec<(String, String)>)
    ensures
        pairs_text(r@) == flattened(layer_items(layers@)),
{
    let mut out: Vec<(String, String)> = Vec::new();
    let mut l: usize = 0;
    while l < layers.len()
        invariant
            l <= layers@.len(),
            pairs_text(out@) == flattened(layer_items(layers@.subrange(0, l as int))),
        decreases layers@.len() - l,
    {
        let ghost before_layer = layer_items(layers@.subrange(0, l as int));
        proof {
            let s = layers@.subrange(0, l + 1);
            assert(s.drop_last() == layers@.subrange(0, l as int));
        }
        let empty: Vec<(String, String)> = Vec::new();
        let items = match &layers[l] {
            OptionLayer::Properties(items) => items,
            OptionLayer::Options(items) => items,
            OptionLayer::Other => &empty,
        };
        assert(layer_items(layers@.subrange(0, l + 1)) == before_layer + pairs_text(items@));
        let mut i: usize = 0;
        while i < items.len()
            invariant
                i <= items@.len(),
                pairs_text(out@) == flattened(before_layer + pairs_text(items@).subrange(0, i as int)),
            decreases items@.len() - i,
        {
            let key = string_of(lower_chars(chars_of(items[i].0.as_str()).as_slice()).as_slice());
            let ghost done = before_layer + pairs_text(items@).subrange(0, i as int);
            let ghost f = |p: (Seq<char>, Seq<char>)| p.0 != key@;
            let mut kept: Vec<(String, String)> = Vec::new();
            let mut k: usize = 0;
            while k < out.len()
                invariant
                    k <= out@.len(),
                    pairs_text(kept@) == pairs_text(out@).subrange(0, k as int).filter(f),
                    f == (|p: (Seq<char>, Seq<char>)| p.0 != key@),
                decreases out@.len() - k,
            {
                proof {
                    pairs_text(out@).subrange(0, k as int).lemma_filter_push(pairs_text(out@)[k as int], f);
                    assert(pairs_text(out@).subrange(0, k + 1) == pairs_text(out@).subrange(0, k as int).push(
                        pairs_text(out@)[k as int],
                    ));
                }
                if !crate::text::str_eq(out[k].0.as_str(), key.as_str()) {
                    let ghost before = kept@;
                    kept.push((out[k].0.clone(), out[k].1.clone()));
                    assert(pairs_text(kept@) =~= pairs_text(before).push(pairs_text(out@)[k as int]));
                }
                k = k + 1;
            }
            let ghost before = kept@;
            kept.push((key, items[i].1.clone()));
            proof {
                assert(pairs_text(out@).subrange(0, out@.len() as int) == pairs_text(out@));
                assert(pairs_text(kept@) =~= pairs_text(before).push((lower_seq(items@[i as int].0@), items@[i as int].1@)));
                let next = before_layer + pairs_text(items@).subrange(0, i + 1);
                assert(next.drop_last() == done);
                assert(next.last() == pair_text(items@[i as int]));
                assert(key@ == lower_seq(next.last().0));
                let g = |p: (Seq<char>, Seq<char>)| p.0 != lower_seq(next.last().0);
                assert(f =~= g);
                assert(flattened(next) == flattened(done).filter(g).push((lower_seq(next.last().0), next.last().1)));
            }
            out = kept;
            i = i + 1;
        }
        assert(pairs_text(items@).subrange(0, items@.len() as int) == pairs_text(items@));
        l = l + 1;
    }
    assert(layers@.subrange(0, layers@.len() as int) == layers@);
    out
}

/// The index of the first option under `key`.
pub open spec fn key_index(options: Seq<(Seq<char>, Seq<char>)>, key: Seq<char>) -> Option<int> {
    if exists|i: int| 0 <= i < options.len() && options[i].0 == key {
        Some(choose|i: int| 0 <= i < options.len() && options[i].0 == key && forall|j: int| 0 <= j < i ==> options[j].0 != key)
    } else {
        None
    }
}

/// The value of the first option under `key`.
pub open spec fn opt_value(options: Seq<(Seq<char>, Seq<char>)>, key: Seq<char>) -> Option<Seq<char>> {
    match key_index(options, key) {
        Some(i) => Some(options[i].1),
        None => None,
    }
}

/// The options with the first under `key` taken out.
pub open spec fn without(options: Seq<(Seq<char>, Seq<char>)>, key: Seq<char>) -> Seq<(Seq<char>, Seq<char>)> {
    match key_index(options, key) {
        Some(i) => options.remove(i),
        None => options,
    }
}

/// The first index under `key` is the one where `key` first occurs.
proof fn lemma_key_index(options: Seq<(Seq<char>, Seq<char>)>, key: Seq<char>, i: int)
    requires
        0 <= i < options.len(),
        options[i].0 == key,
        forall|j: int| 0 <= j < i ==> options[j].0 != key,
    ensures
        key_index(options, key) == Some(i),
{
    let c = choose|c: int|
        0 <= c < options.len() && options[c].0 == key && forall|j: int| 0 <= j < c ==> options[j].0 != key;
    assert(0 <= i < options.len() && options[i].0 == key && forall|j: int| 0 <= j < i ==> options[j].0 != key);
    if c < i {
        assert(options[c].0 != key);
    } else if c > i {
        assert(options[i].0 != key);
    }
}

/// Take the first option under `key` out, and its value.
pub fn take(options: &mut Vec<(String, String)>, key: &str) -> (r: Option<String>)
    ensures
        pairs_text(final(options)@) == without(pairs_text(old(options)@), key@),
        match r {
            Some(v) => opt_value(pairs_text(old(options)@), key@) == Some(v@),
            None => opt_value(pairs_text(old(options)@), key@) is None,
        },
        match r {
            Some(v) => exists|i: int|
                0 <= i < old(options)@.len() && old(options)@[i].0@ == key@ && old(options)@[i].1@
                    == v@ && (forall|j: int| 0 <= j < i ==> old(options)@[j].0@ != key@)
                    && final(options)@ == old(options)@.remove(i),
            None => final(options)@ == old(options)@ && forall|i: int|
                0 <= i < old(options)@.len() ==> old(options)@[i].0@ != key@,
        },
{
    let mut i: usize = 0;
    while i < options.len()
        invariant
            i <= options@.len(),
            options@ == old(options)@,
            forall|j: int| 0 <= j < i ==> options@[j].0@ != key@,
        decreases options@.len() - i,
    {
        if crate::text::str_eq(options[i].0.as_str(), key) {
            proof {
                let v = pairs_text(options@);
                assert forall|j: int| 0 <= j < i implies v[j].0 != key@ by {
                    assert(v[j].0 == options@[j].0@);
                }
                lemma_key_index(v, key@, i as int);
            }
            let ghost before = options@;
            let (_, value) = options.remove(i);
            assert(pairs_text(options@) =~= pairs_text(before).remove(i as int));
            return Some(value);
        }
        i = i + 1;
    }
    proof {
        let v = pairs_text(options@);
        assert forall|j: int| 0 <= j < v.len() implies v[j].0 != key@ by {
            assert(v[j].0 == options@[j].0@);
        }
        assert(key_index(v, key@) is None);
    }
    None
}

/// What a read of the `nutmeg` source runs.
pub enum SourcePlan {
    /// The listing of staged graphs.
    Graphs,
    /// One algorithm on one staged graph, with Grust's configuration and the
    /// names its columns are reported under.
    Algorithm { algorithm: String, graph: String, names: ColumnNames, configuration: Options },
}

/// The first `n` of `names`, each quoted ([`crate::frame::quoted`]), between
/// commas.
pub open spec fn quoted_items(names: Seq<Seq<char>>, n: nat) -> Seq<char>
    decreases n,
{
    if n == 0 {
        Seq::empty()
    } else if n == 1 {
        crate::frame::quoted(names[0])
    } else {
        quoted_items(names, (n - 1) as nat) + ", "@ + crate::frame::quoted(names[n - 1])
    }
}

/// `Debug` of a list of names.
pub(crate) fn debug_list(names: &Vec<String>) -> (r: String)
    ensures
        r@ == "["@ + quoted_items(crate::catalog::views(names@), names@.len()) + "]"@,
{
    let ghost all = crate::catalog::views(names@);
    let mut m = String::from_str("[");
    let mut i: usize = 0;
    while i < names.len()
        invariant
            i <= names@.len(),
            all == crate::catalog::views(names@),
            m@ == "["@ + quoted_items(all, i as nat),
        decreases names@.len() - i,
    {
        let ghost before = m@;
        if i > 0 {
            m.append(", ");
        }
        m.append(debug_text(names[i].as_str()).as_str());
        proof {
            assert(all[i as int] == names@[i as int]@);
            if i == 0 {
                assert(m@ =~= "["@ + quoted_items(all, 1));
            } else {
                assert(m@ =~= "["@ + quoted_items(all, (i + 1) as nat));
            }
        }
        i = i + 1;
    }
    m.append("]");
    m
}

/// Plan a read: without `algorithm` it lists the staged graphs (and takes no
/// other option but `path` and `graph`); with it, `graph` names the graph,
/// `algorithm` is resolved in either spelling, `columnNames` chooses the
/// column names, and every other option is Grust's configuration, given its
/// declared type and spelling. A read takes options, not paths.
pub fn plan_source(paths: usize, layers: &Vec<OptionLayer>) -> (r: Result<SourcePlan, NutmegError>)
    ensures
        paths > 0 ==> (r matches Err(NutmegError::Plan(m)) && m@
            == "nutmeg: reads take options, not paths"@),
        r is Err ==> r->Err_0 is Plan || r->Err_0 is Execution,
        paths == 0 ==> {
            let o1 = without(flattened(layer_items(layers@)), "path"@);
            let graph = opt_value(o1, "graph"@);
            let o2 = without(o1, "graph"@);
            let algorithm = opt_value(o2, "algorithm"@);
            let rest = without(o2, "algorithm"@);
            &&& algorithm is None && rest.len() > 0 ==> (r matches Err(NutmegError::Plan(m)) && m@
                == "nutmeg: option `"@ + rest[0].0 + "` needs `algorithm`"@)
            &&& algorithm is None && rest.len() == 0 ==> (r matches Ok(SourcePlan::Graphs))
            &&& algorithm is Some && graph is None ==> (r matches Err(NutmegError::Plan(m)) && m@
                == "nutmeg: option `graph` names the staged graph to run on"@)
            &&& (r matches Ok(SourcePlan::Algorithm { graph: g, .. }) ==> algorithm is Some && graph
                == Some(g@))
            &&& (r matches Ok(p) ==> p is Algorithm ==> algorithm_planned(algorithm->Some_0, rest, p))
        },
{
    if paths > 0 {
        return Err(NutmegError::Plan(String::from_str("nutmeg: reads take options, not paths")));
    }
    let mut options = flatten_options(layers);
    let _path = take(&mut options, "path");
    let graph = take(&mut options, "graph");
    let algorithm = match take(&mut options, "algorithm") {
        Some(a) => a,
        None => {
            proof {
                if options@.len() > 0 {
                    assert(pairs_text(options@)[0].0 == options@[0].0@);
                }
            }
            if options.len() > 0 {
                return Err(
                    NutmegError::Plan(
                        join3("nutmeg: option `", options[0].0.as_str(), "` needs `algorithm`"),
                    ),
                );
            }
            return Ok(SourcePlan::Graphs);
        },
    };
    let graph = match graph {
        Some(g) => g,
        None => {
            return Err(
                NutmegError::Plan(
                    String::from_str("nutmeg: option `graph` names the staged graph to run on"),
                ),
            );
        },
    };
    plan_algorithm(algorithm.as_str(), graph, options)
}

/// What planning `algorithm` with the options `rest` (a read's options once
/// `path`, `graph` and `algorithm` are out) gives `plan`: the algorithm
/// resolved in either spelling, the column names `columnNames` chooses
/// (Grust's by default), and the rest as Grust's configuration (see
/// [`crate::calls::spelled_as`]).
pub open spec fn algorithm_planned(algorithm: Seq<char>, rest: Seq<(Seq<char>, Seq<char>)>, plan: SourcePlan) -> bool {
    match plan {
        SourcePlan::Algorithm { algorithm: a, names: n, configuration: c, .. } => {
            &&& exists|names: Seq<Seq<char>>| #[trigger] crate::catalog::resolved(names, algorithm) == Some(a@)
            &&& match opt_value(rest, "columnnames"@) {
                None => n == ColumnNames::Grust,
                Some(t) => (crate::columns::choice(t) == "grust"@ && n == ColumnNames::Grust) || (
                crate::columns::choice(t) == "gds"@ && n == ColumnNames::Gds),
            }
            &&& exists|d: crate::catalog::Definition| #[trigger] crate::calls::spelled_as(
                d,
                without(rest, "columnnames"@),
                c@,
            )
        },
        SourcePlan::Graphs => false,
    }
}

/// The read of `algorithm` on `graph`, configured by `options` (see
/// [`algorithm_planned`]).
fn plan_algorithm(algorithm: &str, graph: String, options: Vec<(String, String)>) -> (r: Result<
    SourcePlan,
    NutmegError,
>)
    ensures
        r is Err ==> r->Err_0 is Plan || r->Err_0 is Execution,
        r matches Ok(p) ==> (p matches SourcePlan::Algorithm { graph: g, .. } && g@ == graph@)
            && algorithm_planned(algorithm@, pairs_text(options@), p),
{
    let name = match resolve_algorithm(algorithm) {
        Some(n) => n,
        None => {
            let mut m = String::from_str("nutmeg: unknown algorithm `");
            m.append(algorithm);
            m.append("`; Grust registers ");
            m.append(debug_list(&algorithm_names()).as_str());
            return Err(NutmegError::Plan(m));
        },
    };
    let mut options = options;
    let ghost rest = pairs_text(options@);
    let names = match take(&mut options, "columnnames") {
        Some(text) => match ColumnNames::parse(text.as_str()) {
            Ok(n) => n,
            Err(e) => {
                return Err(e);
            },
        },
        None => ColumnNames::Grust,
    };
    let ghost left = pairs_text(options@);
    assert(left == without(rest, "columnnames"@));
    let configuration = match options_from_strings(name.as_str(), options) {
        Ok(c) => c,
        Err(e) => {
            return Err(e);
        },
    };
    assert(exists|d: crate::catalog::Definition| #[trigger] crate::calls::spelled_as(d, left, configuration@));
    assert(exists|ns: Seq<Seq<char>>| #[trigger] crate::catalog::resolved(ns, algorithm@) == Some(name@));
    assert(match opt_value(rest, "columnnames"@) {
        None => names == ColumnNames::Grust,
        Some(t) => (crate::columns::choice(t) == "grust"@ && names == ColumnNames::Grust) || (
        crate::columns::choice(t) == "gds"@ && names == ColumnNames::Gds),
    });
    let plan = SourcePlan::Algorithm { algorithm: name, graph, names, configuration };
    assert(plan->algorithm@ == name@);
    assert(plan->names == names);
    assert(plan->configuration@ == configuration@);
    assert(exists|ns: Seq<Seq<char>>| #[trigger] crate::catalog::resolved(ns, algorithm@) == Some(plan->algorithm@));
    assert(exists|d: crate::catalog::Definition| #[trigger] crate::calls::spelled_as(d, without(rest, "columnnames"@), plan->configuration@));
    assert(algorithm_planned(algorithm@, rest, plan));
    Ok(plan)
}

/// What a write to the `nutmeg` source stages.
pub struct WritePlan {
    pub graph: String,
    pub part: Part,
    pub mapping: ColumnMapping,
    pub replace: bool,
    pub order: StageOrder,
}

/// Plan a write: `graph` names the graph, `part` (`nodes` or `edges`, the
/// default) the part, `order` the order it is kept in, the column-mapping
/// options which input columns hold the structural fields; any other option
/// is refused. `overwrite` modes replace the part, `append` adds to it; the
/// modes that test for an existing table, and partitioning, bucketing or a
/// sort order, are not supported.
/// What a write's options say of its target, read from options `o0`: the
/// graph, the part (`edges` unless `part` says `nodes`, in any case), and the
/// order (canonical unless `order` says otherwise).
pub open spec fn write_target_ok(o0: Seq<(Seq<char>, Seq<char>)>, graph: Seq<char>, part: Part, order: StageOrder) -> bool {
    let o1 = without(o0, "graph"@);
    let text = lower_seq(
        match opt_value(o1, "part"@) {
            Some(t) => t,
            None => "edges"@,
        },
    );
    let o3 = without(without(o1, "part"@), "path"@);
    &&& opt_value(o0, "graph"@) == Some(graph)
    &&& (text == "edges"@ || text == "nodes"@)
    &&& part == (if text == "nodes"@ {
        Part::Nodes
    } else {
        Part::Edges
    })
    &&& order == match opt_value(o3, "order"@) {
        None => StageOrder::Canonical,
        Some(t) => if crate::columns::choice(t) == "asstaged"@ {
            StageOrder::AsStaged
        } else {
            StageOrder::Canonical
        },
    }
}

/// What is left of a write's options `o0` once its target is taken out: the
/// column-mapping options.
pub open spec fn write_rest(o0: Seq<(Seq<char>, Seq<char>)>) -> Seq<(Seq<char>, Seq<char>)> {
    without(without(without(without(o0, "graph"@), "part"@), "path"@), "order"@)
}

/// The part `text` names, in any case: `edges` or `nodes`.
fn part_named(text: &str) -> (r: Result<Part, NutmegError>)
    ensures
        lower_seq(text@) == "edges"@ ==> r == Ok::<Part, NutmegError>(Part::Edges),
        lower_seq(text@) == "nodes"@ ==> r == Ok::<Part, NutmegError>(Part::Nodes),
        lower_seq(text@) != "edges"@ && lower_seq(text@) != "nodes"@ ==> (r matches Err(
            NutmegError::Plan(m),
        ) && m@ == "nutmeg: `part` must be `nodes` or `edges`, got `"@ + lower_seq(text@) + "`"@),
{
    proof {
        reveal_strlit("edges");
        reveal_strlit("nodes");
        assert("edges"@[0] != "nodes"@[0]);
    }
    let lowered = lower_chars(chars_of(text).as_slice());
    if crate::columns::spells(lowered.as_slice(), "edges") {
        Ok(Part::Edges)
    } else if crate::columns::spells(lowered.as_slice(), "nodes") {
        Ok(Part::Nodes)
    } else {
        let shown = string_of(lowered.as_slice());
        Err(
            NutmegError::Plan(
                join3("nutmeg: `part` must be `nodes` or `edges`, got `", shown.as_str(), "`"),
            ),
        )
    }
}

/// Take a write's target out of its options: `graph`, which is required,
/// `part`, `path`, which it ignores, and `order`. What is left are the
/// column-mapping options.
#[verifier::rlimit(100)]
#[verifier::spinoff_prover]
fn write_target(options: &mut Vec<(String, String)>) -> (r: Result<(String, Part, StageOrder), NutmegError>)
    ensures
        r is Err ==> r->Err_0 is Plan,
        r matches Ok(t) ==> write_target_ok(pairs_text(old(options)@), t.0@, t.1, t.2),
        r is Ok ==> pairs_text(final(options)@) == write_rest(pairs_text(old(options)@)),
        ({
            let o0 = pairs_text(old(options)@);
            let o1 = without(o0, "graph"@);
            let part = lower_seq(
                match opt_value(o1, "part"@) {
                    Some(t) => t,
                    None => "edges"@,
                },
            );
            &&& opt_value(o0, "graph"@) is None ==> (r matches Err(NutmegError::Plan(m)) && m@
                == "nutmeg: option `graph` names the graph to stage into"@)
            &&& (opt_value(o0, "graph"@) is Some && part != "edges"@ && part != "nodes"@ ==> (r matches Err(
                NutmegError::Plan(m),
            ) && m@ == "nutmeg: `part` must be `nodes` or `edges`, got `"@ + part + "`"@))
        }),
        write_target_refusal(pairs_text(old(options)@)) matches Some(t) ==> (r matches Err(NutmegError::Plan(m))
            && m@ == "nutmeg: `order` is `canonical` or `asStaged`, got `"@ + choice(t) + "`"@),
        write_target_valid(pairs_text(old(options)@)) ==> r is Ok,
{
    let graph = match take(options, "graph") {
        Some(g) => g,
        None => {
            return Err(
                NutmegError::Plan(
                    String::from_str("nutmeg: option `graph` names the graph to stage into"),
                ),
            );
        },
    };
    let part_text = match take(options, "part") {
        Some(p) => p,
        None => String::from_str("edges"),
    };
    let part = match part_named(part_text.as_str()) {
        Ok(p) => p,
        Err(e) => {
            return Err(e);
        },
    };
    let _path = take(options, "path");
    assert(pairs_text(options@) == without(without(without(pairs_text(old(options)@), "graph"@), "part"@), "path"@));
    assert(opt_value(pairs_text(options@), "order"@) == order_text(pairs_text(old(options)@)));
    assert(self::part_text(pairs_text(old(options)@)) == lower_seq(part_text@));
    let order = match take(options, "order") {
        Some(text) => match StageOrder::parse(text.as_str()) {
            Ok(o) => o,
            Err(e) => {
                return Err(e);
            },
        },
        None => StageOrder::Canonical,
    };
    Ok((graph, part, order))
}

/// The text of `order` among a write's options once `graph`, `part` and
/// `path` are taken out, if any.
pub open spec fn order_text(o0: Seq<(Seq<char>, Seq<char>)>) -> Option<Seq<char>> {
    opt_value(without(without(without(o0, "graph"@), "part"@), "path"@), "order"@)
}

/// The part a write's options name, lower-cased (`edges` where none).
pub open spec fn part_text(o0: Seq<(Seq<char>, Seq<char>)>) -> Seq<char> {
    lower_seq(
        match opt_value(without(o0, "graph"@), "part"@) {
            Some(t) => t,
            None => "edges"@,
        },
    )
}

/// Whether a write's options name a graph, a part, and an order that parses.
pub open spec fn write_target_valid(o0: Seq<(Seq<char>, Seq<char>)>) -> bool {
    &&& opt_value(o0, "graph"@) is Some
    &&& (part_text(o0) == "edges"@ || part_text(o0) == "nodes"@)
    &&& (order_text(o0) matches Some(t) ==> choice(t) == "canonical"@ || choice(t) == "asstaged"@)
}

/// The `order` text a write with a graph and a part is refused for: one
/// that parses as neither order.
pub open spec fn write_target_refusal(o0: Seq<(Seq<char>, Seq<char>)>) -> Option<Seq<char>> {
    if opt_value(o0, "graph"@) is Some && (part_text(o0) == "edges"@ || part_text(o0) == "nodes"@) {
        match order_text(o0) {
            Some(t) => if choice(t) != "canonical"@ && choice(t) != "asstaged"@ {
                Some(t)
            } else {
                None
            },
            None => None,
        }
    } else {
        None
    }
}

/// Whether each of `items` names a mapping key.
pub open spec fn all_mapping_keys(items: Seq<(Seq<char>, Seq<char>)>) -> bool {
    forall|i: int| 0 <= i < items.len() ==> #[trigger] mapping_slot(items[i].0) is Some
}

/// The mapping's fields (see [`ColumnMapping::slots`]) once `items` have set
/// them in order, from none set: a later option for a field replaces an
/// earlier one.
pub open spec fn mapped_slots(items: Seq<(Seq<char>, Seq<char>)>) -> Seq<Option<Seq<char>>>
    decreases items.len(),
{
    if items.len() == 0 {
        seq![None, None, None, None, None, None]
    } else {
        let before = mapped_slots(items.drop_last());
        match mapping_slot(items.last().0) {
            Some(i) => before.update(i, Some(items.last().1)),
            None => before,
        }
    }
}

/// The column mapping the remaining options of a write set, in order; the
/// first option that names no mapping key is refused.
fn mapping_of(options: Vec<(String, String)>) -> (r: Result<ColumnMapping, NutmegError>)
    ensures
        r is Ok <==> all_mapping_keys(pairs_text(options@)),
        r matches Ok(m) ==> m.slots() == mapped_slots(pairs_text(options@)),
        r matches Err(e) ==> exists|i: int|
            0 <= i < options@.len() && mapping_slot(#[trigger] options@[i].0@) is None && (forall|j: int|
                0 <= j < i ==> mapping_slot(options@[j].0@) is Some) && e == NutmegError::Plan(
                e->Plan_0,
            ) && e->Plan_0@ == "nutmeg: unknown write option `"@ + options@[i].0@ + "`"@,
{
    let ghost items = pairs_text(options@);
    let mut mapping = ColumnMapping::new();
    assert(mapping.slots() =~= mapped_slots(items.subrange(0, 0)));
    let mut i: usize = 0;
    while i < options.len()
        invariant
            i <= options@.len(),
            items == pairs_text(options@),
            mapping.slots() == mapped_slots(items.subrange(0, i as int)),
            forall|j: int| 0 <= j < i ==> mapping_slot(options@[j].0@) is Some,
        decreases options@.len() - i,
    {
        proof {
            let s = items.subrange(0, i + 1);
            assert(s.drop_last() =~= items.subrange(0, i as int));
            assert(s.last() == (options@[i as int].0@, options@[i as int].1@));
        }
        let value = options[i].1.clone();
        if !mapping.set(options[i].0.as_str(), value) {
            proof {
                assert(items[i as int].0 == options@[i as int].0@);
                assert(!all_mapping_keys(items));
            }
            return Err(NutmegError::Plan(join3("nutmeg: unknown write option `", options[i].0.as_str(), "`")));
        }
        i = i + 1;
    }
    proof {
        assert(items.subrange(0, items.len() as int) =~= items);
        assert forall|j: int| 0 <= j < items.len() implies #[trigger] mapping_slot(items[j].0) is Some by {
            assert(items[j].0 == options@[j].0@);
        }
    }
    Ok(mapping)
}

/// Plan a write: `graph` names the graph, `part` (`nodes` or `edges`, the
/// default) the part, `order` the order it is kept in, the column-mapping
/// options which input columns hold the structural fields; any other option
/// is refused. `overwrite` modes replace the part, `append` adds to it; the
/// modes that test for an existing table, and partitioning, bucketing or a
/// sort order, are not supported.
pub fn plan_writer(mode: SinkMode, partitioned: bool, layers: &Vec<OptionLayer>) -> (r: Result<
    WritePlan,
    NutmegError,
>)
    ensures
        partitioned ==> (r matches Err(NutmegError::NotImplemented(m)) && m@
            == "nutmeg: writes take no partitioning, bucketing or sort order"@),
        r matches Ok(p) ==> p.replace == (mode == SinkMode::Overwrite || mode
            == SinkMode::OverwriteIf || mode == SinkMode::OverwritePartitions) && (mode
            != SinkMode::ErrorIfExists && mode != SinkMode::IgnoreIfExists),
        r is Err ==> r->Err_0 is Plan || r->Err_0 is NotImplemented,
        !partitioned ==> {
            let o0 = flattened(layer_items(layers@));
            let o1 = without(o0, "graph"@);
            let part = lower_seq(
                match opt_value(o1, "part"@) {
                    Some(t) => t,
                    None => "edges"@,
                },
            );
            &&& opt_value(o0, "graph"@) is None ==> (r matches Err(NutmegError::Plan(m)) && m@
                == "nutmeg: option `graph` names the graph to stage into"@)
            &&& (opt_value(o0, "graph"@) is Some && part != "edges"@ && part != "nodes"@ ==> (r matches Err(
                NutmegError::Plan(m),
            ) && m@ == "nutmeg: `part` must be `nodes` or `edges`, got `"@ + part + "`"@))
            &&& (r matches Ok(p) ==> write_target_ok(o0, p.graph@, p.part, p.order))
            &&& (r matches Ok(p) ==> p.mapping.slots() == mapped_slots(write_rest(o0)))
            &&& (r is Ok ==> all_mapping_keys(write_rest(o0)))
            &&& (!all_mapping_keys(write_rest(o0)) ==> r is Err)
            &&& (write_target_refusal(o0) matches Some(t) ==> (r matches Err(NutmegError::Plan(m)) && m@
                == "nutmeg: `order` is `canonical` or `asStaged`, got `"@ + choice(t) + "`"@))
            &&& (write_target_valid(o0) && all_mapping_keys(write_rest(o0)) && mode != SinkMode::ErrorIfExists
                && mode != SinkMode::IgnoreIfExists ==> r is Ok)
        },
{
    if partitioned {
        return Err(
            NutmegError::NotImplemented(
                String::from_str("nutmeg: writes take no partitioning, bucketing or sort order"),
            ),
        );
    }
    let mut options = flatten_options(layers);
    let (graph, part, order) = match write_target(&mut options) {
        Ok(t) => t,
        Err(e) => {
            return Err(e);
        },
    };
    let mapping = match mapping_of(options) {
        Ok(m) => m,
        Err(e) => {
            return Err(e);
        },
    };
    let replace = match mode {
        SinkMode::Overwrite | SinkMode::OverwriteIf | SinkMode::OverwritePartitions => true,
        SinkMode::Append => false,
        SinkMode::ErrorIfExists | SinkMode::IgnoreIfExists => {
            return Err(
                NutmegError::NotImplemented(
                    String::from_str("nutmeg: writes are `append` or `overwrite`"),
                ),
            );
        },
    };
    Ok(WritePlan { graph, part, mapping, replace, order })
}

/// The `nutmeg` data source.
#[derive(Debug, Default)]
pub struct NutmegDataSource;

impl NutmegDataSource {
    /// The format name reads and writes select it by.
    pub fn name(&self) -> (r: &'static str)
        ensures
            r@ == "nutmeg"@,
    {
        "nutmeg"
    }
}

} // verus!
