//! The nodes of a graph staged from edges alone: its distinct edge
//! endpoints, found by sorting the endpoints so the memory it takes is known
//! before it starts.
use vstd::prelude::*;
use vstd::string::*;

use crate::catalog::text_lt;
use crate::error::NutmegError;
use crate::frame::{
    batch_fields, batch_rows, column_by_name, column_len, column_texts, empty_text, field_names,
    make_batch, named_column, num_rows, opt_chars, slice_bytes, slice_size, text_column, text_field,
    text_values, Batch, Column, FieldDef,
};
use crate::options::{lemma_text_lt_irreflexive, lemma_text_lt_total, lemma_text_lt_transitive};
use crate::order::{index_of, pair_lt, pair_view, pair_views, pairs_sorted, sort_pairs};
use crate::sizes::{sadd, sat_mul, smul};
use crate::text::decimal_of;

verus! {

/// `slice::sort_unstable_by_key` on (id, position) pairs by position, an
/// integer, which std documents as reordering the elements, keeping each.
#[verifier::external_body]
fn sort_by_position(v: &mut Vec<(String, usize)>)
    ensures
        pair_views(final(v)@).to_multiset() == pair_views(old(v)@).to_multiset(),
        forall|i: int, j: int| 0 <= i < j < final(v)@.len() ==> final(v)@[i].1 <= final(v)@[j].1,
{
    v.sort_unstable_by_key(|(_, position)| *position);
}

/// `index_of` finds the first place an id stands.
pub proof fn lemma_index_of_first(ids: Seq<Seq<char>>, x: Seq<char>, p: int)
    requires
        0 <= p < ids.len(),
        ids[p] == x,
        forall|q: int| 0 <= q < p ==> ids[q] != x,
    ensures
        index_of(ids, x) == Some(p),
    decreases ids.len(),
{
    if p < ids.len() - 1 {
        lemma_index_of_first(ids.drop_last(), x, p);
    } else {
        lemma_index_of_none(ids.drop_last(), x);
    }
}

proof fn lemma_index_of_some(ids: Seq<Seq<char>>, x: Seq<char>)
    ensures
        index_of(ids, x) matches Some(p) ==> 0 <= p < ids.len() && ids[p] == x,
    decreases ids.len(),
{
    if ids.len() > 0 {
        lemma_index_of_some(ids.drop_last(), x);
    }
}

proof fn lemma_index_of_none(ids: Seq<Seq<char>>, x: Seq<char>)
    requires
        forall|q: int| 0 <= q < ids.len() ==> ids[q] != x,
    ensures
        index_of(ids, x) is None,
    decreases ids.len(),
{
    if ids.len() > 0 {
        lemma_index_of_none(ids.drop_last(), x);
    }
}

/// `pair_lt` is a strict total order.
proof fn lemma_pair_order(a: (Seq<char>, usize), b: (Seq<char>, usize), c: (Seq<char>, usize))
    ensures
        !pair_lt(a, a),
        pair_lt(a, b) && pair_lt(b, c) ==> pair_lt(a, c),
        a != b ==> pair_lt(a, b) || pair_lt(b, a),
        pair_lt(a, b) ==> !pair_lt(b, a),
{
    lemma_text_lt_irreflexive(a.0);
    lemma_text_lt_total(a.0, b.0);
    if pair_lt(a, b) && pair_lt(b, c) {
        if text_lt(a.0, b.0) && text_lt(b.0, c.0) {
            lemma_text_lt_transitive(a.0, b.0, c.0);
        }
    }
    if pair_lt(a, b) && pair_lt(b, a) {
        if text_lt(a.0, b.0) && text_lt(b.0, a.0) {
            lemma_text_lt_transitive(a.0, b.0, a.0);
        }
    }
}

/// In a sorted run of distinct pairs, an element between two of one name
/// has that name too.
proof fn lemma_between(s: Seq<(Seq<char>, usize)>, j: int, t: int, i: int)
    requires
        pairs_sorted(s),
        s.no_duplicates(),
        0 <= j <= t <= i < s.len(),
        s[j].0 == s[i].0,
    ensures
        s[t].0 == s[i].0,
{
    if t != j && t != i {
        lemma_pair_order(s[j], s[t], s[i]);
        lemma_pair_order(s[t], s[j], s[i]);
        lemma_pair_order(s[i], s[t], s[j]);
        assert(!pair_lt(s[t], s[j]));
        assert(!pair_lt(s[i], s[t]));
        lemma_text_lt_total(s[j].0, s[t].0);
        if s[t].0 != s[i].0 {
            if text_lt(s[j].0, s[t].0) {
                assert(pair_lt(s[i], s[t]));
            } else {
                assert(pair_lt(s[t], s[j]));
            }
        }
    }
}

/// Whether position `t` of `s` starts a run of one id.
pub open spec fn starts_run(s: Seq<(Seq<char>, usize)>, t: int) -> bool {
    t == 0 || s[t - 1].0 != s[t].0
}

/// Every position lies in a run that starts at or before it.
proof fn lemma_run_start(s: Seq<(Seq<char>, usize)>, j: int)
    requires
        0 <= j < s.len(),
    ensures
        exists|t: int| 0 <= t <= j && #[trigger] starts_run(s, t) && s[t].0 == s[j].0,
    decreases j,
{
    if !starts_run(s, j) {
        lemma_run_start(s, j - 1);
        let t = choose|t: int| 0 <= t <= j - 1 && #[trigger] starts_run(s, t) && s[t].0 == s[j - 1].0;
        assert(starts_run(s, t) && s[t].0 == s[j].0);
    } else {
        assert(starts_run(s, j));
    }
}

/// The ids of (id, position) pairs.
pub open spec fn ids_of(s: Seq<(String, usize)>) -> Seq<Seq<char>> {
    pair_views(s).map_values(|p: (Seq<char>, usize)| p.0)
}

/// The distinct ids among `seen`, each seen at its position: in id order
/// when `sorted`, else in the order each first appears. Found by sorting the
/// (id, position) pairs, keeping the first of each id, and, for the order of
/// appearance, sorting those by position.
pub fn distinct_ids(seen: Vec<(String, usize)>, sorted: bool) -> (r: Vec<String>)
    requires
        forall|k: int| 0 <= k < seen@.len() ==> (#[trigger] seen@[k]).1 == k,
    ensures
        crate::catalog::views(r@).no_duplicates(),
        forall|x: Seq<char>|
            crate::catalog::views(r@).contains(x) <==> ids_of(seen@).contains(x),
        sorted ==> forall|i: int, j: int|
            0 <= i < j < r@.len() ==> text_lt(r@[i]@, r@[j]@),
        !sorted ==> forall|i: int, j: int|
            0 <= i < j < r@.len() ==> (index_of(ids_of(seen@), r@[i]@)->0 < index_of(
                ids_of(seen@),
                r@[j]@,
            )->0),
{
    let ghost ids = ids_of(seen@);
    let ghost unsorted = pair_views(seen@);
    let mut s = seen;
    proof {
        assert forall|k: int| 0 <= k < unsorted.len() implies #[trigger] unsorted[k] == (
            ids[k],
            k as usize,
        ) by {}
        assert(unsorted.no_duplicates()) by {
            assert forall|a: int, b: int|
                0 <= a < unsorted.len() && 0 <= b < unsorted.len() && a != b implies unsorted[a]
                != unsorted[b] by {
                assert(unsorted[a].1 == a as usize);
                assert(unsorted[b].1 == b as usize);
            }
        }
        unsorted.lemma_multiset_has_no_duplicates();
    }
    sort_pairs(&mut s);
    let ghost srt = pair_views(s@);
    proof {
        srt.lemma_multiset_has_no_duplicates_conv();
        vstd::seq_lib::to_multiset_len(srt);
        vstd::seq_lib::to_multiset_len(unsorted);
    }
    // Keep the first of each id: the one at the start of its run.
    let mut kept: Vec<(String, usize)> = Vec::new();
    let ghost mut firsts: Seq<int> = Seq::empty();
    let mut i: usize = 0;
    let n = s.len();
    while i < n
        invariant
            n == s@.len(),
            i <= n,
            srt == pair_views(s@),
            firsts.len() == kept@.len(),
            forall|m: int|
                0 <= m < firsts.len() ==> 0 <= #[trigger] firsts[m] < i && starts_run(srt, firsts[m])
                    && pair_view(kept@[m]) == srt[firsts[m]],
            forall|a: int, b: int| 0 <= a < b < firsts.len() ==> firsts[a] < firsts[b],
            forall|t: int|
                0 <= t < i && #[trigger] starts_run(srt, t) ==> exists|m: int|
                    0 <= m < firsts.len() && firsts[m] == t,
        decreases n - i,
    {
        let first = i == 0 || !crate::text::str_eq(s[i - 1].0.as_str(), s[i].0.as_str());
        proof {
            assert(first == starts_run(srt, i as int));
        }
        if first {
            let ghost before = firsts;
            kept.push((s[i].0.clone(), s[i].1));
            proof {
                firsts = firsts.push(i as int);
                assert forall|t: int| 0 <= t < i + 1 && #[trigger] starts_run(srt, t) implies exists|m: int|
                    0 <= m < firsts.len() && firsts[m] == t by {
                    if t < i {
                        let m = choose|m: int| 0 <= m < before.len() && before[m] == t;
                        assert(firsts[m] == t);
                    } else {
                        assert(firsts[firsts.len() - 1] == t);
                    }
                }
            }
        }
        i = i + 1;
    }
    // Each kept pair is the first of its id, in id order, and stands at its
    // id's first position.
    proof {
        assert forall|m: int| 0 <= m < kept@.len() implies #[trigger] index_of(ids, kept@[m].0@)
            == Some(kept@[m].1 as int) && ids.contains(kept@[m].0@) by {
            let t = firsts[m];
            let x = srt[t].0;
            let p = srt[t].1 as int;
            vstd::seq_lib::to_multiset_contains(srt, srt[t]);
            vstd::seq_lib::to_multiset_contains(unsorted, srt[t]);
            let k = choose|k: int| 0 <= k < unsorted.len() && unsorted[k] == srt[t];
            assert(k == p);
            assert(ids[p] == x);
            assert forall|q: int| 0 <= q < p implies ids[q] != x by {
                if ids[q] == x {
                    let e = (x, q as usize);
                    assert(unsorted[q] == e);
                    vstd::seq_lib::to_multiset_contains(unsorted, e);
                    vstd::seq_lib::to_multiset_contains(srt, e);
                    let j = choose|j: int| 0 <= j < srt.len() && srt[j] == e;
                    assert(pair_lt(e, srt[t]));
                    if j > t {
                        assert(!pair_lt(srt[j], srt[t]));
                    }
                    assert(j != t);
                    lemma_between(srt, j, t - 1, t);
                }
            }
            lemma_index_of_first(ids, x, p);
        }
        assert forall|a: int, b: int| 0 <= a < b < kept@.len() implies text_lt(
            kept@[a].0@,
            kept@[b].0@,
        ) by {
            let (ta, tb) = (firsts[a], firsts[b]);
            assert(!pair_lt(srt[tb], srt[ta]));
            if srt[ta].0 == srt[tb].0 {
                lemma_between(srt, ta, tb - 1, tb);
            }
            lemma_text_lt_total(srt[ta].0, srt[tb].0);
        }
        assert forall|x: Seq<char>| ids.contains(x) implies exists|m: int|
            0 <= m < kept@.len() && #[trigger] kept@[m].0@ == x by {
            let p = choose|p: int| 0 <= p < ids.len() && ids[p] == x;
            let e = unsorted[p];
            vstd::seq_lib::to_multiset_contains(unsorted, e);
            vstd::seq_lib::to_multiset_contains(srt, e);
            let j = choose|j: int| 0 <= j < srt.len() && srt[j] == e;
            lemma_run_start(srt, j);
            let t = choose|t: int| 0 <= t <= j && #[trigger] starts_run(srt, t) && srt[t].0 == srt[j].0;
            let m = choose|m: int| 0 <= m < firsts.len() && firsts[m] == t;
            assert(kept@[m].0@ == x);
        }
    }
    let ghost kv = pair_views(kept@);
    proof {
        assert(kv.no_duplicates()) by {
            assert forall|a: int, b: int|
                0 <= a < kv.len() && 0 <= b < kv.len() && a != b implies kv[a] != kv[b] by {
                if a < b {
                    assert(text_lt(kept@[a].0@, kept@[b].0@));
                } else {
                    assert(text_lt(kept@[b].0@, kept@[a].0@));
                }
                lemma_text_lt_irreflexive(kv[a].0);
            }
        }
        kv.lemma_multiset_has_no_duplicates();
    }
    let mut order = kept;
    if !sorted {
        sort_by_position(&mut order);
    }
    let ghost ov = pair_views(order@);
    proof {
        assert(ov.to_multiset() == kv.to_multiset());
        ov.lemma_multiset_has_no_duplicates_conv();
        assert forall|m: int| 0 <= m < ov.len() implies exists|k: int|
            0 <= k < kv.len() && kv[k] == #[trigger] ov[m] by {
            vstd::seq_lib::to_multiset_contains(ov, ov[m]);
            vstd::seq_lib::to_multiset_contains(kv, ov[m]);
        }
        assert forall|k: int| 0 <= k < kv.len() implies exists|m: int|
            0 <= m < ov.len() && #[trigger] ov[m] == #[trigger] kv[k] by {
            vstd::seq_lib::to_multiset_contains(ov, kv[k]);
            vstd::seq_lib::to_multiset_contains(kv, kv[k]);
        }
    }
    let mut out: Vec<String> = Vec::new();
    let mut k: usize = 0;
    while k < order.len()
        invariant
            k <= order@.len(),
            out@.len() == k,
            forall|m: int| 0 <= m < k ==> (#[trigger] out@[m])@ == order@[m].0@,
        decreases order@.len() - k,
    {
        out.push(order[k].0.clone());
        k = k + 1;
    }
    proof {
        let names = crate::catalog::views(out@);
        assert forall|i: int| 0 <= i < names.len() implies #[trigger] names[i] == ov[i].0 && index_of(
            ids,
            ov[i].0,
        ) == Some(ov[i].1 as int) && ids.contains(ov[i].0) by {
            let k = choose|k: int| 0 <= k < kv.len() && kv[k] == ov[i];
            assert(kv[k].0 == kept@[k].0@);
        }
        // Two places naming one id hold one pair.
        assert forall|i: int, j: int|
            0 <= i < names.len() && 0 <= j < names.len() && names[i] == names[j] implies ov[i]
            == ov[j] by {
            let ki = choose|k: int| 0 <= k < kv.len() && kv[k] == ov[i];
            let kj = choose|k: int| 0 <= k < kv.len() && kv[k] == ov[j];
            if ki != kj {
                if ki < kj {
                    assert(text_lt(kept@[ki].0@, kept@[kj].0@));
                } else {
                    assert(text_lt(kept@[kj].0@, kept@[ki].0@));
                }
                lemma_text_lt_irreflexive(kv[ki].0);
            }
        }
        assert(names.no_duplicates());
        assert forall|x: Seq<char>| names.contains(x) <==> ids.contains(x) by {
            if ids.contains(x) {
                let m = choose|m: int| 0 <= m < kept@.len() && #[trigger] kept@[m].0@ == x;
                let i = choose|i: int| 0 <= i < ov.len() && #[trigger] ov[i] == kv[m];
                assert(names[i] == x);
            }
        }
        if sorted {
            assert(ov == kv);
            assert forall|i: int, j: int| 0 <= i < j < out@.len() implies text_lt(
                out@[i]@,
                out@[j]@,
            ) by {
                assert(names[i] == out@[i]@);
                assert(text_lt(kept@[i].0@, kept@[j].0@));
            }
        } else {
            assert forall|i: int, j: int| 0 <= i < j < out@.len() implies index_of(
                ids,
                out@[i]@,
            )->0 < index_of(ids, out@[j]@)->0 by {
                assert(names[i] == out@[i]@);
                assert(names[j] == out@[j]@);
                assert(order@[i].1 <= order@[j].1);
                if ov[i].1 == ov[j].1 {
                    assert(ids[ov[i].1 as int] == ov[i].0) by {
                        lemma_index_of_some(ids, ov[i].0);
                    }
                    assert(ids[ov[j].1 as int] == ov[j].0) by {
                        lemma_index_of_some(ids, ov[j].0);
                    }
                }
            }
        }
    }
    out
}

/// The bound [`derive_nodes_bound`] computes, `per_endpoint` bytes for each
/// endpoint's entry: 1024 bytes of rounding, then for each batch in turn
/// its endpoints' entries and the bytes its `source` and `target` columns
/// occupy, held at `usize::MAX`.
pub open spec fn nodes_bound(edges: Seq<Batch>, per_endpoint: usize) -> usize
    decreases edges.len(),
{
    if edges.len() == 0 {
        1024
    } else {
        let b = edges.last();
        let with_entries = sadd(nodes_bound(edges.drop_last(), per_endpoint), smul(batch_rows(b), smul(2, per_endpoint)));
        let with_sources = match named_column(b, "source"@) {
            Some(c) => sadd(with_entries, slice_size(c)),
            None => with_entries,
        };
        match named_column(b, "target"@) {
            Some(c) => sadd(with_sources, slice_size(c)),
            None => with_sources,
        }
    }
}

/// An upper bound on the memory [`derive_nodes`] takes for `edges`: per
/// endpoint an entry of its sort and at most an id offset and a label offset;
/// the id text at most once; and the buffers' rounding.
pub fn derive_nodes_bound(edges: &Vec<Batch>) -> (r: usize)
    ensures
        r == nodes_bound(
            edges@,
            sadd(
                vstd::layout::size_of::<(&str, usize)>() as usize,
                smul(2, vstd::layout::size_of::<i32>() as usize),
            ),
        ),
        r >= 1024,
{
    let per_endpoint = core::mem::size_of::<(&str, usize)>().saturating_add(
        sat_mul(2, core::mem::size_of::<i32>()),
    );
    let mut bound: usize = 1024;
    let mut b: usize = 0;
    assert(edges@.subrange(0, 0) =~= Seq::<Batch>::empty());
    while b < edges.len()
        invariant
            b <= edges@.len(),
            bound >= 1024,
            bound == nodes_bound(edges@.subrange(0, b as int), per_endpoint),
        decreases edges@.len() - b,
    {
        proof {
            let s = edges@.subrange(0, b + 1);
            assert(s.drop_last() =~= edges@.subrange(0, b as int));
            assert(s.last() == edges@[b as int]);
        }
        let rows = num_rows(&edges[b]);
        bound = bound.saturating_add(sat_mul(rows, sat_mul(2, per_endpoint)));
        if let Some(column) = column_by_name(&edges[b], "source") {
            bound = bound.saturating_add(slice_bytes(&column));
        }
        if let Some(column) = column_by_name(&edges[b], "target") {
            bound = bound.saturating_add(slice_bytes(&column));
        }
        b = b + 1;
    }
    assert(edges@.subrange(0, edges@.len() as int) =~= edges@);
    bound
}

/// The texts of the column `name` of a batch, if it has one of Utf8.
pub open spec fn texts_named(batch: Batch, name: Seq<char>) -> Option<Seq<Option<Seq<char>>>> {
    match named_column(batch, name) {
        Some(c) => column_texts(c),
        None => None,
    }
}

/// The endpoints of the first `rows` rows, each row's source then its
/// target; `None` where a row is missing from either or holds a null.
pub open spec fn row_endpoints(sources: Seq<Option<Seq<char>>>, targets: Seq<Option<Seq<char>>>, rows: nat) -> Option<
    Seq<Seq<char>>,
>
    decreases rows,
{
    if rows == 0 {
        Some(Seq::empty())
    } else {
        let r = rows - 1;
        match row_endpoints(sources, targets, (rows - 1) as nat) {
            Some(before) => if r < sources.len() && r < targets.len() && sources[r] is Some
                && targets[r] is Some {
                Some(before.push(sources[r]->Some_0).push(targets[r]->Some_0))
            } else {
                None
            },
            None => None,
        }
    }
}

/// The endpoints of a batch of staged edges, row by row.
pub open spec fn batch_endpoints(batch: Batch) -> Option<Seq<Seq<char>>> {
    match (texts_named(batch, "source"@), texts_named(batch, "target"@)) {
        (Some(s), Some(t)) => row_endpoints(s, t, batch_rows(batch) as nat),
        _ => None,
    }
}

/// The endpoints of staged edges, batch by batch: `None` where a batch lacks
/// Utf8 `source` or `target` columns, or holds a null endpoint.
pub open spec fn edge_endpoints(edges: Seq<Batch>) -> Option<Seq<Seq<char>>>
    decreases edges.len(),
{
    if edges.len() == 0 {
        Some(Seq::empty())
    } else {
        match (edge_endpoints(edges.drop_last()), batch_endpoints(edges.last())) {
            (Some(a), Some(b)) => Some(a + b),
            _ => None,
        }
    }
}

/// Each of `ids`, as a present text.
pub open spec fn present_ids(ids: Seq<Seq<char>>) -> Seq<Option<Seq<char>>> {
    ids.map_values(|x: Seq<char>| Some(x))
}

/// Whether `ids` are the distinct values of `endpoints`, each once: in text
/// order when `sorted`, else in the order each first appears.
pub open spec fn distinct_in_order(endpoints: Seq<Seq<char>>, ids: Seq<Seq<char>>, sorted: bool) -> bool {
    &&& ids.no_duplicates()
    &&& forall|x: Seq<char>| ids.contains(x) <==> endpoints.contains(x)
    &&& sorted ==> forall|i: int, j: int| 0 <= i < j < ids.len() ==> text_lt(ids[i], ids[j])
    &&& !sorted ==> forall|i: int, j: int|
        0 <= i < j < ids.len() ==> index_of(endpoints, ids[i])->0 < index_of(endpoints, ids[j])->0
}

/// Whether `b` is the node batch derived from `edges`: a `node_id` and a
/// `label` column, a row per distinct endpoint, the ids in the order
/// [`distinct_in_order`] gives.
pub open spec fn derived_from(edges: Seq<Batch>, sorted: bool, b: Batch) -> bool {
    &&& batch_fields(b) == seq!["node_id"@, "label"@]
    &&& edge_endpoints(edges) matches Some(e)
    &&& texts_named(b, "node_id"@) matches Some(t)
    &&& exists|ids: Seq<Seq<char>>|
        #[trigger] distinct_in_order(e, ids, sorted) && t == present_ids(ids) && batch_rows(b) == ids.len()
}

/// The values of the Utf8 column `name` of a batch of staged edges.
fn endpoints_of(batch: &Batch, name: &str) -> (r: Result<Vec<Option<String>>, NutmegError>)
    ensures
        r is Err ==> r->Err_0 is Execution,
        r is Err ==> texts_named(*batch, name@) is None,
        r matches Ok(v) ==> texts_named(*batch, name@) == Some(
            v@.map_values(|o: Option<String>| opt_chars(o)),
        ),
{
    match column_by_name(batch, name) {
        Some(column) => match text_values(&column) {
            Some(values) => Ok(values),
            None => Err(NutmegError::Execution(crate::error::join3("nutmeg: staged edges lack `", name, "`"))),
        },
        None => Err(NutmegError::Execution(crate::error::join3("nutmeg: staged edges lack `", name, "`"))),
    }
}

/// Once the first `n` rows hold a missing endpoint, so do the first `m`.
proof fn lemma_rows_none_grows(
    sources: Seq<Option<Seq<char>>>,
    targets: Seq<Option<Seq<char>>>,
    n: nat,
    m: nat,
)
    requires
        n <= m,
        row_endpoints(sources, targets, n) is None,
    ensures
        row_endpoints(sources, targets, m) is None,
    decreases m - n,
{
    if n < m {
        lemma_rows_none_grows(sources, targets, n, (m - 1) as nat);
    }
}

/// Once the first `n` batches of edges hold a missing endpoint, so do all.
proof fn lemma_endpoints_none_grows(edges: Seq<Batch>, n: int)
    requires
        0 < n <= edges.len(),
        edge_endpoints(edges.subrange(0, n)) is None,
    ensures
        edge_endpoints(edges) is None,
    decreases edges.len() - n,
{
    if n < edges.len() {
        assert(edges.subrange(0, n + 1).drop_last() =~= edges.subrange(0, n));
        lemma_endpoints_none_grows(edges, n + 1);
    } else {
        assert(edges.subrange(0, n) =~= edges);
    }
}

/// Add the endpoint of row `row` to what was seen, at the next position.
fn push_endpoint(seen: &mut Vec<(String, usize)>, endpoint: &Vec<Option<String>>, row: usize) -> (r: Result<
    (),
    NutmegError,
>)
    requires
        forall|k: int| 0 <= k < old(seen)@.len() ==> (#[trigger] old(seen)@[k]).1 == k,
    ensures
        forall|k: int| 0 <= k < final(seen)@.len() ==> (#[trigger] final(seen)@[k]).1 == k,
        r is Err ==> r->Err_0 is Execution,
        r matches Err(NutmegError::Execution(m)) ==> m@ == TOO_MANY_ENDPOINTS@ || !(row < endpoint@.len()
            && endpoint@[row as int] is Some),
        r is Ok ==> row < endpoint@.len() && endpoint@[row as int] is Some && ids_of(final(seen)@) == ids_of(
            old(seen)@,
        ).push(endpoint@[row as int]->Some_0@),
{
    if row >= endpoint.len() {
        return Err(NutmegError::Execution(String::from_str("nutmeg: staged edges are shorter than their batch")));
    }
    match &endpoint[row] {
        None => {
            let mut m = String::from_str("nutmeg: null edge endpoint at row ");
            m.append(decimal_of(row as u64).as_str());
            Err(NutmegError::Execution(m))
        },
        Some(id) => {
            if seen.len() == usize::MAX {
                return Err(NutmegError::Execution(String::from_str(TOO_MANY_ENDPOINTS)));
            }
            let position = seen.len();
            let ghost before = seen@;
            seen.push((id.clone(), position));
            proof {
                assert(ids_of(seen@) =~= ids_of(before).push(id@));
            }
            Ok(())
        },
    }
}

/// The refusal of more edge endpoints than a `usize` counts.
pub const TOO_MANY_ENDPOINTS: &'static str = "nutmeg: too many edge endpoints";

/// The refusal of derived node ids whose text does not fit one Utf8 column.
pub const TOO_MANY_ID_BYTES: &'static str = "nutmeg: the node ids derived from the edges take more than 2147483647 bytes";

/// Distinct edge endpoints as a node batch (`node_id`, and an empty
/// `label`): in id order when the edges are canonical, so a graph staged from
/// edges alone projects its nodes in the order the same nodes staged
/// explicitly would take; otherwise in the order they first appear among the
/// edges, each row's source before its target (see [`distinct_ids`]). A null
/// endpoint is refused.
pub fn derive_nodes(edges: &Vec<Batch>, sorted: bool) -> (r: Result<Batch, NutmegError>)
    ensures
        r is Err ==> r->Err_0 is Execution,
        edge_endpoints(edges@) is None ==> r is Err,
        edge_endpoints(edges@) is Some ==> (r is Ok || (r matches Err(NutmegError::Execution(m)) && (m@
            == TOO_MANY_ID_BYTES@ || m@ == TOO_MANY_ENDPOINTS@))),
        r matches Ok(b) ==> derived_from(edges@, sorted, b),
{
    let mut seen: Vec<(String, usize)> = Vec::new();
    let mut b: usize = 0;
    proof {
        assert(edges@.subrange(0, 0) =~= Seq::<Batch>::empty());
        assert(ids_of(seen@) =~= Seq::<Seq<char>>::empty());
    }
    while b < edges.len()
        invariant
            b <= edges@.len(),
            forall|k: int| 0 <= k < seen@.len() ==> (#[trigger] seen@[k]).1 == k,
            edge_endpoints(edges@.subrange(0, b as int)) == Some(ids_of(seen@)),
        decreases edges@.len() - b,
    {
        proof {
            let s = edges@.subrange(0, b + 1);
            assert(s.drop_last() =~= edges@.subrange(0, b as int));
            assert(s.last() == edges@[b as int]);
        }
        let sources = match endpoints_of(&edges[b], "source") {
            Ok(v) => v,
            Err(e) => {
                proof {
                    lemma_endpoints_none_grows(edges@, b + 1);
                }
                return Err(e);
            },
        };
        let targets = match endpoints_of(&edges[b], "target") {
            Ok(v) => v,
            Err(e) => {
                proof {
                    lemma_endpoints_none_grows(edges@, b + 1);
                }
                return Err(e);
            },
        };
        let ghost src = sources@.map_values(|o: Option<String>| opt_chars(o));
        let ghost dst = targets@.map_values(|o: Option<String>| opt_chars(o));
        let ghost prefix = ids_of(seen@);
        let rows = num_rows(&edges[b]);
        let ghost prefix_edges = edges@.subrange(0, b + 1);
        assert(batch_endpoints(edges@[b as int]) == row_endpoints(src, dst, rows as nat));
        let mut row: usize = 0;
        while row < rows
            invariant
                row <= rows,
                b < edges@.len(),
                prefix_edges == edges@.subrange(0, b + 1),
                edge_endpoints(prefix_edges.drop_last()) is Some,
                prefix_edges.last() == edges@[b as int],
                batch_endpoints(edges@[b as int]) == row_endpoints(src, dst, rows as nat),
                src == sources@.map_values(|o: Option<String>| opt_chars(o)),
                dst == targets@.map_values(|o: Option<String>| opt_chars(o)),
                forall|k: int| 0 <= k < seen@.len() ==> (#[trigger] seen@[k]).1 == k,
                row_endpoints(src, dst, row as nat) matches Some(x) && ids_of(seen@) == prefix + x,
            decreases rows - row,
        {
            let ghost x = row_endpoints(src, dst, row as nat)->Some_0;
            if let Err(e) = push_endpoint(&mut seen, &sources, row) {
                proof {
                    if !(e is Execution && e->Execution_0@ == TOO_MANY_ENDPOINTS@) {
                        assert(row_endpoints(src, dst, (row + 1) as nat) is None);
                        lemma_rows_none_grows(src, dst, (row + 1) as nat, rows as nat);
                        lemma_endpoints_none_grows(edges@, b + 1);
                    }
                }
                return Err(e);
            }
            if let Err(e) = push_endpoint(&mut seen, &targets, row) {
                proof {
                    if !(e is Execution && e->Execution_0@ == TOO_MANY_ENDPOINTS@) {
                        assert(row_endpoints(src, dst, (row + 1) as nat) is None);
                        lemma_rows_none_grows(src, dst, (row + 1) as nat, rows as nat);
                        lemma_endpoints_none_grows(edges@, b + 1);
                    }
                }
                return Err(e);
            }
            proof {
                assert(src[row as int] == opt_chars(sources@[row as int]));
                assert(dst[row as int] == opt_chars(targets@[row as int]));
                assert(row_endpoints(src, dst, (row + 1) as nat) == Some(
                    x.push(src[row as int]->Some_0).push(dst[row as int]->Some_0),
                ));
                assert(ids_of(seen@) =~= prefix + x.push(src[row as int]->Some_0).push(dst[row as int]->Some_0));
            }
            row = row + 1;
        }
        proof {
            let s = edges@.subrange(0, b + 1);
            assert(s.drop_last() =~= edges@.subrange(0, b as int));
            assert(s.last() == edges@[b as int]);
            assert(batch_endpoints(edges@[b as int]) == row_endpoints(src, dst, rows as nat));
        }
        b = b + 1;
    }
    assert(edges@.subrange(0, edges@.len() as int) =~= edges@);
    let ghost e = ids_of(seen@);
    let ids = distinct_ids(seen, sorted);
    let ghost names = crate::catalog::views(ids@);
    let text = match crate::text::texts_len_within(&ids, crate::text::TEXT_COLUMN_BYTES) {
        Some(n) => n,
        None => {
            return Err(NutmegError::Execution(String::from_str(TOO_MANY_ID_BYTES)));
        },
    };
    let rows = ids.len();
    let column = text_column(&ids, text);
    let labels = empty_text(rows);
    let fields = vec![text_field("node_id", true), text_field("label", true)];
    let columns = vec![column, labels];
    let ghost made = columns@;
    let ghost defs = fields@;
    match make_batch(fields, columns) {
        Ok(batch) => {
            proof {
                assert(crate::frame::field_name(defs[0]) == "node_id"@);
                assert(field_names(defs) =~= seq!["node_id"@, "label"@]);
                assert(named_column(batch, "node_id"@) == Some(made[0]));
                assert(ids@.map_values(|s: String| Some(s@)) =~= present_ids(names));
                assert(distinct_in_order(e, names, sorted));
                assert(column_len(made[0]) == batch_rows(batch));
                assert(batch_rows(batch) == names.len());
                assert(batch_fields(batch) == seq!["node_id"@, "label"@]);
                assert(edge_endpoints(edges@) matches Some(ee) && ee == e);
                assert(texts_named(batch, "node_id"@) matches Some(t) && t == present_ids(names));
                assert(derived_from(edges@, sorted, batch));
            }
            Ok(batch)
        },
        Err(m) => Err(NutmegError::Execution(m)),
    }
}

} // verus!
