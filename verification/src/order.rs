//! The row order a staged part is kept in, and the sort that puts a whole
//! part in canonical order within the memory budget.
use vstd::prelude::*;
use vstd::string::*;

use crate::budget::{refusal_matches, total, Admitted, Budget};
use crate::catalog::{text_lt, views};
use crate::columns::{choice, choice_of, spells};
use crate::error::{join3, NutmegError};
use crate::frame::{
    all_false, column_by_name, columns_of, copy_field, encode, encoded_size, field_defs, field_info,
    gather, make_batch, nulls_like, num_rows, row_converter, same_fields, same_type, share_column,
    sort_positions, sortable, type_text, with_nullable, Batch, Column, Converter, Encoded, FieldDef,
    batch_column, named_column, batch_defs, field_nullable, column_bools, column_nulls, types_match, field_sortable, converter_of, encoded_columns, gathered, rows_le,
    batch_rows, batch_fields, column_len, field_name, field_names, rows_match, encoded_rows, names_row, schemas_equal, data_type_text,
};
use crate::sizes::{
    ceil_div, div_ceil, held_bytes, key_bytes_bound, sadd, sat_mul, smul, sorted_copy_bound, ssub,
    SORTED_BATCH_ROWS,
};
use crate::text::{chars_of, decimal, decimal_of, string_of};
use crate::Part;

verus! {

/// The row order a staged part is kept in.
///
/// Grust's kernels are deterministic for a given input, but the input
/// includes its order, and a DataFrame's rows have no order Spark promises.
/// `Canonical`, the default, keeps each part sorted by a total order on its
/// rows, over the whole part, appends included, so what a kernel sees is a
/// function of the set of rows staged and never of the order they arrived
/// in: nodes by `node_id`; edges by `source`, `target`, `edge_id` (null
/// last), `label`, then every other sortable column, by column name.
/// `AsStaged` keeps rows in arrival order.
#[derive(Clone, Copy, Debug, PartialEq, Eq, Structural)]
pub enum StageOrder {
    Canonical,
    AsStaged,
}

impl Default for StageOrder {
    fn default() -> (r: Self)
        ensures
            r == StageOrder::Canonical,
    {
        StageOrder::Canonical
    }
}

/// The write option, and Python client keyword, that chooses [`StageOrder`].
pub const ORDER_OPTION: &'static str = "order";

impl StageOrder {
    /// `canonical` or `asStaged`, in any case, trimmed.
    pub fn parse(text: &str) -> (r: Result<StageOrder, NutmegError>)
        ensures
            choice(text@) == "canonical"@ ==> r == Ok::<StageOrder, NutmegError>(
                StageOrder::Canonical,
            ),
            choice(text@) == "asstaged"@ ==> r == Ok::<StageOrder, NutmegError>(
                StageOrder::AsStaged,
            ),
            choice(text@) != "canonical"@ && choice(text@) != "asstaged"@ ==> (r matches Err(
                NutmegError::Plan(m),
            ) && m@ == "nutmeg: `order` is `canonical` or `asStaged`, got `"@ + choice(text@)
                + "`"@),
    {
        let c = choice_of(text);
        proof {
            reveal_strlit("canonical");
            reveal_strlit("asstaged");
            assert("canonical"@.len() == 9);
            assert("asstaged"@.len() == 8);
        }
        if spells(c.as_slice(), "canonical") {
            Ok(StageOrder::Canonical)
        } else if spells(c.as_slice(), "asstaged") {
            Ok(StageOrder::AsStaged)
        } else {
            let got = string_of(c.as_slice());
            Err(
                NutmegError::Plan(
                    join3(
                        "nutmeg: `order` is `canonical` or `asStaged`, got `",
                        got.as_str(),
                        "`",
                    ),
                ),
            )
        }
    }
}

/// A (name, index) pair as the order compares it.
pub open spec fn pair_view(p: (String, usize)) -> (Seq<char>, usize) {
    (p.0@, p.1)
}

/// Tuple order on (name, index): by name in `String` order, then by index.
pub open spec fn pair_lt(a: (Seq<char>, usize), b: (Seq<char>, usize)) -> bool {
    text_lt(a.0, b.0) || (a.0 == b.0 && a.1 < b.1)
}

pub open spec fn pairs_sorted(s: Seq<(Seq<char>, usize)>) -> bool {
    forall|i: int, j: int| 0 <= i < j < s.len() ==> !pair_lt(s[j], s[i])
}

pub open spec fn pair_views(s: Seq<(String, usize)>) -> Seq<(Seq<char>, usize)> {
    s.map_values(|p: (String, usize)| pair_view(p))
}

/// `slice::sort_unstable` on (name, index) pairs, whose tuple order std
/// documents as lexicographic, `String`'s as byte order (which is code-point
/// order) and the sort as a reordering that keeps every element.
#[verifier::external_body]
pub(crate) fn sort_pairs(v: &mut Vec<(String, usize)>)
    ensures
        pair_views(final(v)@).to_multiset() == pair_views(old(v)@).to_multiset(),
        pairs_sorted(pair_views(final(v)@)),
{
    v.sort_unstable();
}

/// The structural columns a part is sorted by first, in order.
pub open spec fn structural(part: Part) -> Seq<Seq<char>> {
    match part {
        Part::Nodes => seq!["node_id"@],
        Part::Edges => seq!["source"@, "target"@, "edge_id"@, "label"@],
    }
}

/// The index of the first of `names` equal to `name`.
pub open spec fn index_of(names: Seq<Seq<char>>, name: Seq<char>) -> Option<int>
    decreases names.len(),
{
    if names.len() == 0 {
        None
    } else if names.last() == name {
        match index_of(names.drop_last(), name) {
            Some(i) => Some(i),
            None => Some(names.len() - 1),
        }
    } else {
        index_of(names.drop_last(), name)
    }
}

fn structural_names(part: Part) -> (r: Vec<&'static str>)
    ensures
        r@.map_values(|s: &str| s@) == structural(part),
{
    let r = match part {
        Part::Nodes => vec!["node_id"],
        Part::Edges => vec!["source", "target", "edge_id", "label"],
    };
    assert(r@.map_values(|s: &str| s@) =~= structural(part));
    r
}

fn find_name(names: &Vec<String>, name: &str) -> (r: Option<usize>)
    ensures
        match index_of(views(names@), name@) {
            Some(i) => r matches Some(x) && x as int == i,
            None => r is None,
        },
{
    let want = chars_of(name);
    let ghost all = views(names@);
    let mut i: usize = 0;
    while i < names.len()
        invariant
            i <= names@.len(),
            all == views(names@),
            want@ == name@,
            index_of(all.subrange(0, i as int), name@) is None,
        decreases names@.len() - i,
    {
        let got = chars_of(names[i].as_str());
        let ghost p = all.subrange(0, i + 1);
        assert(p.drop_last() == all.subrange(0, i as int));
        if crate::text::eq_chars(got.as_slice(), want.as_slice()) {
            proof {
                assert(p.last() == name@);
                assert(index_of(p, name@) == Some(i as int));
                lemma_index_of_prefix(all, name@, i + 1, i as int);
            }
            return Some(i);
        }
        i = i + 1;
    }
    assert(all.subrange(0, names@.len() as int) == all);
    None
}

proof fn lemma_index_of_prefix(names: Seq<Seq<char>>, name: Seq<char>, n: int, x: int)
    requires
        0 < n <= names.len(),
        index_of(names.subrange(0, n), name) == Some(x),
    ensures
        index_of(names, name) == Some(x),
    decreases names.len() - n,
{
    if n < names.len() {
        let p = names.subrange(0, n + 1);
        assert(p.drop_last() == names.subrange(0, n));
        assert(index_of(p, name) == Some(x));
        lemma_index_of_prefix(names, name, n + 1, x);
    } else {
        assert(names.subrange(0, n) == names);
    }
}

/// Whether the row format sorts each of `fields`, in order.
pub open spec fn sortable_flags(fields: Seq<FieldDef>) -> Seq<bool> {
    fields.map_values(|f: FieldDef| field_sortable(f))
}

/// Whether `key` is the sort key of a part whose fields are named `names`,
/// of which `sortable` says which the row format sorts: the part's
/// structural columns first, each at the first field of its name; then, for
/// edges only, every other sortable field exactly once, in ascending order of
/// name, fields of one name in the order they stand.
pub open spec fn key_of(part: Part, names: Seq<Seq<char>>, sortable: Seq<bool>, key: Seq<usize>) -> bool {
    let s = structural(part).len() as int;
    &&& key.len() >= s
    &&& forall|m: int| 0 <= m < s ==> index_of(names, structural(part)[m]) == Some(key[m] as int)
    &&& forall|q: int| 0 <= q < key.len() ==> #[trigger] key[q] < names.len()
    &&& forall|q: int|
        s <= q < key.len() ==> sortable[#[trigger] key[q] as int] && !key.subrange(0, s).contains(key[q])
    &&& forall|p: int, q: int|
        s <= p < q < key.len() ==> #[trigger] key[p] != #[trigger] key[q] && !text_lt(
            names[key[q] as int],
            names[key[p] as int],
        ) && (names[key[p] as int] == names[key[q] as int] ==> key[p] < key[q])
    &&& part == Part::Nodes ==> key.len() == s
    &&& part == Part::Edges ==> forall|x: int|
        0 <= x < names.len() && #[trigger] sortable[x] && !key.subrange(0, s).contains(x as usize) ==> exists|
            q: int,
        |
            s <= q < key.len() && #[trigger] key[q] == x as usize
}

/// Two sequences of fields, each in strictly ascending order of name, that
/// hold the same fields are the same sequence.
proof fn lemma_sorted_unique(names: Seq<Seq<char>>, a: Seq<usize>, b: Seq<usize>)
    requires
        forall|p: int, q: int|
            0 <= p < q < a.len() ==> text_lt(names[#[trigger] a[p] as int], names[#[trigger] a[q] as int]),
        forall|p: int, q: int|
            0 <= p < q < b.len() ==> text_lt(names[#[trigger] b[p] as int], names[#[trigger] b[q] as int]),
        forall|x: usize| a.contains(x) <==> b.contains(x),
    ensures
        a == b,
    decreases a.len(),
{
    if a.len() == 0 {
        if b.len() > 0 {
            assert(b.contains(b[0]));
        }
        assert(b.len() == 0);
        assert(a =~= b);
    } else {
        assert(a.contains(a[0]));
        assert(b.contains(a[0]));
        let j = choose|j: int| 0 <= j < b.len() && b[j] == a[0];
        assert(b.contains(b[0]));
        assert(a.contains(b[0]));
        let i = choose|i: int| 0 <= i < a.len() && a[i] == b[0];
        if j > 0 {
            assert(text_lt(names[b[0] as int], names[b[j] as int]));
            if i > 0 {
                assert(text_lt(names[a[0] as int], names[a[i] as int]));
                crate::options::lemma_text_lt_transitive(names[b[0] as int], names[a[0] as int], names[b[0] as int]);
                crate::options::lemma_text_lt_irreflexive(names[b[0] as int]);
            } else {
                crate::options::lemma_text_lt_irreflexive(names[a[0] as int]);
            }
        }
        assert(a[0] == b[0]);
        let a1 = a.drop_first();
        let b1 = b.drop_first();
        assert forall|x: usize| a1.contains(x) <==> b1.contains(x) by {
            if a1.contains(x) {
                let k = choose|k: int| 0 <= k < a1.len() && a1[k] == x;
                assert(a[k + 1] == x);
                if x == a[0] {
                    assert(text_lt(names[a[0] as int], names[a[k + 1] as int]));
                    crate::options::lemma_text_lt_irreflexive(names[x as int]);
                }
                assert(a.contains(x));
                assert(b.contains(x));
                let m = choose|m: int| 0 <= m < b.len() && b[m] == x;
                assert(m != 0);
                assert(b1[m - 1] == x);
            }
            if b1.contains(x) {
                let k = choose|k: int| 0 <= k < b1.len() && b1[k] == x;
                assert(b[k + 1] == x);
                if x == b[0] {
                    assert(text_lt(names[b[0] as int], names[b[k + 1] as int]));
                    crate::options::lemma_text_lt_irreflexive(names[x as int]);
                }
                assert(b.contains(x));
                assert(a.contains(x));
                let m = choose|m: int| 0 <= m < a.len() && a[m] == x;
                assert(m != 0);
                assert(a1[m - 1] == x);
            }
        }
        assert forall|p: int, q: int| 0 <= p < q < a1.len() implies text_lt(
            names[#[trigger] a1[p] as int],
            names[#[trigger] a1[q] as int],
        ) by {
            assert(a1[p] == a[p + 1] && a1[q] == a[q + 1]);
        }
        assert forall|p: int, q: int| 0 <= p < q < b1.len() implies text_lt(
            names[#[trigger] b1[p] as int],
            names[#[trigger] b1[q] as int],
        ) by {
            assert(b1[p] == b[p + 1] && b1[q] == b[q + 1]);
        }
        lemma_sorted_unique(names, a1, b1);
        assert(a =~= seq![a[0]] + a1);
        assert(b =~= seq![b[0]] + b1);
    }
}

/// The sort key of a part whose fields all have distinct names is fixed by
/// those fields: at most one key meets [`key_of`]. After the structural
/// columns, which column sorts first among the rest is decided by the names
/// alone, never by where a field stands or which append brought it.
pub proof fn lemma_key_of_unique(
    part: Part,
    names: Seq<Seq<char>>,
    sortable: Seq<bool>,
    k1: Seq<usize>,
    k2: Seq<usize>,
)
    requires
        names.no_duplicates(),
        key_of(part, names, sortable, k1),
        key_of(part, names, sortable, k2),
    ensures
        k1 == k2,
{
    let s = structural(part).len() as int;
    assert forall|m: int| 0 <= m < s implies k1[m] == k2[m] by {
        assert(index_of(names, structural(part)[m]) == Some(k1[m] as int));
        assert(index_of(names, structural(part)[m]) == Some(k2[m] as int));
    }
    let p1 = k1.subrange(0, s);
    let p2 = k2.subrange(0, s);
    assert(p1 =~= p2);
    let t1 = k1.subrange(s, k1.len() as int);
    let t2 = k2.subrange(s, k2.len() as int);
    assert forall|p: int, q: int| 0 <= p < q < t1.len() implies text_lt(
        names[#[trigger] t1[p] as int],
        names[#[trigger] t1[q] as int],
    ) by {
        assert(t1[p] == k1[s + p] && t1[q] == k1[s + q]);
        assert(k1[s + p] != k1[s + q]);
        assert(k1[s + p] < names.len() && k1[s + q] < names.len());
        crate::options::lemma_text_lt_total(names[t1[p] as int], names[t1[q] as int]);
    }
    assert forall|p: int, q: int| 0 <= p < q < t2.len() implies text_lt(
        names[#[trigger] t2[p] as int],
        names[#[trigger] t2[q] as int],
    ) by {
        assert(t2[p] == k2[s + p] && t2[q] == k2[s + q]);
        assert(k2[s + p] != k2[s + q]);
        assert(k2[s + p] < names.len() && k2[s + q] < names.len());
        crate::options::lemma_text_lt_total(names[t2[p] as int], names[t2[q] as int]);
    }
    assert forall|x: usize| t1.contains(x) <==> t2.contains(x) by {
        if t1.contains(x) {
            let q = choose|q: int| 0 <= q < t1.len() && t1[q] == x;
            assert(k1[s + q] == x);
            assert(sortable[x as int] && !p1.contains(x) && x < names.len());
            if part == Part::Nodes {
                assert(false);
            }
            let w = choose|w: int| s <= w < k2.len() && #[trigger] k2[w] == x;
            assert(t2[w - s] == x);
        }
        if t2.contains(x) {
            let q = choose|q: int| 0 <= q < t2.len() && t2[q] == x;
            assert(k2[s + q] == x);
            assert(sortable[x as int] && !p2.contains(x) && x < names.len());
            if part == Part::Nodes {
                assert(false);
            }
            let w = choose|w: int| s <= w < k1.len() && #[trigger] k1[w] == x;
            assert(t1[w - s] == x);
        }
    }
    lemma_sorted_unique(names, t1, t2);
    assert(k1 =~= p1 + t1);
    assert(k2 =~= p2 + t2);
}

/// The key columns of a part whose fields are named `names`, of which
/// `sortable` says which the row format can sort. A structural column
/// missing from the part is refused.
pub fn sort_key(part: Part, names: &Vec<String>, sortable: &Vec<bool>) -> (r: Result<
    Vec<usize>,
    NutmegError,
>)
    requires
        sortable@.len() == names@.len(),
    ensures
        r is Ok <==> forall|k: int|
            0 <= k < structural(part).len() ==> #[trigger] index_of(
                views(names@),
                structural(part)[k],
            ) is Some,
        r matches Ok(key) ==> key@.len() >= structural(part).len() && forall|k: int|
            0 <= k < structural(part).len() ==> index_of(
                views(names@),
                structural(part)[k],
            ) == Some(key@[k] as int),
        part == Part::Nodes ==> (r matches Ok(key) ==> key@.len() == 1),
        r matches Ok(key) ==> forall|k: int| 0 <= k < key@.len() ==> #[trigger] key@[k] < names@.len(),
        r matches Ok(key) ==> key_of(part, views(names@), sortable@, key@),
        r is Err ==> r->Err_0 is Execution,
{
    let wanted = structural_names(part);
    let ghost all = views(names@);
    let mut key: Vec<usize> = Vec::new();
    let mut k: usize = 0;
    while k < wanted.len()
        invariant
            k <= wanted@.len(),
            wanted@.map_values(|s: &str| s@) == structural(part),
            all == views(names@),
            key@.len() == k,
            forall|j: int| 0 <= j < k ==> index_of(all, structural(part)[j]) == Some(key@[j] as int),
            forall|j: int| 0 <= j < k ==> #[trigger] key@[j] < names@.len(),
        decreases wanted@.len() - k,
    {
        assert(wanted@[k as int]@ == structural(part)[k as int]);
        let name: &str = wanted[k];
        assert(name@ == structural(part)[k as int]);
        match find_name(names, name) {
            Some(i) => {
                proof {
                    lemma_index_of_bound(all, structural(part)[k as int]);
                    assert(index_of(all, structural(part)[k as int]) == Some(i as int));
                }
                let ghost before = key@;
                key.push(i);
                assert(forall|j: int| 0 <= j < k ==> key@[j] == before[j]);
            },
            None => {
                return Err(
                    NutmegError::Execution(
                        join3("nutmeg: staged rows lack `", wanted[k], "`"),
                    ),
                );
            },
        }
        k = k + 1;
    }
    assert(wanted@.len() == structural(part).len());
    let ghost start = key@;
    assert(start.len() == structural(part).len());
    if part == Part::Edges {
        let mut rest: Vec<(String, usize)> = Vec::new();
        let mut i: usize = 0;
        while i < names.len()
            invariant
                i <= names@.len(),
                sortable@.len() == names@.len(),
                key@ == start,
                all == views(names@),
                forall|q: int|
                    0 <= q < rest@.len() ==> (#[trigger] rest@[q]).1 < i && sortable@[rest@[q].1 as int]
                        && !start.contains(rest@[q].1) && rest@[q].0@ == all[rest@[q].1 as int],
                forall|p: int, q: int| 0 <= p < q < rest@.len() ==> (#[trigger] rest@[p]).1 < (#[trigger] rest@[q]).1,
                forall|x: int|
                    0 <= x < i && #[trigger] sortable@[x] && !start.contains(x as usize) ==> pair_views(
                        rest@,
                    ).contains((all[x], x as usize)),
            decreases names@.len() - i,
        {
            let ghost r0 = rest@;
            if sortable[i] && !contains_index(&key, i) {
                let nm = names[i].clone();
                rest.push((nm, i));
                proof {
                    assert(pair_views(rest@) =~= pair_views(r0).push((all[i as int], i)));
                    assert forall|x: int|
                        0 <= x < i + 1 && #[trigger] sortable@[x] && !start.contains(x as usize) implies pair_views(
                            rest@,
                        ).contains((all[x], x as usize)) by {
                        if x < i {
                            let w = choose|w: int| 0 <= w < pair_views(r0).len() && pair_views(r0)[w] == (all[x], x as usize);
                            assert(pair_views(rest@)[w] == (all[x], x as usize));
                        } else {
                            assert(pair_views(rest@)[r0.len() as int] == (all[x], x as usize));
                        }
                    }
                }
            } else {
                proof {
                    assert forall|x: int|
                        0 <= x < i + 1 && #[trigger] sortable@[x] && !start.contains(x as usize) implies pair_views(
                            rest@,
                        ).contains((all[x], x as usize)) by {
                        if x == i {
                            assert(key@.contains(i));
                        }
                    }
                }
            }
            i = i + 1;
        }
        let ghost before = pair_views(rest@);
        let ghost r_before = rest@;
        proof {
            assert(before.no_duplicates()) by {
                assert forall|a: int, b: int|
                    0 <= a < before.len() && 0 <= b < before.len() && a != b implies before[a] != before[b] by {
                    if a < b {
                        assert(rest@[a].1 < rest@[b].1);
                    } else {
                        assert(rest@[b].1 < rest@[a].1);
                    }
                }
            }
            before.lemma_multiset_has_no_duplicates();
        }
        sort_pairs(&mut rest);
        let ghost srt = pair_views(rest@);
        proof {
            srt.lemma_multiset_has_no_duplicates_conv();
            assert forall|q: int| 0 <= q < srt.len() implies (#[trigger] srt[q]).1 < names@.len()
                && sortable@[srt[q].1 as int] && !start.contains(srt[q].1) && srt[q].0 == all[srt[q].1 as int] by {
                vstd::seq_lib::to_multiset_contains(srt, srt[q]);
                vstd::seq_lib::to_multiset_contains(before, srt[q]);
                let w = choose|w: int| 0 <= w < before.len() && before[w] == srt[q];
                assert(before[w] == pair_view(r_before[w]));
            }
        }
        let mut j: usize = 0;
        while j < rest.len()
            invariant
                j <= rest@.len(),
                srt == pair_views(rest@),
                key@.len() == start.len() + j,
                key@.subrange(0, start.len() as int) == start,
                forall|q: int| 0 <= q < j ==> #[trigger] key@[start.len() + q] == srt[q].1,
            decreases rest@.len() - j,
        {
            let ghost k0 = key@;
            key.push(rest[j].1);
            proof {
                assert(key@.subrange(0, start.len() as int) == k0.subrange(0, start.len() as int));
                assert forall|q: int| 0 <= q < j + 1 implies #[trigger] key@[start.len() + q] == srt[q].1 by {
                    if q < j {
                        assert(key@[start.len() + q] == k0[start.len() + q]);
                    }
                }
            }
            j = j + 1;
        }
        proof {
            assert(key@.subrange(0, 4) == start);
            assert forall|q: int| 4 <= q < key@.len() implies key@[q] == #[trigger] srt[q - 4].1 by {
                assert(key@[start.len() + (q - 4)] == srt[q - 4].1);
            }
            assert forall|q: int| 0 <= q < key@.len() implies #[trigger] key@[q] < names@.len() by {
                if q >= 4 {
                    assert(key@[q] == srt[q - 4].1);
                } else {
                    assert(key@[q] == start[q]);
                }
            }
            assert forall|q: int| 4 <= q < key@.len() implies sortable@[#[trigger] key@[q] as int]
                && !key@.subrange(0, 4).contains(key@[q]) by {
                assert(key@[q] == srt[q - 4].1);
            }
            assert forall|p: int, q: int| 4 <= p < q < key@.len() implies #[trigger] key@[p] != #[trigger] key@[q]
                && !text_lt(all[key@[q] as int], all[key@[p] as int]) && (all[key@[p] as int] == all[key@[q] as int]
                ==> key@[p] < key@[q]) by {
                assert(key@[p] == srt[p - 4].1);
                assert(key@[q] == srt[q - 4].1);
                assert(srt[p - 4] != srt[q - 4]);
                assert(!pair_lt(srt[q - 4], srt[p - 4]));
            }
            assert forall|x: int|
                0 <= x < all.len() && #[trigger] sortable@[x] && !key@.subrange(0, 4).contains(x as usize) implies exists|
                q: int,
            | 4 <= q < key@.len() && #[trigger] key@[q] == x as usize by {
                let e = (all[x], x as usize);
                assert(before.contains(e));
                vstd::seq_lib::to_multiset_contains(before, e);
                vstd::seq_lib::to_multiset_contains(srt, e);
                let w = choose|w: int| 0 <= w < srt.len() && srt[w] == e;
                assert(key@[4 + w] == srt[w].1);
            }
            assert(key_of(part, all, sortable@, key@));
        }
    }
    Ok(key)
}

proof fn lemma_index_of_bound(names: Seq<Seq<char>>, name: Seq<char>)
    ensures
        index_of(names, name) matches Some(i) ==> 0 <= i < names.len(),
    decreases names.len(),
{
    if names.len() > 0 {
        lemma_index_of_bound(names.drop_last(), name);
    }
}

fn contains_index(v: &Vec<usize>, x: usize) -> (r: bool)
    ensures
        r == v@.contains(x),
{
    let mut i: usize = 0;
    while i < v.len()
        invariant
            i <= v@.len(),
            forall|j: int| 0 <= j < i ==> v@[j] != x,
        decreases v@.len() - i,
    {
        if v[i] == x {
            return true;
        }
        i = i + 1;
    }
    false
}

/// The working space of a part's sort: the permutation of (batch, row)
/// positions (`entry` bytes each), the bound on the encoded sort keys (none
/// where the bound does not cover a key type) and the bound on the sorted
/// copy. The keys are freed before the copy is made, so beyond the
/// permutation the sort needs whichever of the two is larger.
#[derive(Clone, Copy, Debug, PartialEq, Eq, Structural)]
pub struct SortPlan {
    pub permutation: usize,
    pub keys: usize,
    pub copy: usize,
    /// What the keys need beyond the room the copy's admission leaves them.
    pub beyond_copy: usize,
    /// Everything at once, as a refusal reports it.
    pub need: usize,
    /// The room for encoded keys: the larger of the two bounds.
    pub room: usize,
}

pub open spec fn plan_of(total: usize, entry: usize, keys_bound: Option<usize>, copy: usize) -> SortPlan {
    let permutation = smul(total, entry);
    let keys = match keys_bound {
        Some(k) => k,
        None => 0,
    };
    let beyond_copy = ssub(keys, copy);
    SortPlan {
        permutation,
        keys,
        copy,
        beyond_copy,
        need: sadd(sadd(permutation, beyond_copy), copy),
        room: if keys > copy {
            keys
        } else {
            copy
        },
    }
}

/// See [`plan_of`].
pub fn sort_plan(total: usize, entry: usize, keys_bound: Option<usize>, copy: usize) -> (r: SortPlan)
    ensures
        r == plan_of(total, entry, keys_bound, copy),
{
    let permutation = sat_mul(total, entry);
    let keys = match keys_bound {
        Some(k) => k,
        None => 0,
    };
    let beyond_copy = keys.saturating_sub(copy);
    SortPlan {
        permutation,
        keys,
        copy,
        beyond_copy,
        need: permutation.saturating_add(beyond_copy).saturating_add(copy),
        room: if keys > copy {
            keys
        } else {
            copy
        },
    }
}

/// What a sort admits before it starts, the room left for its keys beside
/// its copy and the copy itself, covers the larger of the two bounds: the
/// keys are freed before the copy is made, so whichever is larger is what the
/// sort needs beyond its permutation.
pub proof fn lemma_sort_space_covers(total: usize, entry: usize, keys_bound: Option<usize>, copy: usize)
    ensures
        ({
            let p = plan_of(total, entry, keys_bound, copy);
            &&& p.beyond_copy + p.copy == p.room
            &&& p.room >= p.keys
            &&& p.room >= p.copy
        }),
{
}

/// Every (batch, row) position of batches of `counts` rows, batch by batch,
/// row by row.
pub open spec fn all_positions(counts: Seq<usize>) -> Seq<(usize, usize)>
    decreases counts.len(),
{
    if counts.len() == 0 {
        Seq::empty()
    } else {
        all_positions(counts.drop_last()) + Seq::new(
            counts.last() as nat,
            |r: int| ((counts.len() - 1) as usize, r as usize),
        )
    }
}

proof fn lemma_all_positions_len(counts: Seq<usize>)
    ensures
        all_positions(counts).len() == total(counts),
    decreases counts.len(),
{
    if counts.len() > 0 {
        lemma_all_positions_len(counts.drop_last());
    }
}

/// Every position names a row of its batch.
proof fn lemma_all_positions_bounds(counts: Seq<usize>)
    requires
        counts.len() <= usize::MAX,
    ensures
        forall|i: int|
            0 <= i < all_positions(counts).len() ==> #[trigger] all_positions(counts)[i].0 < counts.len()
                && all_positions(counts)[i].1 < counts[all_positions(counts)[i].0 as int],
    decreases counts.len(),
{
    if counts.len() > 0 {
        let front = counts.drop_last();
        lemma_all_positions_bounds(front);
        let a = all_positions(front);
        let tail = Seq::new(counts.last() as nat, |r: int| ((counts.len() - 1) as usize, r as usize));
        assert(all_positions(counts) == a + tail);
        assert forall|i: int| 0 <= i < all_positions(counts).len() implies #[trigger] all_positions(counts)[i].0
            < counts.len() && all_positions(counts)[i].1 < counts[all_positions(counts)[i].0 as int] by {
            if i < a.len() {
                assert(all_positions(counts)[i] == a[i]);
                assert(counts[a[i].0 as int] == front[a[i].0 as int]);
            } else {
                let r = i - a.len();
                assert(0 <= r < counts.last());
                assert(all_positions(counts)[i] == tail[r]);
                assert(tail[r] == ((counts.len() - 1) as usize, r as usize));
                assert(counts.last() == counts[counts.len() - 1]);
            }
        }
    }
}

/// See [`all_positions`].
pub fn positions(counts: &Vec<usize>, capacity: usize) -> (r: Vec<(usize, usize)>)
    ensures
        r@ == all_positions(counts@),
        r@.len() == total(counts@),
{
    proof {
        lemma_all_positions_len(counts@);
    }
    let mut order: Vec<(usize, usize)> = Vec::with_capacity(capacity);
    let mut b: usize = 0;
    while b < counts.len()
        invariant
            b <= counts@.len(),
            order@ == all_positions(counts@.subrange(0, b as int)),
        decreases counts@.len() - b,
    {
        let ghost before = order@;
        let n = counts[b];
        let mut r: usize = 0;
        while r < n
            invariant
                r <= n,
                order@ == before + Seq::new(r as nat, |k: int| (b, k as usize)),
            decreases n - r,
        {
            order.push((b, r));
            proof {
                assert(Seq::new((r + 1) as nat, |k: int| (b, k as usize)) =~= Seq::new(
                    r as nat,
                    |k: int| (b, k as usize),
                ).push((b, r)));
            }
            r = r + 1;
        }
        proof {
            let s = counts@.subrange(0, b + 1);
            assert(s.drop_last() == counts@.subrange(0, b as int));
            assert(s.last() == n);
        }
        b = b + 1;
    }
    assert(counts@.subrange(0, counts@.len() as int) == counts@);
    order
}

proof fn lemma_next_chunk(start: int, end: int, n: int)
    requires
        0 <= start < n,
        n <= usize::MAX,
        start % 65536 == 0,
        end == if n - start > 65536 {
            start + 65536
        } else {
            n
        },
    ensures
        end % 65536 == 0 || end == n,
        ceil_div(end as usize, 65536) == ceil_div(start as usize, 65536) + 1,
        end <= n,
{
    assert(ceil_div(end as usize, 65536) == ceil_div(start as usize, 65536) + 1) by (nonlinear_arith)
        requires
            0 <= start < n,
            start % 65536 == 0,
            end == if n - start > 65536 {
                start + 65536
            } else {
                n
            },
            n <= usize::MAX,
    ;
}

/// The positions `order[start..end]`.
fn chunk_of(order: &Vec<(usize, usize)>, start: usize, end: usize) -> (r: Vec<(usize, usize)>)
    requires
        start <= end <= order@.len(),
    ensures
        r@ == order@.subrange(start as int, end as int),
{
    let mut out: Vec<(usize, usize)> = Vec::new();
    let mut i: usize = start;
    while i < end
        invariant
            start <= i <= end,
            end <= order@.len(),
            out@ == order@.subrange(start as int, i as int),
        decreases end - i,
    {
        out.push(order[i]);
        proof {
            assert(order@.subrange(start as int, i + 1) == order@.subrange(start as int, i as int).push(
                order@[i as int],
            ));
        }
        i = i + 1;
    }
    out
}

/// The batches that hold rows, with their row counts: the others hold none,
/// so the rows are all kept.
/// Whether `kept` are the batches of `batches` that hold rows (a positive
/// count), as `origin` and `place` witness: the kept batch at `k` is the one
/// at `origin[k]`, which holds rows, and a batch at `i` that holds rows is
/// kept at `place[i]`.
pub open spec fn kept_as(
    batches: Seq<Batch>,
    counts: Seq<usize>,
    kept: Seq<Batch>,
    origin: Seq<int>,
    place: Seq<int>,
) -> bool {
    &&& origin.len() == kept.len()
    &&& place.len() == batches.len()
    &&& forall|k: int|
        0 <= k < kept.len() ==> 0 <= #[trigger] origin[k] < batches.len() && counts[origin[k]] > 0
            && kept[k] == batches[origin[k]]
    &&& forall|i: int|
        0 <= i < batches.len() && counts[i] > 0 ==> 0 <= #[trigger] place[i] < kept.len() && kept[place[i]]
            == batches[i]
}

/// Whether `kept` are the batches of `batches` that hold rows (see
/// [`kept_as`]).
pub open spec fn kept_with_rows(batches: Seq<Batch>, counts: Seq<usize>, kept: Seq<Batch>) -> bool {
    exists|origin: Seq<int>, place: Seq<int>| #[trigger] kept_as(batches, counts, kept, origin, place)
}

/// Whether `out`, the batches a part is rewritten into, all have one field
/// list: the names the batches `batches` that hold rows (by `counts`) have
/// between them, each once.
pub open spec fn canonical_fields(batches: Seq<Batch>, counts: Seq<usize>, out: Seq<Batch>) -> bool {
    &&& forall|x: int, y: int|
        0 <= x < out.len() && 0 <= y < out.len() ==> #[trigger] batch_fields(out[x]) == #[trigger] batch_fields(
            out[y],
        )
    &&& forall|x: int, i: int, m: Seq<char>|
        0 <= x < out.len() && 0 <= i < batches.len() && counts[i] > 0 && #[trigger] batch_fields(
            batches[i],
        ).contains(m) ==> #[trigger] batch_fields(out[x]).contains(m)
    &&& forall|x: int, m: Seq<char>|
        0 <= x < out.len() && #[trigger] batch_fields(out[x]).contains(m) ==> exists|i: int|
            0 <= i < batches.len() && counts[i] > 0 && #[trigger] batch_fields(batches[i]).contains(m)
}

/// The rewritten batches have the field names of the kept batches unified.
proof fn lemma_canonical_fields(
    batches: Seq<Batch>,
    counts: Seq<usize>,
    kept: Seq<Batch>,
    uni: Seq<Batch>,
    out: Seq<Batch>,
)
    requires
        kept_with_rows(batches, counts, kept),
        unified(kept, uni),
        uni.len() > 0,
        forall|x: int| 0 <= x < out.len() ==> #[trigger] batch_fields(out[x]) == batch_fields(uni[0]),
    ensures
        canonical_fields(batches, counts, out),
{
    let (origin, place) = choose|origin: Seq<int>, place: Seq<int>| #[trigger] kept_as(
        batches,
        counts,
        kept,
        origin,
        place,
    );
    assert forall|x: int, i: int, m: Seq<char>|
        0 <= x < out.len() && 0 <= i < batches.len() && counts[i] > 0 && #[trigger] batch_fields(
            batches[i],
        ).contains(m) implies #[trigger] batch_fields(out[x]).contains(m) by {
        let k = place[i];
        assert(kept[k] == batches[i]);
        assert(batch_fields(kept[k]).contains(m));
        assert(batch_fields(uni[0]).contains(m));
        assert(batch_fields(out[x]) == batch_fields(uni[0]));
    }
    assert forall|x: int, m: Seq<char>|
        0 <= x < out.len() && #[trigger] batch_fields(out[x]).contains(m) implies exists|i: int|
            0 <= i < batches.len() && counts[i] > 0 && #[trigger] batch_fields(batches[i]).contains(m) by {
        assert(batch_fields(out[x]) == batch_fields(uni[0]));
        assert(batch_fields(uni[0]).contains(m));
        let j = choose|j: int| 0 <= j < kept.len() && #[trigger] batch_fields(kept[j]).contains(m);
        let i = origin[j];
        assert(kept[j] == batches[i]);
        assert(batch_fields(batches[i]).contains(m));
    }
    assert forall|x: int, y: int| 0 <= x < out.len() && 0 <= y < out.len() implies #[trigger] batch_fields(
        out[x],
    ) == #[trigger] batch_fields(out[y]) by {
        assert(batch_fields(out[x]) == batch_fields(uni[0]));
        assert(batch_fields(out[y]) == batch_fields(uni[0]));
    }
}

/// Taking the last of `s.push(x)`, whose reverse is the tail of `whole` from
/// `p`, takes `whole[p]`, and leaves the tail from `p + 1`.
proof fn lemma_pop_reversed<A>(s: Seq<A>, x: A, whole: Seq<A>, p: int)
    requires
        0 <= p < whole.len(),
        s.push(x).reverse() == whole.subrange(p, whole.len() as int),
    ensures
        whole[p] == x,
        s.reverse() == whole.subrange(p + 1, whole.len() as int),
{
    let t = whole.subrange(p, whole.len() as int);
    assert(s.push(x).reverse() =~= seq![x] + s.reverse());
    assert(t[0] == x);
    assert forall|i: int| 0 <= i < s.reverse().len() implies s.reverse()[i] == whole.subrange(
        p + 1,
        whole.len() as int,
    )[i] by {
        assert((seq![x] + s.reverse())[i + 1] == s.reverse()[i]);
        assert(t[i + 1] == whole[p + 1 + i]);
    }
    assert(s.reverse() =~= whole.subrange(p + 1, whole.len() as int));
}

fn nonempty(batches: Vec<Batch>, counts: Vec<usize>) -> (r: (Vec<Batch>, Vec<usize>))
    requires
        batches@.len() == counts@.len(),
    ensures
        r.0@.len() == r.1@.len(),
        rows_match(batches@, counts@) ==> rows_match(r.0@, r.1@),
        forall|i: int| 0 <= i < r.1@.len() ==> r.1@[i] > 0,
        total(r.1@) == total(counts@),
        kept_with_rows(batches@, counts@, r.0@),
{
    let mut kept: Vec<Batch> = Vec::new();
    let mut kept_counts: Vec<usize> = Vec::new();
    let mut rest = batches;
    let mut rest_counts = counts;
    // Taken from the back, then restored to arrival order.
    let mut reversed: Vec<Batch> = Vec::new();
    let mut reversed_counts: Vec<usize> = Vec::new();
    let ghost all = counts@;
    let ghost all_batches = batches@;
    let ghost n = batches@.len();
    while rest.len() > 0
        invariant
            rest@.len() == rest_counts@.len(),
            reversed@.len() == reversed_counts@.len(),
            all == rest_counts@ + reversed_counts@.reverse(),
            all_batches == rest@ + reversed@.reverse(),
        decreases rest@.len(),
    {
        let ghost before_batches = rest@;
        let b = rest.pop().unwrap();
        let ghost before = rest_counts@;
        let c = rest_counts.pop().unwrap();
        proof {
            assert(before == rest_counts@.push(c));
            assert(reversed_counts@.push(c).reverse() == seq![c] + reversed_counts@.reverse());
            assert(before + reversed_counts@.reverse() == rest_counts@ + (seq![c] + reversed_counts@.reverse()));
            assert(before_batches == rest@.push(b));
            assert(reversed@.push(b).reverse() == seq![b] + reversed@.reverse());
            assert(before_batches + reversed@.reverse() == rest@ + (seq![b] + reversed@.reverse()));
        }
        reversed.push(b);
        reversed_counts.push(c);
    }
    assert(rest_counts@ + reversed_counts@.reverse() == reversed_counts@.reverse());
    assert(rest@ + reversed@.reverse() == reversed@.reverse());
    let ghost mut origin: Seq<int> = Seq::empty();
    let ghost mut place: Seq<int> = Seq::empty();
    while reversed.len() > 0
        invariant
            reversed@.len() == reversed_counts@.len(),
            kept@.len() == kept_counts@.len(),
            n == all.len(),
            n == all_batches.len(),
            reversed@.len() <= n,
            reversed_counts@.reverse() == all.subrange(n - reversed@.len(), n as int),
            reversed@.reverse() == all_batches.subrange(n - reversed@.len(), n as int),
            forall|j: int| 0 <= j < kept_counts@.len() ==> kept_counts@[j] > 0,
            total(all) == total(kept_counts@) + total(reversed_counts@.reverse()),
            origin.len() == kept@.len(),
            place.len() == n - reversed@.len(),
            forall|k: int|
                0 <= k < kept@.len() ==> 0 <= #[trigger] origin[k] < n - reversed@.len() && all[origin[k]] > 0
                    && kept@[k] == all_batches[origin[k]] && kept_counts@[k] == all[origin[k]],
            forall|i: int|
                0 <= i < place.len() && all[i] > 0 ==> 0 <= #[trigger] place[i] < kept@.len() && kept@[place[i]]
                    == all_batches[i],
        decreases reversed@.len(),
    {
        let ghost p = n - reversed@.len();
        let ghost before_batches = reversed@;
        let b = reversed.pop().unwrap();
        let ghost before = reversed_counts@;
        let c = reversed_counts.pop().unwrap();
        proof {
            assert(before == reversed_counts@.push(c));
            assert(before.reverse() == seq![c] + reversed_counts@.reverse());
            crate::budget::lemma_total_concat(seq![c], reversed_counts@.reverse());
            crate::budget::lemma_total_single(c);
            crate::budget::lemma_total_push(kept_counts@, c);
            assert(before_batches == reversed@.push(b));
            lemma_pop_reversed(reversed_counts@, c, all, p);
            lemma_pop_reversed(reversed@, b, all_batches, p);
        }
        let ghost kept0 = kept@;
        let ghost kept_counts0 = kept_counts@;
        if c > 0 {
            kept.push(b);
            kept_counts.push(c);
        }
        proof {
            if c > 0 {
                origin = origin.push(p);
                place = place.push(kept0.len() as int);
            } else {
                place = place.push(0);
            }
            assert forall|k: int| 0 <= k < kept@.len() implies 0 <= #[trigger] origin[k] < n - reversed@.len()
                && all[origin[k]] > 0 && kept@[k] == all_batches[origin[k]] && kept_counts@[k]
                == all[origin[k]] by {
                if k < kept0.len() {
                    assert(kept@[k] == kept0[k]);
                    assert(kept_counts@[k] == kept_counts0[k]);
                }
            }
            assert forall|i: int| 0 <= i < place.len() && all[i] > 0 implies 0 <= #[trigger] place[i] < kept@.len()
                && kept@[place[i]] == all_batches[i] by {
                if i < p {
                    assert(kept@[place[i]] == kept0[place[i]]);
                }
            }
        }
    }
    assert(reversed_counts@.reverse() == Seq::<usize>::empty());
    proof {
        assert(kept_as(all_batches, all, kept@, origin, place));
        assert(kept_with_rows(all_batches, all, kept@));
        if rows_match(all_batches, all) {
            assert forall|k: int| 0 <= k < kept_counts@.len() && k < kept@.len() implies #[trigger] batch_rows(
                kept@[k],
            ) == kept_counts@[k] by {
                assert(batch_rows(all_batches[origin[k]]) == all[origin[k]]);
            }
        }
    }
    (kept, kept_counts)
}

/// Whether `name` starts with `present.`.
pub open spec fn is_presence(name: Seq<char>) -> bool {
    name.len() >= 8 && name.subrange(0, 8) == "present."@
}

fn presence(name: &String) -> (r: bool)
    ensures
        r == is_presence(name@),
{
    let c = chars_of(name.as_str());
    let p = chars_of("present.");
    proof {
        reveal_strlit("present.");
        assert("present."@.len() == 8);
    }
    crate::catalog::starts_with(c.as_slice(), p.as_slice())
}

/// Whether some name occurs twice in `names`.
pub open spec fn has_repeat(names: Seq<Seq<char>>) -> bool {
    exists|i: int, j: int| 0 <= i < j < names.len() && names[i] == names[j]
}

/// The refusal of a column `c` named twice in one staged batch.
pub open spec fn twice_text(c: Seq<char>) -> Seq<char> {
    "nutmeg: column `"@ + c
        + "` appears twice; canonical order cannot sort it (stage with `order` = `asStaged`)"@
}

/// The refusal of a column `c` of type `a` in some staged rows and `b` in
/// others.
pub open spec fn clash_text(c: Seq<char>, a: Seq<char>, b: Seq<char>) -> Seq<char> {
    "nutmeg: column `"@ + c + "` is "@ + a + " in some staged rows and "@ + b
        + " in others; canonical order sorts the whole part as one table, so cast one of them, or stage with `order` = `asStaged`"@
}

/// `m` is one of [`unify`]'s refusals, of column `c` (and, for a clash,
/// types `a` and `b`).
pub open spec fn unify_refusal(m: Seq<char>, c: Seq<char>, a: Seq<char>, b: Seq<char>) -> bool {
    m == twice_text(c) || m == clash_text(c, a, b)
}

/// Whether `m` is one of [`unify`]'s refusals, of some column.
pub open spec fn refused_by_unify(m: Seq<char>) -> bool {
    exists|c: Seq<char>, a: Seq<char>, b: Seq<char>| #[trigger] unify_refusal(m, c, a, b)
}

/// Whether `out` is `batches` brought to one field list: as many batches,
/// each with the rows of the batch at its position, all with the same field
/// names, which are exactly the names some input batch has.
pub open spec fn unified(batches: Seq<Batch>, out: Seq<Batch>) -> bool {
    &&& out.len() == batches.len()
    &&& forall|i: int| 0 <= i < out.len() ==> #[trigger] batch_rows(out[i]) == batch_rows(batches[i])
    &&& forall|i: int| 0 <= i < out.len() ==> #[trigger] batch_fields(out[i]) == batch_fields(out[0])
    &&& forall|i: int, n: Seq<char>|
        0 <= i < batches.len() && #[trigger] batch_fields(batches[i]).contains(n) ==> batch_fields(
            out[0],
        ).contains(n)
    &&& forall|n: Seq<char>|
        #[trigger] batch_fields(out[0]).contains(n) ==> exists|i: int|
            0 <= i < batches.len() && #[trigger] batch_fields(batches[i]).contains(n)
}

/// `acc` followed by each of `names` that is not already there, in order.
pub open spec fn add_new(acc: Seq<Seq<char>>, names: Seq<Seq<char>>) -> Seq<Seq<char>>
    decreases names.len(),
{
    if names.len() == 0 {
        acc
    } else {
        let a = add_new(acc, names.drop_last());
        if a.contains(names.last()) {
            a
        } else {
            a.push(names.last())
        }
    }
}

/// The names of `lists`, each once, in the order they are first seen.
pub open spec fn first_seen(lists: Seq<Seq<Seq<char>>>) -> Seq<Seq<char>>
    decreases lists.len(),
{
    if lists.len() == 0 {
        Seq::empty()
    } else {
        add_new(first_seen(lists.drop_last()), lists.last())
    }
}

/// Whether a field named `name` of one of `batches` admits nulls.
pub open spec fn some_nullable(batches: Seq<Batch>, name: Seq<char>) -> bool {
    exists|x: int, j: int|
        0 <= x < batches.len() && 0 <= j < batch_defs(batches[x]).len() && #[trigger] field_name(
            batch_defs(batches[x])[j],
        ) == name && field_nullable(batch_defs(batches[x])[j])
}

/// Whether one of the first `n` of `defs` is named `name` and admits nulls.
pub open spec fn nullable_among(defs: Seq<FieldDef>, n: int, name: Seq<char>) -> bool {
    exists|j: int| 0 <= j < n && #[trigger] field_name(defs[j]) == name && field_nullable(defs[j])
}

/// Whether the column `name` of unified batches admits nulls: where a field
/// of that name in one of `batches` does, or where one of them lacks the
/// column and it is no `present.*` one.
pub open spec fn unified_nullable(batches: Seq<Batch>, name: Seq<char>) -> bool {
    some_nullable(batches, name) || (!is_presence(name) && exists|x: int|
        0 <= x < batches.len() && !#[trigger] batch_fields(batches[x]).contains(name))
}

/// Whether two fields of `batches` share a name but not a data type.
pub open spec fn types_clash(batches: Seq<Batch>) -> bool {
    exists|x: int, i: int, y: int, j: int|
        0 <= x < batches.len() && 0 <= y < batches.len() && 0 <= i < batch_defs(batches[x]).len() && 0 <= j
            < batch_defs(batches[y]).len() && field_name(#[trigger] batch_defs(batches[x])[i]) == field_name(
            #[trigger] batch_defs(batches[y])[j],
        ) && !types_match(batch_defs(batches[x])[i], batch_defs(batches[y])[j])
}

/// Whether `column`, made for a batch of `rows` rows that lacks the column
/// `name`, is what stands for its absence: all false for a `present.*`
/// column, all null for any other.
pub open spec fn filled_as(column: Column, name: Seq<char>, rows: usize) -> bool {
    if is_presence(name) {
        column_bools(column) == Some(Seq::new(rows as nat, |i: int| Some(false)))
    } else {
        column_nulls(column) == rows
    }
}

/// Looking one field further.
proof fn lemma_nullable_among_step(defs: Seq<FieldDef>, j: int, name: Seq<char>)
    requires
        0 <= j < defs.len(),
    ensures
        nullable_among(defs, j + 1, name) == (nullable_among(defs, j, name) || (field_name(defs[j]) == name
            && field_nullable(defs[j]))),
{
    if nullable_among(defs, j + 1, name) {
        let jj = choose|jj: int| 0 <= jj < j + 1 && #[trigger] field_name(defs[jj]) == name && field_nullable(defs[jj]);
        if jj < j {
            assert(field_name(defs[jj]) == name);
        }
    }
    if nullable_among(defs, j, name) {
        let jj = choose|jj: int| 0 <= jj < j && #[trigger] field_name(defs[jj]) == name && field_nullable(defs[jj]);
        assert(field_name(defs[jj]) == name);
    }
    if field_name(defs[j]) == name && field_nullable(defs[j]) {
        assert(field_name(defs[j]) == name);
    }
}

/// Looking one batch further.
proof fn lemma_some_nullable_step(orig: Seq<Batch>, b: int, name: Seq<char>)
    requires
        0 <= b < orig.len(),
    ensures
        some_nullable(orig.subrange(0, b + 1), name) == (some_nullable(orig.subrange(0, b), name) || nullable_among(
            batch_defs(orig[b]),
            batch_defs(orig[b]).len() as int,
            name,
        )),
{
    let p = orig.subrange(0, b + 1);
    let q = orig.subrange(0, b);
    if some_nullable(p, name) {
        let (x, j) = choose|x: int, j: int|
            0 <= x < p.len() && 0 <= j < batch_defs(p[x]).len() && #[trigger] field_name(batch_defs(p[x])[j])
                == name && field_nullable(batch_defs(p[x])[j]);
        if x < b {
            assert(q[x] == p[x]);
            assert(field_name(batch_defs(q[x])[j]) == name);
        } else {
            assert(p[x] == orig[b]);
            assert(field_name(batch_defs(orig[b])[j]) == name);
        }
    }
    if some_nullable(q, name) {
        let (x, j) = choose|x: int, j: int|
            0 <= x < q.len() && 0 <= j < batch_defs(q[x]).len() && #[trigger] field_name(batch_defs(q[x])[j])
                == name && field_nullable(batch_defs(q[x])[j]);
        assert(p[x] == q[x]);
        assert(field_name(batch_defs(p[x])[j]) == name);
    }
    if nullable_among(batch_defs(orig[b]), batch_defs(orig[b]).len() as int, name) {
        let jj = choose|jj: int|
            0 <= jj < batch_defs(orig[b]).len() && #[trigger] field_name(batch_defs(orig[b])[jj]) == name
                && field_nullable(batch_defs(orig[b])[jj]);
        assert(p[b] == orig[b]);
        assert(field_name(batch_defs(p[b])[jj]) == name);
    }
}

/// The field names of each of `batches`.
pub open spec fn field_lists(batches: Seq<Batch>) -> Seq<Seq<Seq<char>>> {
    batches.map_values(|b: Batch| batch_fields(b))
}

/// Where a name is first found is where it is, and it is found exactly when
/// it is there.
pub proof fn lemma_index_of_contains(names: Seq<Seq<char>>, name: Seq<char>)
    ensures
        index_of(names, name) is None <==> !names.contains(name),
        index_of(names, name) matches Some(i) ==> 0 <= i < names.len() && names[i] == name,
    decreases names.len(),
{
    if names.len() > 0 {
        lemma_index_of_contains(names.drop_last(), name);
        if names.last() != name {
            assert forall|k: int| 0 <= k < names.len() && names[k] == name implies k < names.len() - 1
                && names.drop_last()[k] == name by {}
        } else {
            assert(names[names.len() - 1] == name);
        }
        if index_of(names.drop_last(), name) is None && names.last() != name {
            assert(!names.contains(name)) by {
                if names.contains(name) {
                    let k = choose|k: int| 0 <= k < names.len() && names[k] == name;
                    assert(names.drop_last().contains(name)) by {
                        assert(names.drop_last()[k] == name);
                    }
                }
            }
        }
        if names.drop_last().contains(name) {
            let k = choose|k: int| 0 <= k < names.drop_last().len() && names.drop_last()[k] == name;
            assert(names[k] == name);
        }
    }
}

/// Bring a part's batches to one schema, so they can be sorted together.
/// Batches that share one are returned as they are. Otherwise a column
/// missing from a batch is added as Grust would read its absence: a
/// `present.*` column as all false, anything else as all null, and such a
/// column is nullable unless it is a `present.*` one. A column name that
/// means two data types, or appears twice in one batch, has no single sorted
/// form and is refused. Also returns the bytes of the columns it had to make.
pub fn unify(batches: Vec<Batch>) -> (r: Result<(Vec<Batch>, usize), NutmegError>)
    requires
        batches@.len() > 0,
    ensures
        r matches Ok(out) ==> unified(batches@, out.0@),
        r is Err ==> r->Err_0 is Plan || r->Err_0 is Execution,
        (forall|x: int| 1 <= x < batches@.len() ==> #[trigger] schemas_equal(batches@[x], batches@[0])) ==> r
            == Ok::<(Vec<Batch>, usize), NutmegError>((batches, 0)),
        (exists|x: int| 1 <= x < batches@.len() && !#[trigger] schemas_equal(batches@[x], batches@[0])) && (
        exists|x: int| 0 <= x < batches@.len() && #[trigger] has_repeat(batch_fields(batches@[x]))) ==> r
            is Err && r->Err_0 is Plan,
        r matches Err(NutmegError::Plan(m)) ==> refused_by_unify(m@),
        r matches Err(NutmegError::Plan(_)) ==> types_clash(batches@) || exists|x: int|
            0 <= x < batches@.len() && #[trigger] has_repeat(batch_fields(batches@[x])),
        (exists|x: int| 1 <= x < batches@.len() && !#[trigger] schemas_equal(batches@[x], batches@[0])) ==> (
        r matches Ok(out) ==> batch_fields(out.0@[0]) == first_seen(field_lists(batches@))),
        (exists|x: int| 1 <= x < batches@.len() && !#[trigger] schemas_equal(batches@[x], batches@[0])) ==> (
        r matches Ok(out) ==> forall|j: int, c: int|
            0 <= j < out.0@.len() && 0 <= c < batch_fields(out.0@[j]).len() && named_column(
                batches@[j],
                batch_fields(out.0@[j])[c],
            ) is Some ==> #[trigger] batch_column(out.0@[j], c) == named_column(
                batches@[j],
                batch_fields(out.0@[j])[c],
            )->0),
        (exists|x: int| 1 <= x < batches@.len() && !#[trigger] schemas_equal(batches@[x], batches@[0])) ==> (
        r matches Ok(out) ==> forall|j: int, c: int|
            0 <= j < out.0@.len() && 0 <= c < batch_fields(out.0@[j]).len() ==> #[trigger] field_nullable(
                batch_defs(out.0@[j])[c],
            ) == unified_nullable(batches@, batch_fields(out.0@[j])[c])),
        (exists|x: int| 1 <= x < batches@.len() && !#[trigger] schemas_equal(batches@[x], batches@[0])) ==> (
        r matches Ok(out) ==> forall|j: int, c: int|
            0 <= j < out.0@.len() && 0 <= c < batch_fields(out.0@[j]).len() && named_column(
                batches@[j],
                batch_fields(out.0@[j])[c],
            ) is None ==> filled_as(
                #[trigger] batch_column(out.0@[j], c),
                batch_fields(out.0@[j])[c],
                batch_rows(batches@[j]),
            )),
{
    let ghost orig = batches@;
    let mut alike = true;
    let mut i: usize = 1;
    while i < batches.len()
        invariant
            1 <= i <= batches@.len(),
            alike ==> forall|x: int| 0 <= x < i ==> #[trigger] batch_fields(batches@[x]) == batch_fields(
                batches@[0],
            ),
            alike <==> forall|x: int| 1 <= x < i ==> #[trigger] schemas_equal(batches@[x], batches@[0]),
        decreases batches@.len() - i,
    {
        if !same_fields(&batches[i], &batches[0]) {
            alike = false;
        }
        i = i + 1;
    }
    if !alike {
        assert(!(forall|x: int| 1 <= x < batches@.len() ==> #[trigger] schemas_equal(batches@[x], batches@[0])));
    }
    if alike {
        proof {
            assert forall|n: Seq<char>| #[trigger] batch_fields(orig[0]).contains(n) implies exists|x: int|
                0 <= x < orig.len() && #[trigger] batch_fields(orig[x]).contains(n) by {
                assert(batch_fields(orig[0]).contains(n));
            }
        }
        return Ok((batches, 0));
    }
    // The part's fields: the first of each name, nullable where any is.
    let mut fields: Vec<FieldDef> = Vec::new();
    let mut names: Vec<String> = Vec::new();
    let mut nullable: Vec<bool> = Vec::new();
    let mut b: usize = 0;
    let ghost mut origin: Seq<(int, int)> = Seq::empty();
    assert(field_lists(orig.subrange(0, 0)) =~= Seq::<Seq<Seq<char>>>::empty());
    assert(views(names@) =~= Seq::<Seq<char>>::empty());
    while b < batches.len()
        invariant
            b <= batches@.len(),
            batches@ == orig,
            fields@.len() == names@.len(),
            names@.len() == nullable@.len(),
            forall|k: int| 0 <= k < names@.len() ==> #[trigger] field_name(fields@[k]) == names@[k]@,
            forall|x: int, n: Seq<char>|
                0 <= x < b && #[trigger] batch_fields(orig[x]).contains(n) ==> views(names@).contains(n),
            forall|n: Seq<char>|
                #[trigger] views(names@).contains(n) ==> exists|x: int|
                    0 <= x < b && #[trigger] batch_fields(orig[x]).contains(n),
            forall|x: int| 0 <= x < b ==> !#[trigger] has_repeat(batch_fields(orig[x])),
            !(forall|x: int| 1 <= x < orig.len() ==> #[trigger] schemas_equal(orig[x], orig[0])),
            views(names@) == first_seen(field_lists(orig.subrange(0, b as int))),
            forall|x: int| 0 <= x < b ==> field_names(#[trigger] batch_defs(orig[x])) == batch_fields(orig[x]),
            forall|k: int|
                0 <= k < names@.len() ==> #[trigger] nullable@[k] == some_nullable(
                    orig.subrange(0, b as int),
                    names@[k]@,
                ),
            !has_repeat(views(names@)),
            origin.len() == fields@.len(),
            forall|k: int|
                0 <= k < fields@.len() ==> 0 <= #[trigger] origin[k].0 < b && 0 <= origin[k].1 < batch_defs(
                    orig[origin[k].0],
                ).len() && fields@[k] == batch_defs(orig[origin[k].0])[origin[k].1],
        decreases batches@.len() - b,
    {
        let defs = field_defs(&batches[b]);
        let ghost seen_before = first_seen(field_lists(orig.subrange(0, b as int)));
        let ghost here = batch_fields(orig[b as int]);
        assert(field_names(defs@) == here);
        let mut seen: Vec<String> = Vec::new();
        let mut j: usize = 0;
        while j < defs.len()
            invariant
                j <= defs@.len(),
                b < batches@.len(),
                batches@ == orig,
                here == batch_fields(orig[b as int]),
                field_names(defs@) == here,
                fields@.len() == names@.len(),
                names@.len() == nullable@.len(),
                forall|k: int| 0 <= k < names@.len() ==> #[trigger] field_name(fields@[k]) == names@[k]@,
                forall|x: int, n: Seq<char>|
                    0 <= x < b && #[trigger] batch_fields(orig[x]).contains(n) ==> views(names@).contains(n),
                forall|jj: int| 0 <= jj < j ==> views(names@).contains(#[trigger] here[jj]),
                forall|n: Seq<char>|
                    #[trigger] views(names@).contains(n) ==> exists|x: int|
                        0 <= x <= b && #[trigger] batch_fields(orig[x]).contains(n),
                forall|x: int| 0 <= x < b ==> !#[trigger] has_repeat(batch_fields(orig[x])),
                !(forall|x: int| 1 <= x < orig.len() ==> #[trigger] schemas_equal(orig[x], orig[0])),
                views(seen@) == here.subrange(0, j as int),
                !has_repeat(here.subrange(0, j as int)),
                seen_before == first_seen(field_lists(orig.subrange(0, b as int))),
                views(names@) == add_new(seen_before, here.subrange(0, j as int)),
                defs@ == batch_defs(orig[b as int]),
                forall|x: int| 0 <= x < b ==> field_names(#[trigger] batch_defs(orig[x])) == batch_fields(orig[x]),
                forall|k: int|
                    0 <= k < names@.len() ==> #[trigger] nullable@[k] == (some_nullable(
                        orig.subrange(0, b as int),
                        names@[k]@,
                    ) || nullable_among(defs@, j as int, names@[k]@)),
                !has_repeat(views(names@)),
                origin.len() == fields@.len(),
                forall|k: int|
                    0 <= k < fields@.len() ==> 0 <= #[trigger] origin[k].0 <= b && 0 <= origin[k].1 < batch_defs(
                        orig[origin[k].0],
                    ).len() && fields@[k] == batch_defs(orig[origin[k].0])[origin[k].1],
            decreases defs@.len() - j,
        {
            let info = field_info(&defs[j]);
            assert(info.name@ == here[j as int]);
            proof {
                lemma_index_of_contains(views(seen@), info.name@);
            }
            if find_name(&seen, info.name.as_str()).is_some() {
                let m = join3(
                    "nutmeg: column `",
                    info.name.as_str(),
                    "` appears twice; canonical order cannot sort it (stage with `order` = `asStaged`)",
                );
                assert(unify_refusal(m@, info.name@, info.name@, info.name@));
                assert(refused_by_unify(m@));
                proof {
                    assert(views(seen@).contains(info.name@));
                    let p = choose|p: int| 0 <= p < views(seen@).len() && views(seen@)[p] == info.name@;
                    assert(here.subrange(0, j as int)[p] == here[p]);
                    assert(here[p] == here[j as int]);
                    assert(has_repeat(batch_fields(orig[b as int])));
                }
                return Err(NutmegError::Plan(m));
            }
            let ghost seen0 = views(seen@);
            seen.push(info.name.clone());
            proof {
                assert(views(seen@) =~= seen0.push(info.name@));
                assert(here.subrange(0, j + 1) =~= here.subrange(0, j as int).push(here[j as int]));
                assert(!has_repeat(here.subrange(0, j + 1))) by {
                    let t = here.subrange(0, j + 1);
                    assert forall|p: int, q: int| 0 <= p < q < t.len() implies t[p] != t[q] by {
                        if q == j {
                            assert(seen0[p] == t[p]);
                        } else {
                            assert(here.subrange(0, j as int)[p] == t[p]);
                            assert(here.subrange(0, j as int)[q] == t[q]);
                        }
                    }
                }
            }
            let ghost before = views(names@);
            match find_name(&names, info.name.as_str()) {
                Some(k) => {
                    proof {
                        lemma_index_of_bound(views(names@), info.name@);
                        lemma_index_of_contains(views(names@), info.name@);
                    }
                    if !same_type(&fields[k], &defs[j]) {
                        let mut m = String::from_str("nutmeg: column `");
                        m.append(info.name.as_str());
                        m.append("` is ");
                        m.append(type_text(&fields[k]).as_str());
                        m.append(" in some staged rows and ");
                        m.append(type_text(&defs[j]).as_str());
                        m.append(
                            " in others; canonical order sorts the whole part as one table, so cast one of them, or stage with `order` = `asStaged`",
                        );
                        proof {
                            assert(unify_refusal(m@, info.name@, data_type_text(fields@[k as int]), data_type_text(defs@[j as int])));
                            assert(refused_by_unify(m@));
                            let (x, i) = origin[k as int];
                            assert(batch_defs(orig[b as int])[j as int] == defs@[j as int]);
                            assert(field_name(fields@[k as int]) == info.name@);
                            assert(field_name(batch_defs(orig[x])[i]) == field_name(batch_defs(orig[b as int])[j as int]));
                            assert(!types_match(batch_defs(orig[x])[i], batch_defs(orig[b as int])[j as int]));
                            assert(types_clash(orig));
                        }
                        return Err(NutmegError::Plan(m));
                    }
                    let ghost null0 = nullable@;
                    let merged = nullable[k] || info.nullable;
                    nullable.set(k, merged);
                    proof {
                        assert(names@[k as int]@ == info.name@);
                        assert(field_name(defs@[j as int]) == here[j as int]);
                        assert forall|k2: int| 0 <= k2 < names@.len() implies #[trigger] nullable@[k2] == (
                        some_nullable(orig.subrange(0, b as int), names@[k2]@) || nullable_among(
                            defs@,
                            j + 1,
                            names@[k2]@,
                        )) by {
                            lemma_nullable_among_step(defs@, j as int, names@[k2]@);
                            if k2 != k {
                                assert(views(names@)[k2] != views(names@)[k as int]);
                                assert(nullable@[k2] == null0[k2]);
                            }
                        }
                        assert(views(names@) == before);
                        assert(before.contains(info.name@)) by {
                            assert(before[k as int] == info.name@);
                        }
                        let t = here.subrange(0, j + 1);
                        assert(t.drop_last() =~= here.subrange(0, j as int));
                        assert(t.last() == here[j as int]);
                        assert(add_new(seen_before, t) == before);
                    }
                },
                None => {
                    proof {
                        lemma_index_of_contains(before, info.name@);
                    }
                    let ghost null0 = nullable@;
                    let ghost names0 = names@;
                    let ghost fields0 = fields@;
                    fields.push(copy_field(&defs[j]));
                    proof {
                        origin = origin.push((b as int, j as int));
                        assert forall|k2: int| 0 <= k2 < fields@.len() implies 0 <= #[trigger] origin[k2].0 <= b && 0
                            <= origin[k2].1 < batch_defs(orig[origin[k2].0]).len() && fields@[k2] == batch_defs(
                            orig[origin[k2].0],
                        )[origin[k2].1] by {
                            if k2 < fields0.len() {
                                assert(fields@[k2] == fields0[k2]);
                            }
                        }
                    }
                    names.push(info.name.clone());
                    nullable.push(info.nullable);
                    proof {
                        assert(field_name(defs@[j as int]) == here[j as int]);
                        assert(!some_nullable(orig.subrange(0, b as int), info.name@)) by {
                            if some_nullable(orig.subrange(0, b as int), info.name@) {
                                let q = orig.subrange(0, b as int);
                                let (x, jx) = choose|x: int, jx: int|
                                    0 <= x < q.len() && 0 <= jx < batch_defs(q[x]).len() && #[trigger] field_name(
                                        batch_defs(q[x])[jx],
                                    ) == info.name@ && field_nullable(batch_defs(q[x])[jx]);
                                assert(q[x] == orig[x]);
                                assert(field_names(batch_defs(orig[x]))[jx] == info.name@);
                                assert(batch_fields(orig[x]).contains(info.name@));
                            }
                        }
                        assert(!nullable_among(defs@, j as int, info.name@)) by {
                            if nullable_among(defs@, j as int, info.name@) {
                                let jj = choose|jj: int|
                                    0 <= jj < j && #[trigger] field_name(defs@[jj]) == info.name@ && field_nullable(
                                        defs@[jj],
                                    );
                                assert(field_names(defs@)[jj] == here[jj]);
                                assert(here.subrange(0, j + 1)[jj] == here.subrange(0, j + 1)[j as int]);
                            }
                        }
                        assert forall|k2: int| 0 <= k2 < names@.len() implies #[trigger] nullable@[k2] == (
                        some_nullable(orig.subrange(0, b as int), names@[k2]@) || nullable_among(
                            defs@,
                            j + 1,
                            names@[k2]@,
                        )) by {
                            lemma_nullable_among_step(defs@, j as int, names@[k2]@);
                            if k2 < names0.len() {
                                assert(names@[k2] == names0[k2]);
                                assert(views(names0).contains(views(names0)[k2]));
                                assert(nullable@[k2] == null0[k2]);
                            }
                        }
                        assert(!has_repeat(views(names@))) by {
                            assert(views(names@) =~= views(names0).push(info.name@));
                            if has_repeat(views(names@)) {
                                let (p, q) = choose|p: int, q: int| 0 <= p < q < views(names@).len() && views(names@)[p] == views(names@)[q];
                                if q == views(names0).len() {
                                    assert(views(names0)[p] == info.name@);
                                    assert(views(names0).contains(info.name@));
                                } else {
                                    assert(views(names0)[p] == views(names0)[q]);
                                }
                            }
                        }
                        assert(views(names@) == before.push(info.name@));
                        assert(views(names@)[before.len() as int] == here[j as int]);
                        let t = here.subrange(0, j + 1);
                        assert(t.drop_last() =~= here.subrange(0, j as int));
                        assert(t.last() == here[j as int]);
                        assert(!before.contains(info.name@));
                        assert(add_new(seen_before, t) == before.push(info.name@));
                        assert forall|n: Seq<char>| #[trigger] views(names@).contains(n) implies exists|x: int|
                            0 <= x <= b && #[trigger] batch_fields(orig[x]).contains(n) by {
                            let k = choose|k: int| 0 <= k < views(names@).len() && views(names@)[k] == n;
                            if k < before.len() {
                                assert(before[k] == n);
                                assert(before.contains(n));
                            } else {
                                assert(here[j as int] == n);
                                assert(batch_fields(orig[b as int]).contains(n));
                            }
                        }
                        assert forall|x: int, n: Seq<char>|
                            0 <= x < b && #[trigger] batch_fields(orig[x]).contains(n) implies views(
                                names@,
                            ).contains(n) by {
                            assert(before.contains(n));
                            let k = choose|k: int| 0 <= k < before.len() && before[k] == n;
                            assert(views(names@)[k] == n);
                        }
                        assert forall|jj: int| 0 <= jj < j implies views(names@).contains(
                            #[trigger] here[jj],
                        ) by {
                            assert(before.contains(here[jj]));
                            let k = choose|k: int| 0 <= k < before.len() && before[k] == here[jj];
                            assert(views(names@)[k] == here[jj]);
                        }
                    }
                },
            }
            assert(views(names@).contains(here[j as int]));
            j = j + 1;
        }
        assert(here.subrange(0, defs@.len() as int) =~= here);
        proof {
            assert forall|k2: int| 0 <= k2 < names@.len() implies #[trigger] nullable@[k2] == some_nullable(
                orig.subrange(0, b + 1),
                names@[k2]@,
            ) by {
                lemma_some_nullable_step(orig, b as int, names@[k2]@);
            }
            let p = field_lists(orig.subrange(0, b + 1));
            assert(p.drop_last() =~= field_lists(orig.subrange(0, b as int)));
            assert(p.last() == here);
            assert(views(names@) == first_seen(p));
            assert forall|x: int, n: Seq<char>|
                0 <= x < b + 1 && #[trigger] batch_fields(orig[x]).contains(n) implies views(names@).contains(
                n,
            ) by {
                if x == b {
                    let jj = choose|jj: int| 0 <= jj < here.len() && here[jj] == n;
                    assert(views(names@).contains(here[jj]));
                }
            }
        }
        b = b + 1;
    }
    let ghost all = views(names@);
    assert(orig == batches@);
    assert(orig.subrange(0, orig.len() as int) =~= orig);
    assert(all == first_seen(field_lists(orig)));
    assert(forall|k2: int| 0 <= k2 < names@.len() ==> #[trigger] nullable@[k2] == some_nullable(orig, names@[k2]@));
    assert(forall|x: int, m: Seq<char>|
        0 <= x < orig.len() && #[trigger] batch_fields(orig[x]).contains(m) ==> all.contains(m));
    assert(forall|m: Seq<char>|
        #[trigger] all.contains(m) ==> exists|x: int|
            0 <= x < orig.len() && #[trigger] batch_fields(orig[x]).contains(m));
    // A column some batch lacks is nullable, but for `present.*` columns,
    // which are filled with false.
    let mut k: usize = 0;
    let mut unified: Vec<FieldDef> = Vec::new();
    while k < names.len()
        invariant
            k <= names@.len(),
            fields@.len() == names@.len(),
            names@.len() == nullable@.len(),
            unified@.len() == k,
            forall|x: int| 0 <= x < names@.len() ==> #[trigger] field_name(fields@[x]) == names@[x]@,
            forall|x: int| 0 <= x < k ==> #[trigger] field_name(unified@[x]) == names@[x]@,
            forall|x: int| 0 <= x < orig.len() ==> !#[trigger] has_repeat(batch_fields(orig[x])),
            !(forall|x: int| 1 <= x < orig.len() ==> #[trigger] schemas_equal(orig[x], orig[0])),
            batches@ == orig,
            forall|k2: int| 0 <= k2 < names@.len() ==> #[trigger] nullable@[k2] == some_nullable(orig, names@[k2]@),
            forall|x: int| 0 <= x < k ==> #[trigger] field_nullable(unified@[x]) == unified_nullable(orig, names@[x]@),
        decreases names@.len() - k,
    {
        let mut everywhere = true;
        let mut c: usize = 0;
        while c < batches.len()
            invariant
                c <= batches@.len(),
                k < names@.len(),
                everywhere == forall|x: int| 0 <= x < c ==> #[trigger] batch_fields(batches@[x]).contains(names@[k as int]@),
            decreases batches@.len() - c,
        {
            if column_by_name(&batches[c], names[k].as_str()).is_none() {
                everywhere = false;
            }
            c = c + 1;
        }
        let lifted = nullable[k] || (!everywhere && !presence(&names[k]));
        let ghost unified0 = unified@;
        unified.push(with_nullable(&fields[k], lifted));
        proof {
            assert(lifted == unified_nullable(orig, names@[k as int]@));
            assert forall|x: int| 0 <= x < k + 1 implies #[trigger] field_nullable(unified@[x]) == unified_nullable(orig, names@[x]@) by {
                if x < k {
                    assert(unified@[x] == unified0[x]);
                }
            }
        }
        k = k + 1;
    }
    let mut filled: usize = 0;
    let mut out: Vec<Batch> = Vec::new();
    let n = batches.len();
    while out.len() < n
        invariant
            out@.len() <= n,
            n == orig.len(),
            batches@ == orig,
            unified@.len() == names@.len(),
            all == views(names@),
            forall|x: int| 0 <= x < names@.len() ==> #[trigger] field_name(unified@[x]) == names@[x]@,
            forall|j: int| 0 <= j < out@.len() ==> #[trigger] batch_rows(out@[j]) == batch_rows(orig[j]),
            forall|j: int| 0 <= j < out@.len() ==> #[trigger] batch_fields(out@[j]) == all,
            forall|x: int| 0 <= x < orig.len() ==> !#[trigger] has_repeat(batch_fields(orig[x])),
            !(forall|x: int| 1 <= x < orig.len() ==> #[trigger] schemas_equal(orig[x], orig[0])),
            forall|j: int, c: int|
                0 <= j < out@.len() && 0 <= c < all.len() && named_column(orig[j], all[c]) is Some
                    ==> #[trigger] batch_column(out@[j], c) == named_column(orig[j], all[c])->0,
            forall|x: int| 0 <= x < names@.len() ==> #[trigger] field_nullable(unified@[x]) == unified_nullable(orig, names@[x]@),
            forall|j: int, c: int|
                0 <= j < out@.len() && 0 <= c < all.len() ==> #[trigger] field_nullable(batch_defs(out@[j])[c])
                    == unified_nullable(orig, all[c]),
            forall|j: int| 0 <= j < out@.len() ==> #[trigger] batch_defs(out@[j]).len() == all.len(),
            forall|j: int, c: int|
                0 <= j < out@.len() && 0 <= c < all.len() && named_column(orig[j], all[c]) is None ==> filled_as(
                    #[trigger] batch_column(out@[j], c),
                    all[c],
                    batch_rows(orig[j]),
                ),
        decreases n - out@.len(),
    {
        let ghost at = out@.len() as int;
        let batch = &batches[out.len()];
        assert(*batch == orig[at]);
        let rows = num_rows(batch);
        let mut columns: Vec<Column> = Vec::new();
        let mut schema: Vec<FieldDef> = Vec::new();
        let mut k: usize = 0;
        while k < names.len()
            invariant
                k <= names@.len(),
                unified@.len() == names@.len(),
                rows == batch_rows(*batch),
                columns@.len() == k,
                schema@.len() == k,
                forall|x: int| 0 <= x < names@.len() ==> #[trigger] field_name(unified@[x]) == names@[x]@,
                forall|x: int| 0 <= x < k ==> #[trigger] field_name(schema@[x]) == names@[x]@,
                forall|x: int| 0 <= x < k ==> #[trigger] column_len(columns@[x]) == rows,
                forall|x: int|
                    0 <= x < k && named_column(*batch, names@[x]@) is Some ==> #[trigger] columns@[x]
                        == named_column(*batch, names@[x]@)->0,
                forall|x: int| 0 <= x < k ==> #[trigger] field_nullable(schema@[x]) == field_nullable(unified@[x]),
                forall|x: int|
                    0 <= x < k && named_column(*batch, names@[x]@) is None ==> filled_as(
                        #[trigger] columns@[x],
                        names@[x]@,
                        rows,
                    ),
            decreases names@.len() - k,
        {
            match column_by_name(batch, names[k].as_str()) {
                Some(column) => columns.push(column),
                None => {
                    let made = if presence(&names[k]) {
                        all_false(rows)
                    } else {
                        nulls_like(&unified[k], rows)
                    };
                    filled = filled.saturating_add(crate::frame::buffer_bytes(&made));
                    columns.push(made);
                },
            }
            schema.push(copy_field(&unified[k]));
            k = k + 1;
        }
        assert(field_names(schema@) =~= all);
        let ghost made_columns = columns@;
        let ghost made_schema = schema@;
        let ghost out0 = out@;
        match make_batch(schema, columns) {
            Ok(made) => {
                assert(column_len(columns@[0]) == batch_rows(made));
                out.push(made);
                proof {
                    assert forall|j: int, c: int|
                        0 <= j < out@.len() && 0 <= c < all.len() && named_column(orig[j], all[c]) is Some
                            implies #[trigger] batch_column(out@[j], c) == named_column(orig[j], all[c])->0 by {
                        if j < out0.len() {
                            assert(out@[j] == out0[j]);
                        } else {
                            assert(out@[j] == made);
                            assert(all[c] == names@[c]@);
                            assert(batch_column(made, c) == made_columns[c]);
                        }
                    }
                    assert forall|j: int, c: int|
                        0 <= j < out@.len() && 0 <= c < all.len() implies #[trigger] field_nullable(
                        batch_defs(out@[j])[c],
                    ) == unified_nullable(orig, all[c]) by {
                        if j < out0.len() {
                            assert(out@[j] == out0[j]);
                        } else {
                            assert(out@[j] == made);
                            assert(batch_defs(made)[c] == made_schema[c]);
                            assert(all[c] == names@[c]@);
                        }
                    }
                    assert forall|j: int| 0 <= j < out@.len() implies #[trigger] batch_defs(out@[j]).len() == all.len() by {
                        if j < out0.len() {
                            assert(out@[j] == out0[j]);
                        }
                    }
                    assert forall|j: int, c: int|
                        0 <= j < out@.len() && 0 <= c < all.len() && named_column(orig[j], all[c]) is None
                            implies filled_as(#[trigger] batch_column(out@[j], c), all[c], batch_rows(orig[j])) by {
                        if j < out0.len() {
                            assert(out@[j] == out0[j]);
                        } else {
                            assert(out@[j] == made);
                            assert(all[c] == names@[c]@);
                            assert(batch_column(made, c) == made_columns[c]);
                        }
                    }
                }
            },
            Err(message) => {
                return Err(NutmegError::Execution(message));
            },
        }
    }
    proof {
        assert forall|x: int, m: Seq<char>|
            0 <= x < orig.len() && #[trigger] batch_fields(orig[x]).contains(m) implies batch_fields(
                out@[0],
            ).contains(m) by {
            assert(batch_fields(out@[0]) == all);
        }
        assert forall|m: Seq<char>| #[trigger] batch_fields(out@[0]).contains(m) implies exists|x: int|
            0 <= x < orig.len() && #[trigger] batch_fields(orig[x]).contains(m) by {
            assert(batch_fields(out@[0]) == all);
            assert(all.contains(m));
        }
    }
    Ok((out, filled))
}

/// The key columns `key` of `batch`, in order.
pub open spec fn key_columns(batch: Batch, key: Seq<usize>) -> Seq<Column> {
    key.map_values(|k: usize| batch_column(batch, k as int))
}

/// The row counts of `batches`.
pub open spec fn row_counts(batches: Seq<Batch>) -> Seq<usize> {
    batches.map_values(|b: Batch| batch_rows(b))
}

/// The positions `order[x * SORTED_BATCH_ROWS ..]` the batch `x` of a
/// sorted part holds, at most [`SORTED_BATCH_ROWS`] of them.
pub open spec fn chunk_at(order: Seq<(usize, usize)>, x: int) -> Seq<(usize, usize)> {
    let start = x * SORTED_BATCH_ROWS;
    let end = if order.len() - start > SORTED_BATCH_ROWS {
        start + SORTED_BATCH_ROWS
    } else {
        order.len() as int
    };
    order.subrange(start, end)
}

/// Whether `out` holds every row of the batches `u` once, in the order
/// `order` gives: `order` is a permutation of their positions, sorted by
/// the key columns `key` as `converter` encoded them into `rows`, and each
/// column of each batch of `out` is that column of `u` gathered at the
/// batch's positions.
pub open spec fn sorted_into(
    u: Seq<Batch>,
    key: Seq<usize>,
    converter: Converter,
    rows: Seq<Encoded>,
    order: Seq<(usize, usize)>,
    out: Seq<Batch>,
) -> bool {
    &&& rows.len() == u.len()
    &&& forall|b: int|
        0 <= b < u.len() ==> #[trigger] encoded_columns(rows[b]) == key_columns(u[b], key) && converter_of(rows[b])
            == converter
    &&& order.to_multiset() == all_positions(row_counts(u)).to_multiset()
    &&& forall|p: int, q: int| 0 <= p < q < order.len() ==> rows_le(converter, rows, order[p], order[q])
    &&& forall|x: int, c: int|
        0 <= x < out.len() && 0 <= c < batch_fields(out[x]).len() ==> #[trigger] batch_column(out[x], c) == gathered(
            u,
            c,
            chunk_at(order, x),
        )
}

/// Whether `out` is a part's rows in canonical order: the batches of
/// `batches` that hold rows (by `counts`), brought to one field list, every
/// row once, sorted by the part's structural columns (see [`structural`])
/// and then the key's other columns.
pub open spec fn canonical_rows(part: Part, batches: Seq<Batch>, counts: Seq<usize>, out: Seq<Batch>) -> bool {
    exists|
        kept: Seq<Batch>,
        u: Seq<Batch>,
        key: Seq<usize>,
        converter: Converter,
        rows: Seq<Encoded>,
        order: Seq<(usize, usize)>,
    |
        #![trigger sorted_into(u, key, converter, rows, order, out), kept_with_rows(batches, counts, kept)]
        kept_with_rows(batches, counts, kept) && unified(kept, u) && u.len() > 0 && (forall|m: int|
            0 <= m < structural(part).len() ==> index_of(batch_fields(u[0]), structural(part)[m]) == Some(
                key[m] as int,
            )) && key_of(part, batch_fields(u[0]), sortable_flags(batch_defs(u[0])), key) && sorted_into(
            u,
            key,
            converter,
            rows,
            order,
            out,
        )
}

/// One part's rows in canonical order, and what holds them.
pub struct Sorted {
    /// The rows, in batches of [`SORTED_BATCH_ROWS`].
    pub batches: Vec<Batch>,
    /// The rows of each batch.
    pub counts: Vec<usize>,
    /// The admission the sorted copy keeps, shrunk to what it holds.
    pub held: Admitted,
    /// The rows sorted.
    pub rows: usize,
}

/// What a refusal of [`canonicalize`] says was needed: the columns an append
/// lacked, the sort's working space, sort keys beyond their bound, or a
/// sorted copy beyond its bound.
#[verifier::opaque]
pub open spec fn sort_need(what: Seq<char>) -> bool {
    ||| exists|n: nat| what == #[trigger] decimal(n) + " bytes of columns an append lacked"@
    ||| exists|need: nat, permutation: nat, keys: nat, copy: nat, rows: nat|
        what == #[trigger] sort_space_text(need, permutation, keys, copy, rows)
    ||| exists|n: nat| what == #[trigger] decimal(n) + " bytes more of sort keys, measured once encoded"@
    ||| exists|n: nat| what == #[trigger] decimal(n) + " bytes more for the sorted copy, measured once made"@
}

/// Whether `e`, where it is a refusal of memory, is the budget's refusal of
/// `what` for `part` of `graph` (see [`refusal_matches`]).
#[verifier::opaque]
pub open spec fn refused_for(e: NutmegError, graph: Seq<char>, part: Option<Part>, what: Seq<char>) -> bool {
    e is ResourcesExhausted ==> exists|limit: usize, own: usize, pool_limit: usize, used: usize|
        #[trigger] refusal_matches(e, graph, part, what, limit, own, pool_limit, used)
}

/// The sort's working space as a refusal describes it.
pub open spec fn sort_space_text(need: nat, permutation: nat, keys: nat, copy: nat, rows: nat) -> Seq<char> {
    decimal(need) + " bytes of the sort's working space: "@ + decimal(permutation)
        + " bytes of permutation, about "@ + decimal(keys) + " of sort keys and "@ + decimal(copy)
        + " for the sorted copy of "@ + decimal(rows) + " rows (stage with `order` = `asStaged` to skip the sort)"@
}

/// `"{n} bytes of the sort's working space: ..."`, as a refusal describes
/// the sort's need.
fn describe_sort(plan: &SortPlan, total: usize) -> (r: String)
    ensures
        r@ == decimal(plan.need as nat) + " bytes of the sort's working space: "@ + decimal(
            plan.permutation as nat,
        ) + " bytes of permutation, about "@ + decimal(plan.keys as nat) + " of sort keys and "@
            + decimal(plan.copy as nat) + " for the sorted copy of "@ + decimal(total as nat)
            + " rows (stage with `order` = `asStaged` to skip the sort)"@,
{
    let mut m = decimal_of(plan.need as u64);
    m.append(" bytes of the sort's working space: ");
    m.append(decimal_of(plan.permutation as u64).as_str());
    m.append(" bytes of permutation, about ");
    m.append(decimal_of(plan.keys as u64).as_str());
    m.append(" of sort keys and ");
    m.append(decimal_of(plan.copy as u64).as_str());
    m.append(" for the sorted copy of ");
    m.append(decimal_of(total as u64).as_str());
    m.append(" rows (stage with `order` = `asStaged` to skip the sort)");
    m
}

/// `"{n} {what}"`.
fn bytes_text(n: usize, what: &str) -> (r: String)
    ensures
        r@ == decimal(n as nat) + what@,
{
    let mut m = decimal_of(n as u64);
    m.append(what);
    m
}

/// Rewrite a whole part in canonical order (see [`StageOrder`]). Empty
/// batches are dropped and the rest brought to one schema ([`unify`]); the
/// sort is a permutation of (batch, row) positions compared through Arrow's
/// row format, and the rows are then gathered into batches of
/// [`SORTED_BATCH_ROWS`].
///
/// The sort's working space is admitted from `budget` before the sort
/// starts: the permutation, and whichever is larger of the sort keys and the
/// sorted copy ([`lemma_sort_space_covers`]). A key type the bound does not
/// cover is measured once encoded, and any excess admitted before the sort;
/// the copy is measured once made, and the admission for it raised to, or
/// shrunk to, what it holds. What is returned is the admission for the copy,
/// which the part keeps; the rest is released on return.
#[verifier::loop_isolation(false)]
#[verifier::spinoff_prover]
pub fn canonicalize(part: Part, batches: Vec<Batch>, counts: Vec<usize>, budget: &Budget) -> (r:
    Result<Sorted, NutmegError>)
    requires
        batches@.len() == counts@.len(),
        rows_match(batches@, counts@),
    ensures
        r matches Ok(s) ==> s.held.wf() && s.batches@.len() == s.counts@.len() && s.rows == total(
            counts@,
        ) && total(s.counts@) == total(counts@) && s.batches@.len() == ceil_div(
            s.rows,
            SORTED_BATCH_ROWS,
        ) && forall|i: int| 0 <= i < s.counts@.len() ==> 0 < #[trigger] s.counts@[i] <= SORTED_BATCH_ROWS,
        r matches Ok(s) ==> rows_match(s.batches@, s.counts@),
        r matches Ok(s) ==> canonical_fields(batches@, counts@, s.batches@),
        r matches Ok(s) ==> (s.rows > 0 ==> canonical_rows(part, batches@, counts@, s.batches@)),
        r is Err ==> r->Err_0 is Plan || r->Err_0 is Execution || r->Err_0 is ResourcesExhausted
            || r->Err_0 is Internal,
        r matches Err(NutmegError::Plan(m)) ==> refused_by_unify(m@),
        (forall|i: int| 0 <= i < counts@.len() ==> #[trigger] counts@[i] == 0) ==> (r matches Ok(s)
            && s.rows == 0 && s.batches@.len() == 0 && s.held@.len() == 0),
        r matches Err(e) ==> (e is ResourcesExhausted ==> exists|what: Seq<char>|
            #[trigger] refused_for(e, budget.graph@, budget.part, what) && sort_need(what)),
{
    let ghost given = batches@;
    let ghost given_counts = counts@;
    let (batches, counts) = nonempty(batches, counts);
    let ghost kept = batches@;
    proof {
        if forall|i: int| 0 <= i < given_counts.len() ==> #[trigger] given_counts[i] == 0 {
            if batches@.len() > 0 {
                let ghost w = choose|origin: Seq<int>, place: Seq<int>| #[trigger] kept_as(given, given_counts, batches@, origin, place);
                assert(given_counts[w.0[0]] > 0);
            }
        }
    }
    let ghost some_rows = !(forall|i: int| 0 <= i < given_counts.len() ==> #[trigger] given_counts[i] == 0);
    if batches.len() == 0 {
        assert(counts@ == Seq::<usize>::empty());
        return Ok(Sorted { batches, counts: Vec::new(), held: Admitted::new(), rows: 0 });
    }
    assert(some_rows);
    let mut work = Admitted::new();
    let (batches, filled) = match unify(batches) {
        Ok(u) => {
            assert(u.0@.len() == counts@.len());
            assert(unified(kept, u.0@));
            u
        },
        Err(e) => {
            return Err(e);
        },
    };
    assert(rows_match(batches@, counts@)) by {
        assert forall|i: int| 0 <= i < counts@.len() && i < batches@.len() implies #[trigger] batch_rows(
            batches@[i],
        ) == counts@[i] by {
            assert(batch_rows(batches@[i]) == batch_rows(kept[i]));
        }
    }
    // Columns an append lacked, made just now; small beside the part, and
    // measured rather than bounded.
    let lacked = bytes_text(filled, " bytes of columns an append lacked");
    if let Err(e) = budget.grant(&mut work, filled, lacked.as_str()) {
        proof {
            assert(refused_for(e, budget.graph@, budget.part, lacked@)) by {
                reveal(refused_for);
            }
            assert(sort_need(lacked@)) by {
                reveal(sort_need);
            }
        }
        return Err(e);
    }
    let defs = field_defs(&batches[0]);
    let mut names: Vec<String> = Vec::new();
    let mut sortables: Vec<bool> = Vec::new();
    let mut f: usize = 0;
    while f < defs.len()
        invariant
            f <= defs@.len(),
            names@.len() == f,
            sortables@.len() == f,
            views(names@) == field_names(defs@).subrange(0, f as int),
            forall|x: int| 0 <= x < f ==> #[trigger] sortables@[x] == field_sortable(defs@[x]),
        decreases defs@.len() - f,
    {
        let ghost names0 = names@;
        names.push(field_info(&defs[f]).name);
        assert(views(names@) =~= views(names0).push(field_name(defs@[f as int])));
        assert(field_names(defs@).subrange(0, f + 1) =~= field_names(defs@).subrange(0, f as int).push(
            field_name(defs@[f as int]),
        ));
        sortables.push(sortable(&defs[f]));
        f = f + 1;
    }
    assert(sortables@ =~= sortable_flags(batch_defs(batches@[0])));
    let key = match sort_key(part, &names, &sortables) {
        Ok(key) => key,
        Err(e) => {
            return Err(e);
        },
    };
    let mut key_fields: Vec<FieldDef> = Vec::new();
    let mut k: usize = 0;
    while k < key.len()
        invariant
            k <= key@.len(),
        decreases key@.len() - k,
    {
        if key[k] < defs.len() {
            key_fields.push(copy_field(&defs[key[k]]));
        }
        k = k + 1;
    }
    let converter = match row_converter(&key_fields) {
        Ok(c) => c,
        Err(m) => {
            return Err(NutmegError::Execution(m));
        },
    };
    // Admit the working space before any of it is allocated.
    let order = positions(&counts, 0);
    let row_count = order.len();
    let mut keys_bound: Option<usize> = Some(0);
    let mut b: usize = 0;
    while b < batches.len()
        invariant
            b <= batches@.len(),
        decreases batches@.len() - b,
    {
        keys_bound = match (keys_bound, key_bytes_bound(&batches[b], &key)) {
            (Some(sum), Some(bytes)) => Some(sum.saturating_add(bytes)),
            _ => None,
        };
        b = b + 1;
    }
    let copy = sorted_copy_bound(&batches);
    let plan = sort_plan(row_count, core::mem::size_of::<(usize, usize)>(), keys_bound, copy);
    let describe = describe_sort(&plan, row_count);
    let mut sorted = Admitted::new();
    if let Err(e) = budget.grant(&mut work, plan.permutation.saturating_add(plan.beyond_copy), describe.as_str()) {
        proof {
            assert(refused_for(e, budget.graph@, budget.part, describe@)) by {
                reveal(refused_for);
            }
            assert(sort_need(describe@)) by {
                reveal(sort_need);
                assert(describe@ == sort_space_text(
                    plan.need as nat,
                    plan.permutation as nat,
                    plan.keys as nat,
                    plan.copy as nat,
                    row_count as nat,
                ));
            }
        }
        return Err(e);
    }
    if let Err(e) = budget.grant(&mut sorted, copy, describe.as_str()) {
        proof {
            assert(refused_for(e, budget.graph@, budget.part, describe@)) by {
                reveal(refused_for);
            }
            assert(sort_need(describe@)) by {
                reveal(sort_need);
                assert(describe@ == sort_space_text(
                    plan.need as nat,
                    plan.permutation as nat,
                    plan.keys as nat,
                    plan.copy as nat,
                    row_count as nat,
                ));
            }
        }
        return Err(e);
    }
    let mut rows: Vec<Encoded> = Vec::new();
    let mut encoded: usize = 0;
    let mut b: usize = 0;
    let ghost first_names = batch_fields(batches@[0]);
    assert(views(names@) == first_names) by {
        assert(field_names(defs@).subrange(0, defs@.len() as int) =~= field_names(defs@));
    }
    assert(key@.len() > 0 && key@[0] < first_names.len()) by {
        crate::order::lemma_index_of_contains(views(names@), structural(part)[0]);
    }
    while b < batches.len()
        invariant
            b <= batches@.len(),
            rows@.len() == b,
            some_rows,
            some_rows == !(forall|i: int| 0 <= i < given_counts.len() ==> #[trigger] given_counts[i] == 0),
            key@.len() > 0,
            key@[0] < first_names.len(),
            first_names == batch_fields(batches@[0]),
            forall|i: int| 0 <= i < batches@.len() ==> #[trigger] batch_fields(batches@[i]) == batch_fields(batches@[0]),
            forall|j: int| 0 <= j < b ==> #[trigger] encoded_rows(rows@[j]) == batch_rows(batches@[j]),
            forall|j: int| 0 <= j < b ==> #[trigger] encoded_columns(rows@[j]) == key_columns(batches@[j], key@),
            forall|j: int| 0 <= j < b ==> #[trigger] converter_of(rows@[j]) == converter,
            forall|k: int| 0 <= k < key@.len() ==> #[trigger] key@[k] < first_names.len(),
        decreases batches@.len() - b,
    {
        let all = columns_of(&batches[b]);
        assert(all@.len() == first_names.len());
        let mut columns: Vec<Column> = Vec::new();
        let mut k: usize = 0;
        while k < key.len()
            invariant
                k <= key@.len(),
                b < batches@.len(),
                key@.len() > 0,
                key@[0] < all@.len(),
                forall|i: int| 0 <= i < all@.len() ==> #[trigger] column_len(all@[i]) == batch_rows(batches@[b as int]),
                k > 0 ==> columns@.len() > 0,
                forall|j: int| 0 <= j < columns@.len() ==> #[trigger] column_len(columns@[j]) == batch_rows(
                    batches@[b as int],
                ),
                forall|q: int| 0 <= q < key@.len() ==> #[trigger] key@[q] < all@.len(),
                forall|i: int| 0 <= i < all@.len() ==> #[trigger] all@[i] == batch_column(batches@[b as int], i),
                columns@ == key_columns(batches@[b as int], key@.subrange(0, k as int)),
            decreases key@.len() - k,
        {
            let ghost c0 = columns@;
            if key[k] < all.len() {
                columns.push(share_column(&all[key[k]]));
            }
            assert(key_columns(batches@[b as int], key@.subrange(0, k + 1)) =~= key_columns(
                batches@[b as int],
                key@.subrange(0, k as int),
            ).push(batch_column(batches@[b as int], key@[k as int] as int)));
            k = k + 1;
        }
        assert(key@.subrange(0, key@.len() as int) =~= key@);
        assert(columns@ == key_columns(batches@[b as int], key@));
        let ghost rows0 = rows@;
        let ghost cols = columns@;
        match encode(&converter, &columns) {
            Ok(e) => {
                assert(encoded_columns(e) == key_columns(batches@[b as int], key@));
                assert(converter_of(e) == converter);
                encoded = encoded.saturating_add(encoded_size(&e));
                rows.push(e);
                proof {
                    assert forall|j: int| 0 <= j < b + 1 implies #[trigger] encoded_rows(rows@[j]) == batch_rows(
                        batches@[j],
                    ) by {
                        if j < b {
                            assert(rows@[j] == rows0[j]);
                        }
                    }
                    assert forall|j: int| 0 <= j < b + 1 implies #[trigger] encoded_columns(rows@[j])
                        == key_columns(batches@[j], key@) by {
                        if j < b {
                            assert(rows@[j] == rows0[j]);
                        } else {
                            assert(rows@[j] == e);
                        }
                    }
                    assert forall|j: int| 0 <= j < b + 1 implies #[trigger] converter_of(rows@[j]) == converter by {
                        if j < b {
                            assert(rows@[j] == rows0[j]);
                        } else {
                            assert(rows@[j] == e);
                        }
                    }
                }
            },
            Err(m) => {
                return Err(NutmegError::Execution(m));
            },
        }
        b = b + 1;
    }
    // A key type the bound does not cover is measured once encoded, and any
    // excess over the room admitted for keys is admitted before the sort.
    if encoded > plan.room {
        let excess = encoded - plan.room;
        let what = bytes_text(excess, " bytes more of sort keys, measured once encoded");
        if let Err(e) = budget.grant(&mut work, excess, what.as_str()) {
            proof {
                assert(refused_for(e, budget.graph@, budget.part, what@)) by {
                    reveal(refused_for);
                }
                assert(sort_need(what@)) by {
                    reveal(sort_need);
                }
            }
            return Err(e);
        }
    }
    let mut order = order;
    let ghost old_order = order@;
    proof {
        lemma_all_positions_bounds(counts@);
        assert forall|i: int| 0 <= i < old_order.len() implies #[trigger] names_row(rows@, old_order[i]) by {
            let p = old_order[i];
            assert(p.0 < counts@.len() && p.1 < counts@[p.0 as int]);
            assert(batch_rows(batches@[p.0 as int]) == counts@[p.0 as int]);
        }
    }
    assert forall|j: int| 0 <= j < rows@.len() implies #[trigger] converter_of(rows@[j]) == converter by {
        assert(encoded_columns(rows@[j]) == key_columns(batches@[j], key@));
    }
    assert(counts@ =~= row_counts(batches@));
    assert(old_order == all_positions(row_counts(batches@)));
    sort_positions(&mut order, &rows, &converter);
    proof {
        vstd::seq_lib::to_multiset_len(old_order);
        vstd::seq_lib::to_multiset_len(order@);
        assert forall|i: int| 0 <= i < order@.len() implies #[trigger] names_row(rows@, order@[i]) by {
            vstd::seq_lib::to_multiset_contains(order@, order@[i]);
            vstd::seq_lib::to_multiset_contains(old_order, order@[i]);
            assert(order@.contains(order@[i]));
            let j = choose|j: int| 0 <= j < old_order.len() && old_order[j] == order@[i];
            assert(names_row(rows@, old_order[j]));
        }
    }
    let n = order.len();
    let chunks = div_ceil(n, SORTED_BATCH_ROWS);
    let mut out: Vec<Batch> = Vec::with_capacity(chunks);
    let mut out_counts: Vec<usize> = Vec::new();
    let mut start: usize = 0;
    let fields = field_defs(&batches[0]);
    let width = fields.len();
    let ghost first = batch_fields(batches@[0]);
    assert(field_names(fields@) == first);
    while start < n
        invariant
            start <= n,
            n == order@.len(),
            start % SORTED_BATCH_ROWS == 0 || start == n,
            out@.len() == ceil_div(start, SORTED_BATCH_ROWS),
            out@.len() == out_counts@.len(),
            total(out_counts@) == start,
            forall|i: int| 0 <= i < out_counts@.len() ==> 0 < #[trigger] out_counts@[i] <= SORTED_BATCH_ROWS,
            width == fields@.len(),
            rows_match(out@, out_counts@),
            field_names(fields@) == first,
            forall|x: int| 0 <= x < out@.len() ==> #[trigger] batch_fields(out@[x]) == first,
            rows@.len() == batches@.len(),
            forall|i: int| 0 <= i < batches@.len() ==> #[trigger] batch_fields(batches@[i]) == first,
            forall|j: int| 0 <= j < batches@.len() ==> #[trigger] encoded_rows(rows@[j]) == batch_rows(batches@[j]),
            forall|i: int| 0 <= i < order@.len() ==> #[trigger] names_row(rows@, order@[i]),
            start < n ==> start == out@.len() * SORTED_BATCH_ROWS,
            forall|x: int, c: int|
                0 <= x < out@.len() && 0 <= c < batch_fields(out@[x]).len() ==> #[trigger] batch_column(out@[x], c)
                    == gathered(batches@, c, chunk_at(order@, x)),
            some_rows,
            some_rows == !(forall|i: int| 0 <= i < given_counts.len() ==> #[trigger] given_counts[i] == 0),
        decreases n - start,
    {
        let end = if n - start > SORTED_BATCH_ROWS {
            start + SORTED_BATCH_ROWS
        } else {
            n
        };
        let chunk = chunk_of(&order, start, end);
        assert forall|i: int| 0 <= i < chunk@.len() implies #[trigger] chunk@[i].0 < batches@.len() && chunk@[i].1
            < batch_rows(batches@[chunk@[i].0 as int]) by {
            assert(chunk@[i] == order@[start + i]);
            assert(names_row(rows@, order@[start + i]));
        }
        let mut columns: Vec<Column> = Vec::new();
        let mut schema: Vec<FieldDef> = Vec::new();
        let mut c: usize = 0;
        while c < width
            invariant
                c <= width,
                width == fields@.len(),
                columns@.len() == c,
                schema@.len() == c,
                forall|x: int| 0 <= x < c ==> #[trigger] field_name(schema@[x]) == field_name(fields@[x]),
                chunk@.len() == end - start,
                forall|j: int| 0 <= j < columns@.len() ==> #[trigger] column_len(columns@[j]) == chunk@.len(),
                forall|j: int| 0 <= j < columns@.len() ==> #[trigger] columns@[j] == gathered(batches@, j, chunk@),
                some_rows,
                some_rows == !(forall|i: int| 0 <= i < given_counts.len() ==> #[trigger] given_counts[i] == 0),
                field_names(fields@) == first,
                forall|i: int| 0 <= i < batches@.len() ==> #[trigger] batch_fields(batches@[i]) == first,
                forall|i: int|
                    0 <= i < chunk@.len() ==> #[trigger] chunk@[i].0 < batches@.len() && chunk@[i].1 < batch_rows(
                        batches@[chunk@[i].0 as int],
                    ),
            decreases width - c,
        {
            match gather(&batches, c, &chunk) {
                Ok(column) => {
                    columns.push(column);
                },
                Err(m) => {
                    return Err(NutmegError::Execution(m));
                },
            }
            schema.push(copy_field(&fields[c]));
            c = c + 1;
        }
        let ghost made_columns = columns@;
        let ghost out0 = out@;
        assert(field_names(schema@) =~= field_names(fields@));
        let ghost counts0 = out_counts@;
        match make_batch(schema, columns) {
            Ok(made) => {
                assert(column_len(made_columns[0]) == batch_rows(made));
                proof {
                    assert(chunk@ == chunk_at(order@, out0.len() as int));
                    assert forall|c: int| 0 <= c < batch_fields(made).len() implies #[trigger] batch_column(made, c)
                        == gathered(batches@, c, chunk_at(order@, out0.len() as int)) by {
                        assert(batch_column(made, c) == made_columns[c]);
                    }
                }
                out.push(made);
            },
            Err(m) => {
                return Err(NutmegError::Execution(m));
            },
        }
        proof {
            lemma_next_chunk(start as int, end as int, n as int);
            crate::budget::lemma_total_push(out_counts@, (end - start) as usize);
        }
        out_counts.push(end - start);
        proof {
            assert forall|i: int| 0 <= i < out_counts@.len() && i < out@.len() implies #[trigger] batch_rows(
                out@[i],
            ) == out_counts@[i] by {
                if i < counts0.len() {
                    assert(out@[i] == out0[i]);
                    assert(out_counts@[i] == counts0[i]);
                }
            }
            assert forall|x: int| 0 <= x < out@.len() implies #[trigger] batch_fields(out@[x]) == first by {
                if x < out0.len() {
                    assert(out@[x] == out0[x]);
                }
            }
            assert forall|x: int, c: int|
                0 <= x < out@.len() && 0 <= c < batch_fields(out@[x]).len() implies #[trigger] batch_column(
                out@[x],
                c,
            ) == gathered(batches@, c, chunk_at(order@, x)) by {
                if x < out0.len() {
                    assert(out@[x] == out0[x]);
                }
            }
        }
        start = end;
    }
    // The bound covers every type the gather copies exactly; anything it
    // underestimated is admitted now, and what it overestimated returned
    // now, so the part holds what the copy keeps alive.
    let held = held_bytes(&out);
    let admitted = sorted.bytes();
    if held > admitted {
        let excess = held - admitted;
        let what = bytes_text(excess, " bytes more for the sorted copy, measured once made");
        if let Err(e) = budget.grant(&mut sorted, excess, what.as_str()) {
            proof {
                assert(refused_for(e, budget.graph@, budget.part, what@)) by {
                    reveal(refused_for);
                }
                assert(sort_need(what@)) by {
                    reveal(sort_need);
                }
            }
            return Err(e);
        }
    } else {
        if let Err(e) = sorted.shrink_to(held) {
            return Err(e);
        }
    }
    proof {
        lemma_canonical_fields(given, given_counts, kept, batches@, out@);
        assert(sorted_into(batches@, key@, converter, rows@, order@, out@));
        assert(kept_with_rows(given, given_counts, kept));
        assert(unified(kept, batches@));
        assert(forall|m: int|
            0 <= m < structural(part).len() ==> index_of(batch_fields(batches@[0]), structural(part)[m]) == Some(
                key@[m] as int,
            ));
        assert(canonical_rows(part, given, given_counts, out@));
    }
    Ok(Sorted { batches: out, counts: out_counts, held: sorted, rows: n })
}

} // verus!
