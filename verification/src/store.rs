//! Named graphs and the one memory budget everything built for them is
//! admitted from: staging a part, replacing or appending to it, listing and
//! dropping graphs.
use vstd::prelude::*;
use vstd::string::*;

use crate::budget::{
    failure, live_bytes, memory_limit, refusal_of, total, Admitted, Budget, Refusal,
};
use crate::catalog::views;
use crate::error::NutmegError;
use crate::frame::{batch_rows, columns_of, num_rows, rows_match, share_batch, slice_bytes, Batch};
use crate::layout::{normalize_edges, normalize_nodes, ColumnMapping};
use crate::order::{canonical_rows, canonicalize, index_of, refused_by_unify, refused_for, sort_need, pair_view, pair_views, pairs_sorted, sort_pairs, StageOrder};
use crate::sizes::held_bytes;
use crate::text::decimal_of;
use crate::Part;

verus! {

#[verifier::external_type_specification]
#[verifier::external_body]
pub struct ExGraphProjection(grust_algorithms::GraphProjection);

/// The rows of one part of a graph, the rows of each of its batches, and the
/// memory admitted for them, held as long as they are.
pub struct Staged {
    batches: Vec<Batch>,
    counts: Vec<usize>,
    held: Admitted,
}

/// What the contracts see of a part: its batches, the rows of each batch,
/// and the charge of each reservation that holds them.
pub ghost struct StagedView {
    pub batches: Seq<Batch>,
    pub counts: Seq<usize>,
    pub charges: Seq<usize>,
}

impl Staged {
    pub closed spec fn view(&self) -> StagedView {
        StagedView { batches: self.batches@, counts: self.counts@, charges: self.held@ }
    }

    /// One count per batch, each the batch's rows.
    pub closed spec fn wf(&self) -> bool {
        &&& self.batches@.len() == self.counts@.len()
        &&& rows_match(self.batches@, self.counts@)
        &&& self.held.wf()
    }

    /// No rows.
    pub fn new() -> (r: Staged)
        ensures
            r.wf(),
            r@ == empty_part(),
    {
        Staged { batches: Vec::new(), counts: Vec::new(), held: Admitted::new() }
    }

    /// The rows staged, held at `usize::MAX`.
    pub fn rows(&self) -> (r: usize)
        requires
            self.wf(),
        ensures
            r == sat_total(self@.counts),
    {
        let mut sum: usize = 0;
        let mut i: usize = 0;
        while i < self.counts.len()
            invariant
                i <= self.counts@.len(),
                sum == sat_total(self.counts@.subrange(0, i as int)),
            decreases self.counts@.len() - i,
        {
            proof {
                let s = self.counts@.subrange(0, i + 1);
                assert(s.drop_last() == self.counts@.subrange(0, i as int));
            }
            sum = sum.saturating_add(self.counts[i]);
            i = i + 1;
        }
        assert(self.counts@.subrange(0, self.counts@.len() as int) == self.counts@);
        sum
    }

    /// Whether no rows were staged.
    pub fn is_empty(&self) -> (r: bool)
        requires
            self.wf(),
        ensures
            r == (self@.counts.len() == 0),
    {
        self.counts.len() == 0
    }

    /// The bytes of the budget the rows hold.
    pub fn bytes(&self) -> (r: usize)
        requires
            self.wf(),
        ensures
            r == total(self@.charges),
    {
        self.held.bytes()
    }

    /// Second handles on the batches (their columns are shared) and the
    /// batches' own row counts.
    fn share_rows(&self) -> (r: (Vec<Batch>, Vec<usize>))
        requires
            self.wf(),
        ensures
            r.0@ == self@.batches,
            r.0@.len() == r.1@.len(),
            r.1@ == self@.counts,
            rows_match(r.0@, r.1@),
    {
        let mut batches: Vec<Batch> = Vec::new();
        let mut i: usize = 0;
        while i < self.batches.len()
            invariant
                i <= self.batches@.len(),
                batches@.len() == i,
                self.wf(),
                forall|j: int| 0 <= j < i ==> #[trigger] batches@[j] == self.batches@[j],
            decreases self.batches@.len() - i,
        {
            batches.push(share_batch(&self.batches[i]));
            i = i + 1;
        }
        assert(batches@ =~= self.batches@);
        (batches, self.counts.clone())
    }

    /// Second handles on the batches, for a read of them.
    pub fn share_batches(&self) -> (r: Vec<Batch>)
        requires
            self.wf(),
        ensures
            r@.len() == self@.counts.len(),
    {
        self.share_rows().0
    }
}

/// Batches and counts that match keep matching when both are extended by
/// matching ones.
proof fn lemma_rows_match_concat(b1: Seq<Batch>, c1: Seq<usize>, b2: Seq<Batch>, c2: Seq<usize>)
    requires
        b1.len() == c1.len(),
        rows_match(b1, c1),
        rows_match(b2, c2),
    ensures
        rows_match(b1 + b2, c1 + c2),
{
    assert forall|i: int| 0 <= i < (c1 + c2).len() && i < (b1 + b2).len() implies #[trigger] batch_rows(
        (b1 + b2)[i],
    ) == (c1 + c2)[i] by {
        if i < b1.len() {
            assert((b1 + b2)[i] == b1[i]);
            assert((c1 + c2)[i] == c1[i]);
        } else {
            assert((b1 + b2)[i] == b2[i - b1.len()]);
            assert((c1 + c2)[i] == c2[i - c1.len()]);
        }
    }
}

/// The sum of the counts, held at `usize::MAX` as each is added.
pub open spec fn sat_total(s: Seq<usize>) -> usize
    decreases s.len(),
{
    if s.len() == 0 {
        0
    } else {
        crate::sizes::sadd(sat_total(s.drop_last()), s.last())
    }
}

/// One named graph: its staged parts and the projections built from them.
pub struct Entry {
    nodes: Staged,
    edges: Staged,
    /// Whether the whole edges part is in canonical order, so the nodes
    /// derived from it (when no nodes are staged) are put in id order too.
    edges_canonical: bool,
    revision: u64,
    projections: Vec<(String, grust_algorithms::GraphProjection)>,
}

/// What the contracts see of a graph.
pub ghost struct EntryView {
    pub nodes: StagedView,
    pub edges: StagedView,
    pub edges_canonical: bool,
    /// Bumped by every write that is admitted.
    pub revision: nat,
    /// The keys of the projections cached for the current revision.
    pub projections: Seq<Seq<char>>,
}

impl Entry {
    pub closed spec fn view(&self) -> EntryView {
        EntryView {
            nodes: self.nodes@,
            edges: self.edges@,
            edges_canonical: self.edges_canonical,
            revision: self.revision as nat,
            projections: self.projections@.map_values(|p: (String, grust_algorithms::GraphProjection)| p.0@),
        }
    }

    pub closed spec fn wf(&self) -> bool {
        &&& self.nodes.wf()
        &&& self.edges.wf()
    }

    /// The part `part`.
    pub fn part(&self, part: Part) -> (r: &Staged)
        ensures
            part == Part::Nodes ==> r@ == self@.nodes,
            part == Part::Edges ==> r@ == self@.edges,
            self.wf() ==> r.wf(),
    {
        match part {
            Part::Nodes => &self.nodes,
            Part::Edges => &self.edges,
        }
    }

    /// Whether the edges part is in canonical order.
    pub fn edges_canonical(&self) -> (r: bool)
        ensures
            r == self@.edges_canonical,
    {
        self.edges_canonical
    }

    /// The revision: bumped by every admitted write.
    pub fn revision(&self) -> (r: u64)
        ensures
            r == self@.revision,
    {
        self.revision
    }
}

/// A part of `e`.
pub open spec fn part_of(e: EntryView, part: Part) -> StagedView {
    match part {
        Part::Nodes => e.nodes,
        Part::Edges => e.edges,
    }
}

/// What [`Store::list`] reports for one graph.
#[derive(Debug)]
pub struct GraphInfo {
    pub name: String,
    pub staged_nodes: usize,
    pub staged_edges: usize,
    /// Bytes of the memory budget the staged rows hold. Projections are not
    /// included; see [`MemoryInfo`].
    pub staged_bytes: usize,
    pub revision: u64,
    pub projections: usize,
}

/// What [`Store::memory`] reports: the budget and what holds it.
#[derive(Clone, Copy, Debug, PartialEq, Eq, Structural)]
pub struct MemoryInfo {
    /// The budget.
    pub limit_bytes: usize,
    /// Everything admitted now: staged rows, writes in progress, cached
    /// projections and running kernels.
    pub used_bytes: usize,
    /// The part of `used_bytes` held by staged rows, summed over graphs.
    pub staged_bytes: usize,
    /// The most ever admitted at once.
    pub peak_bytes: usize,
}

/// The names of the graphs, in the store's own order.
pub open spec fn names_of(s: Seq<(Seq<char>, EntryView)>) -> Seq<Seq<char>> {
    s.map_values(|g: (Seq<char>, EntryView)| g.0)
}

/// No two graphs share a name.
pub open spec fn distinct(names: Seq<Seq<char>>) -> bool {
    forall|i: int, j: int| 0 <= i < j < names.len() ==> names[i] != names[j]
}

/// The graph named `name`, if there is one.
pub open spec fn lookup(s: Seq<(Seq<char>, EntryView)>, name: Seq<char>) -> Option<EntryView> {
    match index_of(names_of(s), name) {
        Some(i) => Some(s[i].1),
        None => None,
    }
}

/// In a sequence of distinct names, a name is found exactly where it is.
pub proof fn lemma_index_of_distinct(names: Seq<Seq<char>>, name: Seq<char>)
    requires
        distinct(names),
    ensures
        forall|i: int| 0 <= i < names.len() && names[i] == name ==> index_of(names, name) == Some(i),
        (forall|i: int| 0 <= i < names.len() ==> names[i] != name) ==> index_of(names, name) is None,
    decreases names.len(),
{
    if names.len() > 0 {
        let rest = names.drop_last();
        assert(distinct(rest));
        lemma_index_of_distinct(rest, name);
        if names.last() == name {
            assert forall|i: int| 0 <= i < rest.len() implies rest[i] != name by {
                assert(names[i] == rest[i]);
            }
            assert(index_of(rest, name) is None);
            assert(index_of(names, name) == Some(names.len() - 1));
            assert forall|i: int| 0 <= i < names.len() && names[i] == name implies index_of(names, name)
                == Some(i) by {
                if i < names.len() - 1 {
                    assert(names[i] != names[names.len() - 1]);
                }
            }
        } else {
            assert forall|i: int| 0 <= i < names.len() && names[i] == name implies index_of(names, name)
                == Some(i) by {
                assert(i < names.len() - 1);
                assert(rest[i] == name);
            }
        }
    }
}

/// The environment variable that sets the memory budget, in bytes.
pub const MEMORY_BYTES_VARIABLE: &'static str = "NUTMEG_MEMORY_BYTES";

/// The rows in one batch a provider of the pool hands a kernel.
pub const POOL_BATCH_ROWS: usize = 8192;

/// A Grust execution with `memory_bytes` as its memory ceiling,
/// `work_units` as its work ceiling, batches of `batch_rows` rows and no
/// deadline (`ExecutionContext::new`, which refuses only a zero batch size
/// where there is no deadline).
#[verifier::external_body]
fn pool_context(memory_bytes: usize, work_units: usize, batch_rows: usize) -> grust_procedures::ExecutionContext
    requires
        batch_rows > 0,
{
    grust_procedures::ExecutionContext::new(grust_procedures::ExecutionLimits {
        memory_bytes,
        work_units,
        batch_rows,
        deadline: None,
    }).expect("a positive batch size is a valid execution")
}

/// Named graphs and the one memory budget everything built for them is
/// admitted from. Staged rows, each write's transient copies and its sort,
/// every cached projection and every read draw on it.
pub struct Store {
    graphs: Vec<(String, Entry)>,
    pool: grust_procedures::ExecutionContext,
}

impl Store {
    /// Every graph, by name.
    pub closed spec fn view(&self) -> Seq<(Seq<char>, EntryView)> {
        self.graphs@.map_values(|g: (String, Entry)| (g.0@, g.1@))
    }

    /// No two graphs share a name, and each is well formed.
    pub closed spec fn wf(&self) -> bool {
        &&& distinct(names_of(self@))
        &&& forall|i: int| 0 <= i < self.graphs@.len() ==> (#[trigger] self.graphs@[i]).1.wf()
    }

    /// No graphs, under a budget of `memory_bytes`, with no work ceiling.
    pub fn new(memory_bytes: usize) -> (r: Store)
        ensures
            r.wf(),
            r@ == Seq::<(Seq<char>, EntryView)>::empty(),
    {
        let r = Store { graphs: Vec::new(), pool: pool_context(memory_bytes, usize::MAX, POOL_BATCH_ROWS) };
        assert(r@ =~= Seq::<(Seq<char>, EntryView)>::empty());
        r
    }

    /// The execution every admission of this store counts against.
    pub closed spec fn pool_view(&self) -> grust_procedures::ExecutionContext {
        self.pool
    }

    /// The budget: the execution every admission counts against.
    pub fn pool(&self) -> (r: &grust_procedures::ExecutionContext)
        ensures
            *r == self.pool_view(),
    {
        &self.pool
    }

    /// Where the graph named `name` is kept, if there is one.
    pub fn find(&self, name: &str) -> (r: Option<usize>)
        requires
            self.wf(),
        ensures
            match index_of(names_of(self@), name@) {
                Some(i) => r matches Some(x) && x as int == i,
                None => r is None,
            },
            r matches Some(x) ==> x < self@.len() && self@[x as int].0 == name@,
            lookup(self@, name@) is Some <==> r is Some,
    {
        let want = crate::text::chars_of(name);
        let ghost names = names_of(self@);
        let mut i: usize = 0;
        while i < self.graphs.len()
            invariant
                i <= self.graphs@.len(),
                names == names_of(self@),
                names.len() == self.graphs@.len(),
                want@ == name@,
                distinct(names),
                forall|j: int| 0 <= j < i ==> names[j] != name@,
            decreases self.graphs@.len() - i,
        {
            let got = crate::text::chars_of(self.graphs[i].0.as_str());
            assert(names[i as int] == self.graphs@[i as int].0@);
            if crate::text::eq_chars(got.as_slice(), want.as_slice()) {
                proof {
                    lemma_index_of_distinct(names, name@);
                }
                return Some(i);
            }
            i = i + 1;
        }
        proof {
            lemma_index_of_distinct(names, name@);
        }
        None
    }

    /// The graph named `name`, if there is one.
    pub fn entry(&self, name: &str) -> (r: Option<&Entry>)
        requires
            self.wf(),
        ensures
            match lookup(self@, name@) {
                Some(e) => r matches Some(x) && x@ == e && x.wf(),
                None => r is None,
            },
    {
        match self.find(name) {
            Some(i) => {
                proof {
                    assert(self.graphs@[i as int].1.wf());
                }
                Some(&self.graphs[i].1)
            },
            None => None,
        }
    }

    /// The graph named `name`, or the refusal a read of a graph never staged
    /// is given.
    pub fn existing(&self, name: &str) -> (r: Result<&Entry, NutmegError>)
        requires
            self.wf(),
        ensures
            match lookup(self@, name@) {
                Some(e) => r matches Ok(x) && x@ == e && x.wf(),
                None => r matches Err(NutmegError::Execution(m)) && m@ == unknown_graph_text(name@),
            },
    {
        match self.entry(name) {
            Some(e) => Ok(e),
            None => Err(
                NutmegError::Execution(
                    crate::error::join3("nutmeg: no graph named `", name, "`; stage its rows first"),
                ),
            ),
        }
    }

    /// Forget `name` and everything built from it, releasing its memory once
    /// no read still running on it holds its rows or a projection. Whether
    /// there was such a graph.
    pub fn drop(&mut self, name: &str) -> (r: bool)
        requires
            old(self).wf(),
        ensures
            final(self).wf(),
            r == (lookup(old(self)@, name@) is Some),
            lookup(final(self)@, name@) is None,
            forall|other: Seq<char>|
                other != name@ ==> #[trigger] lookup(final(self)@, other) == lookup(
                    old(self)@,
                    other,
                ),
    {
        match self.find(name) {
            Some(i) => {
                let ghost before = self@;
                let ghost graphs = self.graphs@;
                let _gone = self.graphs.remove(i);
                proof {
                    assert(self@ =~= before.remove(i as int));
                    assert(names_of(self@) =~= names_of(before).remove(i as int));
                    lemma_distinct_remove(names_of(before), i as int);
                    assert forall|j: int| 0 <= j < self.graphs@.len() implies (
                    #[trigger] self.graphs@[j]).1.wf() by {
                        if j < i {
                            assert(self.graphs@[j] == graphs[j]);
                        } else {
                            assert(self.graphs@[j] == graphs[j + 1]);
                        }
                    }
                    lemma_lookup_remove(before, i as int);
                }
                true
            },
            None => false,
        }
    }

    /// What the listing reports of graph `name`: its staged rows and bytes,
    /// revision and cached projections.
    pub closed spec fn reports(g: GraphInfo, e: EntryView) -> bool {
        &&& g.staged_nodes == sat_total(e.nodes.counts)
        &&& g.staged_edges == sat_total(e.edges.counts)
        &&& g.staged_bytes == crate::sizes::sadd(
            total(e.nodes.charges) as usize,
            total(e.edges.charges) as usize,
        )
        &&& g.revision == e.revision
        &&& g.projections == e.projections.len()
    }

    /// What the listing reports of one graph.
    fn info(name: &String, e: &Entry) -> (r: GraphInfo)
        requires
            e.wf(),
        ensures
            r.name@ == name@,
            Store::reports(r, e@),
    {
        GraphInfo {
            name: name.clone(),
            staged_nodes: e.nodes.rows(),
            staged_edges: e.edges.rows(),
            staged_bytes: e.nodes.bytes().saturating_add(e.edges.bytes()),
            revision: e.revision,
            projections: e.projections.len(),
        }
    }

    /// The graphs, in name order, each with its staged rows and bytes,
    /// revision and cached projections.
    pub fn list(&self) -> (r: Vec<GraphInfo>)
        requires
            self.wf(),
        ensures
            r@.len() == self@.len(),
            forall|i: int, j: int|
                0 <= i < j < r@.len() ==> crate::catalog::text_lt(r@[i].name@, r@[j].name@),
            forall|i: int|
                0 <= i < r@.len() ==> ((#[trigger] lookup(self@, r@[i].name@)) matches Some(e)
                    && Store::reports(r@[i], e)),
            forall|j: int|
                #![trigger self@[j]]
                0 <= j < self@.len() ==> exists|i: int|
                    0 <= i < r@.len() && #[trigger] r@[i].name@ == self@[j].0,
            lists(self@, r@),
            listed_sum(r@) == staged_sum(self@),
    {
        let mut order: Vec<(String, usize)> = Vec::new();
        let mut i: usize = 0;
        while i < self.graphs.len()
            invariant
                i <= self.graphs@.len(),
                order@.len() == i,
                forall|j: int|
                    0 <= j < i ==> (#[trigger] pair_views(order@)[j]) == (self@[j].0, j as usize),
            decreases self.graphs@.len() - i,
        {
            let ghost before = order@;
            order.push((self.graphs[i].0.clone(), i));
            proof {
                assert(pair_views(order@) =~= pair_views(before).push(pair_view(order@[i as int])));
            }
            i = i + 1;
        }
        let ghost unsorted = pair_views(order@);
        let ghost n = self@.len();
        proof {
            assert(unsorted.no_duplicates()) by {
                assert forall|a: int, b: int|
                    0 <= a < unsorted.len() && 0 <= b < unsorted.len() && a != b implies unsorted[a]
                    != unsorted[b] by {
                    assert(unsorted[a].1 == a as usize);
                    assert(unsorted[b].1 == b as usize);
                }
            }
            unsorted.lemma_multiset_has_no_duplicates();
        }
        sort_pairs(&mut order);
        let ghost sorted = pair_views(order@);
        proof {
            sorted.lemma_multiset_has_no_duplicates_conv();
            vstd::seq_lib::to_multiset_len(sorted);
            vstd::seq_lib::to_multiset_len(unsorted);
            assert forall|k: int| 0 <= k < sorted.len() implies (#[trigger] sorted[k]).1 < n
                && sorted[k].0 == self@[sorted[k].1 as int].0 by {
                vstd::seq_lib::to_multiset_contains(sorted, sorted[k]);
                vstd::seq_lib::to_multiset_contains(unsorted, sorted[k]);
                let j = choose|j: int| 0 <= j < unsorted.len() && unsorted[j] == sorted[k];
            }
        }
        let mut out: Vec<GraphInfo> = Vec::new();
        let mut k: usize = 0;
        while k < order.len()
            invariant
                k <= order@.len(),
                out@.len() == k,
                sorted == pair_views(order@),
                sorted.len() == n,
                n == self.graphs@.len(),
                self.wf(),
                forall|m: int|
                    0 <= m < sorted.len() ==> (#[trigger] sorted[m]).1 < n && sorted[m].0 == self@[sorted[m].1 as int].0,
                forall|m: int|
                    0 <= m < k ==> (#[trigger] out@[m]).name@ == sorted[m].0 && Store::reports(
                        out@[m],
                        self@[sorted[m].1 as int].1,
                    ),
            decreases order@.len() - k,
        {
            let index = order[k].1;
            assert(sorted[k as int].1 == index);
            assert(self.graphs@[index as int].1.wf());
            let g = Store::info(&self.graphs[index].0, &self.graphs[index].1);
            out.push(g);
            k = k + 1;
        }
        proof {
            let names = names_of(self@);
            assert forall|a: int, b: int| 0 <= a < b < out@.len() implies crate::catalog::text_lt(
                out@[a].name@,
                out@[b].name@,
            ) by {
                assert(sorted[a] != sorted[b]);
                assert(!crate::order::pair_lt(sorted[b], sorted[a]));
                if sorted[a].0 == sorted[b].0 {
                    assert(names[sorted[a].1 as int] == names[sorted[b].1 as int]);
                    assert(sorted[a].1 == sorted[b].1);
                }
                crate::options::lemma_text_lt_total(sorted[a].0, sorted[b].0);
            }
            assert forall|a: int| 0 <= a < out@.len() implies ((#[trigger] lookup(self@, out@[a].name@))
                matches Some(e) && Store::reports(out@[a], e)) by {
                lemma_index_of_distinct(names, out@[a].name@);
                assert(names[sorted[a].1 as int] == out@[a].name@);
            }
            assert forall|j: int| #![trigger self@[j]] 0 <= j < self@.len() implies exists|i: int|
                0 <= i < out@.len() && #[trigger] out@[i].name@ == self@[j].0 by {
                assert(unsorted[j] == (self@[j].0, j as usize));
                vstd::seq_lib::to_multiset_contains(unsorted, unsorted[j]);
                vstd::seq_lib::to_multiset_contains(sorted, unsorted[j]);
                let k = choose|k: int| 0 <= k < sorted.len() && sorted[k] == unsorted[j];
                assert(out@[k].name@ == self@[j].0);
            }
            assert forall|a: int, b: int| 0 <= a < b < out@.len() implies out@[a].name@ != out@[b].name@ by {
                crate::options::lemma_text_lt_irreflexive(out@[a].name@);
            }
            assert(lists(self@, out@));
            lemma_memory_is_the_listing_total(self, out@);
        }
        out
    }
}

impl Store {
    /// Begin a write that is fed a batch at a time (see [`Staging`]).
    pub fn staging(
        &self,
        name: &str,
        part: Part,
        mapping: &ColumnMapping,
        replace: bool,
        order: StageOrder,
    ) -> (r: Staging)
        ensures
            r.wf(),
            r@.graph == name@,
            r@.part == part,
            r@.replace == replace,
            r@.order == order,
            r@.batches == Seq::<Batch>::empty(),
            r@.counts == Seq::<usize>::empty(),
            r@.charges == Seq::<usize>::empty(),
    {
        Staging {
            graph: String::from_str(name),
            part,
            mapping: mapping.duplicate(),
            replace,
            order,
            normalized: Vec::new(),
            counts: Vec::new(),
            fresh: Admitted::new(),
        }
    }

    /// Stage `batches` under `name`, renaming them into the grust-arrow
    /// layout. `replace` discards that part's earlier rows. Returns the rows
    /// now staged for that part. A write refused at any batch, or at its
    /// sort, leaves every graph as it was; an admitted one bumps the graph's
    /// revision, evicts its projections, keeps the earlier rows unless it
    /// replaces them, and leaves the other part and every other graph alone.
    pub fn stage(
        &mut self,
        name: &str,
        part: Part,
        batches: &Vec<Batch>,
        mapping: &ColumnMapping,
        replace: bool,
        order: StageOrder,
    ) -> (r: Result<usize, NutmegError>)
        requires
            old(self).wf(),
        ensures
            final(self).wf(),
            r is Err ==> final(self)@ == old(self)@,
            r matches Ok(n) ==> {
                let before = lookup(old(self)@, name@);
                let base = base_part(before, part, replace);
                lookup(final(self)@, name@) matches Some(e) && {
                    &&& e.revision == match before {
                        Some(b) => b.revision + 1,
                        None => 1,
                    }
                    &&& e.projections == Seq::<Seq<char>>::empty()
                    &&& part_of(e, other_part(part)) == match before {
                        Some(b) => part_of(b, other_part(part)),
                        None => empty_part(),
                    }
                    &&& n == total(part_of(e, part).counts)
                    &&& n == total(base.counts) + rows_in(batches@)
                    &&& order == StageOrder::AsStaged ==> part_of(e, part).counts.subrange(
                        0,
                        base.counts.len() as int,
                    ) == base.counts
                }
            },
            r is Ok ==> forall|other: Seq<char>|
                other != name@ ==> #[trigger] lookup(final(self)@, other) == lookup(
                    old(self)@,
                    other,
                ),
            order == StageOrder::AsStaged && (forall|i: int|
                0 <= i < batches@.len() ==> #[trigger] batch_rows(batches@[i]) == 0) ==> (r is Ok <==> {
                let before = lookup(old(self)@, name@);
                let base = base_part(before, part, replace);
                &&& total(base.charges) <= usize::MAX
                &&& total(base.counts) <= usize::MAX
                &&& (before matches Some(b) ==> b.revision < u64::MAX)
            }),
    {
        let mut staging = self.staging(name, part, mapping, replace, order);
        let ghost empty = (forall|i: int| 0 <= i < batches@.len() ==> #[trigger] batch_rows(batches@[i]) == 0);
        let mut i: usize = 0;
        while i < batches.len()
            invariant
                i <= batches@.len(),
                staging.wf(),
                staging@.graph == name@,
                staging@.part == part,
                staging@.replace == replace,
                staging@.order == order,
                self.wf(),
                self@ == old(self)@,
                total(staging@.counts) == rows_in(batches@.subrange(0, i as int)),
                empty == (forall|i: int| 0 <= i < batches@.len() ==> #[trigger] batch_rows(batches@[i]) == 0),
                empty ==> staging@.counts == Seq::<usize>::empty() && staging@.charges == Seq::<usize>::empty(),
            decreases batches@.len() - i,
        {
            let ghost counts0 = staging@.counts;
            if let Err(e) = staging.push(self, &batches[i]) {
                return Err(e);
            }
            proof {
                let s = batches@.subrange(0, i + 1);
                assert(s.drop_last() == batches@.subrange(0, i as int));
                assert(s.last() == batches@[i as int]);
                if batch_rows(batches@[i as int]) > 0 {
                    crate::budget::lemma_total_push(counts0, batch_rows(batches@[i as int]));
                }
            }
            i = i + 1;
        }
        assert(batches@.subrange(0, batches@.len() as int) == batches@);
        let r = staging.finish(self);
        proof {
            if r is Ok {
                let e = lookup(self@, name@)->0;
                let base = base_part(lookup(old(self)@, name@), part, replace);
                assert(total(part_of(e, part).counts) >= total(base.counts));
                if order == StageOrder::AsStaged {
                    assert(part_of(e, part).counts.subrange(0, base.counts.len() as int)
                        =~= base.counts);
                }
            }
        }
        r
    }

    /// The bytes staged rows hold, over every graph (see [`staged_sum`]).
    pub fn staged_bytes(&self) -> (r: usize)
        requires
            self.wf(),
        ensures
            r == staged_sum(self@),
    {
        let mut sum: usize = 0;
        let mut i: usize = 0;
        while i < self.graphs.len()
            invariant
                i <= self.graphs@.len(),
                self.wf(),
                sum == staged_sum(self@.subrange(0, i as int)),
            decreases self.graphs@.len() - i,
        {
            proof {
                assert(self.graphs@[i as int].1.wf());
                let s = self@.subrange(0, i + 1);
                assert(s.drop_last() == self@.subrange(0, i as int));
            }
            let e = &self.graphs[i].1;
            sum = sum.saturating_add(e.nodes.bytes().saturating_add(e.edges.bytes()));
            i = i + 1;
        }
        assert(self@.subrange(0, self@.len() as int) == self@);
        sum
    }

    /// The memory budget and what is using it: the budget's ceiling, what it
    /// holds now and the most it has held, and the part staged rows hold.
    pub fn memory(&self) -> (r: Result<MemoryInfo, NutmegError>)
        requires
            self.wf(),
        ensures
            r matches Ok(m) ==> m.staged_bytes == staged_sum(self@),
            r is Err ==> r->Err_0 is Execution,
    {
        let staged_bytes = self.staged_bytes();
        match crate::budget::usage_of(&self.pool) {
            Ok((used, peak, _work)) => Ok(
                MemoryInfo {
                    limit_bytes: memory_limit(&self.pool),
                    used_bytes: used,
                    staged_bytes,
                    peak_bytes: peak,
                },
            ),
            Err(refused) => Err(failure(&refused)),
        }
    }
}

impl Store {
    /// A second handle on the projection graph `name` has cached under `key`.
    pub fn cached(&self, name: &str, key: &str) -> (r: Option<grust_algorithms::GraphProjection>)
        requires
            self.wf(),
        ensures
            r is Some <==> (lookup(self@, name@) matches Some(e) && e.projections.contains(key@)),
    {
        match self.find(name) {
            Some(i) => {
                let e = &self.graphs[i].1;
                proof {
                    lemma_index_of_distinct(names_of(self@), name@);
                    assert(names_of(self@)[i as int] == name@);
                    assert(lookup(self@, name@) == Some(e@));
                }
                let want = crate::text::chars_of(key);
                let mut k: usize = 0;
                while k < e.projections.len()
                    invariant
                        k <= e.projections@.len(),
                        want@ == key@,
                        lookup(self@, name@) == Some(e@),
                        forall|j: int| 0 <= j < k ==> e@.projections[j] != key@,
                    decreases e.projections@.len() - k,
                {
                    let got = crate::text::chars_of(e.projections[k].0.as_str());
                    if crate::text::eq_chars(got.as_slice(), want.as_slice()) {
                        proof {
                            assert(e@.projections[k as int] == key@);
                        }
                        return Some(crate::runs::share_projection(&e.projections[k].1));
                    }
                    k = k + 1;
                }
                None
            },
            None => None,
        }
    }

    /// Cache `projection` for graph `name` under `key`, replacing one cached
    /// under it already. Whether there is such a graph; nothing else of it,
    /// nor any other graph, changes.
    pub fn cache(&mut self, name: &str, key: String, projection: grust_algorithms::GraphProjection) -> (r:
        bool)
        requires
            old(self).wf(),
        ensures
            final(self).wf(),
            r == lookup(old(self)@, name@) is Some,
            match lookup(old(self)@, name@) {
                Some(e) => lookup(final(self)@, name@) matches Some(f) && f.projections.contains(key@)
                    && f.nodes == e.nodes && f.edges == e.edges && f.revision == e.revision
                    && f.edges_canonical == e.edges_canonical,
                None => final(self)@ == old(self)@,
            },
            forall|other: Seq<char>|
                other != name@ ==> #[trigger] lookup(final(self)@, other) == lookup(
                    old(self)@,
                    other,
                ),
    {
        match self.find(name) {
            Some(i) => {
                let ghost graphs = self.graphs@;
                let ghost old_view = self@;
                let (graph, mut entry) = self.graphs.remove(i);
                let mut projections = Vec::new();
                std::mem::swap(&mut projections, &mut entry.projections);
                let want = crate::text::chars_of(key.as_str());
                let mut kept: Vec<(String, grust_algorithms::GraphProjection)> = Vec::new();
                let mut rest = projections;
                while rest.len() > 0
                    decreases rest@.len(),
                {
                    let item = rest.pop().unwrap();
                    let got = crate::text::chars_of(item.0.as_str());
                    if !crate::text::eq_chars(got.as_slice(), want.as_slice()) {
                        kept.push(item);
                    }
                }
                kept.push((key, projection));
                assert(kept@.last().0@ == key@);
                entry.projections = kept;
                self.graphs.insert(i, (graph, entry));
                proof {
                    let e = self.graphs@[i as int].1@;
                    assert(e.projections.last() == key@);
                    assert(e.projections.contains(key@));
                    assert(self.graphs@ =~= graphs.update(i as int, self.graphs@[i as int]));
                    assert(self@ =~= old_view.update(i as int, (name@, e)));
                    assert(names_of(self@) =~= names_of(old_view));
                    assert forall|j: int| 0 <= j < self.graphs@.len() implies (
                    #[trigger] self.graphs@[j]).1.wf() by {
                        if j != i {
                            assert(self.graphs@[j] == graphs[j]);
                        }
                    }
                    lemma_lookup_update(old_view, i as int, e);
                }
                true
            },
            None => false,
        }
    }
}

/// The rows of `batches`, added up.
pub open spec fn rows_in(batches: Seq<Batch>) -> nat
    decreases batches.len(),
{
    if batches.len() == 0 {
        0
    } else {
        rows_in(batches.drop_last()) + batch_rows(batches.last()) as nat
    }
}

/// The bytes staged rows hold, over the graphs, each graph's parts added,
/// held at `usize::MAX`.
pub open spec fn staged_sum(s: Seq<(Seq<char>, EntryView)>) -> usize
    decreases s.len(),
{
    if s.len() == 0 {
        0
    } else {
        let e = s.last().1;
        crate::sizes::sadd(
            staged_sum(s.drop_last()),
            crate::sizes::sadd(total(e.nodes.charges) as usize, total(e.edges.charges) as usize),
        )
    }
}

/// The bytes an entry's staged rows hold, its two parts added (held at
/// `usize::MAX`).
pub open spec fn entry_bytes(e: EntryView) -> usize {
    crate::sizes::sadd(total(e.nodes.charges) as usize, total(e.edges.charges) as usize)
}

/// The staged bytes of a listing, added in its order, held at `usize::MAX`.
pub open spec fn listed_sum(l: Seq<GraphInfo>) -> usize
    decreases l.len(),
{
    if l.len() == 0 {
        0
    } else {
        crate::sizes::sadd(listed_sum(l.drop_last()), l.last().staged_bytes)
    }
}

spec fn staged_total(s: Seq<(Seq<char>, EntryView)>) -> nat
    decreases s.len(),
{
    if s.len() == 0 {
        0
    } else {
        staged_total(s.drop_last()) + entry_bytes(s.last().1) as nat
    }
}

spec fn listed_total(l: Seq<GraphInfo>) -> nat
    decreases l.len(),
{
    if l.len() == 0 {
        0
    } else {
        listed_total(l.drop_last()) + l.last().staged_bytes as nat
    }
}

spec fn held(t: nat) -> usize {
    if t > usize::MAX {
        usize::MAX
    } else {
        t as usize
    }
}

proof fn lemma_staged_sum_held(s: Seq<(Seq<char>, EntryView)>)
    ensures
        staged_sum(s) == held(staged_total(s)),
    decreases s.len(),
{
    if s.len() > 0 {
        lemma_staged_sum_held(s.drop_last());
    }
}

proof fn lemma_listed_sum_held(l: Seq<GraphInfo>)
    ensures
        listed_sum(l) == held(listed_total(l)),
    decreases l.len(),
{
    if l.len() > 0 {
        lemma_listed_sum_held(l.drop_last());
    }
}

proof fn lemma_listed_total_remove(l: Seq<GraphInfo>, i: int)
    requires
        0 <= i < l.len(),
    ensures
        listed_total(l) == listed_total(l.remove(i)) + l[i].staged_bytes as nat,
    decreases l.len(),
{
    if i < l.len() - 1 {
        lemma_listed_total_remove(l.drop_last(), i);
        assert(l.remove(i).drop_last() =~= l.drop_last().remove(i));
        assert(l.remove(i).last() == l.last());
    } else {
        assert(l.remove(i) =~= l.drop_last());
    }
}

/// Whether `l` lists exactly the graphs of `s`: as many rows, distinct
/// names, each row naming a graph of `s` and reporting it, and each graph
/// named by some row.
pub open spec fn lists(s: Seq<(Seq<char>, EntryView)>, l: Seq<GraphInfo>) -> bool {
    &&& l.len() == s.len()
    &&& forall|i: int, j: int| 0 <= i < j < l.len() ==> l[i].name@ != l[j].name@
    &&& forall|i: int|
        0 <= i < l.len() ==> ((#[trigger] lookup(s, l[i].name@)) matches Some(e) && Store::reports(l[i], e))
    &&& forall|j: int|
        #![trigger s[j]]
        0 <= j < s.len() ==> exists|i: int| 0 <= i < l.len() && #[trigger] l[i].name@ == s[j].0
}

proof fn lemma_listed_total(s: Seq<(Seq<char>, EntryView)>, l: Seq<GraphInfo>)
    requires
        distinct(names_of(s)),
        lists(s, l),
    ensures
        listed_total(l) == staged_total(s),
    decreases s.len(),
{
    if s.len() > 0 {
        let n = s.len() - 1;
        let x = s[n].0;
        assert(names_of(s)[n] == x);
        let i = choose|i: int| 0 <= i < l.len() && #[trigger] l[i].name@ == x;
        lemma_index_of_distinct(names_of(s), x);
        assert(lookup(s, x) == Some(s[n].1));
        assert(lookup(s, l[i].name@) == Some(s[n].1));
        assert(l[i].staged_bytes == entry_bytes(s[n].1)) by {
            reveal(Store::reports);
        }
        let s2 = s.drop_last();
        let l2 = l.remove(i);
        assert(names_of(s2) =~= names_of(s).drop_last());
        assert(distinct(names_of(s2)));
        assert forall|k: int| 0 <= k < l2.len() implies ((#[trigger] lookup(s2, l2[k].name@)) matches Some(e)
            && Store::reports(l2[k], e)) by {
            let k0 = if k < i {
                k
            } else {
                k + 1
            };
            assert(l2[k] == l[k0]);
            assert(l[k0].name@ != x);
            assert(lookup(s, l[k0].name@) matches Some(_));
            lemma_index_of_distinct(names_of(s2), l[k0].name@);
            lemma_index_of_distinct(names_of(s), l[k0].name@);
            if exists|q: int| 0 <= q < names_of(s2).len() && names_of(s2)[q] == l[k0].name@ {
                let q = choose|q: int| 0 <= q < names_of(s2).len() && names_of(s2)[q] == l[k0].name@;
                assert(names_of(s)[q] == l[k0].name@);
                assert(lookup(s2, l[k0].name@) == Some(s2[q].1));
                assert(lookup(s, l[k0].name@) == Some(s[q].1));
            } else {
                assert forall|q: int| 0 <= q < names_of(s).len() implies names_of(s)[q] != l[k0].name@ by {
                    if q < n {
                        assert(names_of(s2)[q] == names_of(s)[q]);
                    }
                }
            }
        }
        assert forall|j: int| #![trigger s2[j]] 0 <= j < s2.len() implies exists|k: int|
            0 <= k < l2.len() && #[trigger] l2[k].name@ == s2[j].0 by {
            assert(s2[j] == s[j]);
            let k0 = choose|k: int| 0 <= k < l.len() && #[trigger] l[k].name@ == s[j].0;
            assert(names_of(s)[j] == s[j].0);
            assert(s[j].0 != x);
            assert(k0 != i);
            if k0 < i {
                assert(l2[k0] == l[k0]);
            } else {
                assert(l2[k0 - 1] == l[k0]);
            }
        }
        assert forall|a: int, b: int| 0 <= a < b < l2.len() implies l2[a].name@ != l2[b].name@ by {
            let a0 = if a < i {
                a
            } else {
                a + 1
            };
            let b0 = if b < i {
                b
            } else {
                b + 1
            };
            assert(l2[a] == l[a0]);
            assert(l2[b] == l[b0]);
        }
        lemma_listed_total(s2, l2);
        lemma_listed_total_remove(l, i);
    }
}

/// The staged bytes the memory listing reports are the total of what the
/// graph listing reports per graph: for any listing of exactly the graphs of
/// a store, adding up each graph's staged bytes, in any order, gives the
/// store's total.
pub proof fn lemma_memory_is_the_listing_total(store: &Store, l: Seq<GraphInfo>)
    requires
        store.wf(),
        lists(store@, l),
    ensures
        listed_sum(l) == staged_sum(store@),
{
    lemma_listed_total(store@, l);
    lemma_staged_sum_held(store@);
    lemma_listed_sum_held(l);
}

/// The refusal of a read of a graph never staged.
pub open spec fn unknown_graph_text(name: Seq<char>) -> Seq<char> {
    "nutmeg: no graph named `"@ + name + "`; stage its rows first"@
}

/// A part with no rows.
pub open spec fn empty_part() -> StagedView {
    StagedView { batches: Seq::empty(), counts: Seq::empty(), charges: Seq::empty() }
}

/// What a write to part `part` of a graph that was `before` starts from: the
/// part's rows, unless the write replaces them or the graph is new.
pub open spec fn base_part(before: Option<EntryView>, part: Part, replace: bool) -> StagedView {
    match before {
        Some(e) => if replace {
            empty_part()
        } else {
            part_of(e, part)
        },
        None => empty_part(),
    }
}

/// The other part.
pub open spec fn other_part(part: Part) -> Part {
    match part {
        Part::Nodes => Part::Edges,
        Part::Edges => Part::Nodes,
    }
}

/// One write to one part of one graph, fed a batch at a time.
///
/// Each batch is renamed into the grust-arrow layout as it arrives, and the
/// memory the renamed rows keep is admitted as they are made, so a write
/// larger than the budget is refused at the batch that would cross it rather
/// than after all of it has been collected. [`Staging::finish`] then admits
/// the sort's working space, builds the new part aside and swaps it in.
/// Until then the graph is untouched; a write refused or abandoned at any
/// point leaves it exactly as it was, and releases what it had admitted.
pub struct Staging {
    graph: String,
    part: Part,
    mapping: ColumnMapping,
    replace: bool,
    order: StageOrder,
    normalized: Vec<Batch>,
    counts: Vec<usize>,
    fresh: Admitted,
}

/// What the contracts see of a write in progress.
pub ghost struct StagingView {
    pub graph: Seq<char>,
    pub part: Part,
    pub replace: bool,
    pub order: StageOrder,
    /// The renamed batches, in arrival order.
    pub batches: Seq<Batch>,
    /// The rows of each renamed batch, in arrival order.
    pub counts: Seq<usize>,
    /// What was admitted for them.
    pub charges: Seq<usize>,
}

/// What a write needs free before it copies a batch of `rows` rows holding
/// `bytes`.
pub open spec fn push_need(bytes: usize, rows: usize) -> Seq<char> {
    "at least "@ + crate::text::decimal(bytes as nat) + " bytes for "@ + crate::text::decimal(rows as nat)
        + " more rows"@
}

/// What a write admits for the `bytes` a renamed batch of `rows` rows keeps.
pub open spec fn push_keep(bytes: usize, rows: usize) -> Seq<char> {
    ""@ + crate::text::decimal(bytes as nat) + " bytes for "@ + crate::text::decimal(rows as nat)
        + " more rows"@
}

/// `"{a}{x}{b}{y}{c}"`.
fn describe(a: &str, x: usize, b: &str, y: usize, c: &str) -> (r: String)
    ensures
        r@ == a@ + crate::text::decimal(x as nat) + b@ + crate::text::decimal(y as nat) + c@,
{
    let mut m = String::from_str(a);
    m.append(decimal_of(x as u64).as_str());
    m.append(b);
    m.append(decimal_of(y as u64).as_str());
    m.append(c);
    m
}

impl Staging {
    pub closed spec fn view(&self) -> StagingView {
        StagingView {
            graph: self.graph@,
            part: self.part,
            replace: self.replace,
            order: self.order,
            batches: self.normalized@,
            counts: self.counts@,
            charges: self.fresh@,
        }
    }

    pub closed spec fn wf(&self) -> bool {
        &&& self.normalized@.len() == self.counts@.len()
        &&& rows_match(self.normalized@, self.counts@)
        &&& self.fresh.wf()
    }

    /// Rename one batch and admit the memory it keeps. A batch with no rows
    /// changes nothing; one refused — by what is free before it is copied,
    /// by its renaming, or by the admission of what it keeps — leaves the
    /// write as it was.
    pub fn push(&mut self, store: &Store, batch: &Batch) -> (r: Result<(), NutmegError>)
        requires
            old(self).wf(),
        ensures
            final(self).wf(),
            final(self)@.graph == old(self)@.graph,
            final(self)@.part == old(self)@.part,
            final(self)@.replace == old(self)@.replace,
            final(self)@.order == old(self)@.order,
            r is Err ==> final(self)@ == old(self)@,
            batch_rows(*batch) == 0 ==> r is Ok && final(self)@ == old(self)@,
            r matches Err(e) ==> (e is ResourcesExhausted ==> (exists|
                bytes: usize,
                limit: usize,
                own: usize,
                pool_limit: usize,
                used: usize,
            |
                #[trigger] crate::budget::refusal_matches(
                    e,
                    old(self)@.graph,
                    Some(old(self)@.part),
                    push_need(bytes, batch_rows(*batch)),
                    limit,
                    own,
                    pool_limit,
                    used,
                )) || (exists|bytes: usize, limit: usize, own: usize, pool_limit: usize, used: usize|
                #[trigger] crate::budget::refusal_matches(
                    e,
                    old(self)@.graph,
                    Some(old(self)@.part),
                    push_keep(bytes, batch_rows(*batch)),
                    limit,
                    own,
                    pool_limit,
                    used,
                ))),
            r is Ok && batch_rows(*batch) > 0 ==> {
                &&& final(self)@.batches.len() == old(self)@.batches.len() + 1
                &&& final(self)@.batches.drop_last() == old(self)@.batches
                &&& batch_rows(final(self)@.batches.last()) == batch_rows(*batch)
                &&& final(self)@.counts == old(self)@.counts.push(batch_rows(*batch))
                &&& (final(self)@.charges == old(self)@.charges || (final(self)@.charges.len()
                    == old(self)@.charges.len() + 1 && final(self)@.charges.drop_last()
                    == old(self)@.charges))
            },
    {
        let rows = num_rows(batch);
        if rows == 0 {
            return Ok(());
        }
        // Before copying: the rows themselves must fit what is free.
        let all = columns_of(batch);
        let mut incoming: usize = 0;
        let mut c: usize = 0;
        while c < all.len()
            invariant
                c <= all@.len(),
            decreases all@.len() - c,
        {
            incoming = incoming.saturating_add(slice_bytes(&all[c]));
            c = c + 1;
        }
        let budget = Budget {
            pool: &store.pool,
            charge: &store.pool,
            graph: self.graph.as_str(),
            part: Some(self.part),
        };
        let need = describe("at least ", incoming, " bytes for ", rows, " more rows");
        if let Err(e) = budget.check(incoming, need.as_str()) {
            proof {
                if e is ResourcesExhausted {
                    let (l, o, p, u) = choose|l: usize, o: usize, p: usize, u: usize|
                        #[trigger] crate::budget::refusal_matches(e, budget.graph@, budget.part, need@, l, o, p, u);
                    assert(need@ == push_need(incoming, batch_rows(*batch)));
                    assert(crate::budget::refusal_matches(
                        e,
                        old(self)@.graph,
                        Some(old(self)@.part),
                        push_need(incoming, batch_rows(*batch)),
                        l,
                        o,
                        p,
                        u,
                    ));
                }
            }
            return Err(e);
        }
        let normalized = match self.part {
            Part::Nodes => normalize_nodes(batch, &self.mapping),
            Part::Edges => normalize_edges(batch, &self.mapping),
        };
        let normalized = match normalized {
            Ok(n) => n,
            Err(e) => {
                return Err(e);
            },
        };
        // What the renamed rows keep alive: columns copied by a cast, and the
        // caller's buffers where a column is shared unchanged.
        let held = held_bytes(&vec![share_batch(&normalized)]);
        let what = describe("", held, " bytes for ", rows, " more rows");
        let ghost before = self.fresh@;
        if let Err(e) = budget.grant(&mut self.fresh, held, what.as_str()) {
            proof {
                if e is ResourcesExhausted {
                    let (l, o, p, u) = choose|l: usize, o: usize, p: usize, u: usize|
                        #[trigger] crate::budget::refusal_matches(e, budget.graph@, budget.part, what@, l, o, p, u);
                    assert(what@ == push_keep(held, batch_rows(*batch)));
                    assert(crate::budget::refusal_matches(
                        e,
                        old(self)@.graph,
                        Some(old(self)@.part),
                        push_keep(held, batch_rows(*batch)),
                        l,
                        o,
                        p,
                        u,
                    ));
                }
            }
            return Err(e);
        }
        self.normalized.push(normalized);
        self.counts.push(rows);
        proof {
            assert(self.counts@.drop_last() == old(self).counts@);
            if held > 0 {
                assert(self.fresh@.drop_last() == before);
            }
        }
        Ok(())
    }

    /// Swap the write into the graph, creating the graph if it is new.
    /// Returns the rows now staged for that part.
    ///
    /// Under [`StageOrder::Canonical`] the whole part — earlier rows kept by
    /// an append, and these — is sorted afterwards, so the part is the same
    /// whatever order its rows and its appends arrived in. Under
    /// [`StageOrder::AsStaged`] these rows are added after the earlier ones in
    /// the order given. Either way the write bumps the graph's revision and
    /// evicts its cached projections, and leaves the other part and every
    /// other graph alone; a write refused at any point leaves the store
    /// exactly as it was, and leaves no new graph behind.
    pub fn finish(self, store: &mut Store) -> (r: Result<usize, NutmegError>)
        requires
            self.wf(),
            old(store).wf(),
        ensures
            final(store).wf(),
            r is Err ==> final(store)@ == old(store)@,
            r matches Ok(n) ==> {
                let before = lookup(old(store)@, self@.graph);
                let base = base_part(before, self@.part, self@.replace);
                lookup(final(store)@, self@.graph) matches Some(e) && {
                    &&& e.revision == match before {
                        Some(b) => b.revision + 1,
                        None => 1,
                    }
                    &&& e.projections == Seq::<Seq<char>>::empty()
                    &&& part_of(e, other_part(self@.part)) == match before {
                        Some(b) => part_of(b, other_part(self@.part)),
                        None => empty_part(),
                    }
                    &&& n == total(part_of(e, self@.part).counts)
                    &&& total(part_of(e, self@.part).counts) == total(base.counts) + total(
                        self@.counts,
                    )
                    &&& self@.order == StageOrder::AsStaged ==> part_of(e, self@.part) == StagedView {
                        batches: base.batches + self@.batches,
                        counts: base.counts + self@.counts,
                        charges: base.charges + self@.charges,
                    }
                    &&& self@.order == StageOrder::Canonical ==> (n > 0 ==> canonical_rows(
                        self@.part,
                        base.batches + self@.batches,
                        base.counts + self@.counts,
                        part_of(e, self@.part).batches,
                    ))
                    &&& self@.part == Part::Edges ==> e.edges_canonical == (self@.order
                        == StageOrder::Canonical)
                    &&& self@.part == Part::Nodes ==> e.edges_canonical == match before {
                        Some(b) => b.edges_canonical,
                        None => false,
                    }
                }
            },
            r is Ok ==> forall|other: Seq<char>|
                other != self@.graph ==> #[trigger] lookup(final(store)@, other) == lookup(
                    old(store)@,
                    other,
                ),
            self@.order == StageOrder::AsStaged ==> (r is Ok <==> {
                let before = lookup(old(store)@, self@.graph);
                let base = base_part(before, self@.part, self@.replace);
                &&& total(base.charges) + total(self@.charges) <= usize::MAX
                &&& total(base.counts) + total(self@.counts) <= usize::MAX
                &&& (before matches Some(b) ==> b.revision < u64::MAX)
            }),
            self@.order == StageOrder::AsStaged ==> (r is Err ==> r->Err_0 is Internal),
            self@.order == StageOrder::Canonical ==> (r matches Err(e) ==> (e is ResourcesExhausted
                ==> exists|what: Seq<char>|
                #[trigger] refused_for(e, self@.graph, Some(self@.part), what) && sort_need(what))),
            self@.order == StageOrder::Canonical ==> (r matches Err(NutmegError::Plan(m)) ==> refused_by_unify(
                m@,
            )),
    {
        let Staging { graph, part, mapping: _, replace, order, normalized, counts, fresh } = self;
        let found = store.find(graph.as_str());
        let ghost before = lookup(store@, graph@);
        let ghost base = base_part(before, part, replace);
        // Built aside and swapped in, so a write the budget or the sort
        // refuses leaves the staged rows as they were.
        let (mut staged, mut staged_counts, kept) = match found {
            Some(i) if !replace => {
                proof {
                    assert(store.graphs@[i as int].1.wf());
                }
                let old_part = store.graphs[i].1.part(part);
                let (b, c) = old_part.share_rows();
                (b, c, old_part.held.share())
            },
            _ => (Vec::new(), Vec::new(), Admitted::new()),
        };
        assert(staged@ == base.batches);
        assert(staged_counts@ == base.counts);
        assert(kept@ == base.charges);
        let mut normalized = normalized;
        let mut added = counts;
        let ghost pushed = added@;
        proof {
            lemma_rows_match_concat(staged@, staged_counts@, normalized@, added@);
        }
        let ghost arrived = normalized@;
        staged.append(&mut normalized);
        staged_counts.append(&mut added);
        assert(staged@ == base.batches + arrived);
        let ghost all_batches = staged@;
        let ghost all_counts = staged_counts@;
        let new_part = if order == StageOrder::Canonical {
            let budget = Budget {
                pool: &store.pool,
                charge: &store.pool,
                graph: graph.as_str(),
                part: Some(part),
            };
            let sorted = match canonicalize(part, staged, staged_counts, &budget) {
                Ok(s) => s,
                Err(e) => {
                    return Err(e);
                },
            };
            Staged { batches: sorted.batches, counts: sorted.counts, held: sorted.held }
        } else {
            let mut held = kept;
            if let Err(e) = held.absorb(fresh) {
                return Err(e);
            }
            Staged { batches: staged, counts: staged_counts, held }
        };
        proof {
            crate::budget::lemma_total_concat(base.counts, pushed);
        }
        let rows = match checked_total(&new_part.counts) {
            Some(n) => n,
            None => {
                return Err(
                    NutmegError::Internal(String::from_str("nutmeg: staged rows overflow a count")),
                );
            },
        };
        let canonical = order == StageOrder::Canonical;
        match found {
            Some(i) => {
                let ghost graphs = store.graphs@;
                let ghost old_view = store@;
                let (name, mut entry) = store.graphs.remove(i);
                if entry.revision == u64::MAX {
                    store.graphs.insert(i, (name, entry));
                    assert(store.graphs@ =~= graphs);
                    return Err(
                        NutmegError::Internal(String::from_str("nutmeg: revision overflow")),
                    );
                }
                match part {
                    Part::Nodes => {
                        entry.nodes = new_part;
                    },
                    Part::Edges => {
                        entry.edges = new_part;
                        entry.edges_canonical = canonical;
                    },
                }
                entry.revision = entry.revision + 1;
                entry.projections = Vec::new();
                store.graphs.insert(i, (name, entry));
                proof {
                    assert(store.graphs@ =~= graphs.update(i as int, store.graphs@[i as int]));
                    assert(store@ =~= old_view.update(i as int, (graph@, store.graphs@[i as int].1@)));
                    assert(names_of(store@) =~= names_of(old_view));
                    assert forall|j: int| 0 <= j < store.graphs@.len() implies (
                    #[trigger] store.graphs@[j]).1.wf() by {
                        if j != i {
                            assert(store.graphs@[j] == graphs[j]);
                        }
                    }
                    lemma_lookup_update(old_view, i as int, store.graphs@[i as int].1@);
                }
                Ok(rows)
            },
            None => {
                let (nodes, edges) = match part {
                    Part::Nodes => (new_part, Staged::new()),
                    Part::Edges => (Staged::new(), new_part),
                };
                let entry = Entry {
                    nodes,
                    edges,
                    edges_canonical: part == Part::Edges && canonical,
                    revision: 1,
                    projections: Vec::new(),
                };
                let ghost old_view = store@;
                let ghost graphs = store.graphs@;
                store.graphs.push((graph, entry));
                proof {
                    assert(store@ =~= old_view.push((graph@, store.graphs@.last().1@)));
                    assert forall|j: int| 0 <= j < store.graphs@.len() implies (
                    #[trigger] store.graphs@[j]).1.wf() by {
                        if j < graphs.len() {
                            assert(store.graphs@[j] == graphs[j]);
                        }
                    }
                    lemma_lookup_push(old_view, graph@, store.graphs@.last().1@);
                }
                Ok(rows)
            },
        }
    }
}

/// The sum of `counts`, or `None` where it does not fit a `usize`.
fn checked_total(counts: &Vec<usize>) -> (r: Option<usize>)
    ensures
        r matches Some(n) ==> n == total(counts@),
        r is None ==> total(counts@) > usize::MAX,
{
    let mut sum: usize = 0;
    let mut i: usize = 0;
    while i < counts.len()
        invariant
            i <= counts@.len(),
            sum == total(counts@.subrange(0, i as int)),
        decreases counts@.len() - i,
    {
        proof {
            let s = counts@.subrange(0, i + 1);
            assert(s.drop_last() == counts@.subrange(0, i as int));
        }
        match sum.checked_add(counts[i]) {
            Some(next) => sum = next,
            None => {
                proof {
                    lemma_total_prefix(counts@, i + 1);
                }
                return None;
            },
        }
        i = i + 1;
    }
    assert(counts@.subrange(0, counts@.len() as int) == counts@);
    Some(sum)
}

proof fn lemma_total_prefix(s: Seq<usize>, n: int)
    requires
        0 <= n <= s.len(),
    ensures
        total(s.subrange(0, n)) <= total(s),
    decreases s.len() - n,
{
    if n < s.len() {
        lemma_total_prefix(s, n + 1);
        let p = s.subrange(0, n + 1);
        assert(p.drop_last() == s.subrange(0, n));
    } else {
        assert(s.subrange(0, n) == s);
    }
}

proof fn lemma_lookup_update(s: Seq<(Seq<char>, EntryView)>, i: int, e: EntryView)
    requires
        distinct(names_of(s)),
        0 <= i < s.len(),
    ensures
        lookup(s.update(i, (s[i].0, e)), s[i].0) == Some(e),
        forall|other: Seq<char>|
            other != s[i].0 ==> #[trigger] lookup(s.update(i, (s[i].0, e)), other) == lookup(s, other),
{
    let u = s.update(i, (s[i].0, e));
    assert(names_of(u) =~= names_of(s));
    lemma_index_of_distinct(names_of(s), s[i].0);
    assert(names_of(s)[i] == s[i].0);
    assert(index_of(names_of(u), s[i].0) == Some(i));
    assert(u[i] == (s[i].0, e));
    assert forall|other: Seq<char>| other != s[i].0 implies #[trigger] lookup(u, other) == lookup(
        s,
        other,
    ) by {
        lemma_index_of_distinct(names_of(s), other);
        if exists|j: int| 0 <= j < s.len() && names_of(s)[j] == other {
            let j = choose|j: int| 0 <= j < s.len() && names_of(s)[j] == other;
            assert(j != i);
        }
    }
}

proof fn lemma_lookup_push(s: Seq<(Seq<char>, EntryView)>, name: Seq<char>, e: EntryView)
    requires
        distinct(names_of(s)),
        lookup(s, name) is None,
    ensures
        distinct(names_of(s.push((name, e)))),
        lookup(s.push((name, e)), name) == Some(e),
        forall|other: Seq<char>|
            other != name ==> #[trigger] lookup(s.push((name, e)), other) == lookup(s, other),
{
    let p = s.push((name, e));
    assert(names_of(p) =~= names_of(s).push(name));
    lemma_index_of_distinct(names_of(s), name);
    assert forall|j: int| 0 <= j < s.len() implies names_of(s)[j] != name by {
        if names_of(s)[j] == name {
            assert(index_of(names_of(s), name) == Some(j));
        }
    }
    assert(distinct(names_of(p)));
    lemma_index_of_distinct(names_of(p), name);
    assert forall|other: Seq<char>| other != name implies #[trigger] lookup(p, other) == lookup(
        s,
        other,
    ) by {
        lemma_index_of_distinct(names_of(s), other);
        lemma_index_of_distinct(names_of(p), other);
        if exists|j: int| 0 <= j < s.len() && names_of(s)[j] == other {
            let j = choose|j: int| 0 <= j < s.len() && names_of(s)[j] == other;
            assert(names_of(p)[j] == other);
        } else {
            assert forall|j: int| 0 <= j < names_of(p).len() implies names_of(p)[j] != other by {
                if j < s.len() {
                    assert(names_of(p)[j] == names_of(s)[j]);
                }
            }
        }
    }
}

proof fn lemma_distinct_remove(names: Seq<Seq<char>>, i: int)
    requires
        distinct(names),
        0 <= i < names.len(),
    ensures
        distinct(names.remove(i)),
{
    let r = names.remove(i);
    assert forall|a: int, b: int| 0 <= a < b < r.len() implies r[a] != r[b] by {
        let x = if a < i {
            a
        } else {
            a + 1
        };
        let y = if b < i {
            b
        } else {
            b + 1
        };
        assert(r[a] == names[x]);
        assert(r[b] == names[y]);
    }
}

proof fn lemma_lookup_remove(s: Seq<(Seq<char>, EntryView)>, i: int)
    requires
        distinct(names_of(s)),
        0 <= i < s.len(),
    ensures
        lookup(s.remove(i), s[i].0) is None,
        forall|other: Seq<char>|
            other != s[i].0 ==> #[trigger] lookup(s.remove(i), other) == lookup(s, other),
{
    let r = s.remove(i);
    assert(names_of(r) =~= names_of(s).remove(i));
    lemma_distinct_remove(names_of(s), i);
    lemma_index_of_distinct(names_of(s), s[i].0);
    lemma_index_of_distinct(names_of(r), s[i].0);
    assert forall|j: int| 0 <= j < names_of(r).len() implies names_of(r)[j] != s[i].0 by {
        let x = if j < i {
            j
        } else {
            j + 1
        };
        assert(names_of(r)[j] == names_of(s)[x]);
        assert(x != i);
        if x < i {
            assert(names_of(s)[x] != names_of(s)[i]);
        } else {
            assert(names_of(s)[i] != names_of(s)[x]);
        }
    }
    assert forall|other: Seq<char>| other != s[i].0 implies #[trigger] lookup(r, other) == lookup(
        s,
        other,
    ) by {
        lemma_index_of_distinct(names_of(s), other);
        lemma_index_of_distinct(names_of(r), other);
        if exists|j: int| 0 <= j < s.len() && names_of(s)[j] == other {
            let j = choose|j: int| 0 <= j < s.len() && names_of(s)[j] == other;
            assert(j != i);
            let k = if j < i {
                j
            } else {
                j - 1
            };
            assert(names_of(r)[k] == other);
            assert(r[k] == s[j]);
        } else {
            assert forall|k: int| 0 <= k < names_of(r).len() implies names_of(r)[k] != other by {
                let x = if k < i {
                    k
                } else {
                    k + 1
                };
                assert(names_of(r)[k] == names_of(s)[x]);
            }
        }
    }
}

} // verus!
