//! Breadth-first dependency discovery and build ordering.
//!
//! A [`Resolver`] holds the pending names and the records found so far. Its
//! caller asks it for the next batch of names, fetches their records from a
//! metadata source, and hands them back, until no batch is left; the resolver
//! then orders the records so that dependencies come first.

use crate::graph::{
    edges_of, graph_add_edge, graph_add_node, graph_new, graph_toposort, is_acyclic,
    is_topological, node_count_of, toposort_of,
};
use crate::info::{dep_names, infos_view, resolve_dep_names, strs, AurInfo, PkgView};
use vstd::prelude::*;

verus! {

/// Largest number of names that one metadata request may carry.
pub const BATCH_LIMIT: usize = 100;

/// The state of a resolution, as mathematical values.
pub struct ResolverModel {
    /// Names still to look at, front first.
    pub queue: Seq<Seq<char>>,
    /// Records found so far, in order of discovery; their names are the visited set.
    pub records: Seq<PkgView>,
}

/// Names of a sequence of records.
pub open spec fn names_of(records: Seq<PkgView>) -> Seq<Seq<char>> {
    records.map_values(|p: PkgView| p.name)
}

/// Names of `names` that no record has, in order.
pub open spec fn unseen(records: Seq<PkgView>, names: Seq<Seq<char>>) -> Seq<Seq<char>>
    decreases names.len(),
{
    if names.len() == 0 {
        Seq::empty()
    } else {
        let rest = unseen(records, names.drop_last());
        if names_of(records).contains(names.last()) {
            rest
        } else {
            rest.push(names.last())
        }
    }
}

/// Takes the next batch: up to [`BATCH_LIMIT`] names off the front of the
/// queue, without those already visited; a batch left empty is skipped.
pub open spec fn take_batch(m: ResolverModel) -> (ResolverModel, Option<Seq<Seq<char>>>)
    decreases m.queue.len(),
{
    if m.queue.len() == 0 {
        (m, None)
    } else {
        let k = if m.queue.len() < BATCH_LIMIT { m.queue.len() as int } else { BATCH_LIMIT as int };
        let chunk = unseen(m.records, m.queue.subrange(0, k));
        let next = ResolverModel { queue: m.queue.subrange(k, m.queue.len() as int), ..m };
        if chunk.len() == 0 {
            take_batch(next)
        } else {
            (next, Some(chunk))
        }
    }
}

/// Takes in one fetched record: a record of a name not yet visited is kept, and
/// the bare names of its dependencies join the queue.
pub open spec fn absorb_one(m: ResolverModel, p: PkgView) -> ResolverModel {
    if names_of(m.records).contains(p.name) {
        m
    } else {
        ResolverModel { queue: m.queue + dep_names(p), records: m.records.push(p) }
    }
}

/// Takes in fetched records in order.
pub open spec fn absorb_all(m: ResolverModel, fetched: Seq<PkgView>) -> ResolverModel
    decreases fetched.len(),
{
    if fetched.len() == 0 {
        m
    } else {
        absorb_one(absorb_all(m, fetched.drop_last()), fetched.last())
    }
}

/// Index of the first record at or after `i` named `name`.
pub open spec fn record_index_from(records: Seq<PkgView>, name: Seq<char>, i: int) -> Option<int>
    decreases records.len() - i,
{
    if i < 0 || i >= records.len() {
        None
    } else if records[i].name == name {
        Some(i)
    } else {
        record_index_from(records, name, i + 1)
    }
}

/// Edges `dependency -> dependent` contributed by the declarations `deps` of record `i`.
pub open spec fn edges_of_deps(records: Seq<PkgView>, i: int, deps: Seq<Seq<char>>) -> Seq<(usize, usize)>
    decreases deps.len(),
{
    if deps.len() == 0 {
        Seq::empty()
    } else {
        let rest = edges_of_deps(records, i, deps.drop_last());
        match record_index_from(records, deps.last(), 0) {
            Some(j) => rest.push((j as usize, i as usize)),
            None => rest,
        }
    }
}

/// Edges contributed by the first `k` records.
pub open spec fn edges_upto(records: Seq<PkgView>, k: int) -> Seq<(usize, usize)>
    decreases k,
{
    if k <= 0 {
        Seq::empty()
    } else {
        edges_upto(records, k - 1) + edges_of_deps(records, k - 1, dep_names(records[k - 1]))
    }
}

/// The dependency graph's edges: node `i` is record `i`, and an edge runs from
/// each record that another one needs to that other one.
pub open spec fn dep_edges(records: Seq<PkgView>) -> Seq<(usize, usize)> {
    edges_upto(records, records.len() as int)
}

/// What ordering the records gives: the sorted record names, or the name of a
/// record on a cycle.
pub open spec fn order_result(records: Seq<PkgView>) -> Result<Seq<Seq<char>>, Seq<char>> {
    match toposort_of(records.len(), dep_edges(records)) {
        Ok(o) => Ok(order_names(records, o)),
        Err(c) => Err(records[c as int].name),
    }
}

/// Record `a` needs a package named `b`.
pub open spec fn needs(records: Seq<PkgView>, a: int, b: Seq<char>) -> bool {
    dep_names(records[a]).contains(b)
}

/// In `order`, every package comes after all the records it needs.
pub open spec fn deps_first(records: Seq<PkgView>, order: Seq<Seq<char>>) -> bool {
    forall|p: int, q: int, a: int|
        0 <= p <= q < order.len() && 0 <= a < records.len() && records[a].name == order[p]
            ==> !needs(records, a, order[q])
}

/// Why a resolution failed.
#[derive(Debug)]
pub enum ResolveError {
    /// The dependency graph has a cycle through the named package.
    Cycle(String),
    /// The graph would exceed the node or edge count that its indices can hold.
    TooLarge,
}

/// The dependency graph of `records` fits the graph's `u32` indices.
pub open spec fn fits_graph(records: Seq<PkgView>) -> bool {
    records.len() < u32::MAX && dep_edges(records).len() < u32::MAX
}

/// The view of an ordering outcome.
pub open spec fn order_view(r: Result<Vec<String>, ResolveError>) -> Result<Seq<Seq<char>>, Seq<char>> {
    match r {
        Ok(v) => Ok(strs(v@)),
        Err(ResolveError::Cycle(n)) => Err(n@),
        Err(ResolveError::TooLarge) => Err(Seq::empty()),
    }
}

/// No two records share a name.
pub open spec fn model_wf(m: ResolverModel) -> bool {
    names_of(m.records).no_duplicates()
}

/// The state of one resolution.
pub struct Resolver {
    /// Every name queued so far; those before `pos` have been taken.
    queue: Vec<String>,
    pos: usize,
    infos: Vec<AurInfo>,
}

impl View for Resolver {
    type V = ResolverModel;

    closed spec fn view(&self) -> ResolverModel {
        ResolverModel {
            queue: strs(self.queue@).subrange(self.pos as int, self.queue@.len() as int),
            records: infos_view(self.infos@),
        }
    }
}

/// A copy of a list of strings.
pub fn copy_strings(v: &Vec<String>) -> (r: Vec<String>)
    ensures
        strs(r@) == strs(v@),
{
    let mut out: Vec<String> = Vec::new();
    for k in 0..v.len()
        invariant
            strs(out@) == strs(v@).subrange(0, k as int),
    {
        let ghost before = out@;
        out.push(v[k].clone());
        assert(strs(out@) =~= strs(before).push(v@[k as int]@));
        assert(strs(out@) =~= strs(v@).subrange(0, k + 1));
    }
    assert(strs(v@).subrange(0, v.len() as int) =~= strs(v@));
    out
}

/// A copy of an optional list of strings.
fn copy_opt_strings(o: &Option<Vec<String>>) -> (r: Option<Vec<String>>)
    ensures
        crate::info::opt_strs(r) == crate::info::opt_strs(*o),
{
    match o {
        Some(v) => Some(copy_strings(v)),
        None => None,
    }
}

/// A copy of a record.
pub fn copy_info(i: &AurInfo) -> (r: AurInfo)
    ensures
        r@ == i@,
{
    AurInfo {
        name: i.name.clone(),
        pkgbase: i.pkgbase.clone(),
        version: i.version.clone(),
        depends: copy_opt_strings(&i.depends),
        makedepends: copy_opt_strings(&i.makedepends),
        checkdepends: copy_opt_strings(&i.checkdepends),
    }
}

/// Index of the first record named `name`.
pub(crate) fn find_record(infos: &Vec<AurInfo>, name: &String) -> (r: Option<usize>)
    ensures
        match r {
            Some(j) => record_index_from(infos_view(infos@), name@, 0) == Some(j as int)
                && j < infos.len(),
            None => record_index_from(infos_view(infos@), name@, 0) is None,
        },
{
    let ghost v = infos_view(infos@);
    let mut i: usize = 0;
    while i < infos.len()
        invariant
            i <= infos.len(),
            v == infos_view(infos@),
            record_index_from(v, name@, 0) == record_index_from(v, name@, i as int),
        decreases infos.len() - i,
    {
        if infos[i].name == *name {
            return Some(i);
        }
        i += 1;
    }
    None
}

/// `record_index_from` finds a name exactly when some record at or after `i` has it.
proof fn lemma_record_index(records: Seq<PkgView>, name: Seq<char>, i: int)
    requires
        0 <= i,
    ensures
        record_index_from(records, name, i) is None <==> !(exists|k: int|
            i <= k < records.len() && records[k].name == name),
        record_index_from(records, name, i) matches Some(j) ==> i <= j < records.len()
            && records[j].name == name,
    decreases records.len() - i,
{
    if i < records.len() && records[i].name != name {
        lemma_record_index(records, name, i + 1);
        if exists|k: int| i <= k < records.len() && records[k].name == name {
            let k = choose|k: int| i <= k < records.len() && records[k].name == name;
            assert(i + 1 <= k);
        }
    }
}

/// With distinct names, the index found for a record's name is that record's.
proof fn lemma_record_index_unique(records: Seq<PkgView>, x: int)
    requires
        names_of(records).no_duplicates(),
        0 <= x < records.len(),
    ensures
        record_index_from(records, records[x].name, 0) == Some(x),
{
    lemma_record_index(records, records[x].name, 0);
    let j = record_index_from(records, records[x].name, 0).unwrap();
    assert(names_of(records)[j] == names_of(records)[x]);
}

/// Tells whether a record named `name` was found.
pub(crate) fn is_visited(infos: &Vec<AurInfo>, name: &String) -> (r: bool)
    ensures
        r == names_of(infos_view(infos@)).contains(name@),
{
    let r = find_record(infos, name);
    proof {
        let v = infos_view(infos@);
        lemma_record_index(v, name@, 0);
        if names_of(v).contains(name@) {
            let k = choose|k: int| 0 <= k < names_of(v).len() && names_of(v)[k] == name@;
            assert(v[k].name == name@);
        }
        if let Some(j) = r {
            assert(names_of(v)[j as int] == name@);
        }
    }
    r.is_some()
}

/// A prefix of a record's declarations contributes no more edges than all of them.
proof fn lemma_deps_edges_prefix(records: Seq<PkgView>, i: int, deps: Seq<Seq<char>>, t: int)
    requires
        0 <= t <= deps.len(),
    ensures
        edges_of_deps(records, i, deps.subrange(0, t)).len() <= edges_of_deps(records, i, deps).len(),
    decreases deps.len() - t,
{
    if t < deps.len() {
        lemma_deps_edges_prefix(records, i, deps, t + 1);
        assert(deps.subrange(0, t + 1).drop_last() =~= deps.subrange(0, t));
    } else {
        assert(deps.subrange(0, t) =~= deps);
    }
}

/// The edges of the first `k` records are no more than those of all records.
proof fn lemma_edges_upto_grow(records: Seq<PkgView>, k: int)
    requires
        0 <= k <= records.len(),
    ensures
        edges_upto(records, k).len() <= dep_edges(records).len(),
    decreases records.len() - k,
{
    if k < records.len() {
        lemma_edges_upto_grow(records, k + 1);
    }
}

/// A declaration that names a record yields the edge from that record.
proof fn lemma_deps_edge(records: Seq<PkgView>, i: int, deps: Seq<Seq<char>>, b: Seq<char>, j: int)
    requires
        deps.contains(b),
        record_index_from(records, b, 0) == Some(j),
    ensures
        edges_of_deps(records, i, deps).contains((j as usize, i as usize)),
    decreases deps.len(),
{
    let rest = edges_of_deps(records, i, deps.drop_last());
    if deps.last() == b {
        assert(edges_of_deps(records, i, deps) == rest.push((j as usize, i as usize)));
        assert(edges_of_deps(records, i, deps).last() == (j as usize, i as usize));
    } else {
        let x = choose|x: int| 0 <= x < deps.len() && deps[x] == b;
        assert(deps.drop_last()[x] == b);
        lemma_deps_edge(records, i, deps.drop_last(), b, j);
        let y = choose|y: int| 0 <= y < rest.len() && rest[y] == (j as usize, i as usize);
        match record_index_from(records, deps.last(), 0) {
            Some(z) => assert(rest.push((z as usize, i as usize))[y] == rest[y]),
            None => {},
        }
    }
}

/// Every need of a record `a < k` on a record `j` is an edge `j -> a` among the
/// edges of the first `k` records.
proof fn lemma_upto_edge(records: Seq<PkgView>, k: int, a: int, b: Seq<char>, j: int)
    requires
        0 <= a < k <= records.len(),
        needs(records, a, b),
        record_index_from(records, b, 0) == Some(j),
    ensures
        edges_upto(records, k).contains((j as usize, a as usize)),
    decreases k,
{
    let prev = edges_upto(records, k - 1);
    let own = edges_of_deps(records, k - 1, dep_names(records[k - 1]));
    assert(edges_upto(records, k) == prev + own);
    if a == k - 1 {
        lemma_deps_edge(records, a, dep_names(records[a]), b, j);
        let y = choose|y: int| 0 <= y < own.len() && own[y] == (j as usize, a as usize);
        assert((prev + own)[prev.len() + y] == own[y]);
    } else {
        lemma_upto_edge(records, k - 1, a, b, j);
        let y = choose|y: int| 0 <= y < prev.len() && prev[y] == (j as usize, a as usize);
        assert((prev + own)[y] == prev[y]);
    }
}

/// The names of the records that `o` lists, in its order.
pub open spec fn order_names(records: Seq<PkgView>, o: Seq<usize>) -> Seq<Seq<char>> {
    o.map_values(|i: usize| records[i as int].name)
}

/// A topological order of the dependency graph, read as names, puts every
/// record after all the records it needs, and lists every record.
proof fn lemma_order_names(records: Seq<PkgView>, o: Seq<usize>)
    requires
        names_of(records).no_duplicates(),
        records.len() < u32::MAX,
        is_topological(records.len(), dep_edges(records), o),
    ensures
        deps_first(records, order_names(records, o)),
        order_names(records, o).len() == records.len(),
        forall|k: int| 0 <= k < records.len() ==> names_of(records).contains(#[trigger] order_names(records, o)[k]),
        forall|x: int| 0 <= x < records.len() ==> order_names(records, o).contains(records[x].name),
{
    let order = order_names(records, o);
    assert forall|p: int, q: int, a: int|
        0 <= p <= q < order.len() && 0 <= a < records.len() && records[a].name == order[p]
            implies !needs(records, a, order[q]) by {
        if needs(records, a, order[q]) {
            let op = o[p] as int;
            let oq = o[q] as int;
            assert(names_of(records)[op] == names_of(records)[a]);
            lemma_record_index_unique(records, oq);
            lemma_upto_edge(records, records.len() as int, a, order[q], oq);
            assert(o[p] == a as usize);
        }
    }
    assert forall|k: int| 0 <= k < records.len() implies names_of(records).contains(order[k]) by {
        assert(names_of(records)[o[k] as int] == order[k]);
    }
    assert forall|x: int| 0 <= x < records.len() implies order.contains(records[x].name) by {
        assert(o.contains(x as usize));
        let k = choose|k: int| 0 <= k < o.len() && o[k] == x as usize;
        assert(o[k] as int == x);
        assert(order[k] == records[x].name);
    }
}

/// The source packages of the outputs in `order`, each once, in the order of
/// their first output; outputs without a record are passed over.
pub open spec fn bases_in_order(order: Seq<Seq<char>>, records: Seq<PkgView>) -> Seq<Seq<char>>
    decreases order.len(),
{
    if order.len() == 0 {
        Seq::empty()
    } else {
        let r = bases_in_order(order.drop_last(), records);
        match record_index_from(records, order.last(), 0) {
            Some(j) => if r.contains(records[j].pkgbase) {
                r
            } else {
                r.push(records[j].pkgbase)
            },
            None => r,
        }
    }
}

/// The source packages to check out and build, in build order: one per
/// `pkgbase`, placed where its first output stands in `order`.
pub fn pkgbases_in_order(order: &Vec<String>, records: &Vec<AurInfo>) -> (r: Vec<String>)
    ensures
        strs(r@) == bases_in_order(strs(order@), infos_view(records@)),
{
    let ghost ov = strs(order@);
    let mut out: Vec<String> = Vec::new();
    for k in 0..order.len()
        invariant
            ov == strs(order@),
            strs(out@) == bases_in_order(ov.subrange(0, k as int), infos_view(records@)),
    {
        let ghost sub = ov.subrange(0, k + 1);
        assert(sub.drop_last() =~= ov.subrange(0, k as int));
        assert(sub.last() == order@[k as int]@);
        match find_record(records, &order[k]) {
            Some(j) => {
                let base = &records[j].pkgbase;
                if !crate::mirror::contains_string(&out, base) {
                    let ghost before = out@;
                    out.push(base.clone());
                    assert(strs(out@) =~= strs(before).push(base@));
                }
            },
            None => {},
        }
    }
    assert(ov.subrange(0, order.len() as int) =~= ov);
    out
}

/// Position of node `v` in `o`.
spec fn pos_of(o: Seq<usize>, v: int) -> int {
    choose|i: int| 0 <= i < o.len() && o[i] == v as usize
}

/// In a topological order, a record comes after every record it needs.
proof fn lemma_need_orders(records: Seq<PkgView>, o: Seq<usize>, a: int, b: int)
    requires
        names_of(records).no_duplicates(),
        records.len() < u32::MAX,
        is_topological(records.len(), dep_edges(records), o),
        0 <= a < records.len(),
        0 <= b < records.len(),
        needs(records, a, records[b].name),
    ensures
        0 <= pos_of(o, b) < pos_of(o, a) < o.len(),
        o[pos_of(o, a)] == a as usize,
        o[pos_of(o, b)] == b as usize,
{
    assert(o.contains(a as usize));
    assert(o.contains(b as usize));
    let i = pos_of(o, a);
    let j = pos_of(o, b);
    lemma_record_index_unique(records, b);
    lemma_upto_edge(records, records.len() as int, a, records[b].name, b);
    if i <= j {
        assert(!dep_edges(records).contains((o[j], o[i])));
    }
}

/// Along a chain of needs, positions in a topological order strictly fall.
proof fn lemma_chain_falls(records: Seq<PkgView>, o: Seq<usize>, c: Seq<int>, k: int)
    requires
        names_of(records).no_duplicates(),
        records.len() < u32::MAX,
        is_topological(records.len(), dep_edges(records), o),
        0 <= k < c.len(),
        forall|x: int| 0 <= x < c.len() ==> 0 <= #[trigger] c[x] < records.len(),
        forall|x: int| 0 <= x < c.len() - 1 ==> #[trigger] needs(records, c[x], records[c[x + 1]].name),
    ensures
        pos_of(o, c[k]) + k <= pos_of(o, c[0]),
    decreases k,
{
    if k > 0 {
        lemma_chain_falls(records, o, c, k - 1);
        let x = k - 1;
        assert(needs(records, c[x], records[c[x + 1]].name));
        lemma_need_orders(records, o, c[k - 1], c[k]);
    }
}

/// A cycle of needs among the records leaves no build order. When record
/// `c[x]` needs the package of record `c[x + 1]` for each `x`, and the last
/// needs the first, the dependency graph is not acyclic, so
/// [`Resolver::finish`] reports a cycle.
pub proof fn lemma_cycle_has_no_order(records: Seq<PkgView>, c: Seq<int>)
    requires
        names_of(records).no_duplicates(),
        records.len() < u32::MAX,
        c.len() > 0,
        forall|x: int| 0 <= x < c.len() ==> 0 <= #[trigger] c[x] < records.len(),
        forall|x: int| 0 <= x < c.len() - 1 ==> #[trigger] needs(records, c[x], records[c[x + 1]].name),
        needs(records, c.last(), records[c[0]].name),
    ensures
        !is_acyclic(records.len(), dep_edges(records)),
{
    if is_acyclic(records.len(), dep_edges(records)) {
        let o = choose|o: Seq<usize>| is_topological(records.len(), dep_edges(records), o);
        lemma_chain_falls(records, o, c, c.len() - 1);
        lemma_need_orders(records, o, c.last(), c[0]);
    }
}

/// A name that no fetched record carries never becomes a record: whatever the
/// metadata source does not return is left out of the graph.
pub proof fn lemma_unreturned_name_absent(m: ResolverModel, fetched: Seq<PkgView>, name: Seq<char>)
    requires
        !names_of(m.records).contains(name),
        forall|k: int| 0 <= k < fetched.len() ==> fetched[k].name != name,
    ensures
        !names_of(absorb_all(m, fetched).records).contains(name),
    decreases fetched.len(),
{
    if fetched.len() > 0 {
        lemma_unreturned_name_absent(m, fetched.drop_last(), name);
        let prev = absorb_all(m, fetched.drop_last());
        let p = fetched.last();
        if !names_of(prev.records).contains(p.name) {
            assert(names_of(prev.records.push(p)) =~= names_of(prev.records).push(p.name));
        }
    }
}

/// The outcome of a resolution that starts from `m` and whose batches are
/// answered by `source`, within `fuel` rounds; `None` when more rounds are needed.
pub open spec fn resolve_with(
    m: ResolverModel,
    source: spec_fn(Seq<Seq<char>>) -> Seq<PkgView>,
    fuel: nat,
) -> Option<Result<Seq<Seq<char>>, Seq<char>>>
    decreases fuel,
{
    let (next, batch) = take_batch(m);
    match batch {
        None => Some(order_result(next.records)),
        Some(b) => if fuel == 0 {
            None
        } else {
            resolve_with(absorb_all(next, source(b)), source, (fuel - 1) as nat)
        },
    }
}

/// Resolving the same roots twice against an unchanged dataset gives the same
/// ordered output, however many rounds each run is allowed once both finish.
pub proof fn lemma_resolution_repeatable(
    roots: Seq<Seq<char>>,
    source: spec_fn(Seq<Seq<char>>) -> Seq<PkgView>,
    fuel1: nat,
    fuel2: nat,
)
    requires
        resolve_with(ResolverModel { queue: roots, records: Seq::empty() }, source, fuel1) is Some,
        resolve_with(ResolverModel { queue: roots, records: Seq::empty() }, source, fuel2) is Some,
    ensures
        resolve_with(ResolverModel { queue: roots, records: Seq::empty() }, source, fuel1)
            == resolve_with(ResolverModel { queue: roots, records: Seq::empty() }, source, fuel2),
{
    lemma_fuel_agrees(ResolverModel { queue: roots, records: Seq::empty() }, source, fuel1, fuel2);
}

/// Two finished runs from the same state agree.
proof fn lemma_fuel_agrees(
    m: ResolverModel,
    source: spec_fn(Seq<Seq<char>>) -> Seq<PkgView>,
    f1: nat,
    f2: nat,
)
    requires
        resolve_with(m, source, f1) is Some,
        resolve_with(m, source, f2) is Some,
    ensures
        resolve_with(m, source, f1) == resolve_with(m, source, f2),
    decreases f1,
{
    let (next, batch) = take_batch(m);
    if let Some(b) = batch {
        lemma_fuel_agrees(absorb_all(next, source(b)), source, (f1 - 1) as nat, (f2 - 1) as nat);
    }
}

/// After absorbing, every fetched name is a record.
proof fn lemma_absorb_covers(m: ResolverModel, fetched: Seq<PkgView>, k: int)
    requires
        0 <= k < fetched.len(),
    ensures
        names_of(absorb_all(m, fetched).records).contains(fetched[k].name),
    decreases fetched.len(),
{
    let prev = absorb_all(m, fetched.drop_last());
    let p = fetched.last();
    if k < fetched.len() - 1 {
        lemma_absorb_covers(m, fetched.drop_last(), k);
        assert(fetched.drop_last()[k] == fetched[k]);
        if !names_of(prev.records).contains(p.name) {
            let x = choose|x: int| 0 <= x < names_of(prev.records).len() && names_of(prev.records)[x] == fetched[k].name;
            assert(names_of(prev.records.push(p))[x] == fetched[k].name);
        }
    } else {
        if !names_of(prev.records).contains(p.name) {
            assert(names_of(prev.records.push(p))[prev.records.len() as int] == p.name);
        }
    }
}

/// Records whose names are all known already change nothing.
proof fn lemma_absorb_known(m: ResolverModel, fetched: Seq<PkgView>)
    requires
        forall|k: int| 0 <= k < fetched.len() ==> names_of(m.records).contains(#[trigger] fetched[k].name),
    ensures
        absorb_all(m, fetched) == m,
    decreases fetched.len(),
{
    if fetched.len() > 0 {
        lemma_absorb_known(m, fetched.drop_last());
        assert(names_of(m.records).contains(fetched[fetched.len() - 1].name));
    }
}

/// Taking in the same fetched records a second time changes nothing.
pub proof fn lemma_absorb_idempotent(m: ResolverModel, fetched: Seq<PkgView>)
    ensures
        absorb_all(absorb_all(m, fetched), fetched) == absorb_all(m, fetched),
{
    let once = absorb_all(m, fetched);
    assert forall|k: int| 0 <= k < fetched.len() implies names_of(once.records).contains(#[trigger] fetched[k].name) by {
        lemma_absorb_covers(m, fetched, k);
    }
    lemma_absorb_known(once, fetched);
}

impl Resolver {
    /// The taken prefix lies within the queue, and no two records share a name.
    pub closed spec fn wf(&self) -> bool {
        self.pos <= self.queue.len() && model_wf(self@)
    }

    /// A resolution that starts from `roots`.
    pub fn new(roots: &Vec<String>) -> (r: Resolver)
        ensures
            r@.queue == strs(roots@),
            r@.records == Seq::<PkgView>::empty(),
            r.wf(),
    {
        let r = Resolver { queue: copy_strings(roots), pos: 0, infos: Vec::new() };
        assert(r@.queue =~= strs(roots@));
        assert(r@.records =~= Seq::<PkgView>::empty());
        assert(names_of(r@.records) =~= Seq::<Seq<char>>::empty());
        r
    }

    /// The next batch of names to fetch, or `None` when resolution is complete.
    pub fn next_batch(&mut self) -> (r: Option<Vec<String>>)
        requires
            old(self).wf(),
        ensures
            final(self).wf(),
            final(self)@ == take_batch(old(self)@).0,
            crate::info::opt_strs(r) == take_batch(old(self)@).1,
            r matches Some(b) ==> 0 < b.len() <= BATCH_LIMIT,
    {
        loop
            invariant
                take_batch(old(self)@) == take_batch(self@),
                self.wf(),
                self@.records == old(self)@.records,
            decreases self.queue.len() - self.pos,
        {
            let ghost m = self@;
            if self.pos == self.queue.len() {
                return None;
            }
            let rem = self.queue.len() - self.pos;
            let k: usize = if rem < BATCH_LIMIT {
                rem
            } else {
                BATCH_LIMIT
            };
            let ghost front = m.queue.subrange(0, k as int);
            let mut chunk: Vec<String> = Vec::new();
            for t in 0..k
                invariant
                    self.pos + k <= self.queue.len(),
                    m == self@,
                    front == m.queue.subrange(0, k as int),
                    strs(chunk@) == unseen(m.records, front.subrange(0, t as int)),
                    chunk.len() <= t,
            {
                let name = &self.queue[self.pos + t];
                assert(front.subrange(0, t + 1).drop_last() =~= front.subrange(0, t as int));
                assert(front.subrange(0, t + 1).last() == name@);
                if !is_visited(&self.infos, name) {
                    let ghost before = chunk@;
                    chunk.push(name.clone());
                    assert(strs(chunk@) =~= strs(before).push(name@));
                }
            }
            assert(front.subrange(0, k as int) =~= front);
            self.pos = self.pos + k;
            assert(self@.queue =~= m.queue.subrange(k as int, m.queue.len() as int));
            if chunk.len() > 0 {
                return Some(chunk);
            }
        }
    }

    /// Takes in the records that a metadata source returned for the last batch.
    pub fn absorb(&mut self, fetched: &Vec<AurInfo>)
        requires
            old(self).wf(),
        ensures
            final(self)@ == absorb_all(old(self)@, infos_view(fetched@)),
            final(self).wf(),
    {
        let ghost m0 = self@;
        for k in 0..fetched.len()
            invariant
                self.pos <= self.queue.len(),
                self@ == absorb_all(m0, infos_view(fetched@).subrange(0, k as int)),
                model_wf(self@),
        {
            let info = &fetched[k];
            let ghost m = self@;
            let ghost sub = infos_view(fetched@).subrange(0, k + 1);
            assert(sub.drop_last() =~= infos_view(fetched@).subrange(0, k as int));
            assert(sub.last() == info@);
            if !is_visited(&self.infos, &info.name) {
                let deps = resolve_dep_names(info);
                for t in 0..deps.len()
                    invariant
                        self.pos <= self.queue.len(),
                        self@.records == m.records,
                        self@.queue == m.queue + strs(deps@).subrange(0, t as int),
                {
                    let ghost before = self.queue@;
                    self.queue.push(deps[t].clone());
                    assert(strs(self.queue@) =~= strs(before).push(deps@[t as int]@));
                    assert(strs(self.queue@).subrange(self.pos as int, self.queue.len() as int)
                        =~= strs(before).subrange(self.pos as int, before.len() as int).push(
                        deps@[t as int]@,
                    ));
                    assert(self@.queue =~= m.queue + strs(deps@).subrange(0, t + 1));
                }
                assert(strs(deps@).subrange(0, deps.len() as int) =~= strs(deps@));
                let ghost before = self.infos@;
                self.infos.push(copy_info(info));
                assert(infos_view(self.infos@) =~= infos_view(before).push(info@));
                assert(names_of(self@.records) =~= names_of(m.records).push(info@.name));
            }
        }
        assert(infos_view(fetched@).subrange(0, fetched.len() as int) =~= infos_view(fetched@));
    }

    /// Orders the records found so that every record comes after all the
    /// records it needs, or names a package on a dependency cycle.
    pub fn finish(&self) -> (r: Result<Vec<String>, ResolveError>)
        requires
            self.wf(),
        ensures
            fits_graph(self@.records) <==> !(r matches Err(ResolveError::TooLarge)),
            fits_graph(self@.records) ==> order_view(r) == order_result(self@.records),
            r matches Ok(order) ==> {
                &&& deps_first(self@.records, strs(order@))
                &&& order.len() == self@.records.len()
                &&& forall|x: int| 0 <= x < self@.records.len() ==> strs(order@).contains(self@.records[x].name)
                &&& forall|k: int| 0 <= k < order.len() ==> names_of(self@.records).contains(#[trigger] strs(order@)[k])
            },
            r matches Err(ResolveError::Cycle(_)) ==> !is_acyclic(self@.records.len(), dep_edges(self@.records)),
    {
        let ghost recs = self@.records;
        let n = self.infos.len();
        if n >= 0xFFFF_FFFF {
            return Err(ResolveError::TooLarge);
        }
        let mut g = graph_new();
        for i in 0..n
            invariant
                n == self.infos.len(),
                n < u32::MAX,
                node_count_of(g) == i,
                edges_of(g) == Seq::<(usize, usize)>::empty(),
        {
            graph_add_node(&mut g, self.infos[i].name.clone());
        }
        let mut edge_count: usize = 0;
        for i in 0..n
            invariant
                n == self.infos.len(),
                recs == self@.records,
                recs == infos_view(self.infos@),
                n < u32::MAX,
                node_count_of(g) == n,
                edges_of(g) == edges_upto(recs, i as int),
                edges_of(g).len() < u32::MAX,
                edge_count == edges_of(g).len(),
        {
            let deps = resolve_dep_names(&self.infos[i]);
            let ghost dn = strs(deps@);
            assert(dn == dep_names(recs[i as int]));
            proof {
                lemma_edges_upto_grow(recs, i + 1);
            }
            for t in 0..deps.len()
                invariant
                    n == self.infos.len(),
                    i < n,
                    recs == infos_view(self.infos@),
                    n < u32::MAX,
                    edges_upto(recs, i + 1).len() <= dep_edges(recs).len(),
                    edges_upto(recs, i + 1) == edges_upto(recs, i as int) + edges_of_deps(recs, i as int, dn),
                    edges_of(g).len() < u32::MAX,
                    edge_count == edges_of(g).len(),
                    dn == strs(deps@),
                    dn == dep_names(recs[i as int]),
                    node_count_of(g) == n,
                    edges_of(g) == edges_upto(recs, i as int) + edges_of_deps(recs, i as int, dn.subrange(0, t as int)),
            {
                let ghost sub = dn.subrange(0, t + 1);
                assert(sub.drop_last() =~= dn.subrange(0, t as int));
                assert(sub.last() == deps@[t as int]@);
                proof {
                    lemma_deps_edges_prefix(recs, i as int, dn, t + 1);
                }
                match find_record(&self.infos, &deps[t]) {
                    Some(j) => {
                        if edge_count >= 0xFFFF_FFFE {
                            assert(edges_of(g).push((j, i)) =~= edges_upto(recs, i as int) + edges_of_deps(recs, i as int, sub));
                            return Err(ResolveError::TooLarge);
                        }
                        graph_add_edge(&mut g, j, i);
                        edge_count = edge_count + 1;
                        assert(edges_of(g) =~= edges_upto(recs, i as int) + edges_of_deps(recs, i as int, sub));
                    },
                    None => {},
                }
            }
            assert(dn.subrange(0, deps.len() as int) =~= dn);
        }
        assert(edges_upto(recs, n as int) == dep_edges(recs));
        match graph_toposort(&g) {
            Ok(order) => {
                let mut out: Vec<String> = Vec::new();
                for k in 0..order.len()
                    invariant
                        n == self.infos.len(),
                        recs == infos_view(self.infos@),
                        is_topological(n as nat, dep_edges(recs), order@),
                        strs(out@) == order_names(recs, order@).subrange(0, k as int),
                {
                    let ghost before = out@;
                    out.push(self.infos[order[k]].name.clone());
                    assert(strs(out@) =~= strs(before).push(recs[order@[k as int] as int].name));
                    assert(strs(out@) =~= order_names(recs, order@).subrange(0, k + 1));
                }
                assert(order_names(recs, order@).subrange(0, order.len() as int)
                    =~= order_names(recs, order@));
                proof {
                    lemma_order_names(recs, order@);
                }
                Ok(out)
            },
            Err(c) => Err(ResolveError::Cycle(self.infos[c].name.clone())),
        }
    }
}

} // verus!
