//! Lookups through a raw-file mirror, where each source package is published
//! as a branch named after its `pkgbase`.
//!
//! A [`MirrorBatch`] resolves one batch of names. Its caller asks it which
//! branches to fetch, fetches them, and hands back what each held, until the
//! batch reports the records it found.

use crate::info::{infos_view, AurInfo, PkgView};
use crate::info::strs;
use crate::resolve::{copy_info, find_record, is_visited, names_of, record_index_from, unseen, BATCH_LIMIT};
use vstd::prelude::*;

verus! {

/// The state of a mirror lookup, as mathematical values.
pub struct MirrorModel {
    /// Names still to look up, front first.
    pub queue: Seq<Seq<char>>,
    /// Names that were queued again once after a miss.
    pub retried: Seq<Seq<char>>,
    /// Fetched branches with the records parsed from them.
    pub cache: Seq<(Seq<char>, Seq<PkgView>)>,
    /// Package names with the branch (`pkgbase`) known to produce them.
    pub owners: Seq<(Seq<char>, Seq<char>)>,
    /// Records found, one per requested name.
    pub results: Seq<PkgView>,
    /// Names of the batch waiting for its branches.
    pub pending: Seq<Seq<char>>,
}

/// What a lookup asks for next.
pub enum MirrorStepModel {
    Fetch(Seq<Seq<char>>),
    Done(Seq<PkgView>),
}

/// Index of the first owner entry at or after `i` for `name`.
pub open spec fn owner_from(owners: Seq<(Seq<char>, Seq<char>)>, name: Seq<char>, i: int) -> Option<int>
    decreases owners.len() - i,
{
    if i < 0 || i >= owners.len() {
        None
    } else if owners[i].0 == name {
        Some(i)
    } else {
        owner_from(owners, name, i + 1)
    }
}

/// The branch to look in for `name`: its known owner, else the name itself.
pub open spec fn branch_of(owners: Seq<(Seq<char>, Seq<char>)>, name: Seq<char>) -> Seq<char> {
    match owner_from(owners, name, 0) {
        Some(j) => owners[j].1,
        None => name,
    }
}

/// Index of the first cache entry at or after `i` for `branch`.
pub open spec fn cache_from(cache: Seq<(Seq<char>, Seq<PkgView>)>, branch: Seq<char>, i: int) -> Option<int>
    decreases cache.len() - i,
{
    if i < 0 || i >= cache.len() {
        None
    } else if cache[i].0 == branch {
        Some(i)
    } else {
        cache_from(cache, branch, i + 1)
    }
}

/// The distinct branches, not fetched yet, that the names of `chunk` lead to.
pub open spec fn branches_for(m: MirrorModel, chunk: Seq<Seq<char>>) -> Seq<Seq<char>>
    decreases chunk.len(),
{
    if chunk.len() == 0 {
        Seq::empty()
    } else {
        let r = branches_for(m, chunk.drop_last());
        let b = branch_of(m.owners, chunk.last());
        if cache_from(m.cache, b, 0) is Some || r.contains(b) {
            r
        } else {
            r.push(b)
        }
    }
}

/// Takes the next batch of names that are not found yet (up to
/// [`BATCH_LIMIT`]) and asks for their branches; with the queue empty, the
/// lookup is done.
pub open spec fn mirror_step(m: MirrorModel) -> (MirrorModel, MirrorStepModel)
    decreases m.queue.len(),
{
    if m.queue.len() == 0 {
        (m, MirrorStepModel::Done(m.results))
    } else {
        let k = if m.queue.len() < BATCH_LIMIT { m.queue.len() as int } else { BATCH_LIMIT as int };
        let chunk = unseen(m.results, m.queue.subrange(0, k));
        let next = MirrorModel { queue: m.queue.subrange(k, m.queue.len() as int), ..m };
        if chunk.len() == 0 {
            mirror_step(next)
        } else {
            (MirrorModel { pending: chunk, ..next }, MirrorStepModel::Fetch(branches_for(next, chunk)))
        }
    }
}

/// Records that `p` comes from branch `p.pkgbase`, unless its owner is known.
pub open spec fn add_owner(owners: Seq<(Seq<char>, Seq<char>)>, p: PkgView) -> Seq<(Seq<char>, Seq<char>)> {
    if owner_from(owners, p.name, 0) is Some {
        owners
    } else {
        owners.push((p.name, p.pkgbase))
    }
}

/// Records the owners of all `entries`, in order.
pub open spec fn add_owners(owners: Seq<(Seq<char>, Seq<char>)>, entries: Seq<PkgView>) -> Seq<(Seq<char>, Seq<char>)>
    decreases entries.len(),
{
    if entries.len() == 0 {
        owners
    } else {
        add_owner(add_owners(owners, entries.drop_last()), entries.last())
    }
}

/// Stores what branch `b` held.
pub open spec fn cache_put(cache: Seq<(Seq<char>, Seq<PkgView>)>, b: Seq<char>, entries: Seq<PkgView>) -> Seq<(Seq<char>, Seq<PkgView>)> {
    match cache_from(cache, b, 0) {
        Some(j) => cache.update(j, (b, entries)),
        None => cache.push((b, entries)),
    }
}

/// Takes in fetched branches, in order.
pub open spec fn insert_fetched(m: MirrorModel, fetched: Seq<(Seq<char>, Seq<PkgView>)>) -> MirrorModel
    decreases fetched.len(),
{
    if fetched.len() == 0 {
        m
    } else {
        let prev = insert_fetched(m, fetched.drop_last());
        let f = fetched.last();
        MirrorModel { owners: add_owners(prev.owners, f.1), cache: cache_put(prev.cache, f.0, f.1), ..prev }
    }
}

/// Taking in fetched branches touches only the cache and the owners.
proof fn lemma_insert_keeps(m: MirrorModel, fetched: Seq<(Seq<char>, Seq<PkgView>)>)
    ensures
        insert_fetched(m, fetched).pending == m.pending,
        insert_fetched(m, fetched).queue == m.queue,
        insert_fetched(m, fetched).retried == m.retried,
        insert_fetched(m, fetched).results == m.results,
    decreases fetched.len(),
{
    if fetched.len() > 0 {
        lemma_insert_keeps(m, fetched.drop_last());
    }
}

/// Looks up one name: a record of that name in its branch is found; otherwise
/// the name is queued again, once.
pub open spec fn settle_one(m: MirrorModel, name: Seq<char>) -> MirrorModel {
    if names_of(m.results).contains(name) {
        m
    } else {
        let b = branch_of(m.owners, name);
        match cache_from(m.cache, b, 0) {
            Some(j) => match record_index_from(m.cache[j].1, name, 0) {
                Some(x) => MirrorModel { results: m.results.push(m.cache[j].1[x]), ..m },
                None => requeue(m, name),
            },
            None => requeue(m, name),
        }
    }
}

/// Queues `name` again unless it was already given its second chance.
pub open spec fn requeue(m: MirrorModel, name: Seq<char>) -> MirrorModel {
    if m.retried.contains(name) {
        m
    } else {
        MirrorModel { retried: m.retried.push(name), queue: m.queue.push(name), ..m }
    }
}

/// Looks up the names of `chunk`, in order.
pub open spec fn settle(m: MirrorModel, chunk: Seq<Seq<char>>) -> MirrorModel
    decreases chunk.len(),
{
    if chunk.len() == 0 {
        m
    } else {
        settle_one(settle(m, chunk.drop_last()), chunk.last())
    }
}

/// Takes in the fetched branches, then looks up the waiting names.
pub open spec fn mirror_absorb(m: MirrorModel, fetched: Seq<(Seq<char>, Seq<PkgView>)>) -> MirrorModel {
    let filled = insert_fetched(m, fetched);
    settle(MirrorModel { pending: Seq::empty(), ..filled }, m.pending)
}

/// What a lookup asks for next.
pub enum MirrorStep {
    /// Fetch these branches and hand back what each held.
    Fetch(Vec<String>),
    /// The lookup is complete: the records found.
    Done(Vec<AurInfo>),
}

/// The view of a step.
pub open spec fn step_view(s: MirrorStep) -> MirrorStepModel {
    match s {
        MirrorStep::Fetch(b) => MirrorStepModel::Fetch(strs(b@)),
        MirrorStep::Done(r) => MirrorStepModel::Done(infos_view(r@)),
    }
}

/// The view of fetched branches.
pub open spec fn fetched_view(f: Seq<(String, Vec<AurInfo>)>) -> Seq<(Seq<char>, Seq<PkgView>)> {
    f.map_values(|e: (String, Vec<AurInfo>)| (e.0@, infos_view(e.1@)))
}

/// The view of owner entries.
pub open spec fn owners_view(o: Seq<(String, String)>) -> Seq<(Seq<char>, Seq<char>)> {
    o.map_values(|e: (String, String)| (e.0@, e.1@))
}

/// The state of one mirror lookup.
pub struct MirrorBatch {
    /// Every name queued so far; those before `pos` have been taken.
    queue: Vec<String>,
    pos: usize,
    retried: Vec<String>,
    cache: Vec<(String, Vec<AurInfo>)>,
    owners: Vec<(String, String)>,
    results: Vec<AurInfo>,
    pending: Vec<String>,
}

impl View for MirrorBatch {
    type V = MirrorModel;

    closed spec fn view(&self) -> MirrorModel {
        MirrorModel {
            queue: strs(self.queue@).subrange(self.pos as int, self.queue@.len() as int),
            retried: strs(self.retried@),
            cache: fetched_view(self.cache@),
            owners: owners_view(self.owners@),
            results: infos_view(self.results@),
            pending: strs(self.pending@),
        }
    }
}

/// A copy of a list of records.
pub fn copy_infos(v: &Vec<AurInfo>) -> (r: Vec<AurInfo>)
    ensures
        infos_view(r@) == infos_view(v@),
{
    let mut out: Vec<AurInfo> = Vec::new();
    for k in 0..v.len()
        invariant
            infos_view(out@) == infos_view(v@).subrange(0, k as int),
    {
        let ghost before = out@;
        out.push(copy_info(&v[k]));
        assert(infos_view(out@) =~= infos_view(before).push(v@[k as int]@));
        assert(infos_view(out@) =~= infos_view(v@).subrange(0, k + 1));
    }
    assert(infos_view(v@).subrange(0, v.len() as int) =~= infos_view(v@));
    out
}

/// Tells whether `v` holds `s`.
pub(crate) fn contains_string(v: &Vec<String>, s: &String) -> (r: bool)
    ensures
        r == strs(v@).contains(s@),
{
    let mut i: usize = 0;
    while i < v.len()
        invariant
            i <= v.len(),
            forall|j: int| 0 <= j < i ==> strs(v@)[j] != s@,
        decreases v.len() - i,
    {
        if v[i] == *s {
            assert(strs(v@)[i as int] == s@);
            return true;
        }
        i += 1;
    }
    false
}

/// Index of the first owner entry for `name`.
fn find_owner(owners: &Vec<(String, String)>, name: &String) -> (r: Option<usize>)
    ensures
        match r {
            Some(j) => owner_from(owners_view(owners@), name@, 0) == Some(j as int) && j < owners.len(),
            None => owner_from(owners_view(owners@), name@, 0) is None,
        },
{
    let ghost v = owners_view(owners@);
    let mut i: usize = 0;
    while i < owners.len()
        invariant
            i <= owners.len(),
            v == owners_view(owners@),
            owner_from(v, name@, 0) == owner_from(v, name@, i as int),
        decreases owners.len() - i,
    {
        if owners[i].0 == *name {
            return Some(i);
        }
        i += 1;
    }
    None
}

/// Index of the cache entry for `branch`.
fn find_cached(cache: &Vec<(String, Vec<AurInfo>)>, branch: &String) -> (r: Option<usize>)
    ensures
        match r {
            Some(j) => cache_from(fetched_view(cache@), branch@, 0) == Some(j as int) && j < cache.len(),
            None => cache_from(fetched_view(cache@), branch@, 0) is None,
        },
{
    let ghost v = fetched_view(cache@);
    let mut i: usize = 0;
    while i < cache.len()
        invariant
            i <= cache.len(),
            v == fetched_view(cache@),
            cache_from(v, branch@, 0) == cache_from(v, branch@, i as int),
        decreases cache.len() - i,
    {
        if cache[i].0 == *branch {
            return Some(i);
        }
        i += 1;
    }
    None
}

/// The branch to look in for `name`.
fn branch_for(owners: &Vec<(String, String)>, name: &String) -> (r: String)
    ensures
        r@ == branch_of(owners_view(owners@), name@),
{
    match find_owner(owners, name) {
        Some(j) => owners[j].1.clone(),
        None => name.clone(),
    }
}

impl MirrorBatch {
    /// The taken prefix lies within the queue.
    pub closed spec fn wf(&self) -> bool {
        self.pos <= self.queue.len()
    }

    /// A lookup of `names`.
    pub fn new(names: &Vec<String>) -> (r: MirrorBatch)
        ensures
            r.wf(),
            r@ == (MirrorModel {
                queue: strs(names@),
                retried: Seq::empty(),
                cache: Seq::empty(),
                owners: Seq::empty(),
                results: Seq::empty(),
                pending: Seq::empty(),
            }),
    {
        let r = MirrorBatch {
            queue: crate::resolve::copy_strings(names),
            pos: 0,
            retried: Vec::new(),
            cache: Vec::new(),
            owners: Vec::new(),
            results: Vec::new(),
            pending: Vec::new(),
        };
        assert(r@.queue =~= strs(names@));
        assert(r@.retried =~= Seq::<Seq<char>>::empty());
        assert(r@.cache =~= Seq::<(Seq<char>, Seq<PkgView>)>::empty());
        assert(r@.owners =~= Seq::<(Seq<char>, Seq<char>)>::empty());
        assert(r@.results =~= Seq::<PkgView>::empty());
        assert(r@.pending =~= Seq::<Seq<char>>::empty());
        r
    }

    /// The branches that the names of `chunk` lead to, each once, without those
    /// fetched already.
    fn plan_branches(&self, chunk: &Vec<String>) -> (r: Vec<String>)
        ensures
            strs(r@) == branches_for(self@, strs(chunk@)),
    {
        let ghost cv = strs(chunk@);
        let mut out: Vec<String> = Vec::new();
        for t in 0..chunk.len()
            invariant
                cv == strs(chunk@),
                strs(out@) == branches_for(self@, cv.subrange(0, t as int)),
        {
            let ghost sub = cv.subrange(0, t + 1);
            assert(sub.drop_last() =~= cv.subrange(0, t as int));
            assert(sub.last() == chunk@[t as int]@);
            let b = branch_for(&self.owners, &chunk[t]);
            if find_cached(&self.cache, &b).is_none() && !contains_string(&out, &b) {
                let ghost before = out@;
                out.push(b);
                assert(strs(out@) =~= strs(before).push(b@));
            }
        }
        assert(cv.subrange(0, chunk.len() as int) =~= cv);
        out
    }

    /// The next branches to fetch, or the records found once the lookup is complete.
    pub fn step(&mut self) -> (r: MirrorStep)
        requires
            old(self).wf(),
        ensures
            final(self).wf(),
            (final(self)@, step_view(r)) == mirror_step(old(self)@),
    {
        loop
            invariant
                self.wf(),
                mirror_step(old(self)@) == mirror_step(self@),
            decreases self.queue.len() - self.pos,
        {
            let ghost m = self@;
            if self.pos == self.queue.len() {
                return MirrorStep::Done(copy_infos(&self.results));
            }
            let rem = self.queue.len() - self.pos;
            let k: usize = if rem < BATCH_LIMIT {
                rem
            } else {
                BATCH_LIMIT
            };
            let ghost front = m.queue.subrange(0, k as int);
            let mut chunk: Vec<String> = Vec::new();
            for t in 0..k
                invariant
                    self.pos + k <= self.queue.len(),
                    m == self@,
                    front == m.queue.subrange(0, k as int),
                    strs(chunk@) == unseen(m.results, front.subrange(0, t as int)),
            {
                let name = &self.queue[self.pos + t];
                assert(front.subrange(0, t + 1).drop_last() =~= front.subrange(0, t as int));
                assert(front.subrange(0, t + 1).last() == name@);
                if !is_visited(&self.results, name) {
                    let ghost before = chunk@;
                    chunk.push(name.clone());
                    assert(strs(chunk@) =~= strs(before).push(name@));
                }
            }
            assert(front.subrange(0, k as int) =~= front);
            self.pos = self.pos + k;
            assert(self@.queue =~= m.queue.subrange(k as int, m.queue.len() as int));
            if chunk.len() > 0 {
                let branches = self.plan_branches(&chunk);
                self.pending = chunk;
                return MirrorStep::Fetch(branches);
            }
        }
    }

    /// Records the owner branch of each of `entries` not known yet.
    fn add_owners_of(&mut self, entries: &Vec<AurInfo>)
        requires
            old(self).wf(),
        ensures
            final(self).wf(),
            final(self)@ == (MirrorModel { owners: add_owners(old(self)@.owners, infos_view(entries@)), ..old(self)@ }),
    {
        let ghost m = self@;
        let ghost ev = infos_view(entries@);
        for t in 0..entries.len()
            invariant
                self.wf(),
                ev == infos_view(entries@),
                self@ == (MirrorModel { owners: add_owners(m.owners, ev.subrange(0, t as int)), ..m }),
        {
            let ghost sub = ev.subrange(0, t + 1);
            assert(sub.drop_last() =~= ev.subrange(0, t as int));
            assert(sub.last() == entries@[t as int]@);
            let info = &entries[t];
            if find_owner(&self.owners, &info.name).is_none() {
                let ghost before = self.owners@;
                self.owners.push((info.name.clone(), info.pkgbase.clone()));
                assert(owners_view(self.owners@) =~= owners_view(before).push((info.name@, info.pkgbase@)));
            }
            assert(self@ == (MirrorModel { owners: add_owners(m.owners, sub), ..m }));
        }
        assert(ev.subrange(0, entries.len() as int) =~= ev);
    }

    /// Queues `name` again unless it had its second chance.
    fn requeue_name(&mut self, name: &String)
        requires
            old(self).wf(),
        ensures
            final(self).wf(),
            final(self)@ == requeue(old(self)@, name@),
    {
        if !contains_string(&self.retried, name) {
            let ghost m = self@;
            let ghost rb = self.retried@;
            let ghost qb = self.queue@;
            self.retried.push(name.clone());
            self.queue.push(name.clone());
            assert(strs(self.retried@) =~= strs(rb).push(name@));
            assert(strs(self.queue@) =~= strs(qb).push(name@));
            assert(self@.queue =~= m.queue.push(name@));
        }
    }

    /// Looks up one name in the fetched branches.
    fn settle_name(&mut self, name: &String)
        requires
            old(self).wf(),
        ensures
            final(self).wf(),
            final(self)@ == settle_one(old(self)@, name@),
    {
        if is_visited(&self.results, name) {
            return;
        }
        let b = branch_for(&self.owners, name);
        match find_cached(&self.cache, &b) {
            Some(j) => match find_record(&self.cache[j].1, name) {
                Some(x) => {
                    let ghost m = self@;
                    let info = copy_info(&self.cache[j].1[x]);
                    let ghost before = self.results@;
                    self.results.push(info);
                    assert(infos_view(self.results@) =~= infos_view(before).push(m.cache[j as int].1[x as int]));
                },
                None => self.requeue_name(name),
            },
            None => self.requeue_name(name),
        }
    }

    /// Takes in what the fetched branches held, then looks up the waiting names.
    pub fn absorb(&mut self, fetched: &Vec<(String, Vec<AurInfo>)>)
        requires
            old(self).wf(),
        ensures
            final(self).wf(),
            final(self)@ == mirror_absorb(old(self)@, fetched_view(fetched@)),
    {
        let ghost m0 = self@;
        let ghost fv = fetched_view(fetched@);
        for k in 0..fetched.len()
            invariant
                self.wf(),
                fv == fetched_view(fetched@),
                self@ == insert_fetched(m0, fv.subrange(0, k as int)),
        {
            let ghost sub = fv.subrange(0, k + 1);
            assert(sub.drop_last() =~= fv.subrange(0, k as int));
            assert(sub.last() == fv[k as int]);
            let entries = &fetched[k].1;
            self.add_owners_of(entries);
            let ghost m = self@;
            let copy = copy_infos(entries);
            let branch = fetched[k].0.clone();
            match find_cached(&self.cache, &branch) {
                Some(j) => {
                    let ghost before = self.cache@;
                    self.cache.set(j, (branch, copy));
                    assert(fetched_view(self.cache@) =~= fetched_view(before).update(j as int, (fv[k as int].0, fv[k as int].1)));
                },
                None => {
                    let ghost before = self.cache@;
                    self.cache.push((branch, copy));
                    assert(fetched_view(self.cache@) =~= fetched_view(before).push((fv[k as int].0, fv[k as int].1)));
                },
            }
        }
        assert(fv.subrange(0, fetched.len() as int) =~= fv);
        let mut chunk: Vec<String> = Vec::new();
        std::mem::swap(&mut chunk, &mut self.pending);
        assert(strs(self.pending@) =~= Seq::<Seq<char>>::empty());
        let ghost base = self@;
        let ghost cv = strs(chunk@);
        proof {
            lemma_insert_keeps(m0, fv);
        }
        assert(cv == m0.pending);
        for t in 0..chunk.len()
            invariant
                self.wf(),
                cv == strs(chunk@),
                self@ == settle(base, cv.subrange(0, t as int)),
        {
            let ghost sub = cv.subrange(0, t + 1);
            assert(sub.drop_last() =~= cv.subrange(0, t as int));
            assert(sub.last() == chunk@[t as int]@);
            self.settle_name(&chunk[t]);
        }
        assert(cv.subrange(0, chunk.len() as int) =~= cv);
    }
}

} // verus!
