//! The catalogue of discovered projects, keyed by directory path.

use vstd::prelude::*;
use vstd::hash_map::StringHashMap;
use crate::project::{texts, Project, ProjectView, Timestamp};
use crate::ranking::{rank_desc, ranked};

verus! {

/// The catalogue, as mathematical values.
pub struct IndexView {
    pub projects: Map<Seq<char>, ProjectView>,
    pub last_indexed: Timestamp,
}

/// Whether the directory `path`, last modified at `t`, has to be classified again:
/// it is not catalogued, or its entry is older than `t`.
pub open spec fn needs_reindex(m: Map<Seq<char>, ProjectView>, path: Seq<char>, t: Timestamp) -> bool {
    !m.contains_key(path) || m[path].last_modified.spec_before(t)
}

/// The catalogue `m` after storing each (path, project) of `ops` in order.
pub open spec fn apply_adds(m: Map<Seq<char>, ProjectView>, ops: Seq<(Seq<char>, ProjectView)>) -> Map<
    Seq<char>,
    ProjectView,
>
    decreases ops.len(),
{
    if ops.len() == 0 {
        m
    } else {
        apply_adds(m, ops.drop_last()).insert(ops.last().0, ops.last().1)
    }
}

/// The catalogue made by storing each (path, project) of `es` in order.
pub open spec fn insert_all(es: Seq<(Seq<char>, ProjectView)>) -> Map<Seq<char>, ProjectView> {
    apply_adds(Map::empty(), es)
}

pub open spec fn entries_view(es: Seq<(String, Project)>) -> Seq<(Seq<char>, ProjectView)> {
    es.map_values(|e: (String, Project)| (e.0@, e.1@))
}

/// `es` lists every entry of `m` once.
pub open spec fn lists(m: Map<Seq<char>, ProjectView>, es: Seq<(Seq<char>, ProjectView)>) -> bool {
    &&& es.map_values(|e: (Seq<char>, ProjectView)| e.0).no_duplicates()
    &&& forall|k: Seq<char>| #[trigger] m.contains_key(k) <==> es.map_values(|e: (Seq<char>, ProjectView)| e.0).contains(k)
    &&& forall|i: int| 0 <= i < es.len() ==> (#[trigger] es[i]).1 == m[es[i].0]
}

/// Ranking keys for listing projects: most recently modified first.
pub open spec fn recency_keys(ps: Seq<ProjectView>) -> Seq<(usize, Timestamp)> {
    ps.map_values(|p: ProjectView| (0usize, p.last_modified))
}

/// The persisted catalogue of projects.
pub struct Index {
    projects: StringHashMap<Project>,
    /// Every catalogued path once, in order of first insertion.
    paths: Vec<String>,
    last_indexed: Timestamp,
}

impl View for Index {
    type V = IndexView;

    closed spec fn view(&self) -> IndexView {
        IndexView {
            projects: self.projects@.map_values(|p: Project| p@),
            last_indexed: self.last_indexed,
        }
    }
}

impl Index {
    pub closed spec fn wf(&self) -> bool {
        &&& texts(self.paths@).no_duplicates()
        &&& forall|k: Seq<char>| #[trigger]
            self.projects@.contains_key(k) <==> texts(self.paths@).contains(k)
    }

    /// An empty catalogue, indexed at `last_indexed`.
    pub fn new(last_indexed: Timestamp) -> (r: Index)
        ensures
            r.wf(),
            r@.projects == Map::<Seq<char>, ProjectView>::empty(),
            r@.last_indexed == last_indexed,
    {
        let r = Index { projects: StringHashMap::new(), paths: Vec::new(), last_indexed };
        assert(r@.projects =~= Map::<Seq<char>, ProjectView>::empty());
        r
    }

    /// Stores `project` under `path`, replacing what was stored there.
    pub fn add_project(&mut self, path: &String, project: Project)
        requires
            old(self).wf(),
        ensures
            final(self).wf(),
            final(self)@.projects == old(self)@.projects.insert(path@, project@),
            final(self)@.last_indexed == old(self)@.last_indexed,
    {
        let ghost m0 = self@.projects;
        let ghost paths0 = texts(self.paths@);
        if !self.projects.contains_key(path.as_str()) {
            self.paths.push(path.clone());
            proof {
                assert(texts(self.paths@) =~= paths0.push(path@));
                assert forall|k: Seq<char>| texts(self.paths@).contains(k) <==> (paths0.contains(k)
                    || k == path@) by {
                    if paths0.contains(k) {
                        let w = choose|w: int| 0 <= w < paths0.len() && paths0[w] == k;
                        assert(texts(self.paths@)[w] == k);
                    }
                    if k == path@ {
                        assert(texts(self.paths@)[paths0.len() as int] == k);
                    }
                    if texts(self.paths@).contains(k) && k != path@ {
                        let w = choose|w: int|
                            0 <= w < texts(self.paths@).len() && texts(self.paths@)[w] == k;
                        assert(paths0[w] == k);
                    }
                }
            }
        }
        self.projects.remove(path.as_str());
        self.projects.insert(path.clone(), project);
        assert(self@.projects =~= m0.insert(path@, project@));
    }

    /// Whether `path`, last modified at `last_modified`, has to be classified again.
    pub fn should_reindex(&self, path: &str, last_modified: Timestamp) -> (r: bool)
        ensures
            r == needs_reindex(self@.projects, path@, last_modified),
    {
        match self.projects.get(path) {
            Some(p) => p.last_modified.is_before(&last_modified),
            None => true,
        }
    }

    /// The project stored under `path`.
    pub fn get(&self, path: &str) -> (r: Option<&Project>)
        ensures
            match r {
                Some(p) => self@.projects.contains_key(path@) && p@ == self@.projects[path@],
                None => !self@.projects.contains_key(path@),
            },
    {
        self.projects.get(path)
    }

    /// Every catalogued path once.
    pub fn paths(&self) -> (r: &Vec<String>)
        requires
            self.wf(),
        ensures
            texts(r@).no_duplicates(),
            forall|k: Seq<char>| #[trigger]
                self@.projects.contains_key(k) <==> texts(r@).contains(k),
    {
        &self.paths
    }

    /// The stored projects, keyed by path.
    pub fn projects_map(&self) -> (r: &StringHashMap<Project>)
        ensures
            r@.map_values(|p: Project| p@) == self@.projects,
    {
        &self.projects
    }

    pub fn last_indexed(&self) -> (r: Timestamp)
        ensures
            r == self@.last_indexed,
    {
        self.last_indexed
    }

    /// Records that the catalogue was saved at `now`.
    pub fn mark_indexed(&mut self, now: Timestamp)
        ensures
            final(self)@.projects == old(self)@.projects,
            final(self)@.last_indexed == now,
            old(self).wf() ==> final(self).wf(),
    {
        self.last_indexed = now;
    }

    /// Every stored project once, most recently modified first.
    pub fn projects(&self) -> (r: Vec<Project>)
        requires
            self.wf(),
        ensures
            exists|ks: Seq<Seq<char>>|
                {
                    &&& ks.no_duplicates()
                    &&& ks.len() == r@.len()
                    &&& forall|k: Seq<char>| #[trigger]
                        ks.contains(k) <==> self@.projects.contains_key(k)
                    &&& forall|i: int| 0 <= i < r@.len() ==> #[trigger] r@[i]@ == self@.projects[ks[i]]
                },
            ranked(recency_keys(r@.map_values(|p: Project| p@)), Seq::new(r@.len(), |i: int| i as usize)),
            r@.len() == self@.projects.dom().len(),
    {
        let ghost m = self@.projects;
        let ghost ps = texts(self.paths@);
        let mut keys: Vec<(usize, Timestamp)> = Vec::new();
        let mut cands: Vec<usize> = Vec::new();
        let mut k: usize = 0;
        while k < self.paths.len()
            invariant
                self.wf(),
                m == self@.projects,
                ps == texts(self.paths@),
                k <= ps.len(),
                keys@.len() == k,
                forall|i: int| 0 <= i < k ==> (#[trigger] keys@[i]) == (0usize, m[ps[i]].last_modified),
                cands@ == Seq::new(k as nat, |i: int| i as usize),
            decreases ps.len() - k,
        {
            assert(ps.contains(ps[k as int]));
            let p = self.projects.get(self.paths[k].as_str()).unwrap();
            keys.push((0, p.last_modified));
            cands.push(k);
            assert(cands@ =~= Seq::new((k + 1) as nat, |i: int| i as usize));
            k += 1;
        }
        assert forall|x: usize| cands@.contains(x) <==> x < ps.len() by {
            if x < ps.len() {
                assert(cands@[x as int] == x);
            }
        }
        let order = rank_desc(&keys, &cands);
        let mut r: Vec<Project> = Vec::new();
        let ghost mut ks: Seq<Seq<char>> = Seq::empty();
        let mut i: usize = 0;
        while i < order.len()
            invariant
                self.wf(),
                m == self@.projects,
                ps == texts(self.paths@),
                keys@.len() == ps.len(),
                forall|a: int| 0 <= a < ps.len() ==> (#[trigger] keys@[a]) == (0usize, m[ps[a]].last_modified),
                order@.len() == ps.len(),
                order@.no_duplicates(),
                forall|x: usize| order@.contains(x) <==> x < ps.len(),
                ranked(keys@, order@),
                i <= order@.len(),
                r@.len() == i,
                ks == order@.subrange(0, i as int).map_values(|x: usize| ps[x as int]),
                forall|a: int| 0 <= a < i ==> (#[trigger] r@[a])@ == m[ks[a]],
            decreases order@.len() - i,
        {
            assert(order@.contains(order@[i as int]));
            let d = order[i];
            assert(ps.contains(ps[d as int]));
            let p = self.projects.get(self.paths[d].as_str()).unwrap();
            r.push(p.duplicate());
            proof {
                ks = order@.subrange(0, i + 1).map_values(|x: usize| ps[x as int]);
            }
            i += 1;
        }
        proof {
            assert(order@.subrange(0, i as int) =~= order@);
            assert forall|a: int, b: int| 0 <= a < b < ks.len() implies ks[a] != ks[b] by {
                assert(order@[a] != order@[b]);
                assert(order@.contains(order@[a]));
                assert(order@.contains(order@[b]));
            }
            assert forall|k: Seq<char>| #[trigger] ks.contains(k) <==> m.contains_key(k) by {
                if ks.contains(k) {
                    let w = choose|w: int| 0 <= w < ks.len() && ks[w] == k;
                    assert(order@.contains(order@[w]));
                }
                if m.contains_key(k) {
                    assert(ps.contains(k));
                    let w = choose|w: int| 0 <= w < ps.len() && ps[w] == k;
                    assert(order@.contains(w as usize));
                    let v = choose|v: int| 0 <= v < order@.len() && order@[v] == w as usize;
                    assert(ks[v] == k);
                }
            }
            let rv = r@.map_values(|p: Project| p@);
            let idx = Seq::new(r@.len(), |a: int| a as usize);
            assert forall|a: int, b: int| 0 <= a < b < idx.len() implies !crate::ranking::outranks(
                #[trigger] recency_keys(rv)[idx[b] as int],
                #[trigger] recency_keys(rv)[idx[a] as int],
            ) by {
                assert(order@.contains(order@[a]));
                assert(order@.contains(order@[b]));
                assert(keys@[order@[a] as int] == recency_keys(rv)[a]);
                assert(keys@[order@[b] as int] == recency_keys(rv)[b]);
            }
            assert(ks.len() == r@.len());
            ks.unique_seq_to_set();
            assert(ks.to_set() =~= m.dom());
            assert({
                &&& ks.no_duplicates()
                &&& ks.len() == r@.len()
                &&& forall|k: Seq<char>| #[trigger] ks.contains(k) <==> self@.projects.contains_key(k)
                &&& forall|i: int| 0 <= i < r@.len() ==> #[trigger] r@[i]@ == self@.projects[ks[i]]
            });
        }
        r
    }
}

impl Index {
    /// Every (path, project) entry once, in order of first insertion.
    pub fn entries(&self) -> (r: Vec<(String, Project)>)
        requires
            self.wf(),
        ensures
            lists(self@.projects, entries_view(r@)),
    {
        let ghost ps = texts(self.paths@);
        let ghost m = self@.projects;
        let mut r: Vec<(String, Project)> = Vec::new();
        let mut i: usize = 0;
        while i < self.paths.len()
            invariant
                self.wf(),
                ps == texts(self.paths@),
                m == self@.projects,
                i <= ps.len(),
                entries_view(r@).map_values(|e: (Seq<char>, ProjectView)| e.0) == ps.subrange(0, i as int),
                forall|j: int| 0 <= j < r@.len() ==> (#[trigger] entries_view(r@)[j]).1 == m[entries_view(r@)[j].0],
            decreases ps.len() - i,
        {
            assert(ps[i as int] == self.paths@[i as int]@);
            assert(ps.contains(ps[i as int]));
            let p = self.projects.get(self.paths[i].as_str()).unwrap();
            let ghost r0 = entries_view(r@);
            r.push((self.paths[i].clone(), p.duplicate()));
            assert(entries_view(r@) =~= r0.push((ps[i as int], m[ps[i as int]])));
            assert(entries_view(r@).map_values(|e: (Seq<char>, ProjectView)| e.0) =~= r0.map_values(
                |e: (Seq<char>, ProjectView)| e.0,
            ).push(ps[i as int]));
            assert(ps.subrange(0, i + 1) =~= ps.subrange(0, i as int).push(ps[i as int]));
            i += 1;
        }
        assert(ps.subrange(0, i as int) =~= ps);
        r
    }

    /// The catalogue holding each of `entries` in order, indexed at `last_indexed`.
    pub fn from_entries(entries: Vec<(String, Project)>, last_indexed: Timestamp) -> (r: Index)
        ensures
            r.wf(),
            r@.projects == insert_all(entries_view(entries@)),
            r@.last_indexed == last_indexed,
    {
        let ghost ev = entries_view(entries@);
        let mut index = Index::new(last_indexed);
        let total = entries.len();
        let mut entries = entries;
        let mut rest: Vec<(String, Project)> = Vec::new();
        // Taken from the back, then stored from the front.
        while entries.len() > 0
            invariant
                ev == entries_view(entries@) + entries_view(rest@).reverse(),
            decreases entries@.len(),
        {
            let ghost e0 = entries@;
            let ghost r0 = rest@;
            let e = entries.pop().unwrap();
            rest.push(e);
            assert(entries_view(e0) =~= entries_view(entries@).push((e.0@, e.1@)));
            assert(entries_view(rest@).reverse() =~= seq![(e.0@, e.1@)] + entries_view(r0).reverse());
        }
        assert(ev =~= entries_view(rest@).reverse());
        let mut k: usize = 0;
        let ghost n = rest@.len();
        while rest.len() > 0
            invariant
                index.wf(),
                index@.last_indexed == last_indexed,
                k + rest@.len() == n,
                n == ev.len(),
                n == total,
                ev.subrange(k as int, n as int) == entries_view(rest@).reverse(),
                index@.projects == insert_all(ev.subrange(0, k as int)),
            decreases rest@.len(),
        {
            let ghost r0 = rest@;
            let (path, project) = rest.pop().unwrap();
            proof {
                assert(entries_view(r0) =~= entries_view(rest@).push((path@, project@)));
                assert(ev[k as int] == ev.subrange(k as int, n as int)[0]);
                assert(ev[k as int] == (path@, project@));
                assert(ev.subrange(k + 1, n as int) =~= ev.subrange(k as int, n as int).drop_first());
                assert(ev.subrange(0, k + 1).drop_last() =~= ev.subrange(0, k as int));
            }
            index.add_project(&path, project);
            k += 1;
        }
        assert(ev.subrange(0, k as int) =~= ev);
        index
    }
}

/// Storing the listed entries of a catalogue, in order, into an empty one gives
/// the same catalogue back.
pub proof fn lemma_index_round_trip(m: Map<Seq<char>, ProjectView>, es: Seq<(Seq<char>, ProjectView)>)
    requires
        lists(m, es),
    ensures
        insert_all(es) == m,
    decreases es.len(),
{
    let keys = es.map_values(|e: (Seq<char>, ProjectView)| e.0);
    if es.len() == 0 {
        assert forall|k: Seq<char>| !m.contains_key(k) by {
            if m.contains_key(k) {
                assert(keys.contains(k));
            }
        }
        assert(m =~= Map::empty());
    } else {
        let last = es.last();
        let init = es.drop_last();
        let ik = init.map_values(|e: (Seq<char>, ProjectView)| e.0);
        assert(ik =~= keys.drop_last());
        let sub = m.remove(last.0);
        assert forall|k: Seq<char>| #[trigger] sub.contains_key(k) <==> ik.contains(k) by {
            if ik.contains(k) {
                let w = choose|w: int| 0 <= w < ik.len() && ik[w] == k;
                assert(keys[w] == k);
                assert(keys.contains(k));
                assert(keys[keys.len() - 1] == last.0);
                if k == last.0 {
                    assert(keys[w] == keys[keys.len() - 1]);
                }
            }
            if sub.contains_key(k) {
                assert(keys.contains(k));
                let w = choose|w: int| 0 <= w < keys.len() && keys[w] == k;
                assert(w != keys.len() - 1);
                assert(ik[w] == k);
            }
        }
        assert forall|i: int| 0 <= i < init.len() implies (#[trigger] init[i]).1 == sub[init[i].0] by {
            assert(es[i] == init[i]);
            assert(keys[i] == init[i].0);
            assert(keys[keys.len() - 1] == last.0);
            assert(keys[i] != keys[keys.len() - 1]);
        }
        assert(lists(sub, init));
        lemma_index_round_trip(sub, init);
        assert(keys.contains(last.0)) by {
            assert(keys[keys.len() - 1] == last.0);
        }
        assert(es[es.len() - 1] == last);
        assert(insert_all(es) =~= m);
    }
}

/// After any sequence of additions, whatever other paths are stored in between,
/// a path that was added has exactly one entry: the value added to it last.
pub proof fn lemma_last_add_wins(m: Map<Seq<char>, ProjectView>, ops: Seq<(Seq<char>, ProjectView)>, j: int)
    requires
        0 <= j < ops.len(),
        forall|k: int| j < k < ops.len() ==> (#[trigger] ops[k]).0 != ops[j].0,
    ensures
        apply_adds(m, ops).contains_key(ops[j].0),
        apply_adds(m, ops)[ops[j].0] == ops[j].1,
    decreases ops.len(),
{
    if j < ops.len() - 1 {
        let init = ops.drop_last();
        assert forall|k: int| j < k < init.len() implies (#[trigger] init[k]).0 != init[j].0 by {
            assert(init[k] == ops[k]);
        }
        assert(ops[ops.len() - 1].0 != ops[j].0);
        lemma_last_add_wins(m, init, j);
    }
}

/// A path that no addition names keeps its entry, or its absence.
pub proof fn lemma_other_paths_kept(m: Map<Seq<char>, ProjectView>, ops: Seq<(Seq<char>, ProjectView)>, p: Seq<char>)
    requires
        forall|k: int| 0 <= k < ops.len() ==> (#[trigger] ops[k]).0 != p,
    ensures
        apply_adds(m, ops).contains_key(p) == m.contains_key(p),
        m.contains_key(p) ==> apply_adds(m, ops)[p] == m[p],
    decreases ops.len(),
{
    if ops.len() > 0 {
        let init = ops.drop_last();
        assert forall|k: int| 0 <= k < init.len() implies (#[trigger] init[k]).0 != p by {
            assert(init[k] == ops[k]);
        }
        assert(ops[ops.len() - 1].0 != p);
        lemma_other_paths_kept(m, init, p);
    }
}

/// A directory whose catalogued entry already carries its current modification
/// time is not classified again, and storing that entry again changes nothing: a
/// second scan leaves that directory's entry as it was.
pub proof fn lemma_rescan_unchanged(m: Map<Seq<char>, ProjectView>, path: Seq<char>, t: Timestamp)
    requires
        m.contains_key(path),
        m[path].last_modified == t,
    ensures
        !needs_reindex(m, path, t),
        m.insert(path, m[path]) == m,
{
    assert(m.insert(path, m[path]) =~= m);
}

} // verus!
