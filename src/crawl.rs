//! The crawler's decisions: which directories are scanned, which are classified,
//! where the walk goes next, and when it is over. Listing directories, reading
//! manifests and the worker threads belong to the caller.

use vstd::prelude::*;
use vstd::string::StrSliceExecFns;
use crate::classifier::{classification, get_relevant_project, text_is, Entry};
use crate::index::{needs_reindex, Index};
use crate::project::{named_counts, opt_text, texts, Project, ProjectView, Timestamp};

verus! {

/// One unit of crawl work: a directory and its depth below its root.
pub struct ScanJob {
    pub path: String,
    pub name: String,
    pub depth: usize,
}

pub open spec fn job_view(j: ScanJob) -> (Seq<char>, Seq<char>, usize) {
    (j.path@, j.name@, j.depth)
}

pub open spec fn jobs_view(js: Seq<ScanJob>) -> Seq<(Seq<char>, Seq<char>, usize)> {
    js.map_values(|j: ScanJob| job_view(j))
}

/// Directories that are never descended into.
pub open spec fn is_excluded(name: Seq<char>) -> bool {
    name == ".git"@ || name == "node_modules"@ || name == "target"@ || name == ".vscode"@ || name
        == "src"@ || name == "venv"@
}

/// Hidden directories, whose name starts with a dot, are never scanned.
pub open spec fn is_hidden(name: Seq<char>) -> bool {
    name.len() > 0 && name[0] == '.'
}

/// The jobs for the subdirectories `dirs` of a directory at `depth`, in order,
/// leaving out the excluded ones.
pub open spec fn subdirectory_jobs(dirs: Seq<Entry>, depth: usize) -> Seq<(Seq<char>, Seq<char>, usize)>
    decreases dirs.len(),
{
    if dirs.len() == 0 {
        seq![]
    } else {
        subdirectory_jobs(dirs.drop_last(), depth) + if is_excluded(dirs.last().name@) {
            seq![]
        } else {
            seq![(dirs.last().path@, dirs.last().name@, (depth + 1) as usize)]
        }
    }
}

/// The walk goes on below a directory only when it is above the depth limit and
/// was not just identified as a project.
pub open spec fn descends(depth: usize, max_depth: usize, found: bool) -> bool {
    !found && depth < max_depth
}

/// Whether a directory name is on the exclusion list.
pub fn excluded(name: &str) -> (r: bool)
    ensures
        r == is_excluded(name@),
{
    text_is(name, ".git") || text_is(name, "node_modules") || text_is(name, "target") || text_is(
        name,
        ".vscode",
    ) || text_is(name, "src") || text_is(name, "venv")
}

/// Whether a directory name marks a hidden directory.
pub fn hidden(name: &str) -> (r: bool)
    ensures
        r == is_hidden(name@),
{
    name.unicode_len() > 0 && name.get_char(0) == '.'
}

/// The jobs that follow the scan of a directory at `depth`: one for each
/// subdirectory that is not excluded, unless the walk stops here.
pub fn child_jobs(dirs: &Vec<Entry>, depth: usize, max_depth: usize, found: bool) -> (r: Vec<ScanJob>)
    ensures
        descends(depth, max_depth, found) ==> jobs_view(r@) == subdirectory_jobs(dirs@, depth),
        !descends(depth, max_depth, found) ==> r@.len() == 0,
{
    let mut r: Vec<ScanJob> = Vec::new();
    if found || depth >= max_depth {
        return r;
    }
    let mut i: usize = 0;
    while i < dirs.len()
        invariant
            depth < max_depth,
            i <= dirs@.len(),
            jobs_view(r@) == subdirectory_jobs(dirs@.subrange(0, i as int), depth),
        decreases dirs@.len() - i,
    {
        let ghost pre = dirs@.subrange(0, i + 1);
        assert(pre.drop_last() =~= dirs@.subrange(0, i as int));
        let ghost r0 = r@;
        if !excluded(dirs[i].name.as_str()) {
            r.push(ScanJob { path: dirs[i].path.clone(), name: dirs[i].name.clone(), depth: depth + 1 });
            assert(jobs_view(r@) =~= jobs_view(r0) + seq![(dirs@[i as int].path@, dirs@[i as int].name@, (depth + 1) as usize)]);
        } else {
            assert(jobs_view(r@) =~= jobs_view(r0) + seq![]);
        }
        i += 1;
    }
    assert(dirs@.subrange(0, i as int) =~= dirs@);
    r
}

/// What the scan of one directory yields: the project found there, if any, and
/// the jobs for the directories below it.
pub struct ScanOutcome {
    pub project: Option<Project>,
    pub jobs: Vec<ScanJob>,
}

/// Scans the directory of `job`, whose subdirectories and files are `dirs` and
/// `files`, last modified at `last_modified`. `manifest` is the text of the file
/// that `identifier_file` picks among `files`. A hidden directory yields nothing;
/// a directory that the catalogue holds up to date is not classified, but the walk
/// may still go below it; a directory found to be a project ends the walk there.
pub fn scan_dir(
    index: &Index,
    job: &ScanJob,
    max_depth: usize,
    dirs: &Vec<Entry>,
    files: &Vec<Entry>,
    last_modified: Timestamp,
    manifest: &Option<String>,
) -> (r: ScanOutcome)
    ensures
        is_hidden(job.name@) ==> r.project is None && r.jobs@.len() == 0,
        !is_hidden(job.name@) ==> {
            let expected = if needs_reindex(index@.projects, job.path@, last_modified) {
                classification(
                    Entry { path: job.path, name: job.name },
                    files@,
                    opt_text(*manifest),
                    last_modified,
                )
            } else {
                None
            };
            &&& match r.project {
                Some(p) => expected == Some(p@),
                None => expected is None,
            }
            &&& descends(job.depth, max_depth, r.project is Some) ==> jobs_view(r.jobs@)
                == subdirectory_jobs(dirs@, job.depth)
            &&& !descends(job.depth, max_depth, r.project is Some) ==> r.jobs@.len() == 0
        },
{
    if hidden(job.name.as_str()) {
        return ScanOutcome { project: None, jobs: Vec::new() };
    }
    let project = if index.should_reindex(job.path.as_str(), last_modified) {
        let dir = Entry { path: job.path.clone(), name: job.name.clone() };
        get_relevant_project(files, &dir, last_modified, manifest)
    } else {
        None
    };
    let found = project.is_some();
    let jobs = child_jobs(dirs, job.depth, max_depth, found);
    ScanOutcome { project, jobs }
}

/// The sum of the counts of a list of (name, count) pairs.
pub open spec fn sum_counts(s: Seq<(Seq<char>, u64)>) -> nat
    decreases s.len(),
{
    if s.len() == 0 {
        0
    } else {
        sum_counts(s.drop_last()) + (s.last().1 as nat)
    }
}

/// Each language's share of all code lines, in hundredths of a percent (rounded
/// down), from the code-line count of each.
pub open spec fn shares(counts: Seq<(Seq<char>, u64)>) -> Seq<(Seq<char>, u64)> {
    counts.map_values(
        |p: (Seq<char>, u64)|
            (p.0, if sum_counts(counts) == 0 {
                0u64
            } else {
                ((p.1 * 10000) / (sum_counts(counts) as int)) as u64
            }),
    )
}

proof fn lemma_sum_bound(s: Seq<(Seq<char>, u64)>)
    ensures
        sum_counts(s) <= s.len() * (u64::MAX as int),
        forall|i: int| 0 <= i < s.len() ==> s[i].1 <= sum_counts(s),
    decreases s.len(),
{
    if s.len() > 0 {
        lemma_sum_bound(s.drop_last());
        assert forall|i: int| 0 <= i < s.len() implies s[i].1 <= sum_counts(s) by {
            if i < s.len() - 1 {
                assert(s.drop_last()[i] == s[i]);
            }
        }
        assert((s.len() - 1) * (u64::MAX as int) + u64::MAX == s.len() * (u64::MAX as int))
            by (nonlinear_arith);
    }
}

/// The language map of a project: each language's share of the code lines.
pub fn language_shares(line_counts: &Vec<(String, u64)>) -> (r: Vec<(String, u64)>)
    ensures
        named_counts(r@) == shares(named_counts(line_counts@)),
{
    let ghost cs = named_counts(line_counts@);
    let mut total: u128 = 0;
    let mut i: usize = 0;
    while i < line_counts.len()
        invariant
            cs == named_counts(line_counts@),
            i <= cs.len(),
            total as int == sum_counts(cs.subrange(0, i as int)),
        decreases cs.len() - i,
    {
        let ghost pre = cs.subrange(0, i + 1);
        proof {
            assert(pre.drop_last() =~= cs.subrange(0, i as int));
            lemma_sum_bound(pre);
            assert(pre.len() <= usize::MAX);
            assert(pre.len() * (u64::MAX as int) <= (usize::MAX as int) * (u64::MAX as int))
                by (nonlinear_arith)
                requires
                    pre.len() <= usize::MAX,
            ;
        }
        total = total + line_counts[i].1 as u128;
        i += 1;
    }
    assert(cs.subrange(0, i as int) =~= cs);
    proof {
        lemma_sum_bound(cs);
    }
    let mut r: Vec<(String, u64)> = Vec::new();
    let mut k: usize = 0;
    while k < line_counts.len()
        invariant
            cs == named_counts(line_counts@),
            total as int == sum_counts(cs),
            forall|i: int| 0 <= i < cs.len() ==> cs[i].1 <= sum_counts(cs),
            k <= cs.len(),
            named_counts(r@) == shares(cs).subrange(0, k as int),
        decreases cs.len() - k,
    {
        let c = line_counts[k].1;
        let share: u64 = if total == 0 {
            0
        } else {
            proof {
                assert(cs[k as int].1 == c);
                assert((c as int) * 10000 / (total as int) <= 10000) by (nonlinear_arith)
                    requires
                        c <= total,
                        total > 0,
                ;
            }
            ((c as u128 * 10000) / total) as u64
        };
        let ghost r0 = r@;
        r.push((line_counts[k].0.clone(), share));
        assert(named_counts(r@) =~= named_counts(r0).push((cs[k as int].0, share)));
        assert(shares(cs).subrange(0, k + 1) =~= shares(cs).subrange(0, k as int).push(shares(cs)[k as int]));
        k += 1;
    }
    assert(shares(cs).subrange(0, k as int) =~= shares(cs));
    r
}

impl Project {
    /// The project with its remote URLs and its language map, computed from the
    /// code-line count of each language.
    pub fn with_details(self, git: Vec<String>, line_counts: &Vec<(String, u64)>) -> (r: Project)
        ensures
            r@ == (ProjectView {
                git: texts(git@),
                language_map: shares(named_counts(line_counts@)),
                ..self@
            }),
    {
        let language_map = language_shares(line_counts);
        Project { git, language_map, ..self }
    }
}

/// The crawl's work list and the number of jobs handed out and not yet finished.
pub struct Crawl {
    pending: Vec<ScanJob>,
    in_flight: usize,
}

pub struct CrawlView {
    pub pending: Seq<(Seq<char>, Seq<char>, usize)>,
    pub in_flight: nat,
}

impl View for Crawl {
    type V = CrawlView;

    closed spec fn view(&self) -> CrawlView {
        CrawlView { pending: jobs_view(self.pending@), in_flight: self.in_flight as nat }
    }
}

impl Crawl {
    /// A crawl that starts with one job at depth 0 for each root.
    pub fn new(roots: &Vec<Entry>) -> (r: Crawl)
        ensures
            r@.pending == roots@.map_values(|e: Entry| (e.path@, e.name@, 0usize)),
            r@.in_flight == 0,
    {
        let mut pending: Vec<ScanJob> = Vec::new();
        let mut i: usize = 0;
        while i < roots.len()
            invariant
                i <= roots@.len(),
                jobs_view(pending@) == roots@.subrange(0, i as int).map_values(
                    |e: Entry| (e.path@, e.name@, 0usize),
                ),
            decreases roots@.len() - i,
        {
            let ghost p0 = pending@;
            pending.push(ScanJob { path: roots[i].path.clone(), name: roots[i].name.clone(), depth: 0 });
            assert(jobs_view(pending@) =~= jobs_view(p0).push((roots@[i as int].path@, roots@[i as int].name@, 0usize)));
            assert(jobs_view(pending@) =~= roots@.subrange(0, i + 1).map_values(
                |e: Entry| (e.path@, e.name@, 0usize),
            ));
            i += 1;
        }
        assert(roots@.subrange(0, i as int) =~= roots@);
        Crawl { pending, in_flight: 0 }
    }

    /// Hands out the oldest pending job.
    pub fn next_job(&mut self) -> (r: Option<ScanJob>)
        requires
            old(self)@.in_flight < usize::MAX,
        ensures
            old(self)@.pending.len() == 0 ==> r is None && final(self)@ == old(self)@,
            old(self)@.pending.len() > 0 ==> {
                &&& r matches Some(j) && job_view(j) == old(self)@.pending[0]
                &&& final(self)@.pending == old(self)@.pending.drop_first()
                &&& final(self)@.in_flight == old(self)@.in_flight + 1
            },
    {
        if self.pending.len() == 0 {
            return None;
        }
        let ghost p0 = self.pending@;
        let j = self.pending.remove(0);
        assert(jobs_view(self.pending@) =~= jobs_view(p0).drop_first());
        self.in_flight = self.in_flight + 1;
        Some(j)
    }

    /// Records that a handed-out job is done, and queues the jobs it produced.
    pub fn finish(&mut self, jobs: Vec<ScanJob>)
        requires
            old(self)@.in_flight > 0,
        ensures
            final(self)@.pending == old(self)@.pending + jobs_view(jobs@),
            final(self)@.in_flight == old(self)@.in_flight - 1,
    {
        let ghost p0 = jobs_view(self.pending@);
        let ghost added = jobs_view(jobs@);
        let mut jobs = jobs;
        self.pending.append(&mut jobs);
        assert(jobs_view(self.pending@) =~= p0 + added);
        self.in_flight = self.in_flight - 1;
    }

    /// The number of jobs handed out and not yet finished.
    pub fn in_flight(&self) -> (r: usize)
        ensures
            r == self@.in_flight,
    {
        self.in_flight
    }

    /// The crawl is over: no job is pending and none is running, so none can
    /// appear any more.
    pub fn is_done(&self) -> (r: bool)
        ensures
            r == (self@.pending.len() == 0 && self@.in_flight == 0),
    {
        self.pending.len() == 0 && self.in_flight == 0
    }
}

} // verus!
