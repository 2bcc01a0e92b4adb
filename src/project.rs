//! The project record and the values it is made of.

use vstd::prelude::*;

verus! {

/// The ecosystem a project belongs to.
#[derive(Clone, Copy, Debug, PartialEq, Eq, Structural)]
pub enum ProjectType {
    Rust,
    Python,
    Flutter,
    Ruby,
    NextJs,
    Svelte,
    React,
    ReactNative,
    Angular,
    Node,
    Vue,
}

/// A point in time: whole seconds since the Unix epoch, and the nanoseconds past them.
#[derive(Clone, Copy, Debug, PartialEq, Eq, Structural)]
pub struct Timestamp {
    pub secs: u64,
    pub nanos: u32,
}

impl Timestamp {
    /// `self` lies strictly before `other`.
    pub open spec fn spec_before(self, other: Timestamp) -> bool {
        self.secs < other.secs || (self.secs == other.secs && self.nanos < other.nanos)
    }

    pub fn new(secs: u64, nanos: u32) -> (r: Timestamp)
        ensures
            r.secs == secs,
            r.nanos == nanos,
    {
        Timestamp { secs, nanos }
    }

    pub fn is_before(&self, other: &Timestamp) -> (r: bool)
        ensures
            r == self.spec_before(*other),
    {
        self.secs < other.secs || (self.secs == other.secs && self.nanos < other.nanos)
    }
}

/// The characters of each string of a sequence.
pub open spec fn texts(v: Seq<String>) -> Seq<Seq<char>> {
    v.map_values(|s: String| s@)
}

/// The characters of an optional string.
pub open spec fn opt_text(o: Option<String>) -> Option<Seq<char>> {
    match o {
        Some(s) => Some(s@),
        None => None,
    }
}

/// The characters of each name of a list of (name, number) pairs.
pub open spec fn named_counts(v: Seq<(String, u64)>) -> Seq<(Seq<char>, u64)> {
    v.map_values(|p: (String, u64)| (p.0@, p.1))
}

/// One discovered software project.
#[derive(Debug)]
pub struct Project {
    /// From the manifest, else the directory's own name.
    pub name: String,
    /// The project's directory.
    pub path: String,
    /// Remote URLs of the repository, in the order the repository lists them.
    pub git: Vec<String>,
    pub description: Option<String>,
    /// Each language with its share of the code lines, in hundredths of a percent.
    pub language_map: Vec<(String, u64)>,
    pub project_type: ProjectType,
    /// Modification time of the directory when it was scanned.
    pub last_modified: Timestamp,
    /// A README or DOC file among the directory's files.
    pub documentation_file: Option<String>,
}

/// What a project holds, as mathematical values.
pub struct ProjectView {
    pub name: Seq<char>,
    pub path: Seq<char>,
    pub git: Seq<Seq<char>>,
    pub description: Option<Seq<char>>,
    pub language_map: Seq<(Seq<char>, u64)>,
    pub project_type: ProjectType,
    pub last_modified: Timestamp,
    pub documentation_file: Option<Seq<char>>,
}

impl View for Project {
    type V = ProjectView;

    open spec fn view(&self) -> ProjectView {
        ProjectView {
            name: self.name@,
            path: self.path@,
            git: texts(self.git@),
            description: opt_text(self.description),
            language_map: named_counts(self.language_map@),
            project_type: self.project_type,
            last_modified: self.last_modified,
            documentation_file: opt_text(self.documentation_file),
        }
    }
}

pub fn copy_text_opt(o: &Option<String>) -> (r: Option<String>)
    ensures
        opt_text(r) == opt_text(*o),
{
    match o {
        Some(s) => Some(s.clone()),
        None => None,
    }
}

pub fn copy_texts(v: &Vec<String>) -> (r: Vec<String>)
    ensures
        texts(r@) == texts(v@),
{
    let mut r: Vec<String> = Vec::new();
    let mut i: usize = 0;
    while i < v.len()
        invariant
            i <= v.len(),
            r@.len() == i,
            forall|j: int| 0 <= j < i ==> r@[j]@ == v@[j]@,
        decreases v.len() - i,
    {
        r.push(v[i].clone());
        i += 1;
    }
    assert(texts(r@) =~= texts(v@));
    r
}

pub fn copy_named_counts(v: &Vec<(String, u64)>) -> (r: Vec<(String, u64)>)
    ensures
        named_counts(r@) == named_counts(v@),
{
    let mut r: Vec<(String, u64)> = Vec::new();
    let mut i: usize = 0;
    while i < v.len()
        invariant
            i <= v.len(),
            r@.len() == i,
            forall|j: int| 0 <= j < i ==> r@[j].0@ == v@[j].0@ && r@[j].1 == v@[j].1,
        decreases v.len() - i,
    {
        r.push((v[i].0.clone(), v[i].1));
        i += 1;
    }
    assert(named_counts(r@) =~= named_counts(v@));
    r
}

impl Project {
    /// A project with the given identity and no secondary attributes yet.
    pub fn base(
        name: String,
        path: String,
        description: Option<String>,
        project_type: ProjectType,
    ) -> (r: Project)
        ensures
            r@.name == name@,
            r@.path == path@,
            r@.description == opt_text(description),
            r@.project_type == project_type,
            r@.git.len() == 0,
            r@.language_map.len() == 0,
            r@.documentation_file is None,
            r@.last_modified == (Timestamp { secs: 0, nanos: 0 }),
    {
        Project {
            name,
            path,
            git: Vec::new(),
            description,
            language_map: Vec::new(),
            project_type,
            last_modified: Timestamp { secs: 0, nanos: 0 },
            documentation_file: None,
        }
    }

    /// A copy holding the same values.
    pub fn duplicate(&self) -> (r: Project)
        ensures
            r@ == self@,
    {
        Project {
            name: self.name.clone(),
            path: self.path.clone(),
            git: copy_texts(&self.git),
            description: copy_text_opt(&self.description),
            language_map: copy_named_counts(&self.language_map),
            project_type: self.project_type,
            last_modified: self.last_modified,
            documentation_file: copy_text_opt(&self.documentation_file),
        }
    }
}

} // verus!
