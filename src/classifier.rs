//! Decides whether a directory is a project root, from its direct children, and
//! extracts the project's metadata from its manifest.

use vstd::prelude::*;
use vstd::string::StrSliceExecFns;
use crate::lexer::fold;
use crate::manifest::{
    json_has_member, json_lookup, json_member, json_string_at, toml_lookup, toml_string_at,
    yaml_lookup, yaml_string_at,
};
use crate::project::{opt_text, Project, ProjectType, ProjectView, Timestamp};

verus! {

/// A directory entry: its full path and its own name.
pub struct Entry {
    pub path: String,
    pub name: String,
}

/// The names of a list of entries.
pub open spec fn names_of(es: Seq<Entry>) -> Seq<Seq<char>> {
    es.map_values(|e: Entry| e.name@)
}

/// Position of a manifest name in the list of project identifiers, 8 when the name
/// is none of them. A lower position wins.
pub open spec fn rank_of(name: Seq<char>) -> int {
    if name == "Cargo.toml"@ {
        0
    } else if name == "package.json"@ {
        1
    } else if name == "pubspec.yaml"@ {
        2
    } else if name == "main.go"@ {
        3
    } else if name == "main.py"@ {
        4
    } else if name == "next.config.js"@ {
        5
    } else if name == "svelte.config.json"@ {
        6
    } else if name == "angular.json"@ {
        7
    } else {
        8
    }
}

/// The lowest rank among `names` (8 when none is an identifier).
pub open spec fn best_rank(names: Seq<Seq<char>>) -> int
    decreases names.len(),
{
    if names.len() == 0 {
        8
    } else {
        let r = rank_of(names.last());
        let b = best_rank(names.drop_last());
        if r < b {
            r
        } else {
            b
        }
    }
}

/// The project type that a framework configuration file marks.
pub open spec fn framework_of(name: Seq<char>) -> Option<ProjectType> {
    if name == "svelte.config.json"@ || name == "svelte.config.js"@ {
        Some(ProjectType::Svelte)
    } else if name == "angular.json"@ {
        Some(ProjectType::Angular)
    } else if name == "metro.config.js"@ || name == "react-native.config.js"@ {
        Some(ProjectType::ReactNative)
    } else if name == "next.config.js"@ || name == "next.config.json"@ {
        Some(ProjectType::NextJs)
    } else if name == "vue.config.js"@ {
        Some(ProjectType::Vue)
    } else {
        None
    }
}

/// The type marked by the first framework configuration file among `names`.
pub open spec fn first_framework(names: Seq<Seq<char>>) -> Option<ProjectType>
    decreases names.len(),
{
    if names.len() == 0 {
        None
    } else if framework_of(names[0]) is Some {
        framework_of(names[0])
    } else {
        first_framework(names.drop_first())
    }
}

/// The type that a package.json's dependencies point to.
pub open spec fn dependency_type(manifest: Option<Seq<char>>) -> ProjectType {
    match manifest {
        Some(m) => if json_member(m, "dependencies"@, "react"@) {
            ProjectType::React
        } else if json_member(m, "dependencies"@, "@angular/core"@) {
            ProjectType::Angular
        } else if json_member(m, "devDependencies"@, "svelte"@) {
            ProjectType::Svelte
        } else {
            ProjectType::Node
        },
        None => ProjectType::Node,
    }
}

/// The type of a project with a package.json: a framework configuration file
/// decides first, the dependencies next, and Node is the default.
pub open spec fn node_type(names: Seq<Seq<char>>, manifest: Option<Seq<char>>) -> ProjectType {
    match first_framework(names) {
        Some(t) => t,
        None => dependency_type(manifest),
    }
}

/// A documentation file name: README.md or DOC.md in any ASCII case.
pub open spec fn is_doc_name(name: Seq<char>) -> bool {
    name.map_values(|c: char| fold(c)) == "readme.md"@ || name.map_values(|c: char| fold(c))
        == "doc.md"@
}

/// The path of the first documentation file among `es`.
pub open spec fn first_doc(es: Seq<Entry>) -> Option<Seq<char>>
    decreases es.len(),
{
    if es.len() == 0 {
        None
    } else if is_doc_name(es[0].name@) {
        Some(es[0].path@)
    } else {
        first_doc(es.drop_first())
    }
}

/// The text of an optional manifest, looked up with `f` when present.
pub open spec fn manifest_field(
    manifest: Option<Seq<char>>,
    f: spec_fn(Seq<char>) -> Option<Seq<char>>,
) -> Option<Seq<char>> {
    match manifest {
        Some(m) => f(m),
        None => None,
    }
}

/// The name and description that the identifier manifest gives, for the identifier
/// of rank `rank`.
pub open spec fn manifest_name(rank: int, manifest: Option<Seq<char>>) -> Option<Seq<char>> {
    if rank == 0 {
        manifest_field(manifest, |m: Seq<char>| toml_lookup(m, "package"@, "name"@))
    } else if rank == 1 {
        manifest_field(manifest, |m: Seq<char>| json_lookup(m, "name"@))
    } else {
        manifest_field(manifest, |m: Seq<char>| yaml_lookup(m, "name"@))
    }
}

pub open spec fn manifest_description(rank: int, manifest: Option<Seq<char>>) -> Option<
    Seq<char>,
> {
    if rank == 0 {
        manifest_field(manifest, |m: Seq<char>| toml_lookup(m, "package"@, "description"@))
    } else if rank == 1 {
        manifest_field(manifest, |m: Seq<char>| json_lookup(m, "description"@))
    } else {
        manifest_field(manifest, |m: Seq<char>| yaml_lookup(m, "description"@))
    }
}

/// The project that a directory holds, if its best identifier is one with
/// extraction rules (Cargo.toml, package.json, pubspec.yaml). `manifest` is the
/// text of that identifier file, None when it could not be read.
pub open spec fn classification(
    dir: Entry,
    files: Seq<Entry>,
    manifest: Option<Seq<char>>,
    last_modified: Timestamp,
) -> Option<ProjectView> {
    let rank = best_rank(names_of(files));
    if rank > 2 {
        None
    } else {
        Some(
            ProjectView {
                name: match manifest_name(rank, manifest) {
                    Some(n) => n,
                    None => dir.name@,
                },
                path: dir.path@,
                git: seq![],
                description: manifest_description(rank, manifest),
                language_map: seq![],
                project_type: if rank == 0 {
                    ProjectType::Rust
                } else if rank == 1 {
                    node_type(names_of(files), manifest)
                } else {
                    ProjectType::Flutter
                },
                last_modified,
                documentation_file: first_doc(files),
            },
        )
    }
}

/// Whether two texts are equal.
pub fn text_is(a: &str, b: &str) -> (r: bool)
    ensures
        r == (a@ == b@),
{
    let n = a.unicode_len();
    if n != b.unicode_len() {
        return false;
    }
    let mut i: usize = 0;
    while i < n
        invariant
            n == a@.len(),
            n == b@.len(),
            i <= n,
            a@.subrange(0, i as int) == b@.subrange(0, i as int),
        decreases n - i,
    {
        if a.get_char(i) != b.get_char(i) {
            assert(a@[i as int] != b@[i as int]);
            return false;
        }
        assert(a@.subrange(0, i + 1) =~= a@.subrange(0, i as int).push(a@[i as int]));
        assert(b@.subrange(0, i + 1) =~= b@.subrange(0, i as int).push(b@[i as int]));
        i += 1;
    }
    assert(a@ =~= a@.subrange(0, n as int));
    assert(b@ =~= b@.subrange(0, n as int));
    true
}

/// Whether `a`, with ASCII capitals folded, equals `b`.
pub fn folded_is(a: &str, b: &str) -> (r: bool)
    ensures
        r == (a@.map_values(|c: char| fold(c)) == b@),
{
    let ghost fa = a@.map_values(|c: char| fold(c));
    let n = a.unicode_len();
    if n != b.unicode_len() {
        assert(fa.len() != b@.len());
        return false;
    }
    let mut i: usize = 0;
    while i < n
        invariant
            n == a@.len(),
            n == b@.len(),
            fa == a@.map_values(|c: char| fold(c)),
            i <= n,
            fa.subrange(0, i as int) == b@.subrange(0, i as int),
        decreases n - i,
    {
        if crate::lexer::fold_char(a.get_char(i)) != b.get_char(i) {
            assert(fa[i as int] != b@[i as int]);
            return false;
        }
        assert(fa.subrange(0, i + 1) =~= fa.subrange(0, i as int).push(fa[i as int]));
        assert(b@.subrange(0, i + 1) =~= b@.subrange(0, i as int).push(b@[i as int]));
        i += 1;
    }
    assert(fa =~= fa.subrange(0, n as int));
    assert(b@ =~= b@.subrange(0, n as int));
    true
}

/// The rank of a file name among the project identifiers.
pub fn identifier_rank(name: &str) -> (r: usize)
    ensures
        r as int == rank_of(name@),
{
    if text_is(name, "Cargo.toml") {
        0
    } else if text_is(name, "package.json") {
        1
    } else if text_is(name, "pubspec.yaml") {
        2
    } else if text_is(name, "main.go") {
        3
    } else if text_is(name, "main.py") {
        4
    } else if text_is(name, "next.config.js") {
        5
    } else if text_is(name, "svelte.config.json") {
        6
    } else if text_is(name, "angular.json") {
        7
    } else {
        8
    }
}

/// The position of the identifier file among `files`: the first file whose name
/// has the lowest rank. None when no file is an identifier.
pub fn identifier_file(files: &Vec<Entry>) -> (r: Option<usize>)
    ensures
        match r {
            Some(i) => {
                &&& i < files@.len()
                &&& rank_of(files@[i as int].name@) == best_rank(names_of(files@))
                &&& best_rank(names_of(files@)) < 8
                &&& forall|j: int|
                    0 <= j < i ==> rank_of(#[trigger] files@[j].name@) > best_rank(
                        names_of(files@),
                    )
            },
            None => best_rank(names_of(files@)) == 8,
        },
{
    let mut best: usize = 8;
    let mut pos: usize = 0;
    let mut i: usize = 0;
    while i < files.len()
        invariant
            i <= files@.len(),
            best as int == best_rank(names_of(files@).subrange(0, i as int)),
            best < 8 ==> pos < i && rank_of(files@[pos as int].name@) == best,
            forall|j: int| 0 <= j < pos ==> rank_of(#[trigger] files@[j].name@) > best,
            forall|j: int| 0 <= j < i ==> rank_of(#[trigger] files@[j].name@) >= best,
            best == 8 ==> forall|j: int| 0 <= j < i ==> rank_of(#[trigger] files@[j].name@) == 8,
        decreases files@.len() - i,
    {
        let r = identifier_rank(files[i].name.as_str());
        let ghost pre = names_of(files@).subrange(0, i + 1);
        assert(pre.drop_last() =~= names_of(files@).subrange(0, i as int));
        assert(pre.last() == files@[i as int].name@);
        if r < best {
            best = r;
            pos = i;
        }
        i += 1;
    }
    assert(names_of(files@).subrange(0, i as int) =~= names_of(files@));
    if best < 8 {
        Some(pos)
    } else {
        None
    }
}

/// The project type that a framework configuration file name marks.
pub fn framework_type(name: &str) -> (r: Option<ProjectType>)
    ensures
        r == framework_of(name@),
{
    if text_is(name, "svelte.config.json") || text_is(name, "svelte.config.js") {
        Some(ProjectType::Svelte)
    } else if text_is(name, "angular.json") {
        Some(ProjectType::Angular)
    } else if text_is(name, "metro.config.js") || text_is(name, "react-native.config.js") {
        Some(ProjectType::ReactNative)
    } else if text_is(name, "next.config.js") || text_is(name, "next.config.json") {
        Some(ProjectType::NextJs)
    } else if text_is(name, "vue.config.js") {
        Some(ProjectType::Vue)
    } else {
        None
    }
}

/// The type of a package.json project: the first framework configuration file
/// among `files` decides; without one, the manifest's dependencies do.
pub fn node_project_type(files: &Vec<Entry>, manifest: &Option<String>) -> (r: ProjectType)
    ensures
        r == node_type(names_of(files@), opt_text(*manifest)),
{
    let mut i: usize = 0;
    assert(names_of(files@).subrange(0, files@.len() as int) =~= names_of(files@));
    while i < files.len()
        invariant
            i <= files@.len(),
            first_framework(names_of(files@)) == first_framework(
                names_of(files@).subrange(i as int, files@.len() as int),
            ),
        decreases files@.len() - i,
    {
        let ghost rest = names_of(files@).subrange(i as int, files@.len() as int);
        assert(rest[0] == files@[i as int].name@);
        assert(rest.drop_first() =~= names_of(files@).subrange(i + 1, files@.len() as int));
        if let Some(t) = framework_type(files[i].name.as_str()) {
            return t;
        }
        i += 1;
    }
    match manifest {
        Some(m) => {
            if json_has_member(m.as_str(), "dependencies", "react") {
                ProjectType::React
            } else if json_has_member(m.as_str(), "dependencies", "@angular/core") {
                ProjectType::Angular
            } else if json_has_member(m.as_str(), "devDependencies", "svelte") {
                ProjectType::Svelte
            } else {
                ProjectType::Node
            }
        },
        None => ProjectType::Node,
    }
}

/// The path of the first documentation file among `files`.
pub fn documentation_file(files: &Vec<Entry>) -> (r: Option<String>)
    ensures
        opt_text(r) == first_doc(files@),
{
    let mut i: usize = 0;
    assert(files@.subrange(0, files@.len() as int) =~= files@);
    while i < files.len()
        invariant
            i <= files@.len(),
            first_doc(files@) == first_doc(files@.subrange(i as int, files@.len() as int)),
        decreases files@.len() - i,
    {
        let ghost rest = files@.subrange(i as int, files@.len() as int);
        assert(rest.drop_first() =~= files@.subrange(i + 1, files@.len() as int));
        let name = files[i].name.as_str();
        if folded_is(name, "readme.md") || folded_is(name, "doc.md") {
            return Some(files[i].path.clone());
        }
        i += 1;
    }
    None
}

/// The name a project gets: the manifest's, else the directory's own.
fn name_or(found: Option<String>, dir: &Entry) -> (r: String)
    ensures
        r@ == match opt_text(found) {
            Some(n) => n,
            None => dir.name@,
        },
{
    match found {
        Some(n) => n,
        None => dir.name.clone(),
    }
}

/// A Rust project, from the text of its Cargo.toml.
pub fn cargo_project(manifest: &Option<String>, dir: &Entry) -> (r: Project)
    ensures
        r@.name == match manifest_name(0, opt_text(*manifest)) {
            Some(n) => n,
            None => dir.name@,
        },
        r@.description == manifest_description(0, opt_text(*manifest)),
        r@.path == dir.path@,
        r@.project_type == ProjectType::Rust,
        r@.git.len() == 0,
        r@.language_map.len() == 0,
        r@.documentation_file is None,
{
    let (name, description) = match manifest {
        Some(m) => (
            toml_string_at(m.as_str(), "package", "name"),
            toml_string_at(m.as_str(), "package", "description"),
        ),
        None => (None, None),
    };
    Project::base(name_or(name, dir), dir.path.clone(), description, ProjectType::Rust)
}

/// A Flutter project, from the text of its pubspec.yaml.
pub fn flutter_project(manifest: &Option<String>, dir: &Entry) -> (r: Project)
    ensures
        r@.name == match manifest_name(2, opt_text(*manifest)) {
            Some(n) => n,
            None => dir.name@,
        },
        r@.description == manifest_description(2, opt_text(*manifest)),
        r@.path == dir.path@,
        r@.project_type == ProjectType::Flutter,
        r@.git.len() == 0,
        r@.language_map.len() == 0,
        r@.documentation_file is None,
{
    let (name, description) = match manifest {
        Some(m) => (yaml_string_at(m.as_str(), "name"), yaml_string_at(m.as_str(), "description")),
        None => (None, None),
    };
    Project::base(name_or(name, dir), dir.path.clone(), description, ProjectType::Flutter)
}

/// A Node-family project, from the text of its package.json and the directory's
/// files.
pub fn node_project(manifest: &Option<String>, files: &Vec<Entry>, dir: &Entry) -> (r: Project)
    ensures
        r@.name == match manifest_name(1, opt_text(*manifest)) {
            Some(n) => n,
            None => dir.name@,
        },
        r@.description == manifest_description(1, opt_text(*manifest)),
        r@.path == dir.path@,
        r@.project_type == node_type(names_of(files@), opt_text(*manifest)),
        r@.git.len() == 0,
        r@.language_map.len() == 0,
        r@.documentation_file is None,
{
    let (name, description) = match manifest {
        Some(m) => (json_string_at(m.as_str(), "name"), json_string_at(m.as_str(), "description")),
        None => (None, None),
    };
    let project_type = node_project_type(files, manifest);
    Project::base(name_or(name, dir), dir.path.clone(), description, project_type)
}

/// The project that the directory `dir` holds, judged from its files; `manifest`
/// is the text of the identifier file that `identifier_file` picks, None when it
/// could not be read. Only Cargo.toml, package.json and pubspec.yaml make a
/// project. Remotes and languages are attached later.
pub fn get_relevant_project(
    files: &Vec<Entry>,
    dir: &Entry,
    last_modified: Timestamp,
    manifest: &Option<String>,
) -> (r: Option<Project>)
    ensures
        match r {
            Some(p) => classification(*dir, files@, opt_text(*manifest), last_modified) == Some(p@),
            None => classification(*dir, files@, opt_text(*manifest), last_modified) is None,
        },
{
    let id = identifier_file(files);
    let rank = match id {
        Some(i) => identifier_rank(files[i].name.as_str()),
        None => 8,
    };
    assert(rank as int == best_rank(names_of(files@)));
    let mut project = if rank == 0 {
        cargo_project(manifest, dir)
    } else if rank == 1 {
        node_project(manifest, files, dir)
    } else if rank == 2 {
        flutter_project(manifest, dir)
    } else {
        return None;
    };
    project.last_modified = last_modified;
    project.documentation_file = documentation_file(files);
    assert(project@.git =~= seq![]);
    assert(project@.language_map =~= seq![]);
    Some(project)
}

} // verus!
