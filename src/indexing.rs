//! Building the search model from the catalogue: each project becomes one
//! document whose text weights the name and the description above free text.

use vstd::prelude::*;
use vstd::string::StrSliceExecFns;
use crate::project::{Project, ProjectView};
use crate::search::{document_of, lemma_restore_all_len, restore_all, DocumentView, Model};

verus! {

/// `s` written `n` times.
pub open spec fn repeat(s: Seq<char>, n: nat) -> Seq<char>
    decreases n,
{
    if n == 0 {
        seq![]
    } else {
        repeat(s, (n - 1) as nat) + s
    }
}

/// The text indexed for a project: its name and a space nine times, a line break,
/// its description and a space four times, a line break, then its documentation.
pub open spec fn document_text(name: Seq<char>, description: Seq<char>, documentation: Seq<char>) -> Seq<char> {
    repeat(name.push(' '), 9) + seq!['\n'] + repeat(description.push(' '), 4) + seq!['\n'] + documentation
}

/// The description of a project, empty when it has none.
pub open spec fn description_text(p: ProjectView) -> Seq<char> {
    match p.description {
        Some(d) => d,
        None => seq![],
    }
}

/// The document that indexing a project with documentation text `doc` produces.
pub open spec fn project_document(p: ProjectView, doc: Seq<char>) -> DocumentView {
    document_of(p.path, p.last_modified, document_text(p.name, description_text(p), doc))
}

/// The characters of a text.
pub fn chars_of(s: &str) -> (r: Vec<char>)
    ensures
        r@ == s@,
{
    let n = s.unicode_len();
    let mut r: Vec<char> = Vec::new();
    let mut i: usize = 0;
    while i < n
        invariant
            n == s@.len(),
            i <= n,
            r@ == s@.subrange(0, i as int),
        decreases n - i,
    {
        r.push(s.get_char(i));
        assert(r@ =~= s@.subrange(0, i + 1));
        i += 1;
    }
    assert(r@ =~= s@);
    r
}

/// Appends `s` to `out` `n` times.
fn push_repeated(out: &mut Vec<char>, s: &Vec<char>, n: usize)
    ensures
        final(out)@ == old(out)@ + repeat(s@, n as nat),
{
    let mut k: usize = 0;
    while k < n
        invariant
            k <= n,
            out@ == old(out)@ + repeat(s@, k as nat),
        decreases n - k,
    {
        let mut j: usize = 0;
        let ghost before = out@;
        while j < s.len()
            invariant
                j <= s@.len(),
                out@ == before + s@.subrange(0, j as int),
            decreases s@.len() - j,
        {
            out.push(s[j]);
            assert(out@ =~= before + s@.subrange(0, j + 1));
            j += 1;
        }
        assert(s@.subrange(0, j as int) =~= s@);
        assert(repeat(s@, (k + 1) as nat) == repeat(s@, k as nat) + s@);
        assert(out@ =~= old(out)@ + repeat(s@, (k + 1) as nat));
        k += 1;
    }
}

/// The text indexed for a project.
pub fn build_document_text(name: &[char], description: &[char], documentation: &[char]) -> (r: Vec<
    char,
>)
    ensures
        r@ == document_text(name@, description@, documentation@),
{
    let mut named: Vec<char> = Vec::new();
    let mut i: usize = 0;
    while i < name.len()
        invariant
            i <= name@.len(),
            named@ == name@.subrange(0, i as int),
        decreases name@.len() - i,
    {
        named.push(name[i]);
        assert(named@ =~= name@.subrange(0, i + 1));
        i += 1;
    }
    assert(name@.subrange(0, i as int) =~= name@);
    named.push(' ');
    let mut desc: Vec<char> = Vec::new();
    let mut i: usize = 0;
    while i < description.len()
        invariant
            i <= description@.len(),
            desc@ == description@.subrange(0, i as int),
        decreases description@.len() - i,
    {
        desc.push(description[i]);
        assert(desc@ =~= description@.subrange(0, i + 1));
        i += 1;
    }
    assert(description@.subrange(0, i as int) =~= description@);
    desc.push(' ');
    let mut r: Vec<char> = Vec::new();
    push_repeated(&mut r, &named, 9);
    r.push('\n');
    push_repeated(&mut r, &desc, 4);
    r.push('\n');
    let ghost head = r@;
    let mut i: usize = 0;
    while i < documentation.len()
        invariant
            i <= documentation@.len(),
            r@ == head + documentation@.subrange(0, i as int),
        decreases documentation@.len() - i,
    {
        r.push(documentation[i]);
        assert(r@ =~= head + documentation@.subrange(0, i + 1));
        i += 1;
    }
    assert(documentation@.subrange(0, i as int) =~= documentation@);
    assert(r@ =~= document_text(name@, description@, documentation@));
    r
}

/// The search model of a catalogue: each project of `projects` is indexed in order,
/// with the documentation text at the same position of `documentation` (empty
/// where the project has none, or where it could not be read).
pub fn create_search_index(projects: &Vec<Project>, documentation: &Vec<Vec<char>>) -> (r: Model)
    requires
        projects@.len() == documentation@.len(),
    ensures
        r.wf(),
        r@.docs == restore_all(
            Seq::new(
                projects@.len(),
                |i: int| project_document(projects@[i]@, documentation@[i]@),
            ),
        ),
{
    let ghost all = Seq::new(
        projects@.len(),
        |i: int| project_document(projects@[i]@, documentation@[i]@),
    );
    let mut model = Model::new();
    let mut i: usize = 0;
    assert(all.subrange(0, 0) =~= Seq::<DocumentView>::empty());
    while i < projects.len()
        invariant
            projects@.len() == documentation@.len(),
            all == Seq::new(
                projects@.len(),
                |i: int| project_document(projects@[i]@, documentation@[i]@),
            ),
            i <= projects@.len(),
            model.wf(),
            model@.docs == restore_all(all.subrange(0, i as int)),
        decreases projects@.len() - i,
    {
        proof {
            lemma_restore_all_len(all.subrange(0, i as int));
        }
        let p = &projects[i];
        let name = chars_of(p.name.as_str());
        let description = match &p.description {
            Some(d) => chars_of(d.as_str()),
            None => Vec::new(),
        };
        assert(description@ == description_text(p@));
        let text = build_document_text(name.as_slice(), description.as_slice(), documentation[i].as_slice());
        model.add_document(p.path.clone(), p.last_modified, text.as_slice());
        assert(all.subrange(0, i + 1).drop_last() =~= all.subrange(0, i as int));
        i += 1;
    }
    assert(all.subrange(0, i as int) =~= all);
    model
}

} // verus!
