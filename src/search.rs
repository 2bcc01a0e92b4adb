//! The search model: per-document term frequencies, the number of documents
//! that hold each term, and ranked retrieval over them.

use vstd::prelude::*;
use vstd::hash_map::StringHashMap;
use crate::lexer::{terms_of, tokenize};
use crate::project::{texts, Timestamp};
use crate::ranking::{rank_desc, ranked};

verus! {

/// How many times `t` occurs in `s`.
pub open spec fn occurrences(s: Seq<Seq<char>>, t: Seq<char>) -> nat
    decreases s.len(),
{
    if s.len() == 0 {
        0
    } else {
        occurrences(s.drop_last(), t) + if s.last() == t {
            1nat
        } else {
            0nat
        }
    }
}

/// Each term of `s` with the number of its occurrences.
pub open spec fn frequencies(s: Seq<Seq<char>>) -> Map<Seq<char>, usize> {
    Map::new(|t: Seq<char>| occurrences(s, t) > 0, |t: Seq<char>| occurrences(s, t) as usize)
}

/// One indexed document, as mathematical values.
pub struct DocumentView {
    pub path: Seq<char>,
    pub last_modified: Timestamp,
    pub tf: Map<Seq<char>, usize>,
    pub total_terms: usize,
}

/// The record that indexing `content` under `path` produces.
pub open spec fn document_of(path: Seq<char>, last_modified: Timestamp, content: Seq<char>) -> DocumentView {
    DocumentView {
        path,
        last_modified,
        tf: frequencies(terms_of(content)),
        total_terms: terms_of(content).len() as usize,
    }
}

/// 1 if the document holds the term, else 0.
pub open spec fn holds(d: DocumentView, t: Seq<char>) -> nat {
    if d.tf.contains_key(t) {
        1
    } else {
        0
    }
}

/// The number of documents of `docs` that hold `t`.
pub open spec fn doc_count(docs: Seq<DocumentView>, t: Seq<char>) -> nat
    decreases docs.len(),
{
    if docs.len() == 0 {
        0
    } else {
        doc_count(docs.drop_last(), t) + holds(docs.last(), t)
    }
}

/// A count kept in a map, absent keys counting 0.
pub open spec fn count_in(m: Map<Seq<char>, usize>, t: Seq<char>) -> int {
    if m.contains_key(t) {
        m[t] as int
    } else {
        0
    }
}

/// The search model, as mathematical values.
pub struct ModelView {
    pub docs: Seq<DocumentView>,
    pub df: Map<Seq<char>, usize>,
}

/// The documents after indexing `d`: it replaces the document of the same path, or
/// is appended.
pub open spec fn with_document(docs: Seq<DocumentView>, d: DocumentView) -> Seq<DocumentView> {
    if exists|j: int| 0 <= j < docs.len() && (#[trigger] docs[j]).path == d.path {
        docs.update(choose|j: int| 0 <= j < docs.len() && (#[trigger] docs[j]).path == d.path, d)
    } else {
        docs.push(d)
    }
}

/// Saturation at the largest machine word.
pub open spec fn sat(x: int) -> usize {
    if x > usize::MAX {
        usize::MAX
    } else {
        x as usize
    }
}

/// What one query term adds to a document's score: its frequency in the document,
/// weighted by how rare it is in the corpus (the square of the corpus size over the
/// number of documents that hold the term, rounded down).
pub open spec fn weight(m: ModelView, d: DocumentView, t: Seq<char>) -> usize {
    if d.tf.contains_key(t) && m.df.contains_key(t) && m.df[t] > 0 {
        sat(d.tf[t] * ((m.docs.len() * m.docs.len()) as int / (m.df[t] as int)))
    } else {
        0
    }
}

/// The score of a document for the query terms `q`.
pub open spec fn score(m: ModelView, d: DocumentView, q: Seq<Seq<char>>) -> usize
    decreases q.len(),
{
    if q.len() == 0 {
        0
    } else {
        sat(score(m, d, q.drop_last()) + weight(m, d, q.last()))
    }
}

/// The ranking key of each document for the query terms `q`.
pub open spec fn keys_for(m: ModelView, q: Seq<Seq<char>>) -> Seq<(usize, Timestamp)> {
    m.docs.map_values(|d: DocumentView| (score(m, d, q), d.last_modified))
}

/// `order` lists, by rank, exactly the documents that score above zero.
pub open spec fn hit_order(m: ModelView, q: Seq<Seq<char>>, order: Seq<usize>) -> bool {
    &&& order.no_duplicates()
    &&& forall|i: int| 0 <= i < order.len() ==> order[i] < m.docs.len()
    &&& forall|k: usize|
        k < m.docs.len() ==> (order.contains(k) <==> score(m, #[trigger] m.docs[k as int], q) > 0)
    &&& ranked(keys_for(m, q), order)
}

/// Result rows as mathematical values.
pub open spec fn rows(r: Seq<(String, usize)>) -> Seq<(Seq<char>, usize)> {
    r.map_values(|p: (String, usize)| (p.0@, p.1))
}

/// The result rows for the documents listed in `order`: path and score.
pub open spec fn hits(m: ModelView, q: Seq<Seq<char>>, order: Seq<usize>) -> Seq<(Seq<char>, usize)> {
    order.map_values(|k: usize| (m.docs[k as int].path, score(m, m.docs[k as int], q)))
}

pub proof fn lemma_count_le_len(docs: Seq<DocumentView>, t: Seq<char>)
    ensures
        doc_count(docs, t) <= docs.len(),
    decreases docs.len(),
{
    if docs.len() > 0 {
        lemma_count_le_len(docs.drop_last(), t);
    }
}

pub proof fn lemma_count_remove(docs: Seq<DocumentView>, j: int, t: Seq<char>)
    requires
        0 <= j < docs.len(),
    ensures
        doc_count(docs, t) == doc_count(docs.remove(j), t) + holds(docs[j], t),
    decreases docs.len(),
{
    if j == docs.len() - 1 {
        assert(docs.remove(j) =~= docs.drop_last());
    } else {
        lemma_count_remove(docs.drop_last(), j, t);
        assert(docs.remove(j).drop_last() =~= docs.drop_last().remove(j));
        assert(docs.remove(j).last() == docs.last());
    }
}

pub proof fn lemma_count_update(docs: Seq<DocumentView>, j: int, d: DocumentView, t: Seq<char>)
    requires
        0 <= j < docs.len(),
    ensures
        doc_count(docs.update(j, d), t) == doc_count(docs.remove(j), t) + holds(d, t),
{
    lemma_count_remove(docs.update(j, d), j, t);
    assert(docs.update(j, d).remove(j) =~= docs.remove(j));
}

pub proof fn lemma_count_push(docs: Seq<DocumentView>, d: DocumentView, t: Seq<char>)
    ensures
        doc_count(docs.push(d), t) == doc_count(docs, t) + holds(d, t),
{
    assert(docs.push(d).drop_last() =~= docs);
}

pub proof fn lemma_count_holder(docs: Seq<DocumentView>, j: int, t: Seq<char>)
    requires
        0 <= j < docs.len(),
        docs[j].tf.contains_key(t),
    ensures
        doc_count(docs, t) >= 1,
{
    lemma_count_remove(docs, j, t);
}

pub proof fn lemma_occurrences_le_len(s: Seq<Seq<char>>, t: Seq<char>)
    ensures
        occurrences(s, t) <= s.len(),
    decreases s.len(),
{
    if s.len() > 0 {
        lemma_occurrences_le_len(s.drop_last(), t);
    }
}

/// One indexed document.
pub struct Document {
    path: String,
    last_modified: Timestamp,
    /// The distinct terms, in order of first appearance.
    terms: Vec<String>,
    tf: StringHashMap<usize>,
    total_terms: usize,
}

impl View for Document {
    type V = DocumentView;

    closed spec fn view(&self) -> DocumentView {
        DocumentView {
            path: self.path@,
            last_modified: self.last_modified,
            tf: self.tf@,
            total_terms: self.total_terms,
        }
    }
}

impl Document {
    /// The list of distinct terms names exactly the terms counted, each with a
    /// positive count.
    pub closed spec fn wf(&self) -> bool {
        &&& texts(self.terms@).no_duplicates()
        &&& forall|t: Seq<char>| #[trigger]
            self.tf@.contains_key(t) <==> texts(self.terms@).contains(t)
        &&& forall|t: Seq<char>| #[trigger] self.tf@.contains_key(t) ==> self.tf@[t] > 0
    }

    pub fn path(&self) -> (r: &String)
        ensures
            r@ == self@.path,
    {
        &self.path
    }

    pub fn last_modified(&self) -> (r: Timestamp)
        ensures
            r == self@.last_modified,
    {
        self.last_modified
    }

    pub fn total_terms(&self) -> (r: usize)
        ensures
            r == self@.total_terms,
    {
        self.total_terms
    }

    /// How often `term` occurs in the document (0 when it does not).
    pub fn term_frequency(&self, term: &str) -> (r: usize)
        ensures
            r == count_in(self@.tf, term@),
    {
        match self.tf.get(term) {
            Some(c) => *c,
            None => 0,
        }
    }
}

/// The distinct terms of `toks` in order of first appearance, with the count of each.
fn count_terms(toks: &Vec<String>) -> (r: (Vec<String>, StringHashMap<usize>))
    ensures
        texts(r.0@).no_duplicates(),
        forall|t: Seq<char>| #[trigger] r.1@.contains_key(t) <==> texts(r.0@).contains(t),
        forall|t: Seq<char>| #[trigger] r.1@.contains_key(t) ==> r.1@[t] > 0,
        r.1@ == frequencies(texts(toks@)),
{
    let mut terms: Vec<String> = Vec::new();
    let mut tf: StringHashMap<usize> = StringHashMap::new();
    let mut i: usize = 0;
    while i < toks.len()
        invariant
            i <= toks@.len(),
            texts(terms@).no_duplicates(),
            forall|t: Seq<char>| #[trigger] tf@.contains_key(t) <==> texts(terms@).contains(t),
            tf@ == frequencies(texts(toks@).subrange(0, i as int)),
            forall|t: Seq<char>| #[trigger] tf@.contains_key(t) ==> tf@[t] > 0,
        decreases toks@.len() - i,
    {
        let ghost pre = texts(toks@).subrange(0, i as int);
        let ghost next = texts(toks@).subrange(0, i + 1);
        proof {
            assert(next.drop_last() =~= pre);
            lemma_occurrences_le_len(pre, toks@[i as int]@);
        }
        let tok = &toks[i];
        let ghost terms0 = texts(terms@);
        match tf.get(tok.as_str()) {
            Some(c) => {
                let c = *c;
                tf.insert(tok.clone(), c + 1);
            },
            None => {
                tf.insert(tok.clone(), 1);
                terms.push(tok.clone());
                proof {
                    assert(!terms0.contains(tok@));
                    assert(texts(terms@) =~= terms0.push(tok@));
                    assert forall|t: Seq<char>| #[trigger]
                        tf@.contains_key(t) <==> texts(terms@).contains(t) by {
                        if terms0.contains(t) {
                            let w = choose|w: int| 0 <= w < terms0.len() && terms0[w] == t;
                            assert(texts(terms@)[w] == t);
                        }
                        if t == tok@ {
                            assert(texts(terms@)[terms0.len() as int] == t);
                        }
                        if texts(terms@).contains(t) && t != tok@ {
                            let w = choose|w: int|
                                0 <= w < texts(terms@).len() && texts(terms@)[w] == t;
                            assert(terms0[w] == t);
                        }
                    }
                }
            },
        }
        proof {
            assert(tf@ =~= frequencies(next));
        }
        i += 1;
    }
    assert(texts(toks@).subrange(0, i as int) =~= texts(toks@));
    (terms, tf)
}

/// The paths of `docs` are distinct.
pub open spec fn paths_unique(docs: Seq<DocumentView>) -> bool {
    forall|i: int, j: int|
        0 <= i < j < docs.len() ==> (#[trigger] docs[i]).path != (#[trigger] docs[j]).path
}

/// `df` holds, for each term, the number of documents that hold it, and no other entry.
pub open spec fn df_consistent(docs: Seq<DocumentView>, df: Map<Seq<char>, usize>) -> bool {
    &&& forall|t: Seq<char>| #[trigger] count_in(df, t) == doc_count(docs, t)
    &&& forall|t: Seq<char>| #[trigger] df.contains_key(t) ==> df[t] > 0
}

impl ModelView {
    /// Paths are distinct and the document frequencies agree with the documents.
    pub open spec fn valid(self) -> bool {
        &&& paths_unique(self.docs)
        &&& df_consistent(self.docs, self.df)
        &&& forall|i: int, t: Seq<char>|
            0 <= i < self.docs.len() && #[trigger] self.docs[i].tf.contains_key(t) ==> self.docs[i].tf[t]
                > 0
    }
}

pub proof fn lemma_prefix_contains(s: Seq<Seq<char>>, k: int, t: Seq<char>)
    requires
        0 <= k < s.len(),
    ensures
        s.subrange(0, k + 1).contains(t) <==> (s.subrange(0, k).contains(t) || s[k] == t),
{
    let longer = s.subrange(0, k + 1);
    let shorter = s.subrange(0, k);
    if longer.contains(t) {
        let w = choose|w: int| 0 <= w < longer.len() && longer[w] == t;
        if w < k {
            assert(shorter[w] == t);
        }
    }
    if shorter.contains(t) {
        let w = choose|w: int| 0 <= w < shorter.len() && shorter[w] == t;
        assert(longer[w] == t);
    }
    if s[k] == t {
        assert(longer[k] == t);
    }
}

/// The search model.
pub struct Model {
    documents: Vec<Document>,
    document_frequency: StringHashMap<usize>,
}

impl View for Model {
    type V = ModelView;

    closed spec fn view(&self) -> ModelView {
        ModelView {
            docs: self.documents@.map_values(|d: Document| d@),
            df: self.document_frequency@,
        }
    }
}

impl Model {
    pub closed spec fn wf(&self) -> bool {
        &&& forall|i: int| 0 <= i < self.documents@.len() ==> (#[trigger] self.documents@[i]).wf()
        &&& self@.valid()
    }

    /// The model of an empty corpus.
    pub fn new() -> (r: Model)
        ensures
            r.wf(),
            r@.docs.len() == 0,
            r@.df.len() == 0,
    {
        let r = Model { documents: Vec::new(), document_frequency: StringHashMap::new() };
        assert(r@.docs =~= Seq::<DocumentView>::empty());
        r
    }

    pub proof fn lemma_valid(&self)
        requires
            self.wf(),
        ensures
            self@.valid(),
    {
    }

    /// The number of documents.
    pub fn corpus_size(&self) -> (r: usize)
        ensures
            r == self@.docs.len(),
    {
        self.documents.len()
    }

    /// The number of documents that hold `term`.
    pub fn document_frequency(&self, term: &str) -> (r: usize)
        ensures
            r == count_in(self@.df, term@),
    {
        match self.document_frequency.get(term) {
            Some(c) => *c,
            None => 0,
        }
    }

    /// The indexed documents.
    pub fn documents(&self) -> (r: &Vec<Document>)
        ensures
            r@.map_values(|d: Document| d@) == self@.docs,
    {
        &self.documents
    }

    /// The position of the document stored under `path`, if any.
    fn position_of(&self, path: &String) -> (r: Option<usize>)
        ensures
            match r {
                Some(j) => j < self@.docs.len() && self@.docs[j as int].path == path@,
                None => forall|j: int| 0 <= j < self@.docs.len() ==> self@.docs[j].path != path@,
            },
    {
        let mut j: usize = 0;
        while j < self.documents.len()
            invariant
                j <= self@.docs.len(),
                self@.docs.len() == self.documents@.len(),
                forall|i: int| 0 <= i < j ==> self@.docs[i].path != path@,
            decreases self.documents@.len() - j,
        {
            if self.documents[j].path == *path {
                return Some(j);
            }
            j += 1;
        }
        None
    }

    /// Stores `doc`, replacing the document of the same path, and brings the
    /// document frequencies up to date.
    fn place(&mut self, doc: Document)
        requires
            old(self).wf(),
            doc.wf(),
            old(self)@.docs.len() < usize::MAX,
        ensures
            final(self).wf(),
            final(self)@.docs == with_document(old(self)@.docs, doc@),
    {
        let ghost docs0 = self@.docs;
        let ghost vec0 = self.documents@;
        let pos = self.position_of(&doc.path);
        // Take back the contributions of the document being replaced.
        if let Some(j) = pos {
            let ghost gone = docs0[j as int];
            let ghost tt = texts(self.documents@[j as int].terms@);
            assert(self.documents@[j as int].wf());
            let mut k: usize = 0;
            while k < self.documents[j].terms.len()
                invariant
                    j < self.documents@.len(),
                    self.documents@ == vec0,
                    self@.docs == docs0,
                    gone == docs0[j as int],
                    tt == texts(self.documents@[j as int].terms@),
                    tt.no_duplicates(),
                    forall|t: Seq<char>| #[trigger] gone.tf.contains_key(t) <==> tt.contains(t),
                    k <= tt.len(),
                    forall|t: Seq<char>|
                        #[trigger] count_in(self.document_frequency@, t) == doc_count(docs0, t) - (
                        if tt.subrange(0, k as int).contains(t) {
                            1int
                        } else {
                            0int
                        }),
                    forall|t: Seq<char>| #[trigger]
                        self.document_frequency@.contains_key(t) ==> self.document_frequency@[t]
                            > 0,
                decreases tt.len() - k,
            {
                let t = &self.documents[j].terms[k];
                proof {
                    assert(tt[k as int] == t@);
                    assert(gone.tf.contains_key(t@));
                    lemma_count_holder(docs0, j as int, t@);
                    assert(!tt.subrange(0, k as int).contains(t@)) by {
                        if tt.subrange(0, k as int).contains(t@) {
                            let w = choose|w: int|
                                0 <= w < k && tt.subrange(0, k as int)[w] == t@;
                            assert(tt[w] == tt[k as int]);
                        }
                    }
                    assert forall|u: Seq<char>|
                        tt.subrange(0, k + 1).contains(u) <==> (tt.subrange(0, k as int).contains(u)
                            || u == t@) by {
                        lemma_prefix_contains(tt, k as int, u);
                    }
                }
                let ghost df0 = self.document_frequency@;
                assert(count_in(df0, t@) == doc_count(docs0, t@));
                let c = match self.document_frequency.get(t.as_str()) {
                    Some(c) => *c,
                    None => 0,
                };
                if c == 1 {
                    self.document_frequency.remove(t.as_str());
                } else {
                    self.document_frequency.insert(t.clone(), c - 1);
                }
                proof {
                    assert forall|u: Seq<char>| #[trigger]
                        count_in(self.document_frequency@, u) == doc_count(docs0, u) - (
                        if tt.subrange(0, k + 1).contains(u) {
                            1int
                        } else {
                            0int
                        }) by {
                        if u != t@ {
                            assert(count_in(df0, u) == count_in(self.document_frequency@, u));
                        }
                    }
                }
                k += 1;
            }
            proof {
                assert(tt.subrange(0, tt.len() as int) =~= tt);
                assert forall|t: Seq<char>| #[trigger]
                    count_in(self.document_frequency@, t) == doc_count(docs0.remove(j as int), t) by {
                    lemma_count_remove(docs0, j as int, t);
                }
            }
        }
        let ghost base = match pos {
            Some(j) => docs0.remove(j as int),
            None => docs0,
        };
        let ghost nt = texts(doc.terms@);
        // Add the contributions of the new document.
        let mut k: usize = 0;
        while k < doc.terms.len()
            invariant
                doc.wf(),
                self.documents@ == vec0,
                forall|i: int| 0 <= i < vec0.len() ==> (#[trigger] vec0[i]).wf(),
                pos matches Some(j) ==> j < vec0.len(),
                nt == texts(doc.terms@),
                nt.no_duplicates(),
                forall|t: Seq<char>| #[trigger] doc@.tf.contains_key(t) <==> nt.contains(t),
                base.len() < usize::MAX,
                k <= nt.len(),
                forall|t: Seq<char>|
                    #[trigger] count_in(self.document_frequency@, t) == doc_count(base, t) + (
                    if nt.subrange(0, k as int).contains(t) {
                        1int
                    } else {
                        0int
                    }),
                forall|t: Seq<char>| #[trigger]
                    self.document_frequency@.contains_key(t) ==> self.document_frequency@[t] > 0,
            decreases nt.len() - k,
        {
            let t = &doc.terms[k];
            proof {
                assert(nt[k as int] == t@);
                lemma_count_le_len(base, t@);
                assert(!nt.subrange(0, k as int).contains(t@)) by {
                    if nt.subrange(0, k as int).contains(t@) {
                        let w = choose|w: int| 0 <= w < k && nt.subrange(0, k as int)[w] == t@;
                        assert(nt[w] == nt[k as int]);
                    }
                }
                assert forall|u: Seq<char>|
                    nt.subrange(0, k + 1).contains(u) <==> (nt.subrange(0, k as int).contains(u)
                        || u == t@) by {
                    lemma_prefix_contains(nt, k as int, u);
                }
            }
            let ghost df0 = self.document_frequency@;
            assert(count_in(df0, t@) == doc_count(base, t@));
            let c = match self.document_frequency.get(t.as_str()) {
                Some(c) => *c,
                None => 0,
            };
            self.document_frequency.insert(t.clone(), c + 1);
            proof {
                assert forall|u: Seq<char>| #[trigger]
                    count_in(self.document_frequency@, u) == doc_count(base, u) + (
                    if nt.subrange(0, k + 1).contains(u) {
                        1int
                    } else {
                        0int
                    }) by {
                    if u != t@ {
                        assert(count_in(df0, u) == count_in(self.document_frequency@, u));
                    }
                }
            }
            k += 1;
        }
        assert(nt.subrange(0, nt.len() as int) =~= nt);
        let ghost d = doc@;
        match pos {
            Some(j) => {
                self.documents[j] = doc;
                proof {
                    assert(self@.docs =~= docs0.update(j as int, d));
                    assert forall|t: Seq<char>| #[trigger]
                        count_in(self.document_frequency@, t) == doc_count(self@.docs, t) by {
                        lemma_count_update(docs0, j as int, d, t);
                    }
                    let jj = choose|jj: int| 0 <= jj < docs0.len() && (#[trigger] docs0[jj]).path == d.path;
                    assert(jj == j);
                }
            },
            None => {
                self.documents.push(doc);
                proof {
                    assert(self@.docs =~= docs0.push(d));
                    assert forall|t: Seq<char>| #[trigger]
                        count_in(self.document_frequency@, t) == doc_count(self@.docs, t) by {
                        lemma_count_push(docs0, d, t);
                    }
                }
            },
        }
        assert forall|i: int| 0 <= i < self.documents@.len() implies (#[trigger] self.documents@[i]).wf() by {
            match pos {
                Some(j) => {
                    if i != j {
                        assert(self.documents@[i] == vec0[i]);
                    }
                },
                None => {
                    if i < vec0.len() {
                        assert(self.documents@[i] == vec0[i]);
                    }
                },
            }
        }
    }

    /// Indexes `content` as the document of `path`, replacing an earlier document
    /// of that path.
    pub fn add_document(&mut self, path: String, last_modified: Timestamp, content: &[char])
        requires
            old(self).wf(),
            old(self)@.docs.len() < usize::MAX,
        ensures
            final(self).wf(),
            final(self)@.docs == with_document(
                old(self)@.docs,
                document_of(path@, last_modified, content@),
            ),
    {
        let toks = tokenize(content);
        let (terms, tf) = count_terms(&toks);
        let doc = Document { path, last_modified, terms, tf, total_terms: toks.len() };
        assert(doc@ == document_of(doc.path@, last_modified, content@));
        self.place(doc);
    }

    /// The score of the document at position `k` for the query terms `q`.
    fn doc_score(&self, k: usize, q: &Vec<String>) -> (r: usize)
        requires
            self.wf(),
            k < self@.docs.len(),
        ensures
            r == score(self@, self@.docs[k as int], texts(q@)),
    {
        let ghost m = self@;
        let ghost d = self@.docs[k as int];
        let ghost qs = texts(q@);
        let doc = &self.documents[k];
        let n = self.documents.len();
        let mut acc: usize = 0;
        let mut i: usize = 0;
        assert(qs.subrange(0, 0) =~= Seq::<Seq<char>>::empty());
        while i < q.len()
            invariant
                i <= qs.len(),
                qs == texts(q@),
                m == self@,
                d == m.docs[k as int],
                doc@ == d,
                n == m.docs.len(),
                acc == score(m, d, qs.subrange(0, i as int)),
            decreases qs.len() - i,
        {
            let t = &q[i];
            let w: usize = match doc.tf.get(t.as_str()) {
                Some(c) => match self.document_frequency.get(t.as_str()) {
                    Some(f) => {
                        if *f > 0 {
                            assert(n as int <= u64::MAX as int);
                            assert((n as int) * (n as int) <= u128::MAX) by (nonlinear_arith)
                                requires
                                    n as int <= u64::MAX as int,
                            ;
                            let nn: u128 = (n as u128) * (n as u128);
                            let rarity: u128 = nn / (*f as u128);
                            match (*c as u128).checked_mul(rarity) {
                                Some(x) => {
                                    if x <= usize::MAX as u128 {
                                        x as usize
                                    } else {
                                        usize::MAX
                                    }
                                },
                                None => usize::MAX,
                            }
                        } else {
                            0
                        }
                    },
                    None => 0,
                },
                None => 0,
            };
            assert(w == weight(m, d, t@));
            let ghost longer = qs.subrange(0, i + 1);
            assert(longer.drop_last() =~= qs.subrange(0, i as int));
            assert(longer.last() == t@);
            acc = match acc.checked_add(w) {
                Some(x) => x,
                None => usize::MAX,
            };
            i += 1;
        }
        assert(qs.subrange(0, i as int) =~= qs);
        acc
    }

    /// The documents that share a term with `query`, by rank: higher score first,
    /// and among equal scores the more recently modified first. Each row holds the
    /// document's path and its score.
    pub fn search_query(&self, query: &[char]) -> (r: Vec<(String, usize)>)
        requires
            self.wf(),
        ensures
            exists|order: Seq<usize>|
                hit_order(self@, terms_of(query@), order) && #[trigger] rows(r@) == hits(
                    self@,
                    terms_of(query@),
                    order,
                ),
    {
        let q = tokenize(query);
        let ghost qs = terms_of(query@);
        let ghost m = self@;
        let mut keys: Vec<(usize, Timestamp)> = Vec::new();
        let mut cands: Vec<usize> = Vec::new();
        let mut k: usize = 0;
        while k < self.documents.len()
            invariant
                self.wf(),
                m == self@,
                qs == texts(q@),
                k <= m.docs.len(),
                self.documents@.len() == m.docs.len(),
                keys@ == keys_for(m, qs).subrange(0, k as int),
                cands@.no_duplicates(),
                forall|i: int| 0 <= i < cands@.len() ==> cands@[i] < k,
                forall|x: usize|
                    cands@.contains(x) <==> (x < k && score(m, #[trigger] m.docs[x as int], qs)
                        > 0),
            decreases m.docs.len() - k,
        {
            let sc = self.doc_score(k, &q);
            keys.push((sc, self.documents[k].last_modified));
            assert(keys@ =~= keys_for(m, qs).subrange(0, k + 1));
            if sc > 0 {
                let ghost before = cands@;
                cands.push(k);
                proof {
                    assert forall|a: int, b: int|
                        0 <= a < b < cands@.len() implies cands@[a] != cands@[b] by {
                        if b == before.len() {
                            assert(before[a] < k);
                        }
                    }
                    assert forall|x: usize|
                        cands@.contains(x) <==> (x < k + 1 && score(m, #[trigger] m.docs[x as int], qs)
                            > 0) by {
                        if x == k {
                            assert(cands@[before.len() as int] == x);
                        } else if cands@.contains(x) {
                            let w = choose|w: int| 0 <= w < cands@.len() && cands@[w] == x;
                            assert(before[w] == x);
                        } else if before.contains(x) {
                            let w = choose|w: int| 0 <= w < before.len() && before[w] == x;
                            assert(cands@[w] == x);
                        }
                    }
                }
            } else {
                assert forall|x: usize|
                    cands@.contains(x) <==> (x < k + 1 && score(m, #[trigger] m.docs[x as int], qs) > 0) by {
                    if x == k {
                        assert(!cands@.contains(x));
                    }
                }
            }
            k += 1;
        }
        assert(keys@ =~= keys_for(m, qs));
        let order = rank_desc(&keys, &cands);
        assert forall|a: int| 0 <= a < order@.len() implies order@[a] < m.docs.len() by {
            assert(order@.contains(order@[a]));
            assert(cands@.contains(order@[a]));
        }
        let mut r: Vec<(String, usize)> = Vec::new();
        let mut i: usize = 0;
        while i < order.len()
            invariant
                m == self@,
                keys@ == keys_for(m, qs),
                self.documents@.len() == m.docs.len(),
                forall|a: int| 0 <= a < order@.len() ==> order@[a] < m.docs.len(),
                i <= order@.len(),
                rows(r@) == hits(m, qs, order@.subrange(0, i as int)),
            decreases order@.len() - i,
        {
            assert(order@.contains(order@[i as int]));
            let d = order[i];
            assert(keys@[d as int] == (score(m, m.docs[d as int], qs), m.docs[d as int].last_modified));
            assert(self.documents@[d as int]@ == m.docs[d as int]);
            let ghost r0 = r@;
            let ghost row = (m.docs[d as int].path, score(m, m.docs[d as int], qs));
            r.push((self.documents[d].path.clone(), keys[d].0));
            assert(rows(r@) =~= rows(r0).push(row));
            assert(hits(m, qs, order@.subrange(0, i + 1)) =~= hits(
                m,
                qs,
                order@.subrange(0, i as int),
            ).push(row));
            i += 1;
        }
        proof {
            assert(order@.subrange(0, i as int) =~= order@);
            assert forall|a: int| 0 <= a < order@.len() implies order@[a] < m.docs.len() by {
                assert(order@.contains(order@[a]));
            }
            assert(hit_order(m, qs, order@));
        }
        r
    }
}

/// The documents of a model built by indexing each of `docs` in order.
pub open spec fn restore_all(docs: Seq<DocumentView>) -> Seq<DocumentView>
    decreases docs.len(),
{
    if docs.len() == 0 {
        seq![]
    } else {
        with_document(restore_all(docs.drop_last()), docs.last())
    }
}

/// A list of (term, count) pairs as mathematical values.
pub open spec fn freq_view(v: Seq<(String, usize)>) -> Seq<(Seq<char>, usize)> {
    v.map_values(|p: (String, usize)| (p.0@, p.1))
}

/// The map that a list of (term, count) pairs describes.
pub open spec fn map_of(s: Seq<(Seq<char>, usize)>) -> Map<Seq<char>, usize>
    decreases s.len(),
{
    if s.len() == 0 {
        Map::empty()
    } else {
        map_of(s.drop_last()).insert(s.last().0, s.last().1)
    }
}

/// The terms of the list are distinct and every count is positive.
pub open spec fn valid_freqs(s: Seq<(Seq<char>, usize)>) -> bool {
    &&& s.map_values(|p: (Seq<char>, usize)| p.0).no_duplicates()
    &&& forall|i: int| 0 <= i < s.len() ==> (#[trigger] s[i]).1 > 0
}

/// A document in the form in which it is stored.
pub struct DocumentRecord {
    pub path: String,
    pub last_modified: Timestamp,
    pub term_frequencies: Vec<(String, usize)>,
    pub total_terms: usize,
}

pub open spec fn record_view(r: DocumentRecord) -> DocumentView {
    DocumentView {
        path: r.path@,
        last_modified: r.last_modified,
        tf: map_of(freq_view(r.term_frequencies@)),
        total_terms: r.total_terms,
    }
}

pub open spec fn records_view(rs: Seq<DocumentRecord>) -> Seq<DocumentView> {
    rs.map_values(|r: DocumentRecord| record_view(r))
}

pub proof fn lemma_restore_all_len(docs: Seq<DocumentView>)
    ensures
        restore_all(docs).len() <= docs.len(),
    decreases docs.len(),
{
    if docs.len() > 0 {
        lemma_restore_all_len(docs.drop_last());
    }
}

/// Indexing documents of distinct paths one after another keeps them all, in order.
pub proof fn lemma_restore_all_unique(docs: Seq<DocumentView>)
    requires
        paths_unique(docs),
    ensures
        restore_all(docs) == docs,
    decreases docs.len(),
{
    if docs.len() > 0 {
        let init = docs.drop_last();
        assert(paths_unique(init));
        lemma_restore_all_unique(init);
        assert forall|j: int| 0 <= j < init.len() implies (#[trigger] init[j]).path != docs.last().path by {
            assert(docs[j] == init[j]);
        }
        assert(init.push(docs.last()) =~= docs);
    }
}

/// The document frequencies of a valid model follow from its documents.
pub proof fn lemma_df_determined(a: ModelView, b: ModelView)
    requires
        a.valid(),
        b.valid(),
        a.docs == b.docs,
    ensures
        a == b,
{
    assert forall|t: Seq<char>| #[trigger] a.df.contains_key(t) <==> b.df.contains_key(t) by {
        assert(count_in(a.df, t) == count_in(b.df, t));
    }
    assert forall|t: Seq<char>| #[trigger] a.df.contains_key(t) implies a.df[t] == b.df[t] by {
        assert(count_in(a.df, t) == count_in(b.df, t));
    }
    assert(a.df =~= b.df);
}

/// Restoring a model from the records of its documents, in their order, gives the
/// same model back: the same documents with the same counts, and the same
/// document frequencies.
pub proof fn lemma_model_round_trip(m: ModelView, restored: ModelView)
    requires
        m.valid(),
        restored.valid(),
        restored.docs == restore_all(m.docs),
    ensures
        restored == m,
{
    lemma_restore_all_unique(m.docs);
    lemma_df_determined(restored, m);
}

impl Document {
    /// The document's terms with their counts, each term once.
    pub fn term_frequencies(&self) -> (r: Vec<(String, usize)>)
        requires
            self.wf(),
        ensures
            valid_freqs(freq_view(r@)),
            map_of(freq_view(r@)) == self@.tf,
    {
        let ghost tt = texts(self.terms@);
        let mut r: Vec<(String, usize)> = Vec::new();
        let mut k: usize = 0;
        while k < self.terms.len()
            invariant
                self.wf(),
                tt == texts(self.terms@),
                k <= tt.len(),
                freq_view(r@).map_values(|p: (Seq<char>, usize)| p.0) == tt.subrange(0, k as int),
                forall|i: int| 0 <= i < r@.len() ==> (#[trigger] freq_view(r@)[i]).1 > 0,
                forall|t: Seq<char>| #[trigger]
                    map_of(freq_view(r@)).contains_key(t) <==> tt.subrange(0, k as int).contains(t),
                forall|t: Seq<char>| #[trigger]
                    map_of(freq_view(r@)).contains_key(t) ==> map_of(freq_view(r@))[t]
                        == self@.tf[t],
            decreases tt.len() - k,
        {
            let t = &self.terms[k];
            assert(tt[k as int] == t@);
            assert(tt.contains(t@));
            let c = match self.tf.get(t.as_str()) {
                Some(c) => *c,
                None => 0,
            };
            let ghost f0 = freq_view(r@);
            r.push((t.clone(), c));
            proof {
                assert(freq_view(r@) =~= f0.push((t@, c)));
                assert(freq_view(r@).drop_last() =~= f0);
                assert(map_of(freq_view(r@)) == map_of(f0).insert(t@, c));
                assert(c == self@.tf[t@]);
                assert(freq_view(r@).map_values(|p: (Seq<char>, usize)| p.0) =~= f0.map_values(
                    |p: (Seq<char>, usize)| p.0,
                ).push(t@));
                assert(tt.subrange(0, k + 1) =~= tt.subrange(0, k as int).push(t@));
                assert forall|u: Seq<char>| #[trigger]
                    map_of(freq_view(r@)).contains_key(u) <==> tt.subrange(0, k + 1).contains(u) by {
                    lemma_prefix_contains(tt, k as int, u);
                }
            }
            k += 1;
        }
        proof {
            assert(tt.subrange(0, k as int) =~= tt);
            assert(map_of(freq_view(r@)) =~= self@.tf);
        }
        r
    }

    /// The document that a record describes, None when its terms repeat or a count
    /// is zero.
    fn from_record(rec: &DocumentRecord) -> (r: Option<Document>)
        ensures
            match r {
                Some(d) => d.wf() && d@ == record_view(*rec) && valid_freqs(
                    freq_view(rec.term_frequencies@),
                ),
                None => !valid_freqs(freq_view(rec.term_frequencies@)),
            },
    {
        let ghost fv = freq_view(rec.term_frequencies@);
        let ghost names = fv.map_values(|p: (Seq<char>, usize)| p.0);
        let mut terms: Vec<String> = Vec::new();
        let mut tf: StringHashMap<usize> = StringHashMap::new();
        let mut k: usize = 0;
        while k < rec.term_frequencies.len()
            invariant
                fv == freq_view(rec.term_frequencies@),
                names == fv.map_values(|p: (Seq<char>, usize)| p.0),
                k <= fv.len(),
                texts(terms@) == names.subrange(0, k as int),
                names.subrange(0, k as int).no_duplicates(),
                forall|i: int| 0 <= i < k ==> (#[trigger] fv[i]).1 > 0,
                tf@ == map_of(fv.subrange(0, k as int)),
                forall|t: Seq<char>| #[trigger] tf@.contains_key(t) <==> texts(terms@).contains(t),
                forall|t: Seq<char>| #[trigger] tf@.contains_key(t) ==> tf@[t] > 0,
            decreases fv.len() - k,
        {
            let (t, c) = (&rec.term_frequencies[k].0, rec.term_frequencies[k].1);
            assert(fv[k as int] == (t@, c));
            assert(names[k as int] == t@);
            if c == 0 || tf.contains_key(t.as_str()) {
                proof {
                    if c != 0 {
                        let w = choose|w: int| 0 <= w < k && names.subrange(0, k as int)[w] == t@;
                        assert(names[w] == names[k as int]);
                    }
                }
                return None;
            }
            let ghost t0 = texts(terms@);
            tf.insert(t.clone(), c);
            terms.push(t.clone());
            proof {
                assert(texts(terms@) =~= t0.push(t@));
                assert(texts(terms@) =~= names.subrange(0, k + 1));
                assert(fv.subrange(0, k + 1).drop_last() =~= fv.subrange(0, k as int));
                assert forall|u: Seq<char>| #[trigger]
                    tf@.contains_key(u) <==> texts(terms@).contains(u) by {
                    lemma_prefix_contains(names, k as int, u);
                }
            }
            k += 1;
        }
        proof {
            assert(names.subrange(0, k as int) =~= names);
            assert(fv.subrange(0, k as int) =~= fv);
        }
        Some(
            Document {
                path: rec.path.clone(),
                last_modified: rec.last_modified,
                terms,
                tf,
                total_terms: rec.total_terms,
            },
        )
    }
}

impl Model {
    /// The documents in the form in which they are stored, in order.
    pub fn records(&self) -> (r: Vec<DocumentRecord>)
        requires
            self.wf(),
        ensures
            records_view(r@) == self@.docs,
            forall|i: int| 0 <= i < r@.len() ==> valid_freqs(freq_view((#[trigger] r@[i]).term_frequencies@)),
    {
        let mut r: Vec<DocumentRecord> = Vec::new();
        let mut i: usize = 0;
        while i < self.documents.len()
            invariant
                self.wf(),
                i <= self@.docs.len(),
                records_view(r@) == self@.docs.subrange(0, i as int),
                forall|j: int| 0 <= j < r@.len() ==> valid_freqs(freq_view((#[trigger] r@[j]).term_frequencies@)),
            decreases self@.docs.len() - i,
        {
            let d = &self.documents[i];
            assert(d.wf());
            let rec = DocumentRecord {
                path: d.path.clone(),
                last_modified: d.last_modified,
                term_frequencies: d.term_frequencies(),
                total_terms: d.total_terms,
            };
            let ghost r0 = r@;
            r.push(rec);
            assert(records_view(r@) =~= records_view(r0).push(self@.docs[i as int]));
            assert(self@.docs.subrange(0, i + 1) =~= self@.docs.subrange(0, i as int).push(self@.docs[i as int]));
            i += 1;
        }
        assert(self@.docs.subrange(0, i as int) =~= self@.docs);
        r
    }

    /// The model that indexes the documents of `records` in order; None when a
    /// record repeats a term or holds a zero count.
    pub fn restore(records: &Vec<DocumentRecord>) -> (r: Option<Model>)
        ensures
            match r {
                Some(m) => m.wf() && m@.docs == restore_all(records_view(records@)),
                None => exists|i: int|
                    0 <= i < records@.len() && !valid_freqs(
                        freq_view((#[trigger] records@[i]).term_frequencies@),
                    ),
            },
    {
        let mut m = Model::new();
        let mut i: usize = 0;
        while i < records.len()
            invariant
                m.wf(),
                i <= records@.len(),
                m@.docs == restore_all(records_view(records@).subrange(0, i as int)),
            decreases records@.len() - i,
        {
            proof {
                lemma_restore_all_len(records_view(records@).subrange(0, i as int));
            }
            let doc = match Document::from_record(&records[i]) {
                Some(d) => d,
                None => return None,
            };
            m.place(doc);
            assert(records_view(records@).subrange(0, i + 1).drop_last() =~= records_view(
                records@,
            ).subrange(0, i as int));
            i += 1;
        }
        assert(records_view(records@).subrange(0, i as int) =~= records_view(records@));
        Some(m)
    }
}

proof fn lemma_score_zero(m: ModelView, d: DocumentView, q: Seq<Seq<char>>)
    requires
        forall|t: Seq<char>| q.contains(t) ==> !d.tf.contains_key(t),
    ensures
        score(m, d, q) == 0,
    decreases q.len(),
{
    if q.len() > 0 {
        assert(q.contains(q.last())) by {
            assert(q[q.len() - 1] == q.last());
        }
        assert forall|t: Seq<char>| q.drop_last().contains(t) implies !d.tf.contains_key(t) by {
            let w = choose|w: int| 0 <= w < q.drop_last().len() && q.drop_last()[w] == t;
            assert(q[w] == t);
            assert(q.contains(t));
        }
        lemma_score_zero(m, d, q.drop_last());
    }
}

/// Queries and documents go through the same tokenizer: a document indexed from a
/// text scores above zero for the query made of that same text, whenever the text
/// has a term, while a document that holds none of its terms scores zero (and is
/// left out of the results).
pub proof fn lemma_search_symmetry(m: ModelView, text: Seq<char>, k: int, other: int)
    requires
        m.valid(),
        0 <= k < m.docs.len(),
        0 <= other < m.docs.len(),
        m.docs[k].tf == frequencies(terms_of(text)),
        terms_of(text).len() > 0,
        terms_of(text).len() <= usize::MAX,
        forall|t: Seq<char>| terms_of(text).contains(t) ==> !m.docs[other].tf.contains_key(t),
    ensures
        score(m, m.docs[k], terms_of(text)) > 0,
        score(m, m.docs[other], terms_of(text)) == 0,
{
    let q = terms_of(text);
    let t = q.last();
    let d = m.docs[k];
    assert(q.drop_last().push(t) =~= q);
    lemma_occurrences_le_len(q, t);
    assert(occurrences(q, t) >= 1);
    assert(d.tf.contains_key(t));
    lemma_count_holder(m.docs, k, t);
    lemma_count_le_len(m.docs, t);
    assert(count_in(m.df, t) == doc_count(m.docs, t));
    let f = m.df[t] as int;
    let n = m.docs.len() as int;
    assert((n * n) / f >= 1) by (nonlinear_arith)
        requires
            1 <= f <= n,
    ;
    assert(d.tf[t] * ((n * n) / f) >= 1) by (nonlinear_arith)
        requires
            d.tf[t] >= 1,
            (n * n) / f >= 1,
    ;
    assert(weight(m, d, t) >= 1);
    lemma_score_zero(m, m.docs[other], q);
}

proof fn lemma_rarity_strict(n: int, da: int, db: int)
    requires
        1 <= da < db <= n,
    ensures
        (n * n) / da > (n * n) / db,
{
    let s = n * n;
    let qb = s / db;
    assert(n * db <= s) by (nonlinear_arith)
        requires
            s == n * n,
            1 <= db <= n,
    ;
    assert(qb >= n) by (nonlinear_arith)
        requires
            qb == s / db,
            n * db <= s,
            db >= 1,
    ;
    assert(qb * db <= s) by (nonlinear_arith)
        requires
            qb == s / db,
            db >= 1,
    ;
    assert((qb + 1) * da <= (qb + 1) * (db - 1)) by (nonlinear_arith)
        requires
            qb >= 0,
            da <= db - 1,
    ;
    assert((qb + 1) * (db - 1) == qb * db + db - qb - 1) by (nonlinear_arith);
    assert(s / da >= qb + 1) by (nonlinear_arith)
        requires
            (qb + 1) * da <= s,
            da >= 1,
    ;
}

/// Of two query terms that two documents hold equally often, the one held by fewer
/// documents of the corpus weighs more (as long as the weights stay below the
/// saturation point).
pub proof fn lemma_rarer_term_weighs_more(m: ModelView, i: int, a: Seq<char>, j: int, b: Seq<char>)
    requires
        m.valid(),
        0 <= i < m.docs.len(),
        0 <= j < m.docs.len(),
        m.docs[i].tf.contains_key(a),
        m.docs[j].tf.contains_key(b),
        m.docs[i].tf[a] == m.docs[j].tf[b],
        count_in(m.df, a) < count_in(m.df, b),
        m.docs[i].tf[a] * ((m.docs.len() * m.docs.len()) as int / count_in(m.df, a))
            <= usize::MAX,
    ensures
        weight(m, m.docs[i], a) > weight(m, m.docs[j], b),
{
    lemma_count_holder(m.docs, i, a);
    lemma_count_holder(m.docs, j, b);
    lemma_count_le_len(m.docs, b);
    assert(count_in(m.df, a) == doc_count(m.docs, a));
    assert(count_in(m.df, b) == doc_count(m.docs, b));
    let n = m.docs.len() as int;
    let da = m.df[a] as int;
    let db = m.df[b] as int;
    lemma_rarity_strict(n, da, db);
    let c = m.docs[i].tf[a] as int;
    assert(c > 0);
    assert(c * ((n * n) / da) > c * ((n * n) / db)) by (nonlinear_arith)
        requires
            c > 0,
            (n * n) / da > (n * n) / db,
    ;
}

/// For a query of two terms, a document that shares only the rarer term ranks above
/// one that shares only the commoner term, each holding it equally often.
pub proof fn lemma_rarer_match_ranks_higher(m: ModelView, i: int, a: Seq<char>, j: int, b: Seq<char>)
    requires
        m.valid(),
        0 <= i < m.docs.len(),
        0 <= j < m.docs.len(),
        m.docs[i].tf.contains_key(a),
        !m.docs[i].tf.contains_key(b),
        m.docs[j].tf.contains_key(b),
        !m.docs[j].tf.contains_key(a),
        m.docs[i].tf[a] == m.docs[j].tf[b],
        count_in(m.df, a) < count_in(m.df, b),
        m.docs[i].tf[a] * ((m.docs.len() * m.docs.len()) as int / count_in(m.df, a))
            <= usize::MAX,
    ensures
        score(m, m.docs[i], seq![a, b]) > score(m, m.docs[j], seq![a, b]),
{
    lemma_rarer_term_weighs_more(m, i, a, j, b);
    let q = seq![a, b];
    assert(q.drop_last() =~= seq![a]);
    assert(seq![a].drop_last() =~= Seq::<Seq<char>>::empty());
    assert(q.last() == b);
    assert(seq![a].last() == a);
    let di = m.docs[i];
    let dj = m.docs[j];
    assert(score(m, di, seq![a]) == sat(score(m, di, Seq::<Seq<char>>::empty()) + weight(m, di, a)));
    assert(score(m, di, q) == sat(score(m, di, seq![a]) + weight(m, di, b)));
    assert(score(m, dj, seq![a]) == sat(score(m, dj, Seq::<Seq<char>>::empty()) + weight(m, dj, a)));
    assert(score(m, dj, q) == sat(score(m, dj, seq![a]) + weight(m, dj, b)));
    assert(weight(m, di, b) == 0);
    assert(weight(m, dj, a) == 0);
}

} // verus!
