use local_projects::indexing::create_search_index;
use local_projects::project::{Project, ProjectType, Timestamp};
use local_projects::search::Model;

fn chars(s: &str) -> Vec<char> {
    s.chars().collect()
}

fn t(secs: u64) -> Timestamp {
    Timestamp::new(secs, 0)
}

fn paths(rows: &[(String, usize)]) -> Vec<&str> {
    rows.iter().map(|r| r.0.as_str()).collect()
}

#[test]
fn term_frequency_query_ranks_matching_documents() {
    let mut m = Model::new();
    m.add_document("/a".to_string(), t(1), &chars("rust systems programming"));
    m.add_document("/b".to_string(), t(2), &chars("rust web framework"));
    m.add_document("/c".to_string(), t(3), &chars("python data science"));
    let rows = m.search_query(&chars("rust"));
    assert_eq!(rows.len(), 2);
    // Equal scores: the more recently modified first.
    assert_eq!(paths(&rows), vec!["/b", "/a"]);
    assert_eq!(m.document_frequency("rust"), 2);
    // Three documents, two of them with "rust": weight 3 * 3 / 2 = 4, once each.
    assert_eq!(rows[0].1, 4);
}

#[test]
fn readding_a_document_leaves_no_stale_frequencies() {
    let mut m = Model::new();
    m.add_document("/a".to_string(), t(1), &chars("rust systems programming"));
    m.add_document("/b".to_string(), t(2), &chars("rust web framework"));
    m.add_document("/a".to_string(), t(5), &chars("go services"));
    assert_eq!(m.corpus_size(), 2);
    assert_eq!(m.document_frequency("rust"), 1);
    assert_eq!(m.document_frequency("systems"), 0);
    assert_eq!(m.document_frequency("programming"), 0);
    assert_eq!(m.document_frequency("go"), 1);
    assert_eq!(paths(&m.search_query(&chars("rust"))), vec!["/b"]);
    assert_eq!(paths(&m.search_query(&chars("systems"))), Vec::<&str>::new());
}

#[test]
fn document_with_the_query_terms_outranks_one_without() {
    let mut m = Model::new();
    m.add_document("/x".to_string(), t(9), &chars("unrelated words only"));
    m.add_document("/q".to_string(), t(1), &chars("Launcher Desktop"));
    let rows = m.search_query(&chars("launcher desktop"));
    assert_eq!(paths(&rows), vec!["/q"]);
    // Two documents, one holds each term: weight 2 * 2 / 1 = 4, twice.
    assert_eq!(rows[0].1, 8);
}

#[test]
fn rarer_and_more_frequent_terms_score_higher() {
    let mut m = Model::new();
    m.add_document("/a".to_string(), t(1), &chars("rust rust rust cli"));
    m.add_document("/b".to_string(), t(2), &chars("rust cli"));
    m.add_document("/c".to_string(), t(3), &chars("cli tool"));
    m.add_document("/d".to_string(), t(4), &chars("cli"));
    let rows = m.search_query(&chars("rust"));
    assert_eq!(paths(&rows), vec!["/a", "/b"]);
    // Four documents, two with "rust": weight 4 * 4 / 2 = 8.
    assert_eq!(rows[0].1, 24);
    assert_eq!(rows[1].1, 8);
}

#[test]
fn rarer_shared_term_ranks_higher() {
    // Five documents: "x" is in three of them, "y" in four.
    let mut m = Model::new();
    m.add_document("/only_x".to_string(), t(1), &chars("x"));
    m.add_document("/only_y".to_string(), t(9), &chars("y"));
    m.add_document("/both1".to_string(), t(2), &chars("x y"));
    m.add_document("/both2".to_string(), t(3), &chars("x y"));
    m.add_document("/only_y2".to_string(), t(4), &chars("y"));
    assert_eq!(m.document_frequency("x"), 3);
    assert_eq!(m.document_frequency("y"), 4);
    let rows = m.search_query(&chars("x y"));
    // Weights 25 / 3 = 8 for "x" and 25 / 4 = 6 for "y".
    assert_eq!(paths(&rows), vec!["/both2", "/both1", "/only_x", "/only_y", "/only_y2"]);
    let scores: Vec<usize> = rows.iter().map(|r| r.1).collect();
    assert_eq!(scores, vec![14, 14, 8, 6, 6]);
}

#[test]
fn empty_corpus_and_empty_query_give_no_rows() {
    let m = Model::new();
    assert!(m.search_query(&chars("rust")).is_empty());
    let mut m = Model::new();
    m.add_document("/a".to_string(), t(1), &chars("rust"));
    assert!(m.search_query(&chars("  ")).is_empty());
}

#[test]
fn document_records_round_trip() {
    let mut m = Model::new();
    m.add_document("/a".to_string(), t(1), &chars("rust systems rust"));
    m.add_document("/b".to_string(), t(2), &chars("rust web"));
    let records = m.records();
    assert_eq!(records.len(), 2);
    assert_eq!(records[0].total_terms, 3);
    let restored = Model::restore(&records).expect("valid records");
    assert_eq!(restored.corpus_size(), 2);
    assert_eq!(restored.document_frequency("rust"), 2);
    assert_eq!(restored.document_frequency("web"), 1);
    assert_eq!(restored.documents()[0].term_frequency("rust"), 2);
    assert_eq!(
        restored.search_query(&chars("rust systems")),
        m.search_query(&chars("rust systems"))
    );
}

#[test]
fn restore_refuses_repeated_terms_and_zero_counts() {
    let mut m = Model::new();
    m.add_document("/a".to_string(), t(1), &chars("rust"));
    let mut records = m.records();
    records[0].term_frequencies.push(("rust".to_string(), 1));
    assert!(Model::restore(&records).is_none());
    let mut records = m.records();
    records[0].term_frequencies[0].1 = 0;
    assert!(Model::restore(&records).is_none());
}

#[test]
fn it_should_index_files() {
    let mut p = Project::base(
        "search_engine".to_string(),
        "/home/u/search_engine".to_string(),
        Some("A rust search engine".to_string()),
        ProjectType::Rust,
    );
    p.last_modified = t(10);
    let q = Project::base("notes".to_string(), "/home/u/notes".to_string(), None, ProjectType::Node);
    let model = create_search_index(&vec![p, q], &vec![chars("Tokenizer and ranking"), Vec::new()]);
    assert_eq!(model.corpus_size(), 2);
    let res = model.search_query(&['r', 'u', 's', 't']);
    assert_eq!(paths(&res), vec!["/home/u/search_engine"]);
}
