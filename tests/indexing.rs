use local_projects::indexing::{build_document_text, chars_of, create_search_index};
use local_projects::project::{Project, ProjectType, Timestamp};

fn chars(s: &str) -> Vec<char> {
    s.chars().collect()
}

#[test]
fn document_text_repeats_name_and_description() {
    let text: String = build_document_text(&chars("lp"), &chars("d."), &chars("readme")).into_iter().collect();
    assert_eq!(text, "lp lp lp lp lp lp lp lp lp \nd. d. d. d. \nreadme");
}

#[test]
fn chars_of_keeps_every_character() {
    assert_eq!(chars_of("aé漢"), vec!['a', 'é', '漢']);
}

#[test]
fn search_index_weights_names() {
    let mut a = Project::base("alpha".to_string(), "/a".to_string(), None, ProjectType::Rust);
    a.last_modified = Timestamp::new(1, 0);
    let mut b = Project::base("beta".to_string(), "/b".to_string(), Some("alpha tools".to_string()), ProjectType::Node);
    b.last_modified = Timestamp::new(2, 0);
    let m = create_search_index(&vec![a, b], &vec![Vec::new(), chars("alpha")]);
    let rows = m.search_query(&chars("alpha"));
    assert_eq!(rows.len(), 2);
    // Both documents hold "alpha", so its weight is 2 * 2 / 2 = 2. The name counts
    // nine times; the description four times, plus one in the documentation.
    assert_eq!(rows[0].0, "/a");
    assert_eq!(rows[0].1, 18);
    assert_eq!(rows[1].0, "/b");
    assert_eq!(rows[1].1, 10);
    assert_eq!(m.documents()[0].total_terms(), 9);
}
