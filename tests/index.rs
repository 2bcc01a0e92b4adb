use local_projects::index::Index;
use local_projects::project::{Project, ProjectType, Timestamp};

fn project(name: &str, path: &str, secs: u64) -> Project {
    let mut p = Project::base(name.to_string(), path.to_string(), None, ProjectType::Rust);
    p.last_modified = Timestamp::new(secs, 0);
    p
}

#[test]
fn should_reindex_absent_and_stale_paths_only() {
    let mut index = Index::new(Timestamp::new(0, 0));
    assert!(index.should_reindex("/p", Timestamp::new(5, 0)));
    index.add_project(&"/p".to_string(), project("p", "/p", 5));
    assert!(!index.should_reindex("/p", Timestamp::new(5, 0)));
    assert!(!index.should_reindex("/p", Timestamp::new(4, 999)));
    assert!(index.should_reindex("/p", Timestamp::new(5, 1)));
    assert!(index.should_reindex("/p", Timestamp::new(6, 0)));
}

#[test]
fn add_project_replaces_the_entry_of_a_path() {
    let mut index = Index::new(Timestamp::new(0, 0));
    index.add_project(&"/p".to_string(), project("first", "/p", 1));
    index.add_project(&"/q".to_string(), project("other", "/q", 2));
    index.add_project(&"/p".to_string(), project("second", "/p", 3));
    index.add_project(&"/p".to_string(), project("third", "/p", 4));
    let all = index.projects();
    assert_eq!(all.len(), 2);
    assert_eq!(index.paths().len(), 2);
    assert_eq!(index.get("/p").unwrap().name, "third");
}

#[test]
fn projects_are_listed_most_recent_first() {
    let mut index = Index::new(Timestamp::new(0, 0));
    index.add_project(&"/a".to_string(), project("a", "/a", 10));
    index.add_project(&"/b".to_string(), project("b", "/b", 30));
    index.add_project(&"/c".to_string(), project("c", "/c", 20));
    let names: Vec<String> = index.projects().into_iter().map(|p| p.name).collect();
    assert_eq!(names, vec!["b", "c", "a"]);
}

#[test]
fn rescanning_unchanged_directory_changes_nothing() {
    let mut index = Index::new(Timestamp::new(0, 0));
    let t = Timestamp::new(7, 3);
    index.add_project(&"/p".to_string(), project("p", "/p", 7));
    index.get("/p").unwrap();
    let mut p = project("p", "/p", 7);
    p.last_modified = t;
    index.add_project(&"/p".to_string(), p);
    assert!(!index.should_reindex("/p", t));
    assert_eq!(index.projects().len(), 1);
}

#[test]
fn it_should_load_index() {
    let mut index = Index::new(Timestamp::new(1, 0));
    index.add_project(&"/a".to_string(), project("a", "/a", 10));
    index.add_project(&"/b".to_string(), project("b", "/b", 30));
    let stored = index.entries();
    let loaded = Index::from_entries(stored, index.last_indexed());
    assert_eq!(loaded.projects().len(), 2);
    assert_eq!(loaded.get("/b").unwrap().name, "b");
    assert_eq!(loaded.last_indexed(), Timestamp::new(1, 0));
}

#[test]
fn mark_indexed_updates_the_time() {
    let mut index = Index::new(Timestamp::new(1, 0));
    index.mark_indexed(Timestamp::new(9, 9));
    assert_eq!(index.last_indexed(), Timestamp::new(9, 9));
}

#[test]
fn interleaved_adds_keep_the_last_value_of_each_path() {
    let mut index = Index::new(Timestamp::new(0, 0));
    index.add_project(&"/p".to_string(), project("p1", "/p", 1));
    index.add_project(&"/q".to_string(), project("q1", "/q", 2));
    index.add_project(&"/p".to_string(), project("p2", "/p", 3));
    index.add_project(&"/q".to_string(), project("q2", "/q", 4));
    index.add_project(&"/r".to_string(), project("r1", "/r", 5));
    index.add_project(&"/p".to_string(), project("p3", "/p", 6));
    assert_eq!(index.projects().len(), 3);
    assert_eq!(index.entries().len(), 3);
    assert_eq!(index.get("/p").unwrap().name, "p3");
    assert_eq!(index.get("/q").unwrap().name, "q2");
    assert_eq!(index.get("/r").unwrap().name, "r1");
}
