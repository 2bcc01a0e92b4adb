use local_projects::classifier::Entry;
use local_projects::crawl::{child_jobs, language_shares, scan_dir, Crawl, ScanJob};
use local_projects::index::Index;
use local_projects::project::{Project, ProjectType, Timestamp};

fn entry(dir: &str, name: &str) -> Entry {
    Entry { path: format!("{dir}/{name}"), name: name.to_string() }
}

fn job(path: &str, name: &str, depth: usize) -> ScanJob {
    ScanJob { path: path.to_string(), name: name.to_string(), depth }
}

#[test]
fn classified_directory_is_a_crawl_leaf() {
    let index = Index::new(Timestamp::new(0, 0));
    let dirs = vec![entry("/r/p", "docs"), entry("/r/p", "tools")];
    let files = vec![entry("/r/p", "Cargo.toml")];
    let manifest = Some("[package]\nname = \"p\"\n".to_string());
    let out = scan_dir(&index, &job("/r/p", "p", 2), 4, &dirs, &files, Timestamp::new(3, 0), &manifest);
    assert!(out.project.is_some());
    assert!(out.jobs.is_empty());
}

#[test]
fn unclassified_directory_enqueues_children_except_excluded() {
    let index = Index::new(Timestamp::new(0, 0));
    let dirs = vec![
        entry("/r/x", "a"),
        entry("/r/x", "node_modules"),
        entry("/r/x", "target"),
        entry("/r/x", "b"),
        entry("/r/x", "src"),
    ];
    let out = scan_dir(&index, &job("/r/x", "x", 2), 4, &dirs, &Vec::new(), Timestamp::new(3, 0), &None);
    assert!(out.project.is_none());
    let names: Vec<(String, usize)> = out.jobs.into_iter().map(|j| (j.name, j.depth)).collect();
    assert_eq!(names, vec![("a".to_string(), 3), ("b".to_string(), 3)]);
}

#[test]
fn depth_limit_stops_the_walk() {
    let dirs = vec![entry("/r", "a")];
    assert!(child_jobs(&dirs, 4, 4, false).is_empty());
    assert_eq!(child_jobs(&dirs, 3, 4, false).len(), 1);
    assert!(child_jobs(&dirs, 0, 4, true).is_empty());
}

#[test]
fn hidden_directories_are_skipped() {
    let index = Index::new(Timestamp::new(0, 0));
    let files = vec![entry("/r/.cache", "Cargo.toml")];
    let dirs = vec![entry("/r/.cache", "a")];
    let out = scan_dir(&index, &job("/r/.cache", ".cache", 0), 4, &dirs, &files, Timestamp::new(1, 0), &None);
    assert!(out.project.is_none());
    assert!(out.jobs.is_empty());
}

#[test]
fn up_to_date_directory_is_not_classified_again() {
    let mut index = Index::new(Timestamp::new(0, 0));
    let mut p = Project::base("p".to_string(), "/r/p".to_string(), None, ProjectType::Rust);
    p.last_modified = Timestamp::new(3, 0);
    index.add_project(&"/r/p".to_string(), p);
    let files = vec![entry("/r/p", "Cargo.toml")];
    let dirs = vec![entry("/r/p", "sub")];
    let out = scan_dir(&index, &job("/r/p", "p", 1), 4, &dirs, &files, Timestamp::new(3, 0), &None);
    assert!(out.project.is_none());
    assert_eq!(out.jobs.len(), 1);
    let out = scan_dir(&index, &job("/r/p", "p", 1), 4, &dirs, &files, Timestamp::new(4, 0), &None);
    assert!(out.project.is_some());
}

#[test]
fn language_shares_in_hundredths_of_a_percent() {
    let counts = vec![("Rust".to_string(), 300), ("TOML".to_string(), 100), ("Markdown".to_string(), 200)];
    let shares = language_shares(&counts);
    assert_eq!(
        shares,
        vec![("Rust".to_string(), 5000), ("TOML".to_string(), 1666), ("Markdown".to_string(), 3333)]
    );
    let zero = language_shares(&vec![("Rust".to_string(), 0)]);
    assert_eq!(zero, vec![("Rust".to_string(), 0)]);
    assert!(language_shares(&Vec::new()).is_empty());
}

#[test]
fn details_are_attached_to_a_project() {
    let p = Project::base("p".to_string(), "/p".to_string(), None, ProjectType::Rust);
    let p = p.with_details(vec!["git@host:p.git".to_string()], &vec![("Rust".to_string(), 1)]);
    assert_eq!(p.git, vec!["git@host:p.git"]);
    assert_eq!(p.language_map, vec![("Rust".to_string(), 10000)]);
}

#[test]
fn crawl_ends_when_nothing_is_pending_or_running() {
    let roots = vec![entry("/home", "a"), entry("/home", "b")];
    let mut crawl = Crawl::new(&roots);
    assert!(!crawl.is_done());
    let first = crawl.next_job().unwrap();
    assert_eq!(first.path, "/home/a");
    assert_eq!(first.depth, 0);
    let second = crawl.next_job().unwrap();
    assert_eq!(second.path, "/home/b");
    assert!(crawl.next_job().is_none());
    assert!(!crawl.is_done());
    crawl.finish(vec![job("/home/a/x", "x", 1)]);
    assert!(!crawl.is_done());
    crawl.finish(Vec::new());
    assert!(!crawl.is_done());
    let third = crawl.next_job().unwrap();
    assert_eq!(third.depth, 1);
    crawl.finish(Vec::new());
    assert!(crawl.is_done());
}
