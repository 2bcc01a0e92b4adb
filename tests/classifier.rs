use local_projects::classifier::{
    documentation_file, get_relevant_project, identifier_file, Entry,
};
use local_projects::project::{ProjectType, Timestamp};

fn entry(dir: &str, name: &str) -> Entry {
    Entry { path: format!("{dir}/{name}"), name: name.to_string() }
}

fn files(dir: &str, names: &[&str]) -> Vec<Entry> {
    names.iter().map(|n| entry(dir, n)).collect()
}

fn dir(path: &str, name: &str) -> Entry {
    Entry { path: path.to_string(), name: name.to_string() }
}

const T: Timestamp = Timestamp { secs: 42, nanos: 7 };

#[test]
fn cargo_toml_wins_over_package_json() {
    let fs = files("/w/app", &["package.json", "Cargo.toml"]);
    assert_eq!(identifier_file(&fs), Some(1));
    let manifest = Some("[package]\nname = \"app-core\"\ndescription = \"Core crate\"\n".to_string());
    let p = get_relevant_project(&fs, &dir("/w/app", "app"), T, &manifest).unwrap();
    assert_eq!(p.project_type, ProjectType::Rust);
    assert_eq!(p.name, "app-core");
    assert_eq!(p.description.as_deref(), Some("Core crate"));
    assert_eq!(p.path, "/w/app");
    assert_eq!(p.last_modified, T);
}

#[test]
fn react_dependency_then_svelte_config() {
    let manifest = Some(r#"{"name":"web","dependencies":{"react":"18"}}"#.to_string());
    let fs = files("/w/web", &["package.json", "index.js"]);
    let p = get_relevant_project(&fs, &dir("/w/web", "web"), T, &manifest).unwrap();
    assert_eq!(p.project_type, ProjectType::React);
    assert_eq!(p.name, "web");
    let fs = files("/w/web", &["package.json", "index.js", "svelte.config.json"]);
    let p = get_relevant_project(&fs, &dir("/w/web", "web"), T, &manifest).unwrap();
    assert_eq!(p.project_type, ProjectType::Svelte);
}

#[test]
fn node_cascade_defaults() {
    let fs = files("/w/n", &["package.json"]);
    let plain = Some(r#"{"name":"n","description":"tool"}"#.to_string());
    let p = get_relevant_project(&fs, &dir("/w/n", "n"), T, &plain).unwrap();
    assert_eq!(p.project_type, ProjectType::Node);
    assert_eq!(p.description.as_deref(), Some("tool"));
    let ng = Some(r#"{"dependencies":{"@angular/core":"17"}}"#.to_string());
    assert_eq!(get_relevant_project(&fs, &dir("/w/n", "n"), T, &ng).unwrap().project_type, ProjectType::Angular);
    let sv = Some(r#"{"devDependencies":{"svelte":"4"}}"#.to_string());
    assert_eq!(get_relevant_project(&fs, &dir("/w/n", "n"), T, &sv).unwrap().project_type, ProjectType::Svelte);
    let fs = files("/w/n", &["package.json", "next.config.js"]);
    assert_eq!(get_relevant_project(&fs, &dir("/w/n", "n"), T, &plain).unwrap().project_type, ProjectType::NextJs);
    let fs = files("/w/n", &["metro.config.js", "package.json"]);
    assert_eq!(get_relevant_project(&fs, &dir("/w/n", "n"), T, &plain).unwrap().project_type, ProjectType::ReactNative);
}

#[test]
fn malformed_manifest_falls_back_to_directory_name() {
    let fs = files("/w/broken", &["Cargo.toml"]);
    let manifest = Some("[package\nname = ".to_string());
    let p = get_relevant_project(&fs, &dir("/w/broken", "broken"), T, &manifest).unwrap();
    assert_eq!(p.name, "broken");
    assert_eq!(p.description, None);
    let p = get_relevant_project(&fs, &dir("/w/broken", "broken"), T, &None).unwrap();
    assert_eq!(p.name, "broken");
    let fs = files("/w/js", &["package.json"]);
    let p = get_relevant_project(&fs, &dir("/w/js", "js"), T, &Some("{not json".to_string())).unwrap();
    assert_eq!(p.name, "js");
    assert_eq!(p.project_type, ProjectType::Node);
}

#[test]
fn it_should_get_details_for_a_flutter_project() {
    let fs = files("/w/bpmonitor", &["pubspec.yaml", "README.md"]);
    let manifest = Some("name: bp_monitor\ndescription: Blood pressure log\n".to_string());
    let p = get_relevant_project(&fs, &dir("/w/bpmonitor", "bpmonitor"), T, &manifest).unwrap();
    assert_eq!(p.project_type, ProjectType::Flutter);
    assert_eq!(p.name, "bp_monitor");
    assert_eq!(p.description.as_deref(), Some("Blood pressure log"));
    assert_eq!(p.documentation_file.as_deref(), Some("/w/bpmonitor/README.md"));
}

#[test]
fn unsupported_identifiers_make_no_project() {
    let fs = files("/w/go", &["main.go", "README.md"]);
    assert_eq!(identifier_file(&fs), Some(0));
    assert!(get_relevant_project(&fs, &dir("/w/go", "go"), T, &None).is_none());
    let fs = files("/w/none", &["notes.txt"]);
    assert_eq!(identifier_file(&fs), None);
    assert!(get_relevant_project(&fs, &dir("/w/none", "none"), T, &None).is_none());
    assert_eq!(identifier_file(&Vec::new()), None);
}

#[test]
fn documentation_file_is_matched_ignoring_case() {
    let fs = files("/w/d", &["main.rs", "ReadMe.MD", "doc.md"]);
    assert_eq!(documentation_file(&fs).as_deref(), Some("/w/d/ReadMe.MD"));
    let fs = files("/w/d", &["DOC.md"]);
    assert_eq!(documentation_file(&fs).as_deref(), Some("/w/d/DOC.md"));
    let fs = files("/w/d", &["README.markdown"]);
    assert_eq!(documentation_file(&fs), None);
}

#[test]
fn it_should_return_relevant_project_data() {
    let fs = files(
        "/home/u/Documents/projects/rust/search_engine",
        &[".gitignore", "README.md", "Cargo.lock", "Cargo.toml"],
    );
    let manifest = Some("[package]\nname = \"search_engine\"\nversion = \"0.1.0\"\n".to_string());
    let home = dir("/home/u/Documents/projects/rust/search_engine", "search_engine");
    let p = get_relevant_project(&fs, &home, T, &manifest).unwrap();
    assert_eq!(p.name, "search_engine");
    assert_eq!(p.project_type, ProjectType::Rust);
    assert_eq!(p.description, None);
    assert_eq!(
        p.documentation_file.as_deref(),
        Some("/home/u/Documents/projects/rust/search_engine/README.md")
    );
    assert!(p.git.is_empty());
    assert!(p.language_map.is_empty());
}
