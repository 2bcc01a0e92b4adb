use local_projects::config::Config;
use local_projects::errors::{ConfigError, LpError};

#[test]
fn it_should_add_directory_to_config() {
    let mut config = Config::new();
    let result = config.add_dir("/home/u/Documents".to_string());
    assert!(result.is_ok());
    assert_eq!(config.project_dirs.len(), 1);
    assert_eq!(config.project_dirs.first().unwrap(), "/home/u/Documents");
    let again = config.add_dir("/home/u/Documents".to_string());
    assert!(matches!(again, Err(LpError::ConfigError(ConfigError::PathExists))));
    assert_eq!(config.project_dirs.len(), 1);
}

#[test]
fn it_should_remove_directory_from_config() {
    let mut config = Config::new();
    let _ = config.add_dir("/home/u/Documents".to_string());
    let _ = config.add_dir("/home/u/work".to_string());
    assert_eq!(config.project_dirs.len(), 2);
    assert!(config.remove_dir("/home/u/Documents".to_string()).is_ok());
    assert_eq!(config.project_dirs, vec!["/home/u/work"]);
    let copy = config.clone();
    assert_eq!(copy.project_dirs, config.project_dirs);
}
