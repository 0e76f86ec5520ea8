use desktop_app::config::{backend_launch_config, join_path, LaunchConfig};

fn env_of(c: &LaunchConfig) -> Vec<(String, String)> {
    c.env_vars().clone()
}

#[test]
fn join_path_inserts_separator() {
    assert_eq!(join_path("../..", "venv/bin/python"), "../../venv/bin/python");
}

#[test]
fn join_path_keeps_trailing_separator() {
    assert_eq!(join_path("../../", "backend/tauri_server.py"), "../../backend/tauri_server.py");
}

#[test]
fn join_path_with_empty_base_is_relative() {
    assert_eq!(join_path("", "venv/bin/python"), "venv/bin/python");
}

#[test]
fn new_config_is_bare() {
    let c = LaunchConfig::new("/bin/echo");
    assert_eq!(c.exe(), "/bin/echo");
    assert!(c.args().is_empty());
    assert!(c.env_vars().is_empty());
    assert_eq!(c.working_dir(), None);
}

#[test]
fn args_keep_their_order() {
    let mut c = LaunchConfig::new("/bin/echo");
    c.arg("hi");
    c.arg("there");
    assert_eq!(c.args().clone(), vec!["hi".to_string(), "there".to_string()]);
}

#[test]
fn env_override_replaces_in_place() {
    let mut c = LaunchConfig::new("/bin/echo");
    c.env("A", "1");
    c.env("B", "2");
    c.env("A", "3");
    assert_eq!(
        env_of(&c),
        vec![("A".to_string(), "3".to_string()), ("B".to_string(), "2".to_string())]
    );
}

#[test]
fn working_dir_is_set() {
    let mut c = LaunchConfig::new("/bin/echo");
    c.current_dir("/tmp");
    assert_eq!(c.working_dir(), Some("/tmp"));
}

#[test]
fn backend_config_resolves_against_root() {
    let c = backend_launch_config("../../");
    assert_eq!(c.exe(), "../../venv/bin/python");
    assert_eq!(c.args().clone(), vec!["../../backend/tauri_server.py".to_string()]);
    assert_eq!(env_of(&c), vec![("PYTHONPATH".to_string(), "../../".to_string())]);
    assert_eq!(c.working_dir(), None);
}

#[test]
fn backend_config_with_absolute_root() {
    let c = backend_launch_config("/opt/app");
    assert_eq!(c.exe(), "/opt/app/venv/bin/python");
    assert_eq!(c.args().clone(), vec!["/opt/app/backend/tauri_server.py".to_string()]);
    assert_eq!(env_of(&c), vec![("PYTHONPATH".to_string(), "/opt/app".to_string())]);
}
