use gtd_cli::{inbox_line, Args, ConfigFile, ServerConfig, TaskStatus};

fn args(status: Option<&str>, context: Option<&str>) -> Args {
    Args {
        dir: None,
        status: status.map(|s| s.to_string()),
        not_status: None,
        context: context.map(|s| s.to_string()),
        not_context: Some("a,b".to_string()),
        pivot: None,
        json: None,
        web: None,
    }
}

#[test]
fn status_argument() {
    let a = args(Some("todo,wip,review,other"), None);
    assert_eq!(
        a.statuses(),
        vec![TaskStatus::Todo, TaskStatus::Wip, TaskStatus::Review, TaskStatus::NoStatus]
    );
    assert!(a.not_statuses().is_empty());
    assert_eq!(Args::parse_status_arg(&Some(String::new())), vec![TaskStatus::NoStatus]);
}

#[test]
fn context_argument() {
    let a = args(None, Some("home,work"));
    assert_eq!(a.contexts(), vec!["#xhome".to_string(), "#xwork".to_string()]);
    assert_eq!(a.not_context(), vec!["#xa".to_string(), "#xb".to_string()]);
    assert!(Args::parse_context_arg(&None).is_empty());
    assert_eq!(Args::parse_context_arg(&Some("x,".to_string())), vec!["#xx", "#x"]);
}

#[test]
fn basic_token_is_url_safe_base64() {
    let s = ServerConfig::new("http://h".to_string(), "user".to_string(), "psw".to_string());
    assert_eq!(s.basic_token(), "dXNlcjpwc3c=");
    assert_eq!(s.authorization(), "Basic dXNlcjpwc3c=");
    assert_eq!(s.tasks_url(), "http://h/tasks");
    let s = ServerConfig::new(String::new(), "??".to_string(), ">>>".to_string());
    assert_eq!(s.basic_token(), "Pz86Pj4-");
}

#[test]
fn empty_config() {
    let c = ConfigFile::new();
    assert!(c.default_dirs.is_none());
    assert!(c.inbox_path.is_none());
    assert!(c.ignore_files.is_none());
    assert!(c.default_not_context.is_none());
    assert!(c.server.is_none());
}

#[test]
fn inbox_line_format() {
    assert_eq!(inbox_line("buy bread", "2024-01-01"), "\n- buy bread @d2024-01-01");
}
