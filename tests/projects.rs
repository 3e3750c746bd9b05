use gtd_cli::{
    build_project, flat_tasks, is_task_line, is_template_line, pivot_by_context, select_tasks,
    Project, TaskFilter, TaskStatus,
};

fn strings(v: &[&str]) -> Vec<String> {
    v.iter().map(|s| s.to_string()).collect()
}

fn no_filter() -> TaskFilter {
    TaskFilter::new(vec![], vec![], vec![])
}

fn project(file: &str, lines: &[&str], filter: &TaskFilter) -> Option<Project> {
    let tasks = select_tasks(file, &strings(lines), filter);
    build_project(file, &tasks)
}

#[test]
fn template_inheritance() {
    let tasks = select_tasks(
        "a.md",
        &strings(&["- @gtd @wip @d20240101", "- subtask #xoffice"]),
        &no_filter(),
    );
    assert_eq!(tasks.len(), 1);
    let t = &tasks[0];
    assert_eq!(t.status, TaskStatus::Wip);
    assert_eq!(t.dates.as_ref().unwrap().due.as_deref(), Some("20240101"));
    assert!(t.contexts.contains(&"#xoffice".to_string()));
    assert_eq!(t.description, "subtask");
}

#[test]
fn status_filter_keeps_only_wip() {
    let filter = TaskFilter::new(vec![TaskStatus::Wip], vec![], vec![]);
    let p = project("f.md", &["- one @todo", "- two @wip"], &filter).unwrap();
    assert_eq!(p.tasks.len(), 1);
    assert_eq!(p.tasks[0].status, TaskStatus::Wip);
    assert!(p.contains_key(TaskStatus::Wip));
    assert!(!p.contains_key(TaskStatus::Todo));
    assert_eq!(p.get(TaskStatus::Wip).unwrap()[0].description, "two");
    assert!(p.get(TaskStatus::Todo).is_none());
}

#[test]
fn flagless_line_dropped_without_template() {
    let tasks = select_tasks("f.md", &strings(&["- plain note", "- real @todo"]), &no_filter());
    assert_eq!(tasks.len(), 1);
    assert_eq!(tasks[0].description, "real");
    assert!(project("f.md", &["- plain note"], &no_filter()).is_none());
}

#[test]
fn flagless_line_kept_with_template() {
    let tasks = select_tasks("f.md", &strings(&["- @gtd", "- plain note"]), &no_filter());
    assert_eq!(tasks.len(), 1);
    assert_eq!(tasks[0].description, "plain note");
    assert_eq!(tasks[0].status, TaskStatus::NoStatus);
}

#[test]
fn template_must_be_first_bullet() {
    let lines = ["intro text", "- first @todo", "- @gtd @wip", "- plain"];
    let tasks = select_tasks("f.md", &strings(&lines), &no_filter());
    assert_eq!(tasks.len(), 2);
    assert_eq!(tasks[0].description, "first");
    assert_eq!(tasks[1].description, "@gtd");
    let lines = ["# title", "- @gtd @todo #xa", "- x", "- @gtd again", "not a bullet"];
    let tasks = select_tasks("f.md", &strings(&lines), &no_filter());
    assert_eq!(tasks.len(), 1);
    assert_eq!(tasks[0].contexts, strings(&["#xa"]));
    assert_eq!(tasks[0].status, TaskStatus::Todo);
}

#[test]
fn context_filters() {
    let lines = [
        "- a #xhome",
        "- b #xwork",
        "- c @todo #xwork",
        "- d #xwork #xhome",
    ];
    let only_home = TaskFilter::new(vec![], strings(&["#xhome"]), strings(&["#xhome"]));
    assert!(only_home.not_contexts.is_empty());
    let tasks = select_tasks("f.md", &strings(&lines), &only_home);
    let names: Vec<&str> = tasks.iter().map(|t| t.description.as_str()).collect();
    assert_eq!(names, vec!["a", "d"]);
    let hide_work = TaskFilter::new(vec![], vec![], strings(&["#xwork"]));
    let tasks = select_tasks("f.md", &strings(&lines), &hide_work);
    let names: Vec<&str> = tasks.iter().map(|t| t.description.as_str()).collect();
    assert_eq!(names, vec!["a", "c", "d"]);
    let asked = TaskFilter {
        statuses: vec![],
        contexts: strings(&["#xwork"]),
        not_contexts: strings(&["#xwork"]),
    };
    let tasks = select_tasks("f.md", &strings(&lines), &asked);
    let names: Vec<&str> = tasks.iter().map(|t| t.description.as_str()).collect();
    assert_eq!(names, vec!["b", "c", "d"]);
}

#[test]
fn empty_file_yields_no_project() {
    assert!(project("f.md", &[], &no_filter()).is_none());
    assert!(build_project("f.md", &vec![]).is_none());
}

#[test]
fn groups_in_report_order() {
    let lines = ["- a @todo", "- b @review", "- c #xhome", "- d @wip", "- e @todo"];
    let p = project("f.md", &lines, &no_filter()).unwrap();
    assert_eq!(p.file_name, "f.md");
    let order: Vec<TaskStatus> = p.tasks.iter().map(|g| g.status).collect();
    assert_eq!(
        order,
        vec![TaskStatus::Wip, TaskStatus::Review, TaskStatus::Todo, TaskStatus::NoStatus]
    );
    let todo: Vec<&str> =
        p.get(TaskStatus::Todo).unwrap().iter().map(|t| t.description.as_str()).collect();
    assert_eq!(todo, vec!["a", "e"]);
}

#[test]
fn flatten_and_pivot() {
    let f = no_filter();
    let p1 = project("b.md", &["- one @todo #xwork", "- two @wip #xhome #xwork"], &f).unwrap();
    let p2 = project("a.md", &["- three #xwork", "- four #xhome #xhome"], &f).unwrap();
    let projects = vec![p1, p2];
    let flat: Vec<String> = flat_tasks(&projects).iter().map(|t| t.description.clone()).collect();
    assert_eq!(flat, strings(&["two", "one", "three", "four"]));
    let groups = pivot_by_context(&projects);
    let keys: Vec<&str> = groups.iter().map(|g| g.context.as_str()).collect();
    assert_eq!(keys, vec!["#xhome", "#xwork"]);
    let home: Vec<&str> = groups[0].tasks.iter().map(|t| t.description.as_str()).collect();
    assert_eq!(home, vec!["four", "four", "two"]);
    let work: Vec<&str> = groups[1].tasks.iter().map(|t| t.description.as_str()).collect();
    assert_eq!(work, vec!["three", "two", "one"]);
}

#[test]
fn pivot_of_nothing() {
    assert!(pivot_by_context(&vec![]).is_empty());
}

#[test]
fn line_markers() {
    assert!(is_task_line("- x"));
    assert!(is_task_line("* x"));
    assert!(!is_task_line("-x"));
    assert!(!is_task_line(" - x"));
    assert!(is_template_line("- @gtd @wip"));
    assert!(!is_template_line("* @gtd"));
}

#[test]
fn toggle_star_adds_and_removes() {
    let mut starred = strings(&["a", "b", "a"]);
    gtd_cli::toggle_starred(&mut starred, "c".to_string());
    assert_eq!(starred, strings(&["a", "b", "a", "c"]));
    gtd_cli::toggle_starred(&mut starred, "a".to_string());
    assert_eq!(starred, strings(&["b", "c"]));
}

#[test]
fn starred_tasks_sorted_by_description() {
    let t1 = gtd_cli::parse_task("- zebra @todo", "f.md");
    let t2 = gtd_cli::parse_task("- apple @wip", "f.md");
    let t3 = gtd_cli::parse_task("- mango #xa", "g.md");
    let tasks = vec![
        ("zebra".to_string(), t1),
        ("apple".to_string(), t2),
        ("mango".to_string(), t3),
    ];
    let out = gtd_cli::add_starred(&tasks, &strings(&["apple", "mango", "mango", "none"]));
    let names: Vec<&str> = out.iter().map(|t| t.description.as_str()).collect();
    assert_eq!(names, vec!["apple", "mango", "zebra"]);
    let stars: Vec<bool> = out.iter().map(|t| t.starred).collect();
    assert_eq!(stars, vec![true, false, false]);
}
