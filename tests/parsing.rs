use gtd_cli::{parse_task, Task, TaskContext, TaskDates, TaskStatus, TermColor};

fn strings(v: &[&str]) -> Vec<String> {
    v.iter().map(|s| s.to_string()).collect()
}

#[test]
fn classify_single_status_token() {
    assert_eq!(TaskStatus::classify("call mom @wip today"), TaskStatus::Wip);
    assert_eq!(TaskStatus::classify("@todo"), TaskStatus::Todo);
    assert_eq!(TaskStatus::classify("check it @review"), TaskStatus::Review);
    let stripped = TaskStatus::remove_status_str("call mom @wip today");
    assert_eq!(stripped, "call mom today");
    assert!(!stripped.contains("@wip"));
}

#[test]
fn classify_first_status_wins() {
    assert_eq!(TaskStatus::classify("a @review b @todo"), TaskStatus::Review);
    assert_eq!(TaskStatus::remove_status_str("a @review b @todo c"), "a b c");
}

#[test]
fn no_status_token_leaves_text() {
    assert_eq!(TaskStatus::classify("plain   text\there"), TaskStatus::NoStatus);
    assert_eq!(TaskStatus::remove_status_str("plain   text\there"), "plain text here");
    assert_eq!(TaskStatus::classify(""), TaskStatus::NoStatus);
    assert_eq!(TaskStatus::remove_status_str(""), "");
    assert_eq!(TaskStatus::classify("@Todo @wi"), TaskStatus::NoStatus);
}

#[test]
fn strip_keeps_outer_single_spaces() {
    assert_eq!(TaskStatus::remove_status_str("  x @todo  "), " x ");
}

#[test]
fn status_tokens_round_trip() {
    for st in [TaskStatus::NoStatus, TaskStatus::Todo, TaskStatus::Wip, TaskStatus::Review] {
        assert_eq!(TaskStatus::from_token(st.as_token()), Ok(st));
    }
    assert_eq!(TaskStatus::Todo.as_token(), "@todo");
    assert_eq!(TaskStatus::NoStatus.as_token(), "@noStatus");
    assert_eq!(TaskStatus::from_token("@done"), Err("Unknown status: @done".to_string()));
    assert_eq!(TaskStatus::from_token("todo"), Err("Unknown status: todo".to_string()));
}

#[test]
fn report_order_and_colors() {
    assert_eq!(
        TaskStatus::all(),
        vec![TaskStatus::Wip, TaskStatus::Review, TaskStatus::Todo, TaskStatus::NoStatus]
    );
    assert_eq!(TaskStatus::Todo.color(), TermColor::Green);
    assert_eq!(TaskStatus::Wip.color(), TermColor::Red);
    assert_eq!(TaskStatus::Review.color(), TermColor::Yellow);
    assert_eq!(TaskStatus::NoStatus.color(), TermColor::Black);
}

#[test]
fn contexts_in_order() {
    assert_eq!(
        TaskContext::extract_contexts("pack #xwork #xhome"),
        strings(&["#xwork", "#xhome"])
    );
    assert_eq!(TaskContext::remove_context_string("pack #xwork #xhome"), "pack ");
}

#[test]
fn contexts_repeat_and_split() {
    assert_eq!(
        TaskContext::extract_contexts("#xa x #xa #xb_1#xc y#xd"),
        strings(&["#xa", "#xa", "#xb", "#xc", "#xd"])
    );
    assert_eq!(TaskContext::extract_contexts("#xa#xb"), strings(&["#xa", "#xb"]));
    assert_eq!(TaskContext::extract_contexts("#x #X1 # xhome #x_"), Vec::<String>::new());
    assert_eq!(TaskContext::remove_context_string("a #xa-b c"), "a -b c");
    assert_eq!(TaskContext::remove_context_string("#x_#xwork #xhome"), "#x_ ");
}

#[test]
fn dates_start_and_due() {
    let d = TaskDates::extract_dates("x @s20240101 @d20240215").unwrap();
    assert_eq!(d.start.as_deref(), Some("20240101"));
    assert_eq!(d.due.as_deref(), Some("20240215"));
    assert_eq!(d.visible, None);
}

#[test]
fn dates_both_sets_due_and_visible() {
    let d = TaskDates::extract_dates("x @b20240101").unwrap();
    assert_eq!(d.start, None);
    assert_eq!(d.due.as_deref(), Some("20240101"));
    assert_eq!(d.visible.as_deref(), Some("20240101"));
}

#[test]
fn dates_both_wins_over_due_and_visible() {
    let d = TaskDates::extract_dates("@d20230303 @v20230404 @b20240101 @b20250505").unwrap();
    assert_eq!(d.due.as_deref(), Some("20240101"));
    assert_eq!(d.visible.as_deref(), Some("20240101"));
    let d = TaskDates::extract_dates("@v20230404 @d20230303 @d20990101").unwrap();
    assert_eq!(d.due.as_deref(), Some("20230303"));
    assert_eq!(d.visible.as_deref(), Some("20230404"));
}

#[test]
fn dates_absent() {
    assert_eq!(TaskDates::extract_dates("no dates here"), None);
    assert_eq!(TaskDates::extract_dates("@d2024010 @x20240101 @,20240101"), None);
    assert_eq!(TaskDates::remove_date("a @d2024010 b"), "a @d2024010 b");
}

#[test]
fn dates_nine_digits_take_eight() {
    let d = TaskDates::extract_dates("@s202401019").unwrap();
    assert_eq!(d.start.as_deref(), Some("20240101"));
    assert_eq!(TaskDates::remove_date("x @s202401019 y"), "x 9 y");
}

#[test]
fn parse_round_trip() {
    let t = parse_task("- buy milk @todo #xhome", "groceries.md");
    assert_eq!(t.description, "buy milk");
    assert_eq!(t.project, "groceries.md");
    assert_eq!(t.status, TaskStatus::Todo);
    assert_eq!(t.contexts, strings(&["#xhome"]));
    assert_eq!(t.dates, None);
    assert!(!t.starred);
}

#[test]
fn parse_full_line() {
    let t = Task::from("* call  @wip bob #xphone @d20240301   now", "people.md");
    assert_eq!(t.description, "call bob now");
    assert_eq!(t.status, TaskStatus::Wip);
    assert_eq!(t.contexts, strings(&["#xphone"]));
    let d = t.dates.unwrap();
    assert_eq!(d.due.as_deref(), Some("20240301"));
    assert_eq!(d.start, None);
}

#[test]
fn strip_twice_is_strip_once() {
    let once = TaskStatus::remove_status_str("a @todo  b @wip c");
    assert_eq!(TaskStatus::remove_status_str(&once), once);
    let once = TaskContext::remove_context_string("#xa  b #xc");
    assert_eq!(TaskContext::remove_context_string(&once), once);
    let once = TaskDates::remove_date("@s20240101 x  @d20240102");
    assert_eq!(TaskDates::remove_date(&once), once);
}

#[test]
fn strip_removes_joined_tokens() {
    assert_eq!(TaskStatus::remove_status_str("@to@wipdo"), "");
    assert_eq!(TaskStatus::remove_status_str("@to@tododo"), "");
    let once = TaskStatus::remove_status_str("@wi@wipp");
    assert_eq!(once, "");
    assert_eq!(TaskStatus::remove_status_str(&once), once);
    assert_eq!(TaskDates::remove_date("@@d12345678d12345678"), "");
    assert_eq!(TaskContext::remove_context_string("#x#xaa b"), "#x b");
    assert_eq!(Task::from("- @to@d12345678do", "f.md").description, "");
    assert_eq!(Task::from("- a @to@d12345678do b", "f.md").description, "a b");
}

#[test]
fn flags_and_any_token() {
    assert!(Task::from("- just a note", "f.md").has_noflags());
    assert!(!Task::from("- a note #xhome", "f.md").has_noflags());
    assert!(!Task::from("- a note @v20240101", "f.md").has_noflags());
    assert!(Task::has_any_token("- x @review"));
    assert!(Task::has_any_token("- x #xa"));
    assert!(Task::has_any_token("- x @v20240101"));
    assert!(!Task::has_any_token("- x @d2024"));
    assert!(!Task::has_any_token("#x_"));
}

#[test]
fn lines_for_display() {
    let t = Task::from("- write  report @todo #xwork #xhome", "job.md");
    assert_eq!(t.to_line(), "write report #xwork #xhome");
    assert_eq!(t.line_with(&strings(&["[w]", "[h]"])), "write report [w] [h]");
    assert_eq!(t.ctx_line(), "job.md write report");
    assert_eq!(t.ctx_line_with("JOB"), "JOB write report");
}

#[test]
fn inherit_fills_defaults() {
    let template = Task::from("- @gtd @review @s20240101 @v20240105 #xoffice", "a.md");
    let own = Task::from("- draft @todo @d20240301 #xdesk", "a.md");
    let t = own.inherit(&template);
    assert_eq!(t.status, TaskStatus::Todo);
    assert_eq!(t.contexts, strings(&["#xdesk", "#xoffice"]));
    let d = t.dates.unwrap();
    assert_eq!(d.start.as_deref(), Some("20240101"));
    assert_eq!(d.due.as_deref(), Some("20240301"));
    // the task's own due date stands in for its visible date
    assert_eq!(d.visible.as_deref(), Some("20240301"));
    let bare = Task::from("- read", "a.md").inherit(&template);
    assert_eq!(bare.status, TaskStatus::Review);
    let d = bare.dates.unwrap();
    assert_eq!(d.due, None);
    assert_eq!(d.visible.as_deref(), Some("20240105"));
}

#[test]
fn cloned_is_equal() {
    let t = Task::from("- a @todo #xa @b20240101", "f.md");
    assert_eq!(t.cloned(), t);
}
