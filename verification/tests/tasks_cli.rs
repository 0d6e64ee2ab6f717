use tack::table::table_lines;
use tack::taskedit::{
    apply_edit, attachment_location, bulk_sql, check_label_color, edit_activity, label_activity,
    label_update_sql, numbered_placeholders, parse_reminder, require_ids, small_size, toggle_subtask, BulkKind,
    TaskEdit, TaskFields,
};
use tack::tasks::{display_number, format_activity, fts_query, parse_ids, priority_label, status_label};

#[test]
fn labels_for_keys() {
    assert_eq!(status_label("todo"), "Todo");
    assert_eq!(status_label("in_progress"), "In progress");
    assert_eq!(status_label("done"), "Done");
    assert_eq!(status_label("canceled"), "Canceled");
    assert_eq!(status_label("Done"), "Unknown");
    assert_eq!(priority_label(0), "No priority");
    assert_eq!(priority_label(1), "Urgent");
    assert_eq!(priority_label(4), "Low");
    assert_eq!(priority_label(5), "Unknown");
    assert_eq!(priority_label(-1), "Unknown");
}

#[test]
fn issue_numbers() {
    assert_eq!(display_number(42, Some("APP")), "APP-42");
    assert_eq!(display_number(7, None), "#7");
    assert_eq!(display_number(-3, None), "#-3");
    assert_eq!(display_number(i32::MIN, Some("X")), "X--2147483648");
}

#[test]
fn search_terms_become_phrases() {
    assert_eq!(fts_query("fix  login bug"), "\"fix\" \"login\" \"bug\"");
    assert_eq!(fts_query("say \"hi\" OR"), "\"say\" \"\"\"hi\"\"\" \"OR\"");
    assert_eq!(fts_query("   "), "");
}

#[test]
fn id_lists_drop_blanks() {
    assert_eq!(parse_ids(" a, b ,,c ,"), vec!["a", "b", "c"]);
    assert!(parse_ids("").is_empty());
    assert!(require_ids(&[]).is_err());
    assert_eq!(require_ids(&[]).unwrap_err(), "No task IDs provided");
    assert!(require_ids(&["x".to_string()]).is_ok());
}

#[test]
fn activity_sentences() {
    assert_eq!(format_activity("created", None, None, None), format!("created this {}", "task"));
    assert_eq!(
        format_activity("status_changed", Some("status"), Some("Todo"), Some("Done")),
        "changed status from Todo to Done"
    );
    assert_eq!(format_activity("due_date_changed", None, Some("x"), None), "removed the due date");
    assert_eq!(format_activity("due_date_changed", None, None, Some("2026-01-01")), "set due date to 2026-01-01");
    assert_eq!(format_activity("subtask_added", None, None, Some("write")), "added subtask \"write\"");
    assert_eq!(format_activity("label_removed", None, Some("bug"), None), "removed label bug");
    assert_eq!(format_activity("odd", Some("f"), Some("1"), Some("2")), "f 1 -> 2");
}

fn fields() -> TaskFields {
    TaskFields {
        title: "Write".to_string(),
        description: None,
        status: "todo".to_string(),
        priority: 0,
        due_date: Some("2026-01-01".to_string()),
        end_date: None,
        reminder_at: None,
    }
}

fn no_edit() -> TaskEdit {
    TaskEdit {
        title: None,
        description: None,
        status: None,
        priority: None,
        due_date: None,
        end_date: None,
        reminder: None,
    }
}

#[test]
fn an_empty_edit_changes_nothing() {
    let cur = fields();
    let next = apply_edit(&cur, &no_edit());
    assert_eq!(next.title, cur.title);
    assert_eq!(next.status, cur.status);
    assert_eq!(next.due_date, cur.due_date);
    assert!(edit_activity(&cur, &next).is_empty());
}

#[test]
fn edits_set_clear_and_log() {
    let cur = fields();
    let mut e = no_edit();
    e.status = Some("done".to_string());
    e.priority = Some(2);
    e.title = Some("Write more".to_string());
    e.due_date = Some(String::new());
    e.end_date = Some("2026-02-01".to_string());
    e.reminder = Some(Some("2026-01-01T09:00:00.000Z".to_string()));
    let next = apply_edit(&cur, &e);
    assert_eq!(next.due_date, None);
    assert_eq!(next.end_date.as_deref(), Some("2026-02-01"));
    let log = edit_activity(&cur, &next);
    let actions: Vec<&str> = log.iter().map(|a| a.action.as_str()).collect();
    assert_eq!(actions, vec!["status_changed", "priority_changed", "title_changed", "reminder_changed"]);
    assert_eq!(log[0].old_value.as_deref(), Some("Todo"));
    assert_eq!(log[0].new_value.as_deref(), Some("Done"));
    assert_eq!(log[1].new_value.as_deref(), Some("High"));
    assert_eq!(log[3].old_value, None);
}

#[test]
fn reminders_are_read_in_utc() {
    assert_eq!(parse_reminder("  ").unwrap(), None);
    assert_eq!(
        parse_reminder("2026-09-14T09:00:00+02:00").unwrap().as_deref(),
        Some("2026-09-14T07:00:00.000Z")
    );
    assert_eq!(parse_reminder(" 2026-09-14T09:00:00Z ").unwrap().as_deref(), Some("2026-09-14T09:00:00.000Z"));
    assert!(parse_reminder("2026-09-14T09:00").unwrap().is_some());
    for local in ["2026-09-14T09:00", "2026-09-14T09:00:30"] {
        if let Ok(Some(t)) = parse_reminder(local) {
            assert!(t.ends_with(".000Z"), "{}", t);
            assert_eq!(t.len(), "2026-09-14T09:00:00.000Z".len());
        }
    }
    assert_eq!(
        parse_reminder("tomorrow").unwrap_err(),
        "Invalid reminder 'tomorrow': use ISO 8601 like 2026-09-14T09:00 or 2026-09-14T09:00:00Z"
    );
}

#[test]
fn bulk_statements() {
    assert_eq!(numbered_placeholders(3, 3), "?3, ?4, ?5");
    assert_eq!(numbered_placeholders(0, 1), "");
    assert_eq!(
        bulk_sql(BulkKind::Trash, 2),
        "UPDATE tasks SET deleted_at = ?1, updated_at = ?2 WHERE id IN (?3, ?4) AND deleted_at IS NULL"
    );
    assert_eq!(
        bulk_sql(BulkKind::Unlabel, 2),
        "DELETE FROM task_labels WHERE label_id = ?1 AND task_id IN (?2, ?3)"
    );
    assert_eq!(bulk_sql(BulkKind::Move, 1), "UPDATE tasks SET project_id = ?1, updated_at = ?2 WHERE id IN (?3)");
}

#[test]
fn labels_and_attachments() {
    let a = label_activity("bug", false);
    assert_eq!(a.action, "label_added");
    assert_eq!(a.new_value.as_deref(), Some("bug"));
    let r = label_activity("bug", true);
    assert_eq!(r.action, "label_removed");
    assert_eq!(r.old_value.as_deref(), Some("bug"));
    assert!(check_label_color("teal").is_ok());
    assert_eq!(
        check_label_color("Teal").unwrap_err(),
        "Invalid color 'Teal'. Valid: gray, blue, green, amber, red, purple, pink, teal, orange, indigo"
    );
    assert_eq!(label_update_sql(true, false), Some("UPDATE labels SET name = ?1 WHERE id = ?"));
    assert_eq!(label_update_sql(false, false), None);
    assert_eq!(attachment_location("data:image/png;base64,AAAA"), "(stored in database)");
    assert_eq!(attachment_location("/tmp/a.png"), "/tmp/a.png");
    assert_eq!(small_size(512).as_deref(), Some("512 B"));
    assert_eq!(small_size(2048).as_deref(), Some("2 KB"));
    assert_eq!(small_size(1024 * 1024), None);
    assert_eq!(toggle_subtask(1), (0, "subtask_uncompleted"));
    assert_eq!(toggle_subtask(0), (1, "subtask_completed"));
}

#[test]
fn tables_pad_columns() {
    let rows = vec![vec!["1".to_string(), "Write".to_string()], vec!["22".to_string(), "é".to_string()]];
    let lines = table_lines(&["ID", "TITLE"], &rows);
    assert_eq!(lines.len(), 4);
    assert_eq!(lines[0], "ID  TITLE");
    assert_eq!(lines[2], "1   Write");
}
