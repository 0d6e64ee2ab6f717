use tack::http::percent_decode;
use tack::query::{classify, translate_placeholders, Statement};

#[test]
fn translates_placeholders() {
    assert_eq!(
        translate_placeholders("SELECT * FROM tasks WHERE id = $1"),
        "SELECT * FROM tasks WHERE id = ?1"
    );
    assert_eq!(
        translate_placeholders("UPDATE tasks SET a = $1, b = $2 WHERE id = $1"),
        "UPDATE tasks SET a = ?1, b = ?2 WHERE id = ?1"
    );
    assert_eq!(
        translate_placeholders(
            "INSERT INTO settings (key, value) VALUES ($1, $2) ON CONFLICT(key) DO UPDATE SET value = $2"
        ),
        "INSERT INTO settings (key, value) VALUES (?1, ?2) ON CONFLICT(key) DO UPDATE SET value = ?2"
    );
    assert_eq!(translate_placeholders("SELECT 1"), "SELECT 1");
    assert_eq!(translate_placeholders("SELECT $"), "SELECT $");
    assert_eq!(translate_placeholders("SELECT $x"), "SELECT $x");
}

#[test]
fn decodes_percent_encoding() {
    assert_eq!(percent_decode("_app/immutable/a%20b.js"), "_app/immutable/a b.js");
    assert_eq!(percent_decode("favicon.png"), "favicon.png");
    assert_eq!(percent_decode("%2e%2e/etc"), "../etc");
}

#[test]
fn reads_pass() {
    assert!(matches!(classify("SELECT id FROM tasks"), Ok(Statement::Read)));
    assert!(matches!(
        classify("  select\n\tcount(*) FROM tasks"),
        Ok(Statement::Read)
    ));
}

#[test]
fn ddl_and_unknown_verbs_are_refused() {
    for sql in [
        "DROP TABLE tasks",
        "ALTER TABLE tasks ADD COLUMN x TEXT",
        "CREATE TABLE evil (a TEXT)",
        "PRAGMA journal_mode = DELETE",
        "ATTACH DATABASE '/tmp/other.db' AS other",
        "VACUUM",
        "BEGIN TRANSACTION",
        "REPLACE INTO tasks (id) VALUES ('a')",
        "",
        "   ",
    ] {
        assert!(classify(sql).is_err(), "'{}' should be refused", sql);
    }
}

#[test]
fn writes_reach_the_app_tables_only() {
    for sql in [
        "INSERT INTO tasks (id) VALUES ('a')",
        "insert into settings (key, value) values ('a', 'b')",
        "insert into note_links(src, dst, kind) values ('a', 'b', 'mention')",
        "UPDATE tasks SET title = 'x' WHERE id = 'a'",
        "UPDATE OR IGNORE subtasks SET completed = 1",
        "UPDATE \"task_labels\" SET label_id = 'a'",
        "DELETE FROM task_labels WHERE task_id = 'a'",
        "INSERT INTO notes_fts (path) VALUES ('a')",
    ] {
        assert!(
            matches!(classify(sql), Ok(Statement::Write)),
            "'{}' should pass",
            sql
        );
    }

    for sql in [
        "DELETE FROM tasks_fts",
        "INSERT INTO sqlite_master (name) VALUES ('x')",
        "UPDATE _sqlx_migrations SET success = 1",
        "DELETE FROM unknown_table",
        "INSERT INTO tasks_backup (id) VALUES ('a')",
    ] {
        assert!(classify(sql).is_err(), "'{}' should be refused", sql);
    }
}

#[test]
fn stacked_statements_are_refused() {
    for sql in [
        "SELECT 1; DROP TABLE tasks",
        "UPDATE tasks SET title = 'x'; DELETE FROM tasks",
        "SELECT 1;SELECT 2",
    ] {
        assert!(classify(sql).is_err(), "'{}' should be refused", sql);
    }
    assert!(matches!(classify("SELECT 1;"), Ok(Statement::Read)));
    assert!(matches!(classify("SELECT 1 ;"), Ok(Statement::Read)));
}

#[test]
fn refusals_name_their_reason() {
    assert_eq!(
        classify("SELECT 1; DROP TABLE tasks").unwrap_err(),
        "only one statement per request is allowed"
    );
    assert_eq!(classify("DROP TABLE tasks").unwrap_err(), "statement type not allowed: DROP");
    assert_eq!(classify("   ").unwrap_err(), "statement type not allowed: <empty>");
    assert_eq!(
        classify("DELETE FROM unknown_table").unwrap_err(),
        "writes to 'unknown_table' are not allowed"
    );
    assert_eq!(
        classify("INSERT tasks").unwrap_err(),
        "could not tell which table the statement writes to"
    );
    assert!(matches!(classify("UPDATE \"Tasks\" SET a = 1"), Ok(Statement::Write)));
}

#[test]
fn placeholders_past_nine_keep_their_number() {
    assert_eq!(translate_placeholders("VALUES ($10, $2)"), "VALUES (?10, ?2)");
    assert_eq!(translate_placeholders("$$1"), "$?1");
}

#[test]
fn percent_decoding_keeps_bad_escapes() {
    assert_eq!(percent_decode("100%"), "100%");
    assert_eq!(percent_decode("%zz%4"), "%zz%4");
    assert_eq!(percent_decode("%41%42"), "AB");
}
