use unibot::migrator::{
    has_trigger_keyword, is_trigger_end, is_trigger_start, pending_migrations,
    skip_comments_and_whitespace, split_sql_statements, str_after, Migration,
};

#[test]
fn splits_simple_statements() {
    assert_eq!(
        split_sql_statements("SELECT 1; SELECT 2;"),
        vec!["SELECT 1", "SELECT 2"]
    );
}

#[test]
fn preserves_trigger_body_semicolons() {
    let sql = "CREATE TRIGGER foo AFTER INSERT ON t FOR EACH ROW BEGIN SELECT RAISE(ABORT, 'END; still string'); -- END; comment\nUPDATE t SET a = 1; END;";
    let result = split_sql_statements(sql);
    assert_eq!(result.len(), 1);
    assert!(result[0].contains("RAISE(ABORT, 'END; still string');"));
    assert!(result[0].contains("UPDATE t SET a = 1;"));
}

#[test]
fn ignores_semicolons_in_strings_and_comments() {
    let sql = "SELECT ';'; -- comment ;\nSELECT \"x;y\"; /* block ; */ SELECT 3;";
    let result = split_sql_statements(sql);
    assert_eq!(result.len(), 3);
}

#[test]
fn split_keeps_trigger_then_next_statement() {
    let sql = "CREATE TABLE t (a INTEGER);\ncreate trigger trg after insert on t begin update t set a = 2; end;\nINSERT INTO t VALUES (1);";
    let result = split_sql_statements(sql);
    assert_eq!(
        result,
        vec![
            "CREATE TABLE t (a INTEGER)",
            "create trigger trg after insert on t begin update t set a = 2; end;",
            "INSERT INTO t VALUES (1)",
        ]
    );
}

#[test]
fn split_handles_doubled_quotes_and_trailing_text() {
    let result = split_sql_statements("SELECT 'it''s; fine';  SELECT 2");
    assert_eq!(result, vec!["SELECT 'it''s; fine'", "SELECT 2"]);
    assert!(split_sql_statements("  ;  ; ").is_empty());
    assert_eq!(split_sql_statements("SELECT 1"), vec!["SELECT 1"]);
}

#[test]
fn skip_comments_and_whitespace_cases() {
    assert_eq!(skip_comments_and_whitespace("  -- a\n /* b */ CREATE"), "CREATE");
    assert_eq!(skip_comments_and_whitespace("-- no newline"), "");
    assert_eq!(skip_comments_and_whitespace("/* open"), "");
    assert_eq!(skip_comments_and_whitespace("SELECT"), "SELECT");
}

#[test]
fn trigger_start_detection() {
    assert!(is_trigger_start("  -- c\ncreate trigger x"));
    assert!(is_trigger_start("CREATE OR REPLACE TRIGGER y"));
    assert!(!is_trigger_start("CREATE TABLE t"));
    assert!(has_trigger_keyword("CREATE TRIGGER Z"));
    assert!(!has_trigger_keyword("create trigger z"));
}

#[test]
fn trigger_end_detection() {
    assert!(is_trigger_end("BEGIN x; END"));
    assert!(is_trigger_end("BEGIN x;end  "));
    assert!(is_trigger_end("END"));
    assert!(!is_trigger_end("BACKEND"));
    assert!(!is_trigger_end("EN"));
}

#[test]
fn pending_migrations_after_current_version() {
    let all = vec![
        Migration { version: "0001", sql: "A" },
        Migration { version: "0002", sql: "B" },
        Migration { version: "0003", sql: "C" },
    ];
    let pending = pending_migrations(all, "0001");
    let versions: Vec<&str> = pending.iter().map(|m| m.version).collect();
    assert_eq!(versions, vec!["0002", "0003"]);
    let none = pending_migrations(vec![Migration { version: "0001", sql: "A" }], "0001");
    assert!(none.is_empty());
    assert!(str_after("0010", "0009"));
    assert!(!str_after("0001", "0001"));
    assert!(str_after("00011", "0001"));
}

#[test]
fn statements_stand_in_script_order() {
    let sql = "  CREATE TABLE a (x TEXT DEFAULT ';');\n\n INSERT INTO a VALUES ('b') ; ;SELECT 1  ";
    let stmts = split_sql_statements(sql);
    assert_eq!(
        stmts,
        vec!["CREATE TABLE a (x TEXT DEFAULT ';')", "INSERT INTO a VALUES ('b')", "SELECT 1"]
    );
    let mut from = 0;
    for s in &stmts {
        let at = sql[from..].find(s.as_str()).unwrap() + from;
        from = at + s.len();
    }
    assert!(from <= sql.len());
}
