use sqel::cli::handlers::query_handler::{
    cte_is_read_only, is_read_query, keyword_at, rows_affected_message, runnable_statements,
    split_statements, statement_done_message, strip_leading_comments, truncate_query,
};

#[test]
fn split_on_semicolons() {
    assert_eq!(split_statements("SELECT 1; SELECT 2;"), vec!["SELECT 1", "SELECT 2"]);
}

#[test]
fn split_keeps_last_statement_without_semicolon() {
    assert_eq!(split_statements("  SELECT 1 ;\n SELECT 2  "), vec!["SELECT 1", "SELECT 2"]);
}

#[test]
fn split_ignores_semicolon_in_quotes() {
    assert_eq!(
        split_statements("INSERT INTO t VALUES ('a;b'); SELECT \"x;y\""),
        vec!["INSERT INTO t VALUES ('a;b')", "SELECT \"x;y\""]
    );
}

#[test]
fn split_ignores_semicolon_in_dollar_quotes() {
    assert_eq!(
        split_statements("CREATE FUNCTION f() RETURNS int AS $body$ SELECT 1; $body$ LANGUAGE sql; SELECT 2"),
        vec!["CREATE FUNCTION f() RETURNS int AS $body$ SELECT 1; $body$ LANGUAGE sql", "SELECT 2"]
    );
}

#[test]
fn split_ignores_semicolon_between_begin_and_end() {
    assert_eq!(
        split_statements("CREATE TRIGGER t AFTER INSERT ON x BEGIN UPDATE y SET a = 1; END; SELECT 1"),
        vec!["CREATE TRIGGER t AFTER INSERT ON x BEGIN UPDATE y SET a = 1; END", "SELECT 1"]
    );
}

#[test]
fn split_ignores_semicolon_in_comments() {
    assert_eq!(
        split_statements("SELECT 1 -- a;b\n; /* c;d */ SELECT 2"),
        vec!["SELECT 1 -- a;b", "/* c;d */ SELECT 2"]
    );
}

#[test]
fn split_drops_empty_statements() {
    assert_eq!(split_statements(" ; ;SELECT 1;;"), vec!["SELECT 1"]);
    assert!(split_statements("   ").is_empty());
}

#[test]
fn split_without_semicolon_is_one_statement() {
    assert_eq!(split_statements("\n SELECT 'x'\n"), vec!["SELECT 'x'"]);
}

#[test]
fn split_begin_inside_word_is_not_a_block() {
    assert_eq!(split_statements("SELECT beginning; SELECT 2"), vec!["SELECT beginning", "SELECT 2"]);
}

#[test]
fn keyword_found_case_insensitively_as_whole_word() {
    assert!(keyword_at("x begin y", 2, "BEGIN"));
    assert!(!keyword_at("x beginning", 2, "BEGIN"));
    assert!(!keyword_at("_begin", 1, "BEGIN"));
    assert!(keyword_at("END", 0, "END"));
    assert!(!keyword_at("EN", 0, "END"));
}

#[test]
fn strip_comments_removes_leading_comments_only() {
    assert_eq!(strip_leading_comments("  -- hi\n  /* x */ SELECT 1 -- tail"), "SELECT 1 -- tail");
    assert_eq!(strip_leading_comments("-- only a comment"), "");
    assert_eq!(strip_leading_comments("/* unclosed"), "");
    assert_eq!(strip_leading_comments("SELECT 1"), "SELECT 1");
}

#[test]
fn strip_comments_twice_is_once() {
    let s = " /* a */ -- b\n /* c */ UPDATE t SET x = 1";
    let once = strip_leading_comments(s);
    assert_eq!(strip_leading_comments(once), once);
}

#[test]
fn truncate_keeps_first_three_words() {
    assert_eq!(truncate_query("-- c\nSELECT  a,  b FROM t WHERE x"), "SELECT a, b");
    assert_eq!(truncate_query("VACUUM"), "VACUUM");
    assert_eq!(truncate_query("  "), "");
}

#[test]
fn read_queries_are_recognised() {
    assert!(is_read_query("select 1"));
    assert!(is_read_query("-- list\nSHOW tables"));
    assert!(is_read_query("desc t"));
    assert!(is_read_query("EXPLAIN SELECT 1"));
    assert!(is_read_query("values (1)"));
    assert!(!is_read_query("UPDATE t SET a = 1"));
    assert!(!is_read_query("description"));
    assert!(!is_read_query(""));
}

#[test]
fn leading_comments_do_not_change_the_verdict() {
    for q in ["SELECT 1", "DELETE FROM t", "WITH x AS (SELECT 1) DELETE FROM t"] {
        let commented = format!("/* c */ -- d\n{}", q);
        assert_eq!(is_read_query(&commented), is_read_query(q));
    }
}

#[test]
fn with_statements_read_when_last_keyword_is_select() {
    assert!(is_read_query("WITH x AS (SELECT 1) SELECT * FROM x"));
    assert!(!is_read_query("WITH x AS (SELECT 1) DELETE FROM t"));
    assert!(cte_is_read_only("with x as (select 1) select * from x"));
    assert!(!cte_is_read_only("with x as ( select 1 ) merge into t using x"));
    assert!(cte_is_read_only("with x as (delete from t returning *) select 1"));
}

#[test]
fn runnable_statements_skip_comment_only_ones() {
    assert_eq!(runnable_statements("SELECT 1; /* note */; SELECT 2"), vec!["SELECT 1", "SELECT 2"]);
    assert!(runnable_statements("-- only a comment; SELECT 1").is_empty());
}

#[test]
fn report_lines() {
    assert_eq!(statement_done_message("SELECT * FROM t WHERE a", 0), "SELECT * FROM ... OK");
    assert_eq!(statement_done_message("DELETE FROM t", 5), "DELETE FROM t ... OK (5 rows affected)");
    assert_eq!(rows_affected_message(3), "3 rows affected");
    assert_eq!(rows_affected_message(0), "0 rows affected");
}

#[test]
fn statements_are_trimmed_and_not_empty() {
    for s in split_statements("  a ;\n b\t; ;\n/* c */ d \n") {
        assert!(!s.is_empty());
        assert_eq!(s, s.trim());
    }
}

#[test]
fn short_form_splits_into_first_words() {
    let short = truncate_query("/* x */  alter\ttable  t add column c int");
    assert_eq!(short, "alter table t");
    let words: Vec<&str> = short.split_whitespace().collect();
    assert_eq!(words, vec!["alter", "table", "t"]);
}

#[test]
fn plain_script_splits_at_semicolons() {
    let sql = "create table t (a int);insert into t values (1) ; ;select a from t";
    let expected: Vec<&str> = sql.split(';').map(|s| s.trim()).filter(|s| !s.is_empty()).collect();
    assert_eq!(split_statements(sql), expected);
}
