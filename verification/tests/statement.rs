use droplet_core::statement::is_single_statement;

#[test]
fn is_single_statement_accepts_one_rejects_smuggled_second() {
    assert!(is_single_statement("SELECT 1"));
    assert!(is_single_statement("SELECT 1;"));
    assert!(is_single_statement("SELECT 1 ;  \n  "));
    assert!(is_single_statement("SELECT ';' AS x"));
    assert!(is_single_statement("SELECT 'it''s; ok' AS x"));
    assert!(is_single_statement("SELECT 1 -- a ; b\n"));
    assert!(is_single_statement("SELECT 1 /* a ; b */"));
    assert!(is_single_statement("SELECT 1; -- trailing comment only"));
    assert!(is_single_statement(r#"SELECT "a;b" AS x"#));

    assert!(!is_single_statement("SELECT 1; CREATE TABLE evil AS SELECT 1"));
    assert!(!is_single_statement("SELECT 1; COPY (SELECT 1) TO '/tmp/x'"));
    assert!(!is_single_statement(
        "SELECT * FROM data /* hide */ ; CREATE TABLE evil2 AS SELECT 1"
    ));
    assert!(!is_single_statement("SELECT 'a' ; DROP TABLE t"));
}

#[test]
fn empty_and_trivia_only_text_is_single() {
    assert!(is_single_statement(""));
    assert!(is_single_statement("   \t\r\n"));
    assert!(is_single_statement("-- only a comment"));
    assert!(is_single_statement(";"));
}

#[test]
fn two_separators_are_two_statements() {
    assert!(!is_single_statement(";;"));
    assert!(!is_single_statement("SELECT 1;;"));
}

#[test]
fn separator_inside_quoted_identifier_with_escape_is_ignored() {
    assert!(is_single_statement(r#"SELECT "a"";b" AS x"#));
}

#[test]
fn unterminated_string_swallows_the_rest() {
    assert!(is_single_statement("SELECT 'abc; DROP TABLE t"));
}

#[test]
fn unterminated_block_comment_swallows_the_rest() {
    assert!(is_single_statement("SELECT 1 /* ; DROP TABLE t"));
}

#[test]
fn dollar_quoted_separator_is_refused() {
    assert!(!is_single_statement("SELECT $$a;b$$"));
}

#[test]
fn line_comment_ends_at_newline() {
    assert!(!is_single_statement("SELECT 1; -- note\nDROP TABLE t"));
}

#[test]
fn text_without_semicolon_is_single() {
    assert!(is_single_statement("SELECT a, b FROM t WHERE x = 'y' /* c */ -- d"));
}
