use inderes::json::Json;
use inderes::query::{cell_to_string, query_json, render_query_table, row_count, QueryResult};

fn j(s: &str) -> Json {
    Json::parse(s).expect("JSON")
}

#[test]
fn render_query_table_aligns_columns() {
    let r = QueryResult {
        columns: vec!["username".into(), "n".into()],
        rows: vec![
            vec![j("\"alice\""), j("2")],
            vec![j("\"bob\""), j("10")],
        ],
    };
    let out = render_query_table(&r);
    assert!(out.contains("username"));
    assert!(out.contains("alice"));
    assert!(out.contains("bob"));
    assert!(out.contains("10"));
    assert!(!out.contains("rows)"), "got: {out}");
    assert_eq!(
        out,
        "username  n\n--------  --\nalice     2\nbob       10\n"
    );
}

#[test]
fn render_query_table_handles_null_cell() {
    let r = QueryResult {
        columns: vec!["a".into()],
        rows: vec![vec![Json::Null]],
    };
    let out = render_query_table(&r);
    assert!(out.starts_with("a\n"), "got: {out}");
    assert_eq!(out, "a\n-\n\n");
}

#[test]
fn render_query_table_counts_characters() {
    let r = QueryResult {
        columns: vec!["ä".into(), "b".into()],
        rows: vec![vec![j("\"öö\""), j("null")], vec![j("\"\"")]],
    };
    assert_eq!(render_query_table(&r), "ä   b\n--  -\nöö\n\n");
}

#[test]
fn render_query_table_without_columns_says_so() {
    let r = QueryResult {
        columns: vec![],
        rows: vec![],
    };
    assert_eq!(render_query_table(&r), "(no columns)\n");
    let r = QueryResult {
        columns: vec![],
        rows: vec![vec![j("1")]],
    };
    assert_eq!(render_query_table(&r), "(no columns)\n");
}

#[test]
fn cells_show_text_bare_and_the_rest_as_json() {
    assert_eq!(cell_to_string(&j("null")), "");
    assert_eq!(cell_to_string(&j("\"x y\"")), "x y");
    assert_eq!(cell_to_string(&j("[1, {\"a\": true}]")), "[1,{\"a\":true}]");
    assert_eq!(cell_to_string(&j("1.5")), "1.5");
    assert_eq!(cell_to_string(&j("-42")), "-42");
    assert_eq!(cell_to_string(&j("18446744073709551615")), "18446744073709551615");
    assert_eq!(cell_to_string(&j("true")), "true");
    assert_eq!(cell_to_string(&j("false")), "false");
}

#[test]
fn row_count_knows_the_singular() {
    assert_eq!(row_count(0), "(0 rows)");
    assert_eq!(row_count(1), "(1 row)");
    assert_eq!(row_count(12), "(12 rows)");
}

#[test]
fn query_json_numbers_columns_of_the_same_name() {
    let r = QueryResult {
        columns: vec!["a".into(), "a".into(), "a_2".into(), "a".into()],
        rows: vec![vec![j("1"), j("2"), j("3"), j("4")], vec![]],
    };
    assert_eq!(
        query_json(&r).to_text(),
        "[{\"a\":1,\"a_2\":2,\"a_2_2\":3,\"a_3\":4},{}]"
    );
}

#[test]
fn query_json_drops_no_column() {
    let columns: Vec<String> = (0..40).map(|_| "c".to_string()).collect();
    let row: Vec<Json> = (0..40).map(Json::Int).collect();
    let v = query_json(&QueryResult {
        columns,
        rows: vec![row],
    });
    let first = &v.as_array().unwrap()[0];
    assert_eq!(first.get_i64("c"), Some(0));
    for k in 2..=40 {
        assert_eq!(first.get_i64(&format!("c_{k}")), Some(k - 1));
    }
}
