use inderes::args::{
    build_args, call, content_get, content_get_args, content_list, content_list_args,
    documents_get, documents_list, documents_list_args, documents_read, estimates, estimates_args,
    forum_search, fundamentals, fundamentals_args, kv_to_args, search,
};
use inderes::json::Json;

fn text(v: &Json, key: &str) -> String {
    v.get(key).expect("field").to_text()
}

fn strings(v: &[&str]) -> Vec<String> {
    v.iter().map(|s| s.to_string()).collect()
}

// --- subcommand arg builders ---------------------------------------------------------

#[test]
fn fundamentals_args_includes_optional_fields_only_when_set() {
    let a = fundamentals_args(
        &strings(&["COMPANY:200"]),
        "ANNUAL",
        &strings(&["revenue"]),
        Some(2020),
        None,
    );
    assert_eq!(text(&a, "companyIds"), "[\"COMPANY:200\"]");
    assert_eq!(a.get_str("resolution"), Some("ANNUAL"));
    assert_eq!(text(&a, "fields"), "[\"revenue\"]");
    assert_eq!(a.get_i64("startYear"), Some(2020));
    assert!(a.get("endYear").is_none());

    let a = fundamentals_args(&strings(&["COMPANY:1"]), "QUARTERLY", &vec![], None, None);
    assert!(a.get("fields").is_none());
    assert!(a.get("startYear").is_none());
}

#[test]
fn estimates_args_omits_empty_company_ids_but_always_sends_scalars() {
    let a = estimates_args(&vec![], &strings(&["eps"]), 5, true, 3);
    assert!(a.get("companyIds").is_none());
    assert_eq!(text(&a, "fields"), "[\"eps\"]");
    assert_eq!(a.get_i64("count"), Some(5));
    assert_eq!(a.get_bool("includeQuarters"), Some(true));
    assert_eq!(a.get_i64("yearCount"), Some(3));

    let a = estimates_args(&strings(&["COMPANY:9"]), &vec![], 1, false, 1);
    assert_eq!(text(&a, "companyIds"), "[\"COMPANY:9\"]");
    assert_eq!(text(&a, "fields"), "[]");
}

#[test]
fn content_list_args_includes_only_present_filters() {
    let a = content_list_args(
        &Some("COMPANY:200".into()),
        &strings(&["ARTICLE"]),
        20,
        &None,
    );
    assert_eq!(a.get_str("companyId"), Some("COMPANY:200"));
    assert_eq!(text(&a, "types"), "[\"ARTICLE\"]");
    assert_eq!(a.get_i64("first"), Some(20));
    assert!(a.get("after").is_none());

    let a = content_list_args(&None, &vec![], 10, &Some("cursor123".into()));
    assert!(a.get("companyId").is_none());
    assert!(a.get("types").is_none());
    assert_eq!(a.get_str("after"), Some("cursor123"));
}

#[test]
fn content_get_args_routes_url_vs_content_id() {
    let url = content_get_args("https://www.inderes.fi/fi/article", &Some("en".into()));
    assert_eq!(url.get_str("url"), Some("https://www.inderes.fi/fi/article"));
    assert!(url.get("contentId").is_none());
    assert_eq!(url.get_str("lang"), Some("en"));

    let id = content_get_args("ARTICLE:directus-1234", &None);
    assert_eq!(id.get_str("contentId"), Some("ARTICLE:directus-1234"));
    assert!(id.get("url").is_none());
    assert!(id.get("lang").is_none());
}

#[test]
fn content_get_args_knows_both_schemes() {
    assert!(content_get_args("http://x", &None).get("url").is_some());
    assert!(content_get_args("httpx://x", &None).get("url").is_none());
    assert!(content_get_args("", &None).get("contentId").is_some());
}

#[test]
fn documents_list_args_carries_pagination() {
    let a = documents_list_args("COMPANY:200", 15, &Some("c1".into()));
    assert_eq!(a.get_str("companyId"), Some("COMPANY:200"));
    assert_eq!(a.get_i64("first"), Some(15));
    assert_eq!(a.get_str("after"), Some("c1"));
    assert!(documents_list_args("COMPANY:1", 5, &None)
        .get("after")
        .is_none());
}

#[test]
fn each_subcommand_calls_its_tool() {
    let c = search("Nokia");
    assert_eq!((c.tool.as_str(), c.args.to_text().as_str()), ("search-companies", "{\"query\":\"Nokia\"}"));
    let c = fundamentals(&strings(&["C"]), "yearly", &vec![], None, Some(-1));
    assert_eq!(c.tool, "get-fundamentals");
    assert_eq!(
        c.args.to_text(),
        "{\"companyIds\":[\"C\"],\"endYear\":-1,\"resolution\":\"yearly\"}"
    );
    let c = estimates(&vec![], &vec![], 0, false, u32::MAX);
    assert_eq!(c.tool, "get-inderes-estimates");
    assert_eq!(
        c.args.to_text(),
        "{\"count\":0,\"fields\":[],\"includeQuarters\":false,\"yearCount\":4294967295}"
    );
    let c = content_list(&None, &vec![], 1, &None);
    assert_eq!((c.tool.as_str(), c.args.to_text().as_str()), ("list-content", "{\"first\":1}"));
    assert_eq!(content_get("x", &None).tool, "get-content");
    assert_eq!(documents_list("x", 1, &None).tool, "list-company-documents");
    let c = documents_get("D");
    assert_eq!((c.tool.as_str(), c.args.to_text().as_str()), ("get-document", "{\"documentId\":\"D\"}"));
    let c = documents_read("D", &vec![3, 1]);
    assert_eq!(c.tool, "read-document-sections");
    assert_eq!(c.args.to_text(), "{\"documentId\":\"D\",\"sectionNumbers\":[3,1]}");
    let c = forum_search("q");
    assert_eq!(c.tool, "search-forum-topics");
    assert_eq!(c.args.to_text(), "{\"order\":\"relevancy\",\"text\":\"q\"}");
}

// --- build_args ----------------------------------------------------------------------

#[test]
fn build_args_parses_json_values_when_possible() {
    let args = build_args(
        &strings(&[
            "count=10",
            "enabled=true",
            "tags=[\"a\",\"b\"]",
            "config={\"k\":1}",
        ]),
        &None,
    )
    .unwrap();
    assert_eq!(args.get_i64("count"), Some(10));
    assert_eq!(args.get_bool("enabled"), Some(true));
    assert_eq!(text(&args, "tags"), "[\"a\",\"b\"]");
    assert_eq!(args.get("config").unwrap().get_i64("k"), Some(1));
}

#[test]
fn build_args_falls_back_to_string_when_value_not_json() {
    let args = build_args(&strings(&["name=NOKIA"]), &None).unwrap();
    assert_eq!(args.get_str("name"), Some("NOKIA"));
}

#[test]
fn of_a_repeated_argument_the_later_counts() {
    let args = build_args(&strings(&["a=1", "b=2", "a=3"]), &None).unwrap();
    assert_eq!(args.to_text(), "{\"a\":3,\"b\":2}");
}

#[test]
fn build_args_handles_values_with_equals_sign() {
    let args = build_args(&strings(&["formula=a=b+c"]), &None).unwrap();
    assert_eq!(args.get_str("formula"), Some("a=b+c"));
}

#[test]
fn build_args_rejects_missing_equals() {
    let err = build_args(&strings(&["bogus"]), &None).unwrap_err();
    assert!(err.message().contains("KEY=VALUE"));
    assert_eq!(err.message(), "--arg must be KEY=VALUE, got \"bogus\"");
}

#[test]
fn build_args_json_args_overrides_kv_args() {
    let args = build_args(
        &strings(&["ignored=me"]),
        &Some(r#"{"override": true}"#.into()),
    )
    .unwrap();
    assert_eq!(args.to_text(), "{\"override\":true}");
}

#[test]
fn build_args_json_args_must_be_object() {
    let err = build_args(&vec![], &Some("[1,2,3]".into())).unwrap_err();
    assert!(err.message().contains("must be a JSON object"));
}

#[test]
fn build_args_json_args_rejects_invalid_json() {
    let err = build_args(&vec![], &Some("{bogus".into())).unwrap_err();
    assert!(err.message().contains("parsing --json-args"));
    assert!(err.message().starts_with("parsing --json-args: {bogus: key must be a string"));
}

#[test]
fn build_args_empty_yields_empty_object() {
    let args = build_args(&vec![], &None).unwrap();
    assert_eq!(args.to_text(), "{}");
}

#[test]
fn build_args_quotes_a_wrong_entry() {
    let err = build_args(&strings(&["a=1", "tab\t\"x\"", "c"]), &None).unwrap_err();
    assert_eq!(
        err.message(),
        "--arg must be KEY=VALUE, got \"tab\\t\\\"x\\\"\""
    );
}

#[test]
fn build_args_keeps_the_later_of_two_values() {
    let args = build_args(&strings(&["a=1", "a=x", "=y"]), &None).unwrap();
    assert_eq!(args.to_text(), "{\"\":\"y\",\"a\":\"x\"}");
}

#[test]
fn call_carries_the_tool_and_its_arguments() {
    let c = call("list-transcripts", &strings(&["companyId=COMPANY:200"]), &None).unwrap();
    assert_eq!(c.tool, "list-transcripts");
    assert_eq!(c.args.get_str("companyId"), Some("COMPANY:200"));
    assert!(call("t", &strings(&["x"]), &None).is_err());
}

#[test]
fn kv_to_args_makes_texts() {
    let v = kv_to_args(&[("a", "1"), ("b", "x"), ("a", "2")]);
    assert_eq!(v.to_text(), "{\"a\":\"2\",\"b\":\"x\"}");
}
