use minijq::eval::{apply, evaluate, EvalError, QueryError};
use minijq::path::{parse, PathError, Segment};
use minijq::render::{render, traverse, TraverseError};
use minijq::value::JsonValue;

fn num(n: u64) -> JsonValue {
    JsonValue::Number(serde_json::Number::from(n))
}

fn obj(members: Vec<(&str, JsonValue)>) -> JsonValue {
    JsonValue::Object(members.into_iter().map(|(k, v)| (String::from(k), v)).collect())
}

fn strings(texts: Vec<&str>) -> Vec<String> {
    texts.into_iter().map(String::from).collect()
}

#[test]
fn empty_path_returns_whole_document() {
    let text = String::from("{\"a\":1}");
    let res = traverse(&text, &String::from("")).unwrap();
    assert_eq!(res, strings(vec!["{\n  \"a\": 1\n}"]));
}

#[test]
fn evaluate_empty_path_on_plain_value() {
    let doc = num(7);
    let out = evaluate(&doc, "").unwrap();
    assert_eq!(render(&out), strings(vec!["7"]));
}

#[test]
fn repeated_evaluation_is_deterministic() {
    let text = String::from("{\"a\":{\"b\":[{\"c\":1},{\"c\":2}]}}");
    let path = String::from(".a.b[].c");
    let first = traverse(&text, &path).unwrap();
    let second = traverse(&text, &path).unwrap();
    assert_eq!(first, second);
}

#[test]
fn dot_path_round_trips_the_document() {
    let text = String::from("{\"b\":[true,null],\"a\":\"x\"}");
    let formatted = minijq::render::format(&text).unwrap();
    let res = traverse(&text, &String::from(".")).unwrap();
    assert_eq!(res, vec![formatted]);
}

#[test]
fn format_pretty_prints() {
    let text = String::from("{\"a\":1}");
    assert_eq!(minijq::render::format(&text).unwrap(), "{\n  \"a\": 1\n}");
}

#[test]
fn format_keeps_insertion_order() {
    let text = String::from("{\"b\":2,\"a\":1}");
    assert_eq!(minijq::render::format(&text).unwrap(), "{\n  \"b\": 2,\n  \"a\": 1\n}");
}

#[test]
fn format_rejects_bad_json() {
    let text = String::from("{\"a\":");
    assert_eq!(minijq::render::format(&text), Err(TraverseError::Parse));
}

#[test]
fn all_elements_preserves_order() {
    let text = String::from("{\"a\":[1,2,3]}");
    let res = traverse(&text, &String::from(".a[]")).unwrap();
    assert_eq!(res, strings(vec!["1", "2", "3"]));
}

#[test]
fn index_selects_one_element() {
    let text = String::from("{\"a\":[10,20,30]}");
    let res = traverse(&text, &String::from(".a[1]")).unwrap();
    assert_eq!(res, strings(vec!["20"]));
}

#[test]
fn out_of_bounds_index_is_silent_empty() {
    let text = String::from("{\"a\":[1]}");
    let res = traverse(&text, &String::from(".a[5]")).unwrap();
    assert_eq!(res, Vec::<String>::new());
}

#[test]
fn missing_field_is_silent_skip() {
    let text = String::from("{\"x\":1}");
    let res = traverse(&text, &String::from(".y")).unwrap();
    assert_eq!(res, Vec::<String>::new());
}

#[test]
fn field_access_on_non_object_fails() {
    let text = String::from("5");
    let res = traverse(&text, &String::from(".y"));
    assert_eq!(res, Err(TraverseError::Query(QueryError::Eval(EvalError::NotAnObject))));
}

#[test]
fn malformed_paths_are_rejected() {
    let text = String::from("{\"a\":[1]}");
    for path in ["a[", ".a[", ".a]", ".a[x]", ".[1]", ".a[1]]extra["] {
        let res = traverse(&text, &String::from(path));
        assert_eq!(
            res,
            Err(TraverseError::Query(QueryError::Path(PathError::MalformedSegment))),
            "path {:?} should be malformed",
            path
        );
    }
}

#[test]
fn nested_access_collects_in_order() {
    let text = String::from("{\"a\":{\"b\":[{\"c\":1},{\"c\":2}]}}");
    let res = traverse(&text, &String::from(".a.b[].c")).unwrap();
    assert_eq!(res, strings(vec!["1", "2"]));
}

#[test]
fn array_accessor_on_missing_field_fails() {
    let text = String::from("{\"x\":1}");
    let res = traverse(&text, &String::from(".y[]"));
    assert_eq!(res, Err(TraverseError::Query(QueryError::Eval(EvalError::MissingArrayField))));
}

#[test]
fn array_accessor_on_non_array_fails() {
    let text = String::from("{\"a\":1}");
    let res = traverse(&text, &String::from(".a[0]"));
    assert_eq!(res, Err(TraverseError::Query(QueryError::Eval(EvalError::NotAnArray))));
}

#[test]
fn array_accessor_skips_non_objects() {
    // The set reached by `.a[]` holds numbers; the second `.b[]` skips them
    // silently and matches nothing.
    let text = String::from("{\"a\":[1,2]}");
    let res = traverse(&text, &String::from(".a[].b[]")).unwrap();
    assert_eq!(res, Vec::<String>::new());
}

#[test]
fn parse_splits_and_classifies_segments() {
    let segs = parse(".a.b[].c[2]").unwrap();
    assert_eq!(segs.len(), 3);
    assert!(matches!(&segs[0], Segment::Field(n) if n == "a"));
    assert!(matches!(&segs[1], Segment::FieldAllElements(n) if n == "b"));
    assert!(matches!(&segs[2], Segment::FieldIndexedElement(n, 2) if n == "c"));
}

#[test]
fn parse_normalizes_repeated_dots() {
    let segs = parse("..a..b.").unwrap();
    assert_eq!(segs.len(), 2);
    assert!(matches!(&segs[0], Segment::Field(n) if n == "a"));
    assert!(matches!(&segs[1], Segment::Field(n) if n == "b"));
    assert!(parse("").unwrap().is_empty());
    assert!(parse(".").unwrap().is_empty());
}

#[test]
fn parse_accepts_leading_zero_index() {
    let segs = parse(".a[007]").unwrap();
    assert!(matches!(&segs[0], Segment::FieldIndexedElement(n, 7) if n == "a"));
}

#[test]
fn parse_rejects_huge_index() {
    let res = parse(".a[99999999999999999999999999]");
    assert!(matches!(res, Err(PathError::MalformedSegment)));
}

#[test]
fn apply_field_clones_members() {
    let current = vec![obj(vec![("a", num(1))]), obj(vec![("a", num(2)), ("b", num(9))])];
    let seg = Segment::Field(String::from("a"));
    let out = apply(&current, &seg).unwrap();
    assert_eq!(render(&out), strings(vec!["1", "2"]));
}

#[test]
fn apply_reports_first_error() {
    let current = vec![obj(vec![("a", num(1))]), num(5)];
    let seg = Segment::Field(String::from("a"));
    assert!(matches!(apply(&current, &seg), Err(EvalError::NotAnObject)));
}

#[test]
fn evaluate_does_not_consume_the_document() {
    let doc = obj(vec![("a", JsonValue::Array(vec![num(1), num(2)]))]);
    let first = evaluate(&doc, ".a[]").unwrap();
    let second = evaluate(&doc, ".a[]").unwrap();
    assert_eq!(render(&first), strings(vec!["1", "2"]));
    assert_eq!(render(&second), strings(vec!["1", "2"]));
}

#[test]
fn unicode_field_names_survive_parsing() {
    let text = String::from("{\"k\\u00e9y\":[5]}");
    let res = traverse(&text, &String::from(".kéy[0]")).unwrap();
    assert_eq!(res, strings(vec!["5"]));
}
