use infusedb::grammar::{
    KIND_ARRAY, KIND_BOOLEAN, KIND_DOCUMENT, KIND_ID, KIND_NUMBER, KIND_TEXT,
};
use infusedb::value::{DataType, Document};

fn parse(text: &str) -> Option<DataType> {
    DataType::load(DataType::infer_type(text), text.to_string())
}

fn document(entries: Vec<(&str, DataType)>) -> DataType {
    let mut document = Document::new();
    for (key, value) in entries {
        document.insert(key.to_string(), value);
    }
    DataType::Document(document)
}

#[test]
fn inference_table() {
    assert_eq!(DataType::infer_type("550e8400-e29b-41d4-a716-446655440000"), 1);
    assert_eq!(DataType::infer_type("42"), 3);
    assert_eq!(DataType::infer_type("true"), 4);
    assert_eq!(DataType::infer_type("FALSE"), 4);
    assert_eq!(DataType::infer_type("[1, 2]"), 5);
    assert_eq!(DataType::infer_type("{a: 1}"), 6);
    assert_eq!(DataType::infer_type("hello"), 2);
    assert_eq!(DataType::infer_type("\"42\""), 2);
    assert_eq!(DataType::infer_type(""), 2);
}

#[test]
fn kinds_are_numbered_as_inferred() {
    assert_eq!(KIND_ID, 1);
    assert_eq!(KIND_TEXT, 2);
    assert_eq!(KIND_NUMBER, 3);
    assert_eq!(KIND_BOOLEAN, 4);
    assert_eq!(KIND_ARRAY, 5);
    assert_eq!(KIND_DOCUMENT, 6);
}

#[test]
fn inference_trims_and_orders() {
    assert_eq!(DataType::infer_type("  42\n"), 3);
    assert_eq!(DataType::infer_type(" TrUe "), 4);
    assert_eq!(DataType::infer_type("-7"), 3);
    assert_eq!(DataType::infer_type("+7"), 3);
    assert_eq!(DataType::infer_type("2147483648"), 2);
    assert_eq!(DataType::infer_type("-2147483648"), 3);
    assert_eq!(DataType::infer_type("4 2"), 2);
    assert_eq!(DataType::infer_type("["), 2);
    assert_eq!(DataType::infer_type("[]"), 5);
    assert_eq!(DataType::infer_type("{}"), 6);
    assert_eq!(DataType::infer_type("[}"), 2);
    assert_eq!(DataType::infer_type("tru"), 2);
}

#[test]
fn identifiers_in_every_form() {
    let id = 0x550e8400_e29b_41d4_a716_446655440000u128;
    assert_eq!(parse("550e8400-e29b-41d4-a716-446655440000"), Some(DataType::Id(id)));
    assert_eq!(parse("550E8400-E29B-41D4-A716-446655440000"), Some(DataType::Id(id)));
    assert_eq!(parse("550e8400e29b41d4a716446655440000"), Some(DataType::Id(id)));
    assert_eq!(parse("{550e8400-e29b-41d4-a716-446655440000}"), Some(DataType::Id(id)));
    assert_eq!(parse("urn:uuid:550e8400-e29b-41d4-a716-446655440000"), Some(DataType::Id(id)));
    assert_eq!(parse("URN:UUID:550e8400-e29b-41d4-a716-446655440000"), Some(DataType::Id(id)));
    assert_eq!(DataType::infer_type("550e8400-e29b-41d4-a716-44665544000g"), 2);
    assert_eq!(DataType::infer_type("550e8400e29b-41d4-a716-4466-55440000"), 2);
    assert_eq!(DataType::infer_type("{550e8400e29b41d4a716446655440000}"), 6);
}

#[test]
fn identifiers_are_written_hyphenated() {
    let id = 0x550e8400_e29b_41d4_a716_446655440000u128;
    assert_eq!(DataType::Id(id).to_string(), "550e8400-e29b-41d4-a716-446655440000");
    assert_eq!(DataType::Id(0).to_string(), "00000000-0000-0000-0000-000000000000");
    assert_eq!(DataType::Id(u128::MAX).to_string(), "ffffffff-ffff-ffff-ffff-ffffffffffff");
    assert_eq!(
        DataType::Id(0x0123456789abcdef0123456789abcdef).to_string(),
        "01234567-89ab-cdef-0123-456789abcdef"
    );
}

#[test]
fn load_refuses_what_does_not_fit() {
    assert_eq!(DataType::load(1, "not an id".to_string()), None);
    assert_eq!(DataType::load(3, "12a".to_string()), None);
    assert_eq!(DataType::load(3, "".to_string()), None);
    assert_eq!(DataType::load(3, "-".to_string()), None);
    assert_eq!(DataType::load(3, "99999999999999999999999".to_string()), None);
    assert_eq!(DataType::load(4, "yes".to_string()), None);
    assert_eq!(DataType::load(5, "1, 2".to_string()), None);
    assert_eq!(DataType::load(6, "a: 1".to_string()), None);
    assert_eq!(DataType::load(0, "1".to_string()), None);
    assert_eq!(DataType::load(7, "1".to_string()), None);
}

#[test]
fn load_scalars() {
    assert_eq!(DataType::load(3, " 42 ".to_string()), Some(DataType::Number(42)));
    assert_eq!(DataType::load(3, "-2147483648".to_string()), Some(DataType::Number(i32::MIN)));
    assert_eq!(DataType::load(3, "2147483647".to_string()), Some(DataType::Number(i32::MAX)));
    assert_eq!(DataType::load(3, "007".to_string()), Some(DataType::Number(7)));
    assert_eq!(DataType::load(3, "-0".to_string()), Some(DataType::Number(0)));
    assert_eq!(DataType::load(4, "True".to_string()), Some(DataType::Boolean(true)));
    assert_eq!(DataType::load(4, "fALSE".to_string()), Some(DataType::Boolean(false)));
    assert_eq!(DataType::load(2, " \"hi there\" ".to_string()), Some(DataType::from("hi there")));
    assert_eq!(DataType::load(2, "bare".to_string()), Some(DataType::from("bare")));
    assert_eq!(DataType::load(2, "\"\"\"x\"\"".to_string()), Some(DataType::from("x")));
    assert_eq!(DataType::load(2, "42".to_string()), Some(DataType::from("42")));
}

#[test]
fn load_arrays() {
    assert_eq!(parse("[]"), Some(DataType::Array(Vec::new())));
    assert_eq!(parse("[1, 2]"), Some(DataType::Array(vec![DataType::from(1), DataType::from(2)])));
    assert_eq!(
        parse("[1, \"a, b\", true]"),
        Some(DataType::Array(vec![
            DataType::from(1),
            DataType::from("a, b"),
            DataType::from(true)
        ]))
    );
    assert_eq!(
        parse("[[1, 2], [3]]"),
        Some(DataType::Array(vec![
            DataType::Array(vec![DataType::from(1), DataType::from(2)]),
            DataType::Array(vec![DataType::from(3)]),
        ]))
    );
    assert_eq!(
        parse("[[[1], [2]], 3]"),
        Some(DataType::Array(vec![
            DataType::Array(vec![
                DataType::Array(vec![DataType::from(1)]),
                DataType::Array(vec![DataType::from(2)]),
            ]),
            DataType::from(3),
        ]))
    );
}

#[test]
fn array_edge_cases() {
    assert_eq!(parse("[1,]"), Some(DataType::Array(vec![DataType::from(1)])));
    assert_eq!(
        parse("[1, ]"),
        Some(DataType::Array(vec![DataType::from(1), DataType::from("")]))
    );
    assert_eq!(parse("[,]"), Some(DataType::Array(vec![DataType::from("")])));
    assert_eq!(
        parse("[\"[\", 2]"),
        Some(DataType::Array(vec![DataType::from("["), DataType::from(2)]))
    );
    assert_eq!(
        parse("[1], 2]"),
        Some(DataType::Array(vec![DataType::from("1]"), DataType::from(2)]))
    );
}

#[test]
fn load_documents() {
    assert_eq!(parse("{}"), Some(document(vec![])));
    assert_eq!(parse("{a: 1}"), Some(document(vec![("a", DataType::from(1))])));
    assert_eq!(
        parse("{a: 1, b: \"x, y\", c: [1, 2], }"),
        Some(document(vec![
            ("a", DataType::from(1)),
            ("b", DataType::from("x, y")),
            ("c", DataType::Array(vec![DataType::from(1), DataType::from(2)])),
        ]))
    );
    assert_eq!(
        parse("{outer: {inner: 1, }, next: 2, }"),
        Some(document(vec![
            ("outer", document(vec![("inner", DataType::from(1))])),
            ("next", DataType::from(2)),
        ]))
    );
    assert_eq!(
        parse("{ spaced key : 5 }"),
        Some(document(vec![("spaced key", DataType::from(5))]))
    );
    assert_eq!(
        parse("{a: b: c}"),
        Some(document(vec![("a", DataType::from("b: c"))]))
    );
}

#[test]
fn document_edge_cases() {
    assert_eq!(parse("{a:}"), Some(document(vec![])));
    assert_eq!(parse("{a}"), Some(document(vec![])));
    assert_eq!(parse("{a: }"), Some(document(vec![("a", DataType::from(""))])));
    assert_eq!(parse("{: 1}"), Some(document(vec![])));
    assert_eq!(parse("{: 1, }"), Some(document(vec![("", DataType::from(1))])));
    assert_eq!(parse("{a:, b: 2}"), Some(document(vec![("a", DataType::from("")), ("b", DataType::from(2))])));
    assert_eq!(
        parse("{a: 1, a: 2, b: 3, }"),
        Some(document(vec![("a", DataType::from(2)), ("b", DataType::from(3))]))
    );
}

#[test]
fn values_are_written_by_the_rules() {
    assert_eq!(DataType::from("hi").to_string(), "\"hi\"");
    assert_eq!(DataType::from("").to_string(), "\"\"");
    assert_eq!(DataType::from(0).to_string(), "0");
    assert_eq!(DataType::from(42).to_string(), "42");
    assert_eq!(DataType::from(-42).to_string(), "-42");
    assert_eq!(DataType::from(1000).to_string(), "1000");
    assert_eq!(DataType::from(i32::MAX).to_string(), "2147483647");
    assert_eq!(DataType::from(i32::MIN).to_string(), "-2147483648");
    assert_eq!(DataType::from(true).to_string(), "true");
    assert_eq!(DataType::from(false).to_string(), "false");
    assert_eq!(DataType::Array(Vec::new()).to_string(), "[]");
    assert_eq!(DataType::Array(vec![DataType::from(1)]).to_string(), "[1]");
    assert_eq!(
        DataType::Array(vec![DataType::from(1), DataType::from("a"), DataType::from(false)])
            .to_string(),
        "[1, \"a\", false]"
    );
    assert_eq!(document(vec![]).to_string(), "{}");
    assert_eq!(
        document(vec![("a", DataType::from(1)), ("b", DataType::from("x"))]).to_string(),
        "{a: 1, b: \"x\", }"
    );
}

fn round_trips(value: DataType) {
    let text = value.to_string();
    assert_eq!(parse(&text), Some(value), "through {}", text);
}

#[test]
fn round_trip_of_scalars() {
    round_trips(DataType::Id(0x550e8400_e29b_41d4_a716_446655440000));
    round_trips(DataType::Id(0));
    round_trips(DataType::Id(u128::MAX));
    round_trips(DataType::from("hello"));
    round_trips(DataType::from(""));
    round_trips(DataType::from("42"));
    round_trips(DataType::from("true"));
    round_trips(DataType::from(" padded "));
    round_trips(DataType::from("a, [b] {c}: d"));
    round_trips(DataType::from("550e8400-e29b-41d4-a716-446655440000"));
    round_trips(DataType::from(0));
    round_trips(DataType::from(-1));
    round_trips(DataType::from(i32::MIN));
    round_trips(DataType::from(i32::MAX));
    round_trips(DataType::from(true));
    round_trips(DataType::from(false));
}

#[test]
fn round_trip_of_composites() {
    round_trips(DataType::Array(Vec::new()));
    round_trips(DataType::Array(vec![DataType::from("")]));
    round_trips(DataType::Array(vec![DataType::from(1), DataType::from("a, b"), DataType::Id(5)]));
    round_trips(DataType::Array(vec![
        DataType::Array(vec![DataType::Array(vec![DataType::from(1)]), DataType::Array(Vec::new())]),
        DataType::Array(vec![DataType::from("]")]),
    ]));
    round_trips(document(vec![]));
    round_trips(document(vec![("a", DataType::from(1))]));
    round_trips(document(vec![("", DataType::from(1))]));
    round_trips(document(vec![
        ("name", DataType::from("Alberto Ruiz")),
        ("tags", DataType::Array(vec![DataType::from("x"), document(vec![("k", DataType::from(true))])])),
        ("nested", document(vec![("deeper", document(vec![("deepest", DataType::Array(Vec::new()))]))])),
        ("key, with comma", DataType::from("}")),
    ]));
}

#[test]
fn round_trip_with_quotes_and_brackets_in_quiet_places() {
    round_trips(DataType::from("a\"b"));
    round_trips(document(vec![("a[", DataType::from(1))]));
    round_trips(document(vec![("k", DataType::from("x\"y\"z"))]));
    round_trips(DataType::Array(vec![DataType::from("x\"[y]\"z"), DataType::from(2)]));
}

#[test]
fn an_unquiet_element_splits_elsewhere() {
    let value = DataType::Array(vec![DataType::from("a\", \"b")]);
    assert_eq!(value.to_string(), "[\"a\", \"b\"]");
    assert_eq!(
        parse("[\"a\", \"b\"]"),
        Some(DataType::Array(vec![DataType::from("a"), DataType::from("b")]))
    );
}

#[test]
fn a_quote_inside_a_text_does_not_come_back() {
    let value = DataType::from("\"");
    assert_eq!(value.to_string(), "\"\"\"");
    assert_eq!(parse("\"\"\""), Some(DataType::from("")));
}
