use infusedb::format::format_data_type;
use infusedb::value::{DataType, Document};

fn document(entries: Vec<(&str, DataType)>) -> DataType {
    let mut document = Document::new();
    for (key, value) in entries {
        document.insert(key.to_string(), value);
    }
    DataType::Document(document)
}

#[test]
fn scalars_and_arrays_are_shown_as_written() {
    assert_eq!(format_data_type(DataType::from(1), 0), "1");
    assert_eq!(format_data_type(DataType::from("a"), 3), "\"a\"");
    assert_eq!(
        format_data_type(DataType::Array(vec![DataType::from(1), DataType::from(true)]), 0),
        "[1, true]"
    );
    assert_eq!(
        format_data_type(DataType::Array(vec![document(vec![("a", DataType::from(1))])]), 0),
        "[{a: 1, }]"
    );
}

#[test]
fn documents_are_shown_line_by_line() {
    assert_eq!(format_data_type(document(vec![]), 0), "");
    assert_eq!(format_data_type(document(vec![]), 1), "\n");
    let flat = document(vec![("a", DataType::from(1)), ("b", DataType::from("x"))]);
    assert_eq!(format_data_type(flat.clone(), 0), "a: 1\nb: \"x\"\n");
    assert_eq!(format_data_type(flat, 2), "\n  a: 1\n  b: \"x\"\n");
    let nested = document(vec![
        ("a", document(vec![("b", document(vec![("c", DataType::from(1))]))])),
        ("d", DataType::from(2)),
    ]);
    assert_eq!(format_data_type(nested, 0), "a: \n b: \n  c: 1\n\n\nd: 2\n");
}

#[test]
fn the_indentation_stops_growing_at_the_largest_number() {
    let nested = document(vec![("a", document(vec![]))]);
    let shown = format_data_type(nested, 0);
    assert_eq!(shown, "a: \n\n");
}
