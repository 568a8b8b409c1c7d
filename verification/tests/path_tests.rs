use infusedb::error::PathError;
use infusedb::value::{DataType, Document};

#[test]
fn array_growth() {
    let mut array = DataType::Array(Vec::new());
    let result = array.set("3", DataType::from("x"));
    let expected = DataType::Array(vec![
        DataType::from(""),
        DataType::from(""),
        DataType::from(""),
        DataType::from("x"),
    ]);
    assert_eq!(result, Ok(expected.clone()));
    assert_eq!(array, expected);
    assert_eq!(array.to_array().unwrap().len(), 4);
}

#[test]
fn array_set_in_place() {
    let mut array = DataType::Array(vec![DataType::from(1), DataType::from(2)]);
    assert_eq!(
        array.set("0", DataType::from(9)),
        Ok(DataType::Array(vec![DataType::from(9), DataType::from(2)]))
    );
    assert_eq!(
        array.set("+2", DataType::from(3)),
        Ok(DataType::Array(vec![DataType::from(9), DataType::from(2), DataType::from(3)]))
    );
    assert_eq!(
        array.set("003", DataType::from(4)),
        Ok(DataType::Array(vec![
            DataType::from(9),
            DataType::from(2),
            DataType::from(3),
            DataType::from(4)
        ]))
    );
}

#[test]
fn array_set_refuses_a_bad_index() {
    let mut array = DataType::Array(vec![DataType::from(1)]);
    for index in ["x", "", "-1", "1.5", " 1", "+", "99999999999999999999999999"] {
        assert_eq!(array.set(index, DataType::from(2)), Err(PathError::InvalidIndex));
        assert_eq!(array, DataType::Array(vec![DataType::from(1)]));
    }
    assert_eq!(PathError::InvalidIndex.message(), "Invalid index");
}

#[test]
fn scalars_cannot_be_written_into() {
    for mut scalar in [DataType::from(1), DataType::from("a"), DataType::from(true), DataType::Id(1)] {
        let before = scalar.clone();
        assert_eq!(scalar.set("0", DataType::from(2)), Err(PathError::NotSupported));
        assert_eq!(scalar, before);
    }
    assert_eq!(PathError::NotSupported.message(), "Not supported");
}

#[test]
fn document_upsert() {
    let mut root = DataType::Document(Document::new());
    root.set("a", DataType::from(1)).unwrap();
    root.set("b", DataType::from(2)).unwrap();
    root.set("c", DataType::from(3)).unwrap();
    let after = root.set("b", DataType::from(20)).unwrap();
    assert_eq!(after, root);
    let document = root.to_document().unwrap();
    assert_eq!(document.keys(), vec!["a".to_string(), "b".to_string(), "c".to_string()]);
    assert_eq!(document.get("b"), Some(&DataType::from(20)));
    root.set("d", DataType::from(4)).unwrap();
    let document = root.to_document().unwrap();
    assert_eq!(
        document.keys(),
        vec!["a".to_string(), "b".to_string(), "c".to_string(), "d".to_string()]
    );
    assert_eq!(root.to_string(), "{a: 1, b: 20, c: 3, d: 4, }");
}

#[test]
fn get_reads_arrays_and_passes_others_through() {
    let array = DataType::Array(vec![DataType::from(1), DataType::from("b")]);
    assert_eq!(array.get(0), DataType::from(1));
    assert_eq!(array.get(1), DataType::from("b"));
    assert_eq!(DataType::from(5).get(3), DataType::from(5));
    let mut document = Document::new();
    document.insert("k".to_string(), DataType::from(1));
    let root = DataType::Document(document);
    assert_eq!(root.get(0), root);
}
