use recipes_rs::encode::{encode, EncodeError, ENVELOPE_DEPTH};
use recipes_rs::json::ROW_DEPTH;
use recipes_rs::record::{Column, ColumnType, Projection};
use serde_json::Value;

fn recipes() -> Projection {
    Projection::new(
        "recipes",
        vec![
            Column::new("id", ColumnType::Integer, false).unwrap(),
            Column::new("name", ColumnType::Text, false).unwrap(),
            Column::new("rating", ColumnType::Number, true).unwrap(),
        ],
    )
    .unwrap()
}

fn recipe(id: i64, name: &str, rating: Option<Value>) -> Value {
    let mut fields = serde_json::Map::new();
    fields.insert("id".to_string(), Value::from(id));
    fields.insert("name".to_string(), Value::from(name));
    fields.insert("rating".to_string(), rating.unwrap_or(Value::Null));
    Value::Object(fields)
}

fn serialized(records: &[Value]) -> Vec<Vec<u8>> {
    records.iter().map(|record| serde_json::to_vec(record).unwrap()).collect()
}

#[test]
fn no_rows_give_the_empty_result() {
    let body = encode(&recipes(), &Vec::new()).unwrap();
    assert_eq!(body, b"{\"result\":[]}");
}

#[test]
fn one_row_stands_alone_in_the_array() {
    let rows = vec![b"{\"id\":1,\"name\":\"Soup\",\"rating\":4.5}".to_vec()];
    let body = encode(&recipes(), &rows).unwrap();
    assert_eq!(body, b"{\"result\":[{\"id\":1,\"name\":\"Soup\",\"rating\":4.5}]}");
}

#[test]
fn rows_are_joined_by_commas_in_their_order() {
    let rows = vec![
        b"{\"id\":2,\"name\":\"Stew\",\"rating\":null}".to_vec(),
        b"{\"id\":1,\"name\":\"Soup\",\"rating\":5}".to_vec(),
        b"{\"id\":3,\"name\":\"Pie\",\"rating\":1e0}".to_vec(),
    ];
    let body = encode(&recipes(), &rows).unwrap();
    assert_eq!(
        String::from_utf8(body).unwrap(),
        "{\"result\":[{\"id\":2,\"name\":\"Stew\",\"rating\":null},\
         {\"id\":1,\"name\":\"Soup\",\"rating\":5},\
         {\"id\":3,\"name\":\"Pie\",\"rating\":1e0}]}"
    );
}

#[test]
fn the_first_row_that_does_not_conform_is_named() {
    let good = b"{\"id\":1,\"name\":\"Soup\",\"rating\":null}".to_vec();
    let renamed = b"{\"id\":1,\"title\":\"Soup\",\"rating\":null}".to_vec();
    let broken = b"{\"id\":1,\"name\":\"Soup\",\"rating\":NaN}".to_vec();
    assert_eq!(
        encode(&recipes(), &vec![renamed.clone()]),
        Err(EncodeError { row: 0 })
    );
    assert_eq!(
        encode(&recipes(), &vec![good.clone(), good.clone(), broken.clone(), renamed.clone()]),
        Err(EncodeError { row: 2 })
    );
    assert_eq!(
        encode(&recipes(), &vec![good.clone(), renamed, broken]),
        Err(EncodeError { row: 1 })
    );
    assert_eq!(encode(&recipes(), &vec![good.clone(), Vec::new()]), Err(EncodeError { row: 1 }));
    assert!(encode(&recipes(), &vec![good.clone(), good]).is_ok());
}

#[test]
fn the_envelope_reads_back_with_one_key_and_every_field() {
    let records = vec![
        recipe(1, "Soup", Some(Value::from(4))),
        recipe(2, "Cr\u{e8}me br\u{fb}l\u{e9}e", None),
        recipe(-3, "quote \" backslash \\ tab \t bell \u{7}", Some(Value::from(7))),
        recipe(i64::MAX, "", Some(Value::from(0))),
    ];
    let body = encode(&recipes(), &serialized(&records)).unwrap();
    let parsed: Value = serde_json::from_slice(&body).unwrap();
    let envelope = parsed.as_object().unwrap();
    assert_eq!(envelope.len(), 1);
    let result = envelope.get("result").unwrap().as_array().unwrap();
    assert_eq!(result.len(), records.len());
    for (element, record) in result.iter().zip(&records) {
        let keys: Vec<&str> = element.as_object().unwrap().keys().map(|k| k.as_str()).collect();
        assert_eq!(keys, ["id", "name", "rating"]);
        assert_eq!(element, record);
    }
}

#[test]
fn the_envelope_is_what_the_serializer_writes_for_the_whole() {
    let records = vec![recipe(1, "Soup", None), recipe(2, "Stew\n", Some(Value::from(3)))];
    let body = encode(&recipes(), &serialized(&records)).unwrap();
    let mut envelope = serde_json::Map::new();
    envelope.insert("result".to_string(), Value::Array(records));
    assert_eq!(body, serde_json::to_vec(&Value::Object(envelope)).unwrap());
}

#[test]
fn many_rows_keep_their_count() {
    let records: Vec<Value> = (0..500).map(|i| recipe(i, "r", None)).collect();
    let body = encode(&recipes(), &serialized(&records)).unwrap();
    let parsed: Value = serde_json::from_slice(&body).unwrap();
    assert_eq!(parsed["result"].as_array().unwrap().len(), 500);
    assert_eq!(parsed["result"][499]["id"], Value::from(499));
}

#[test]
fn the_envelope_is_two_levels_deeper_than_a_row() {
    assert_eq!(ROW_DEPTH + 2, ENVELOPE_DEPTH);
    let projection = Projection::new(
        "recipes",
        vec![Column::new("tags", ColumnType::Json, false).unwrap()],
    )
    .unwrap();
    let mut row = b"{\"tags\":".to_vec();
    row.extend(std::iter::repeat(b'[').take(ROW_DEPTH - 1));
    row.extend(std::iter::repeat(b']').take(ROW_DEPTH - 1));
    row.push(b'}');
    let body = encode(&projection, &vec![row]).unwrap();
    let parsed: Value = serde_json::from_slice(&body).unwrap();
    assert_eq!(parsed["result"].as_array().unwrap().len(), 1);
    assert_eq!(ENVELOPE_DEPTH, 127);
}
