use recipes_rs::json::Kind;
use recipes_rs::record::{Column, ColumnType, Projection, ProjectionError};

fn recipe_columns() -> Vec<Column> {
    vec![
        Column::new("id", ColumnType::Integer, false).unwrap(),
        Column::new("name", ColumnType::Text, false).unwrap(),
        Column::new("description", ColumnType::Text, true).unwrap(),
    ]
}

fn recipes() -> Projection {
    Projection::new("recipes", recipe_columns()).unwrap()
}

#[test]
fn a_column_keeps_what_it_was_given() {
    let column = Column::new("name", ColumnType::Text, true).unwrap();
    assert_eq!(column.name(), b"name");
    assert_eq!(column.column_type(), ColumnType::Text);
    assert!(column.nullable());
    let accented = Column::new("caf\u{e9}", ColumnType::Number, false).unwrap();
    assert_eq!(accented.name(), "caf\u{e9}".as_bytes());
    assert!(!accented.nullable());
}

#[test]
fn names_that_need_an_escape_are_refused() {
    assert_eq!(
        Column::new("na\"me", ColumnType::Text, false).unwrap_err(),
        ProjectionError::InvalidName
    );
    assert_eq!(
        Column::new("na\\me", ColumnType::Text, false).unwrap_err(),
        ProjectionError::InvalidName
    );
    assert_eq!(
        Column::new("na\nme", ColumnType::Text, false).unwrap_err(),
        ProjectionError::InvalidName
    );
    assert_eq!(
        Column::new("\u{1f}", ColumnType::Text, false).unwrap_err(),
        ProjectionError::InvalidName
    );
    assert!(Column::new("", ColumnType::Text, false).is_ok());
    assert!(Column::new(" ", ColumnType::Text, false).is_ok());
}

#[test]
fn a_column_takes_its_declared_kind() {
    let kinds = [
        Kind::Null,
        Kind::Bool,
        Kind::Integer,
        Kind::Decimal,
        Kind::Text,
        Kind::Array,
        Kind::Object,
    ];
    let cases = [
        (ColumnType::Integer, false, [false, false, true, false, false, false, false]),
        (ColumnType::Integer, true, [true, false, true, false, false, false, false]),
        (ColumnType::Number, false, [false, false, true, true, false, false, false]),
        (ColumnType::Number, true, [true, false, true, true, false, false, false]),
        (ColumnType::Text, false, [false, false, false, false, true, false, false]),
        (ColumnType::Text, true, [true, false, false, false, true, false, false]),
        (ColumnType::Boolean, false, [false, true, false, false, false, false, false]),
        (ColumnType::Boolean, true, [true, true, false, false, false, false, false]),
        (ColumnType::Json, false, [true, true, true, true, true, true, true]),
        (ColumnType::Json, true, [true, true, true, true, true, true, true]),
    ];
    for (column_type, nullable, expected) in cases {
        let column = Column::new("c", column_type, nullable).unwrap();
        for (kind, takes) in kinds.iter().zip(expected) {
            assert_eq!(column.takes(*kind), takes, "{:?} {} {:?}", column_type, nullable, kind);
        }
    }
}

#[test]
fn a_projection_keeps_table_and_columns() {
    let projection = recipes();
    assert_eq!(projection.table(), "recipes");
    assert_eq!(projection.column_count(), 3);
    assert_eq!(projection.column(0).unwrap().name(), b"id");
    assert_eq!(projection.column(1).unwrap().name(), b"name");
    assert_eq!(projection.column(2).unwrap().name(), b"description");
    assert!(projection.column(3).is_none());
}

#[test]
fn a_name_may_stand_once() {
    let columns = vec![
        Column::new("id", ColumnType::Integer, false).unwrap(),
        Column::new("name", ColumnType::Text, false).unwrap(),
        Column::new("id", ColumnType::Text, false).unwrap(),
    ];
    assert_eq!(
        Projection::new("recipes", columns).unwrap_err(),
        ProjectionError::DuplicateName
    );
    assert!(Projection::new("empty", Vec::new()).is_ok());
}

#[test]
fn a_row_with_the_declared_fields_is_admitted() {
    let projection = recipes();
    assert!(projection.admits(b"{\"id\":1,\"name\":\"Soup\",\"description\":\"Hot\"}"));
    assert!(projection.admits(b"{\"id\":-7,\"name\":\"\",\"description\":null}"));
    assert!(projection.admits(b"{\"id\":0,\"name\":\"a\\\"b\",\"description\":\"\\u00e9\"}"));
}

#[test]
fn renamed_omitted_or_added_fields_are_refused() {
    let projection = recipes();
    assert!(!projection.admits(b"{\"id\":1,\"title\":\"Soup\",\"description\":null}"));
    assert!(!projection.admits(b"{\"id\":1,\"name\":\"Soup\"}"));
    assert!(!projection.admits(b"{\"id\":1}"));
    assert!(!projection.admits(b"{}"));
    assert!(!projection.admits(
        b"{\"id\":1,\"name\":\"Soup\",\"description\":null,\"extra\":1}"
    ));
    assert!(!projection.admits(b"{\"name\":\"Soup\",\"id\":1,\"description\":null}"));
    assert!(!projection.admits(b"{\"id\":1,\"id\":2,\"description\":null}"));
    assert!(!projection.admits(b"{\"i\\u0064\":1,\"name\":\"Soup\",\"description\":null}"));
}

#[test]
fn a_value_of_another_type_is_refused() {
    let projection = recipes();
    assert!(!projection.admits(b"{\"id\":\"1\",\"name\":\"Soup\",\"description\":null}"));
    assert!(!projection.admits(b"{\"id\":1.5,\"name\":\"Soup\",\"description\":null}"));
    assert!(!projection.admits(b"{\"id\":null,\"name\":\"Soup\",\"description\":null}"));
    assert!(!projection.admits(b"{\"id\":1,\"name\":null,\"description\":null}"));
    assert!(!projection.admits(b"{\"id\":1,\"name\":\"Soup\",\"description\":7}"));
    assert!(!projection.admits(b"{\"id\":1,\"name\":[\"Soup\"],\"description\":null}"));
}

#[test]
fn what_is_no_compact_object_is_refused() {
    let projection = recipes();
    assert!(!projection.admits(b""));
    assert!(!projection.admits(b"{"));
    assert!(!projection.admits(b"null"));
    assert!(!projection.admits(b"[{\"id\":1,\"name\":\"Soup\",\"description\":null}]"));
    assert!(!projection.admits(b"{\"id\":1,\"name\":\"Soup\",\"description\":null"));
    assert!(!projection.admits(b"{\"id\":1,\"name\":\"Soup\",\"description\":null}}"));
    assert!(!projection.admits(b"{\"id\":1,\"name\":\"Soup\",\"description\":null} "));
    assert!(!projection.admits(b"{\"id\": 1,\"name\":\"Soup\",\"description\":null}"));
    assert!(!projection.admits(b"{\"id\":1,\"name\":\"Soup\",\"description\":NaN}"));
    assert!(!projection.admits(b"{\"id\":1,\"name\":\"So\nup\",\"description\":null}"));
}

#[test]
fn the_empty_projection_admits_the_empty_object_only() {
    let projection = Projection::new("nothing", Vec::new()).unwrap();
    assert!(projection.admits(b"{}"));
    assert!(!projection.admits(b"{\"id\":1}"));
    assert!(!projection.admits(b"{}{}"));
    assert!(!projection.admits(b"[]"));
}

#[test]
fn any_value_fits_a_json_column() {
    let projection = Projection::new(
        "recipes",
        vec![Column::new("tags", ColumnType::Json, false).unwrap()],
    )
    .unwrap();
    assert!(projection.admits(b"{\"tags\":[\"a\",{\"b\":[1,2.5,null]}]}"));
    assert!(projection.admits(b"{\"tags\":null}"));
    assert!(projection.admits(b"{\"tags\":{}}"));
    assert!(!projection.admits(b"{\"tags\":[1,]}"));
}

#[test]
fn a_row_may_nest_so_deep_and_no_deeper() {
    let projection = Projection::new(
        "recipes",
        vec![Column::new("tags", ColumnType::Json, false).unwrap()],
    )
    .unwrap();
    let nested = |levels: usize| {
        let mut row = b"{\"tags\":".to_vec();
        row.extend(std::iter::repeat(b'[').take(levels));
        row.extend(std::iter::repeat(b']').take(levels));
        row.push(b'}');
        row
    };
    assert!(projection.admits(&nested(124)));
    assert!(!projection.admits(&nested(125)));
}
