use cachew::database::Database;
use cachew::errors::database_errors::{DatabaseError, DatabaseErrorType};
use cachew::schemas::{DatabaseType, FloatText, KeyValuePair, QueryResponseType, ValueType};

fn float(text: impl AsRef<str>) -> ValueType {
    ValueType::Float(FloatText::new(text.as_ref()).unwrap())
}

fn database_error(error_type: DatabaseErrorType) -> Result<QueryResponseType, String> {
    Err(DatabaseError { error_type }.to_string())
}

#[test]
fn database_test_get() {
    // get string
    let mut database: Database = Database::new(DatabaseType::Str);
    let _ = database.set("key1", ValueType::Str("val1".to_string()));
    let response = database.get("key1");
    assert_eq!(response, Ok(QueryResponseType::GET_OK(ValueType::Str("val1".to_string()))));

    // get int
    let mut database: Database = Database::new(DatabaseType::Int);
    let _ = database.set("key", ValueType::Int(23));
    let response = database.get("key");
    assert_eq!(response, Ok(QueryResponseType::GET_OK(ValueType::Int(23))));

    // get float
    let mut database: Database = Database::new(DatabaseType::Float);
    let _ = database.set("key", float((-0.1f32).to_string()));
    let response = database.get("key");
    assert_eq!(response, Ok(QueryResponseType::GET_OK(float((-0.1f32).to_string()))));

    // get bool
    let mut database: Database = Database::new(DatabaseType::Bool);
    let _ = database.set("key", ValueType::Bool(true));
    let response = database.get("key");
    assert_eq!(response, Ok(QueryResponseType::GET_OK(ValueType::Bool(true))));

    // get json
    let mut database: Database = Database::new(DatabaseType::Json);
    let _ = database.set("key", ValueType::Json("{key: \"value\"}".to_string()));
    let response = database.get("key");
    assert_eq!(
        response,
        Ok(QueryResponseType::GET_OK(ValueType::Json("{key: \"value\"}".to_string())))
    );

    // fail to get key
    let mut database: Database = Database::new(DatabaseType::Int);
    let _ = database.set("key0", ValueType::Int(23));
    let response = database.get("key2");
    assert_eq!(response, database_error(DatabaseErrorType::KeyNotFound("key2".to_string())));
}

#[test]
fn database_test_get_many() {
    let mut database: Database = Database::new(DatabaseType::Str);

    // get many
    for i in 0..5 {
        let _ = database.set(&format!("key{}", i), ValueType::Str(format!("val{}", i)));
    }
    let response = database.get_many(vec!["key1", "key3", "key4"]);
    assert_eq!(
        response,
        Ok(QueryResponseType::GET_MANY_OK(vec![
            ValueType::Str("val1".to_string()),
            ValueType::Str("val3".to_string()),
            ValueType::Str("val4".to_string())
        ]))
    );

    // fail to get key
    for i in 0..5 {
        let _ = database.set(&format!("key{}", i), ValueType::Str(format!("val{}", i)));
    }
    let response = database.get_many(vec!["key4", "key5"]);
    assert_eq!(response, database_error(DatabaseErrorType::KeyNotFound("key5".to_string())));
}

#[test]
fn database_test_get_range() {
    let mut database: Database = Database::new(DatabaseType::Float);

    // get range
    for i in 0..5 {
        let _ = database.set(&format!("key{}", i), float(0.75f32.to_string()));
    }
    let response = database.get_range("key2".to_owned(), "key5".to_owned());
    assert_eq!(
        response,
        Ok(QueryResponseType::GET_RANGE_OK(vec![
            float(0.75f32.to_string()),
            float(0.75f32.to_string()),
            float(0.75f32.to_string())
        ]))
    );

    // wrong range order
    for i in 0..5 {
        let _ = database.set(&format!("key{}", i), ValueType::Int(i));
    }
    let response = database.get_range("key5".to_owned(), "key2".to_owned());
    assert_eq!(response, database_error(DatabaseErrorType::InvalidRangeOrder));

    // get empty range
    let _ = database.set("key1", ValueType::Str("val1".to_owned()));
    let response = database.get_range("a".to_owned(), "b".to_owned());
    assert_eq!(response, Ok(QueryResponseType::GET_RANGE_OK(vec![])));
}

#[test]
fn database_test_del() {
    let mut database: Database = Database::new(DatabaseType::Float);
    let _ = database.set("key", float((-9.99f32).to_string()));
    let _ = database.del("key");

    let response = database.get("key");
    assert_eq!(response, database_error(DatabaseErrorType::KeyNotFound("key".to_string())));
}

#[test]
fn database_test_del_range() {
    let mut database: Database = Database::new(DatabaseType::Str);

    // delete range
    for i in 0..5 {
        let _ = database.set(&format!("key{}", i), ValueType::Str(format!("val{}", i)));
    }
    let _ = database.del_range("key2".to_owned(), "key5".to_owned());
    let response = database.get("key3");
    assert_eq!(response, database_error(DatabaseErrorType::KeyNotFound("key3".to_string())));

    // wrong order range
    for i in 0..5 {
        let _ = database.set(&format!("key{}", i), ValueType::Str(format!("val{}", i)));
    }
    let response = database.del_range("key5".to_owned(), "key2".to_owned());
    assert_eq!(response, database_error(DatabaseErrorType::InvalidRangeOrder));
}

#[test]
fn database_test_del_many() {
    let mut database: Database = Database::new(DatabaseType::Int);

    // delete many
    for i in 0..5 {
        let _ = database.set(&format!("key{}", i), ValueType::Int(i));
    }
    let _ = database.del_many(vec!["key1", "key4"]);
    let response = database.get("key1");
    assert_eq!(response, database_error(DatabaseErrorType::KeyNotFound("key1".to_string())));
}

#[test]
fn database_test_set() {
    let mut database: Database = Database::new(DatabaseType::Str);

    // set and get a key to check
    let response = database.set("key", ValueType::Str("val".to_string()));
    assert_eq!(response, Ok(QueryResponseType::SET_OK));

    let response = database.get("key");
    assert_eq!(response, Ok(QueryResponseType::GET_OK(ValueType::Str("val".to_string()))));

    // set wrong value type
    let response = database.set("key", ValueType::Int(1));
    assert_eq!(response, database_error(DatabaseErrorType::WrongValueType));
}

#[test]
fn database_test_set_many() {
    let mut database: Database = Database::new(DatabaseType::Int);

    // set many and get a key to check
    let response = database.set_many(vec![
        KeyValuePair { key: "key0".to_owned(), value: ValueType::Int(1) },
        KeyValuePair { key: "key1".to_owned(), value: ValueType::Int(2) },
        KeyValuePair { key: "key2".to_owned(), value: ValueType::Int(3) },
        KeyValuePair { key: "key3".to_owned(), value: ValueType::Int(4) },
    ]);
    assert_eq!(response, Ok(QueryResponseType::SET_MANY_OK));

    let response = database.get("key2");
    assert_eq!(response, Ok(QueryResponseType::GET_OK(ValueType::Int(3))));

    // set wrong value type
    let response = database.set_many(vec![
        KeyValuePair { key: "key4".to_owned(), value: ValueType::Int(4) },
        KeyValuePair { key: "key5".to_owned(), value: ValueType::Int(5) },
        KeyValuePair { key: "key6".to_owned(), value: float(6.1f32.to_string()) },
        KeyValuePair { key: "key7".to_owned(), value: ValueType::Int(7) },
    ]);
    assert_eq!(response, database_error(DatabaseErrorType::WrongValueType));
}

#[test]
fn set_many_with_a_wrong_value_stores_nothing() {
    let mut database = Database::new(DatabaseType::Int);
    let _ = database.set("key4", ValueType::Int(0));
    let response = database.set_many(vec![
        KeyValuePair { key: "key4".to_owned(), value: ValueType::Int(4) },
        KeyValuePair { key: "key5".to_owned(), value: ValueType::Int(5) },
        KeyValuePair { key: "key6".to_owned(), value: ValueType::Bool(true) },
    ]);
    assert_eq!(response, database_error(DatabaseErrorType::WrongValueType));
    assert_eq!(database.len(), Ok(QueryResponseType::LEN_OK(1)));
    assert_eq!(database.get("key4"), Ok(QueryResponseType::GET_OK(ValueType::Int(0))));
    assert_eq!(database.contains("key5"), Ok(QueryResponseType::EXISTS_OK(false)));
}

#[test]
fn set_many_lets_the_last_pair_of_a_key_win() {
    let mut database = Database::new(DatabaseType::Int);
    let response = database.set_many(vec![
        KeyValuePair { key: "k".to_owned(), value: ValueType::Int(1) },
        KeyValuePair { key: "j".to_owned(), value: ValueType::Int(2) },
        KeyValuePair { key: "k".to_owned(), value: ValueType::Int(3) },
    ]);
    assert_eq!(response, Ok(QueryResponseType::SET_MANY_OK));
    assert_eq!(database.len(), Ok(QueryResponseType::LEN_OK(2)));
    assert_eq!(database.get("k"), Ok(QueryResponseType::GET_OK(ValueType::Int(3))));
}

#[test]
fn stored_values_have_the_type_of_the_store() {
    for database_type in [
        DatabaseType::Str,
        DatabaseType::Int,
        DatabaseType::Float,
        DatabaseType::Bool,
        DatabaseType::Json,
    ] {
        let mut database = Database::new(database_type);
        let candidates = vec![
            ValueType::Str("s".to_string()),
            ValueType::Int(1),
            float("1.5".to_string()),
            ValueType::Bool(false),
            ValueType::Json("{}".to_string()),
        ];
        for value in candidates {
            let fits = database.check_value_type(&value);
            assert_eq!(fits, value.tag() == database_type);
            let response = database.set("k", value);
            assert_eq!(response.is_ok(), fits);
        }
        match database.get("k") {
            Ok(QueryResponseType::GET_OK(value)) => assert_eq!(value.tag(), database_type),
            other => panic!("unexpected {:?}", other),
        }
        assert_eq!(database.database_type(), database_type);
    }
}

#[test]
fn ranges_come_in_ascending_order_of_the_keys() {
    let mut database = Database::new(DatabaseType::Int);
    for (key, value) in [("d", 4), ("b", 2), ("e", 5), ("a", 1), ("c", 3), ("bb", 22)] {
        let _ = database.set(key, ValueType::Int(value));
    }
    assert_eq!(
        database.get_range("b".to_owned(), "d".to_owned()),
        Ok(QueryResponseType::GET_RANGE_OK(vec![
            ValueType::Int(2),
            ValueType::Int(22),
            ValueType::Int(3),
            ValueType::Int(4)
        ]))
    );
    assert_eq!(
        database.get_range("b".to_owned(), "b".to_owned()),
        Ok(QueryResponseType::GET_RANGE_OK(vec![ValueType::Int(2)]))
    );
    assert_eq!(
        database.get_range("".to_owned(), "zzz".to_owned()),
        Ok(QueryResponseType::GET_RANGE_OK(vec![
            ValueType::Int(1),
            ValueType::Int(2),
            ValueType::Int(22),
            ValueType::Int(3),
            ValueType::Int(4),
            ValueType::Int(5)
        ]))
    );
    assert_eq!(database.del_range("b".to_owned(), "c".to_owned()), Ok(QueryResponseType::DEL_RANGE_OK));
    assert_eq!(database.len(), Ok(QueryResponseType::LEN_OK(3)));
    assert_eq!(
        database.get_range("a".to_owned(), "z".to_owned()),
        Ok(QueryResponseType::GET_RANGE_OK(vec![
            ValueType::Int(1),
            ValueType::Int(4),
            ValueType::Int(5)
        ]))
    );
}

#[test]
fn keys_are_ordered_by_code_point() {
    let mut database = Database::new(DatabaseType::Int);
    for (key, value) in [("a", 1), ("B", 2), ("é", 3), ("z", 4), ("\u{10000}", 5), ("\u{ffff}", 6)] {
        let _ = database.set(key, ValueType::Int(value));
    }
    assert_eq!(
        database.get_range("".to_owned(), "\u{10ffff}".to_owned()),
        Ok(QueryResponseType::GET_RANGE_OK(vec![
            ValueType::Int(2),
            ValueType::Int(1),
            ValueType::Int(4),
            ValueType::Int(3),
            ValueType::Int(6),
            ValueType::Int(5)
        ]))
    );
}

#[test]
fn deleting_a_missing_key_changes_nothing() {
    let mut database = Database::new(DatabaseType::Bool);
    let _ = database.set("a", ValueType::Bool(true));
    assert_eq!(database.del("b"), Ok(QueryResponseType::DEL_OK));
    assert_eq!(database.len(), Ok(QueryResponseType::LEN_OK(1)));
    assert_eq!(database.del("a"), Ok(QueryResponseType::DEL_OK));
    assert_eq!(database.del("a"), Ok(QueryResponseType::DEL_OK));
    assert_eq!(database.len(), Ok(QueryResponseType::LEN_OK(0)));
    assert_eq!(database.del_many(vec!["a", "b", "a"]), Ok(QueryResponseType::DEL_MANY_OK));
    assert_eq!(database.len(), Ok(QueryResponseType::LEN_OK(0)));
}

#[test]
fn clear_empties_the_store() {
    let mut database = Database::new(DatabaseType::Int);
    for i in 0..10 {
        let _ = database.set(&format!("k{}", i), ValueType::Int(i));
    }
    assert_eq!(database.len(), Ok(QueryResponseType::LEN_OK(10)));
    assert_eq!(database.contains("k3"), Ok(QueryResponseType::EXISTS_OK(true)));
    assert_eq!(database.clear(), Ok(QueryResponseType::CLEAR_OK));
    assert_eq!(database.len(), Ok(QueryResponseType::LEN_OK(0)));
    assert_eq!(database.contains("k3"), Ok(QueryResponseType::EXISTS_OK(false)));
}

#[test]
fn each_database_error_has_its_text() {
    assert_eq!(
        DatabaseError { error_type: DatabaseErrorType::KeyNotFound("k".to_string()) }.to_string(),
        "DatabaseError 'keyNotFound': The key 'k' doesn't exist."
    );
    assert_eq!(
        DatabaseError { error_type: DatabaseErrorType::InvalidRangeOrder }.to_string(),
        "DatabaseError 'invalidRangeOrder': The lower key is bigger than the upper key."
    );
    assert_eq!(
        DatabaseError { error_type: DatabaseErrorType::WrongValueType }.to_string(),
        "DatabaseError 'wrongValueType': The value doesn't match the database type."
    );
}

#[test]
fn a_float_is_the_text_of_a_number() {
    for text in ["0", "1.5", "-.5", "1e3", "+INF", "NaN", "0.95"] {
        assert_eq!(FloatText::new(text).map(|number| number.as_str().to_string()), Some(text.to_string()));
    }
    for text in ["", "abc", "1 ", "1\n", "1,5", "--1", "e3", "."] {
        assert_eq!(FloatText::new(text), None);
    }
    let number = FloatText::new("2.50").unwrap();
    assert_eq!(number.duplicate(), number);
    let mut database = Database::new(DatabaseType::Float);
    assert_eq!(database.set("k", ValueType::Float(number)), Ok(QueryResponseType::SET_OK));
    assert_eq!(database.get("k"), Ok(QueryResponseType::GET_OK(float("2.50"))));
}
