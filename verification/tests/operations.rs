use ddb_local::backend::InMemoryDynamoDb;
use ddb_local::error::{CreateTableError, GetItemError, PutItemError, UpdateItemError};
use ddb_local::input::{CreateTableInput, GetItemInput, PutItemInput, UpdateItemInput};
use ddb_local::value::{AttributeValue, Item};
use ddb_local::{DynamoDb, DynamoDbLocal, DynamoDbLocalBuilder};

fn text(value: &str) -> AttributeValue {
    AttributeValue::S(value.to_string())
}

fn number(value: &str) -> AttributeValue {
    AttributeValue::N(value.to_string())
}

fn item_of(pairs: Vec<(&str, AttributeValue)>) -> Item {
    let mut item = Item::new();
    for (name, value) in pairs {
        item.insert(name.to_string(), value);
    }
    item
}

fn write(store: &mut InMemoryDynamoDb, table: &str, item: Item) -> Result<(), PutItemError> {
    store
        .put_item(PutItemInput {
            table_name: table.to_string(),
            item,
            condition_expression: None,
            expression_attribute_values: None,
        })
        .map(|_| ())
}

fn write_if(
    store: &mut InMemoryDynamoDb,
    table: &str,
    item: Item,
    condition: &str,
    values: Option<Item>,
) -> Result<(), PutItemError> {
    store
        .put_item(PutItemInput {
            table_name: table.to_string(),
            item,
            condition_expression: Some(condition.to_string()),
            expression_attribute_values: values,
        })
        .map(|_| ())
}

fn read(store: &InMemoryDynamoDb, table: &str, key: Item) -> Result<Option<Item>, GetItemError> {
    store
        .get_item(GetItemInput { table_name: table.to_string(), key })
        .map(|output| output.item)
}

#[test]
fn orders_scenario() {
    let mut store = InMemoryDynamoDb::new();
    store.create_table("orders", &["id"]);

    let first = item_of(vec![("id", text("A")), ("total", number("5"))]);
    assert!(write(&mut store, "orders", first.clone()).is_ok());

    let found = read(&store, "orders", item_of(vec![("id", text("A"))])).unwrap();
    assert_eq!(found, Some(first.clone()));

    let second = item_of(vec![("id", text("A")), ("total", number("9"))]);
    match write_if(&mut store, "orders", second, "attribute_not_exists(id)", None) {
        Err(PutItemError::ConditionalCheckFailedException(message)) => {
            assert_eq!(message, "The conditional request failed");
        }
        other => panic!("expected a failed condition, got: {:?}", other),
    }

    let still = read(&store, "orders", item_of(vec![("id", text("A"))])).unwrap().unwrap();
    assert_eq!(still.get("total"), Some(&number("5")));
    assert_eq!(still, first);
}

#[test]
fn written_item_is_read_back_whole() {
    let mut store = InMemoryDynamoDb::new();
    store.create_table("t", &["pk", "sk"]);
    let mut nested = Item::new();
    nested.insert("inner".to_string(), AttributeValue::L(vec![text("x"), AttributeValue::Bool(true)]));
    let item = item_of(vec![
        ("pk", text("p")),
        ("sk", number("7")),
        ("blob", AttributeValue::B(vec![0, 1, 2])),
        ("map", AttributeValue::M(nested)),
        ("tags", AttributeValue::Ss(vec!["a".to_string(), "b".to_string()])),
        ("none", AttributeValue::Null(true)),
    ]);
    write(&mut store, "t", item.clone()).unwrap();

    let by_key = read(&store, "t", item_of(vec![("pk", text("p")), ("sk", number("7"))]));
    assert_eq!(by_key.unwrap(), Some(item.clone()));
    // The whole item serves as its own key: only the key attributes are read.
    assert_eq!(read(&store, "t", item.clone()).unwrap(), Some(item));
}

#[test]
fn read_of_absent_item_is_empty_and_no_error() {
    let mut store = InMemoryDynamoDb::new();
    store.create_table("t", &["id"]);
    write(&mut store, "t", item_of(vec![("id", text("a"))])).unwrap();
    assert_eq!(read(&store, "t", item_of(vec![("id", text("b"))])).unwrap(), None);
}

#[test]
fn missing_table_is_reported_with_its_name() {
    let mut store = InMemoryDynamoDb::new();
    store.create_table("t", &["id"]);
    match read(&store, "u", item_of(vec![("id", text("a"))])) {
        Err(GetItemError::ResourceNotFoundException(message)) => {
            assert_eq!(message, "Table: u not found");
        }
        other => panic!("expected a missing table, got: {:?}", other),
    }
    match write(&mut store, "u", item_of(vec![("id", text("a"))])) {
        Err(PutItemError::ResourceNotFoundException(message)) => {
            assert_eq!(message, "Table: u not found");
        }
        other => panic!("expected a missing table, got: {:?}", other),
    }
    // The table is looked up first: a false condition or a missing key changes nothing.
    match write_if(&mut store, "u", Item::new(), "attribute_exists(id)", None) {
        Err(PutItemError::ResourceNotFoundException(message)) => {
            assert_eq!(message, "Table: u not found");
        }
        other => panic!("expected a missing table, got: {:?}", other),
    }
    match read(&store, "", Item::new()) {
        Err(GetItemError::ResourceNotFoundException(message)) => {
            assert_eq!(message, "Table:  not found");
        }
        other => panic!("expected a missing table, got: {:?}", other),
    }
}

#[test]
fn error_message_is_given_by_its_method() {
    let store = InMemoryDynamoDb::new();
    let error = read(&store, "u", Item::new()).unwrap_err();
    assert_eq!(error.message(), "Table: u not found");
    let error = PutItemError::ConditionalCheckFailedException("m".to_string());
    assert_eq!(error.message(), "m");
    let error = CreateTableError::ResourceInUseException("n".to_string());
    assert_eq!(error.message(), "n");
    let error = UpdateItemError::Unsupported("o".to_string());
    assert_eq!(error.message(), "o");
}

#[test]
fn second_creation_fails_and_keeps_the_table() {
    let mut store = InMemoryDynamoDb::new();
    let created = DynamoDb::create_table(
        &mut store,
        CreateTableInput { table_name: "t".to_string(), key_schema: vec!["id".to_string()] },
    );
    assert!(created.is_ok());
    let item = item_of(vec![("id", text("a")), ("other", text("o"))]);
    write(&mut store, "t", item.clone()).unwrap();

    let again = DynamoDb::create_table(
        &mut store,
        CreateTableInput { table_name: "t".to_string(), key_schema: vec!["other".to_string()] },
    );
    match again {
        Err(CreateTableError::ResourceInUseException(message)) => {
            assert_eq!(message, "Table t already exists");
        }
        other => panic!("expected a name collision, got: {:?}", other),
    }

    // The schema is still ["id"]: a key without "other" is accepted, and the item is there.
    assert_eq!(read(&store, "t", item_of(vec![("id", text("a"))])).unwrap(), Some(item));
    // A key with "other" alone lacks the key attribute.
    match read(&store, "t", item_of(vec![("other", text("o"))])) {
        Err(GetItemError::ValidationException(_)) => {}
        other => panic!("expected a missing key attribute, got: {:?}", other),
    }
}

#[test]
fn direct_creation_adds_the_table() {
    let mut store = InMemoryDynamoDb::new();
    assert!(!store.has_table("t"));
    store.create_table("t", &["id", "sk"]);
    assert!(store.has_table("t"));
    assert!(!store.has_table("u"));
    assert!(!store.has_table("T"));
    let again = DynamoDb::create_table(
        &mut store,
        CreateTableInput { table_name: "t".to_string(), key_schema: vec![] },
    );
    assert!(again.is_err());
    // Both key attributes are asked for.
    match write(&mut store, "t", item_of(vec![("id", text("a"))])) {
        Err(PutItemError::ValidationException(_)) => {}
        other => panic!("expected a missing key attribute, got: {:?}", other),
    }
    assert!(write(&mut store, "t", item_of(vec![("id", text("a")), ("sk", text("b"))])).is_ok());
}

#[test]
fn missing_key_attribute_is_rejected() {
    let mut store = InMemoryDynamoDb::new();
    store.create_table("t", &["id"]);
    match write(&mut store, "t", item_of(vec![("name", text("n"))])) {
        Err(PutItemError::ValidationException(message)) => {
            assert_eq!(message, "One of the required keys was not given a value");
        }
        other => panic!("expected a missing key attribute, got: {:?}", other),
    }
    match read(&store, "t", Item::new()) {
        Err(GetItemError::ValidationException(message)) => {
            assert_eq!(message, "One of the required keys was not given a value");
        }
        other => panic!("expected a missing key attribute, got: {:?}", other),
    }
    // The key is looked at before the condition.
    match write_if(&mut store, "t", Item::new(), "attribute_exists(id)", None) {
        Err(PutItemError::ValidationException(_)) => {}
        other => panic!("expected a missing key attribute, got: {:?}", other),
    }
}

#[test]
fn write_replaces_the_item_under_its_key() {
    let mut store = InMemoryDynamoDb::new();
    store.create_table("t", &["id"]);
    write(&mut store, "t", item_of(vec![("id", text("a")), ("old", text("1"))])).unwrap();
    let newer = item_of(vec![("id", text("a")), ("new", text("2"))]);
    write(&mut store, "t", newer.clone()).unwrap();
    let found = read(&store, "t", item_of(vec![("id", text("a"))])).unwrap().unwrap();
    assert_eq!(found, newer);
    assert!(!found.contains_key("old"));
}

#[test]
fn keys_differ_by_value_tag_and_order() {
    let mut store = InMemoryDynamoDb::new();
    store.create_table("t", &["pk", "sk"]);
    let one = item_of(vec![("pk", text("1")), ("sk", text("2")), ("n", text("one"))]);
    let two = item_of(vec![("pk", number("1")), ("sk", text("2")), ("n", text("two"))]);
    let three = item_of(vec![("pk", text("2")), ("sk", text("1")), ("n", text("three"))]);
    let four = item_of(vec![("pk", text("12")), ("sk", text("")), ("n", text("four"))]);
    let five = item_of(vec![("pk", text("1")), ("sk", text("2 ")), ("n", text("five"))]);
    for item in [&one, &two, &three, &four, &five] {
        write(&mut store, "t", item.clone()).unwrap();
    }
    for item in [&one, &two, &three, &four, &five] {
        let key = item_of(vec![
            ("pk", item.get("pk").unwrap().clone()),
            ("sk", item.get("sk").unwrap().clone()),
        ]);
        assert_eq!(read(&store, "t", key).unwrap().as_ref(), Some(item));
    }
}

#[test]
fn tables_do_not_share_items() {
    let mut store = InMemoryDynamoDb::new();
    store.create_table("a", &["id"]);
    store.create_table("b", &["id"]);
    write(&mut store, "a", item_of(vec![("id", text("x")), ("in", text("a"))])).unwrap();
    assert_eq!(read(&store, "b", item_of(vec![("id", text("x"))])).unwrap(), None);
    write(&mut store, "b", item_of(vec![("id", text("x")), ("in", text("b"))])).unwrap();
    let from_a = read(&store, "a", item_of(vec![("id", text("x"))])).unwrap().unwrap();
    assert_eq!(from_a.get("in"), Some(&text("a")));
}

#[test]
fn conditional_write_stores_once() {
    let mut store = InMemoryDynamoDb::new();
    store.create_table("t", &["id"]);
    let item = item_of(vec![("id", text("a")), ("n", number("1"))]);
    assert!(write_if(&mut store, "t", item.clone(), "attribute_not_exists(id)", None).is_ok());
    for _ in 0..3 {
        match write_if(&mut store, "t", item.clone(), "attribute_not_exists(id)", None) {
            Err(PutItemError::ConditionalCheckFailedException(_)) => {}
            other => panic!("expected a failed condition, got: {:?}", other),
        }
    }
    // Another key is free.
    let other = item_of(vec![("id", text("b"))]);
    assert!(write_if(&mut store, "t", other, "attribute_not_exists(id)", None).is_ok());
}

#[test]
fn racing_conditional_writes_have_one_winner() {
    let mut store = InMemoryDynamoDb::new();
    store.create_table("t", &["id"]);
    let mut stored: u32 = 0;
    let mut failed: u32 = 0;
    for turn in 0..8u32 {
        let item = item_of(vec![("id", text("key")), ("writer", number(&turn.to_string()))]);
        match write_if(&mut store, "t", item, "attribute_not_exists(id)", None) {
            Ok(()) => stored += 1,
            Err(PutItemError::ConditionalCheckFailedException(_)) => failed += 1,
            Err(other) => panic!("unexpected error: {:?}", other),
        }
    }
    assert_eq!(stored, 1);
    assert_eq!(failed, 7);
    let kept = read(&store, "t", item_of(vec![("id", text("key"))])).unwrap().unwrap();
    assert_eq!(kept.get("writer"), Some(&number("0")));
}

#[test]
fn condition_on_a_non_key_attribute_sees_the_stored_item() {
    let mut store = InMemoryDynamoDb::new();
    store.create_table("t", &["id"]);
    write(&mut store, "t", item_of(vec![("id", text("a")), ("version", number("1"))])).unwrap();

    let values = item_of(vec![(":v", number("1"))]);
    let next = item_of(vec![("id", text("a")), ("version", number("2"))]);
    assert!(write_if(&mut store, "t", next.clone(), "version = :v", Some(values.clone())).is_ok());
    // The stored version is now 2: the same condition fails and nothing changes.
    let late = item_of(vec![("id", text("a")), ("version", number("3"))]);
    match write_if(&mut store, "t", late, "version = :v", Some(values)) {
        Err(PutItemError::ConditionalCheckFailedException(_)) => {}
        other => panic!("expected a failed condition, got: {:?}", other),
    }
    assert_eq!(read(&store, "t", item_of(vec![("id", text("a"))])).unwrap(), Some(next));
    // The condition is held against the stored item, not against the new one.
    let fresh = item_of(vec![("id", text("z")), ("version", number("1"))]);
    assert!(write_if(&mut store, "t", fresh, "attribute_exists(version)", None).is_err());
}

#[test]
fn update_item_is_not_supported() {
    let mut store = InMemoryDynamoDb::new();
    store.create_table("t", &["id"]);
    let item = item_of(vec![("id", text("a"))]);
    write(&mut store, "t", item.clone()).unwrap();
    let result = store.update_item(UpdateItemInput {
        table_name: "t".to_string(),
        key: item_of(vec![("id", text("a"))]),
        update_expression: Some("SET #name = :val".to_string()),
    });
    match result {
        Err(UpdateItemError::Unsupported(message)) => {
            assert_eq!(message, "UpdateItem is not supported");
        }
        other => panic!("expected an unsupported operation, got: {:?}", other),
    }
    assert_eq!(read(&store, "t", item_of(vec![("id", text("a"))])).unwrap(), Some(item));
    let missing = store.update_item(UpdateItemInput {
        table_name: "nonexistent-table".to_string(),
        key: Item::new(),
        update_expression: None,
    });
    assert!(matches!(missing, Err(UpdateItemError::Unsupported(_))));
}

#[test]
fn builder_starts_from_an_empty_backend() {
    let backend = DynamoDbLocal::builder().into_backend();
    assert!(!backend.has_table("t"));
    assert!(matches!(
        read(&backend, "t", Item::new()),
        Err(GetItemError::ResourceNotFoundException(_))
    ));
    let backend = DynamoDbLocalBuilder::new().into_backend();
    assert!(!backend.has_table("t"));
    let backend = DynamoDbLocalBuilder::default().into_backend();
    assert!(!backend.has_table("t"));
    assert!(!InMemoryDynamoDb::default().has_table("t"));
}

#[test]
fn builder_serves_the_backend_it_was_given() {
    let mut store = InMemoryDynamoDb::new();
    store.create_table("t", &["id"]);
    let item = item_of(vec![("id", text("a"))]);
    write(&mut store, "t", item.clone()).unwrap();
    let backend = DynamoDbLocal::builder().with_backend(store).into_backend();
    assert!(backend.has_table("t"));
    assert_eq!(read(&backend, "t", item.clone()).unwrap(), Some(item));
}
