use ddb_local::backend::InMemoryDynamoDb;
use ddb_local::error::{CreateTableError, GetItemError, PutItemError};
use ddb_local::input::{CreateTableInput, GetItemInput, PutItemInput};
use ddb_local::value::{AttributeValue, Item};
use ddb_local::DynamoDb;

fn s(text: &str) -> AttributeValue {
    AttributeValue::S(text.to_string())
}

fn put(table: &str, item: Item) -> PutItemInput {
    PutItemInput {
        table_name: table.to_string(),
        item,
        condition_expression: None,
        expression_attribute_values: None,
    }
}

fn put_if(table: &str, item: Item, condition: &str) -> PutItemInput {
    PutItemInput {
        table_name: table.to_string(),
        item,
        condition_expression: Some(condition.to_string()),
        expression_attribute_values: None,
    }
}

fn get(table: &str, key: Item) -> GetItemInput {
    GetItemInput { table_name: table.to_string(), key }
}

#[test]
fn test_put_and_get_item() {
    let mut store = InMemoryDynamoDb::new();
    store.create_table("test-table", &["id"]);

    let mut item = Item::new();
    item.insert("id".to_string(), s("test-id"));
    item.insert("name".to_string(), s("test-name"));

    let _put_result = store.put_item(put("test-table", item.clone())).unwrap();

    let mut key = Item::new();
    key.insert("id".to_string(), s("test-id"));

    let get_result = store.get_item(get("test-table", key));

    assert!(get_result.is_ok());
    let response = get_result.unwrap();
    assert!(response.item.is_some());
}

#[test]
fn test_get_nonexistent_item() {
    let mut store = InMemoryDynamoDb::new();
    store.create_table("test-table", &["id"]);

    let mut key = Item::new();
    key.insert("id".to_string(), s("nonexistent"));

    let get_result = store.get_item(get("test-table", key));

    assert!(get_result.is_ok());
    let response = get_result.unwrap();
    assert!(response.item.is_none());
}

#[test]
fn test_conditional_put_attribute_not_exists_success() {
    let mut store = InMemoryDynamoDb::new();
    store.create_table("test-table", &["id"]);

    let mut item = Item::new();
    item.insert("id".to_string(), s("new-id"));
    item.insert("name".to_string(), s("test-name"));

    let put_result = store.put_item(put_if("test-table", item.clone(), "attribute_not_exists(id)"));

    assert!(put_result.is_ok());
}

#[test]
fn test_conditional_put_attribute_not_exists_failure() {
    let mut store = InMemoryDynamoDb::new();
    store.create_table("test-table", &["id"]);

    let mut item = Item::new();
    item.insert("id".to_string(), s("existing-id"));
    item.insert("name".to_string(), s("test-name"));

    store.put_item(put("test-table", item.clone())).unwrap();

    let put_result = store.put_item(put_if("test-table", item.clone(), "attribute_not_exists(id)"));

    assert!(put_result.is_err());
    match put_result.unwrap_err() {
        PutItemError::ConditionalCheckFailedException(_) => {}
        other => panic!("Expected ConditionalCheckFailedException, got: {:?}", other),
    }
}

#[test]
fn test_conditional_put_and_expression() {
    let mut store = InMemoryDynamoDb::new();
    store.create_table("test-table", &["id", "sk"]);

    let mut item = Item::new();
    item.insert("id".to_string(), s("test-id"));
    item.insert("sk".to_string(), s("test-sk"));
    item.insert("name".to_string(), s("test-name"));

    let put_result = store.put_item(put_if(
        "test-table",
        item.clone(),
        "attribute_not_exists(id) AND attribute_not_exists(sk)",
    ));

    assert!(put_result.is_ok());
}

#[test]
fn test_conditional_put_and_expression_partial_failure() {
    let mut store = InMemoryDynamoDb::new();
    store.create_table("test-table", &["id"]);

    let mut existing_item = Item::new();
    existing_item.insert("id".to_string(), s("existing-id"));
    existing_item.insert("other".to_string(), s("other-value"));

    store.put_item(put("test-table", existing_item)).unwrap();

    let mut new_item = Item::new();
    new_item.insert("id".to_string(), s("existing-id"));
    new_item.insert("sk".to_string(), s("new-sk"));

    let put_result = store.put_item(put_if(
        "test-table",
        new_item,
        "attribute_not_exists(id) AND attribute_not_exists(sk)",
    ));

    assert!(put_result.is_err());
    match put_result.unwrap_err() {
        PutItemError::ConditionalCheckFailedException(_) => {}
        other => panic!("Expected ConditionalCheckFailedException, got: {:?}", other),
    }
}

#[test]
fn test_multiple_clients_same_store() {
    let mut store = InMemoryDynamoDb::new();
    store.create_table("shared-table", &["id"]);

    let mut item = Item::new();
    item.insert("id".to_string(), s("shared-id"));

    {
        let writer = &mut store;
        writer.put_item(put("shared-table", item.clone())).unwrap();
    }

    let mut key = Item::new();
    key.insert("id".to_string(), s("shared-id"));

    let reader = &store;
    let get_result = reader.get_item(get("shared-table", key));

    assert!(get_result.is_ok());
    let response = get_result.unwrap();
    assert!(response.item.is_some());
}

#[test]
fn test_condition_expression_basic() {
    let mut store = InMemoryDynamoDb::new();
    store.create_table("test-table", &["shard_id", "sequence_number"]);

    let mut item = Item::new();
    item.insert("shard_id".to_string(), s("test-shard"));
    item.insert("sequence_number".to_string(), s("1"));
    item.insert("batch_id".to_string(), s("test-batch"));

    let result1 = store.put_item(put_if(
        "test-table",
        item.clone(),
        "attribute_not_exists(sequence_number)",
    ));

    assert!(result1.is_ok(), "First put should succeed");

    let result2 = store.put_item(put_if(
        "test-table",
        item.clone(),
        "attribute_not_exists(sequence_number)",
    ));

    assert!(result2.is_err(), "Second put should fail due to condition");

    match result2.unwrap_err() {
        PutItemError::ConditionalCheckFailedException(_) => {}
        other => panic!("Expected ConditionalCheckFailedException, got: {:?}", other),
    }
}

#[test]
fn test_get_item_table_not_found() {
    let store = InMemoryDynamoDb::new();

    let mut key = Item::new();
    key.insert("id".to_string(), s("test-id"));

    let get_result = store.get_item(get("nonexistent-table", key));

    assert!(get_result.is_err());
    match get_result.unwrap_err() {
        GetItemError::ResourceNotFoundException(message) => {
            assert!(message.contains("Table: nonexistent-table not found"));
        }
        other => panic!("Expected ResourceNotFoundException, got: {:?}", other),
    }
}

#[test]
fn test_put_item_table_not_found() {
    let mut store = InMemoryDynamoDb::new();

    let mut item = Item::new();
    item.insert("id".to_string(), s("test-id"));
    item.insert("name".to_string(), s("test-name"));

    let put_result = store.put_item(put("nonexistent-table", item));

    assert!(put_result.is_err());
    match put_result.unwrap_err() {
        PutItemError::ResourceNotFoundException(message) => {
            assert!(message.contains("Table: nonexistent-table not found"));
        }
        other => panic!("Expected ResourceNotFoundException, got: {:?}", other),
    }
}

#[test]
fn test_existing_functionality_still_works() {
    let mut store = InMemoryDynamoDb::new();
    store.create_table("test-table", &["id"]);

    let mut item = Item::new();
    item.insert("id".to_string(), s("test-id"));
    item.insert("name".to_string(), s("test-name"));

    let put_result = store.put_item(put("test-table", item.clone()));

    assert!(put_result.is_ok());

    let mut key = Item::new();
    key.insert("id".to_string(), s("test-id"));

    let get_result = store.get_item(get("test-table", key));

    assert!(get_result.is_ok());
    let response = get_result.unwrap();
    assert!(response.item.is_some());
    assert_eq!(
        response.item.unwrap().get("name").unwrap().as_s().unwrap(),
        "test-name"
    );
}

#[test]
fn test_create_table() {
    let mut store = InMemoryDynamoDb::new();

    let result = DynamoDb::create_table(
        &mut store,
        CreateTableInput {
            table_name: "new-table".to_string(),
            key_schema: vec!["id".to_string()],
        },
    );

    assert!(result.is_ok());

    let mut item = Item::new();
    item.insert("id".to_string(), s("test-id"));

    let put_result = store.put_item(put("new-table", item));

    assert!(put_result.is_ok());
}

#[test]
fn test_create_table_already_exists() {
    let mut store = InMemoryDynamoDb::new();
    store.create_table("existing-table", &["id"]);

    let result = DynamoDb::create_table(
        &mut store,
        CreateTableInput {
            table_name: "existing-table".to_string(),
            key_schema: vec!["id".to_string()],
        },
    );

    assert!(result.is_err());
    match result.unwrap_err() {
        CreateTableError::ResourceInUseException(_) => {}
    }
}
