use ddb_local::backend::InMemoryDynamoDb;
use ddb_local::input::PutItemInput;
use ddb_local::table::TableStore;
use ddb_local::value::{AttributeValue, Item};
use ddb_local::DynamoDb;

fn text(value: &str) -> AttributeValue {
    AttributeValue::S(value.to_string())
}

fn item_of(pairs: Vec<(&str, AttributeValue)>) -> Item {
    let mut item = Item::new();
    for (name, value) in pairs {
        item.insert(name.to_string(), value);
    }
    item
}

#[test]
fn new_table_keeps_its_schema_and_is_empty() {
    let table = TableStore::new(vec!["pk".to_string(), "sk".to_string()]);
    assert_eq!(table.schema(), &vec!["pk".to_string(), "sk".to_string()]);
    assert!(table.get(&vec![text("a"), text("b")]).is_none());
}

#[test]
fn key_is_the_values_of_the_key_attributes_in_schema_order() {
    let table = TableStore::new(vec!["pk".to_string(), "sk".to_string()]);
    let item = item_of(vec![
        ("other", text("o")),
        ("sk", AttributeValue::N("2".to_string())),
        ("pk", text("p")),
    ]);
    assert_eq!(
        table.key_from_item(&item),
        Some(vec![text("p"), AttributeValue::N("2".to_string())])
    );
}

#[test]
fn key_of_an_item_without_a_key_attribute_is_none() {
    let table = TableStore::new(vec!["pk".to_string(), "sk".to_string()]);
    assert_eq!(table.key_from_item(&item_of(vec![("pk", text("p"))])), None);
    assert_eq!(table.key_from_item(&item_of(vec![("sk", text("s"))])), None);
    assert_eq!(table.key_from_item(&Item::new()), None);
}

#[test]
fn key_of_a_table_without_key_attributes_is_empty() {
    let table = TableStore::new(vec![]);
    assert_eq!(table.key_from_item(&Item::new()), Some(vec![]));
    assert_eq!(table.key_from_item(&item_of(vec![("a", text("1"))])), Some(vec![]));
}

#[test]
fn put_stores_under_the_key_of_the_item() {
    let mut table = TableStore::new(vec!["pk".to_string()]);
    let first = item_of(vec![("pk", text("p")), ("n", text("1"))]);
    assert_eq!(table.put(first.clone()), Ok(()));
    assert_eq!(table.get(&vec![text("p")]), Some(&first));
    assert_eq!(table.get(&vec![text("q")]), None);
    assert_eq!(table.get(&vec![]), None);
    assert_eq!(table.get(&vec![text("p"), text("p")]), None);

    let second = item_of(vec![("pk", text("p")), ("n", text("2"))]);
    assert_eq!(table.put(second.clone()), Ok(()));
    assert_eq!(table.get(&vec![text("p")]), Some(&second));
}

#[test]
fn put_hands_back_an_item_without_key() {
    let mut table = TableStore::new(vec!["pk".to_string()]);
    let item = item_of(vec![("n", text("1"))]);
    assert_eq!(table.put(item.clone()), Err(item));
}

#[test]
fn lookup_gives_the_table_of_that_name() {
    let mut store = InMemoryDynamoDb::new();
    assert!(store.table("t").is_none());
    store.create_table("t", &["pk", "sk"]);
    store.create_table("u", &["id"]);
    let schema = store.table("t").unwrap().schema().clone();
    assert_eq!(schema, vec!["pk".to_string(), "sk".to_string()]);
    assert_eq!(store.table("u").unwrap().schema(), &vec!["id".to_string()]);
    assert!(store.table("v").is_none());

    let item = item_of(vec![("id", text("a")), ("n", text("1"))]);
    store
        .put_item(PutItemInput {
            table_name: "u".to_string(),
            item: item.clone(),
            condition_expression: None,
            expression_attribute_values: None,
        })
        .unwrap();
    assert_eq!(store.table("u").unwrap().get(&vec![text("a")]), Some(&item));
    assert_eq!(store.table("t").unwrap().get(&vec![text("a")]), None);
}
