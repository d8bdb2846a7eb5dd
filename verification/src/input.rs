//! The typed inputs of the operations.

use crate::value::Item;
use vstd::prelude::*;

verus! {

/// The input of `get_item`: the table and the key attributes of the item
/// that is asked for.
#[derive(Debug)]
pub struct GetItemInput {
    pub table_name: String,
    pub key: Item,
}

/// The input of `put_item`: the table, the item to store and, for a
/// conditional write, the condition with its placeholder values.
#[derive(Debug)]
pub struct PutItemInput {
    pub table_name: String,
    pub item: Item,
    pub condition_expression: Option<String>,
    pub expression_attribute_values: Option<Item>,
}

/// The input of `create_table`: the name of the new table and the names of
/// its key attributes, in order.
#[derive(Debug)]
pub struct CreateTableInput {
    pub table_name: String,
    pub key_schema: Vec<String>,
}

/// The input of `update_item`.
#[derive(Debug)]
pub struct UpdateItemInput {
    pub table_name: String,
    pub key: Item,
    pub update_expression: Option<String>,
}

} // verus!
