//! The typed outputs of the operations.

use crate::value::Item;
use vstd::prelude::*;

verus! {

/// The output of `get_item`: a copy of the stored item, or nothing where no
/// item stands under the key.
#[derive(Debug)]
pub struct GetItemOutput {
    pub item: Option<Item>,
}

/// The output of a `put_item` that stored its item.
#[derive(Debug)]
pub struct PutItemOutput {}

/// The output of a `create_table` that created its table.
#[derive(Debug)]
pub struct CreateTableOutput {}

/// The output of `update_item`.
#[derive(Debug)]
pub struct UpdateItemOutput {}

} // verus!
