//! The model of the catalog and of the operations on it.
//!
//! The catalog is a map from table names to [`TableView`]s. The spec
//! functions of this module say what each operation answers and how it
//! changes the catalog.

use crate::condition::condition_holds;
use crate::table::{has_key_attributes, key_of, TableView};
use crate::value::{Attributes, Item};
use vstd::prelude::*;

verus! {

/// The mathematical model of the catalog: the tables by name.
pub type CatalogView = Map<Seq<char>, TableView>;

/// Whether every table of the catalog is well formed.
pub open spec fn catalog_wf(catalog: CatalogView) -> bool {
    forall|name: Seq<char>| #[trigger] catalog.contains_key(name) ==> catalog[name].wf()
}

/// The model of an optional item.
pub open spec fn optional_item(item: Option<Item>) -> Option<Attributes> {
    match item {
        Some(i) => Some(i@),
        None => None,
    }
}

/// The text of an optional string.
pub open spec fn optional_text(text: Option<String>) -> Option<Seq<char>> {
    match text {
        Some(t) => Some(t@),
        None => None,
    }
}

/// The item that stands in `table` under the composite key of `item`, if one
/// does.
pub open spec fn stored_item(table: TableView, item: Attributes) -> Option<Attributes> {
    let key = key_of(table.schema, item);
    if table.items.contains_key(key) {
        Some(table.items[key])
    } else {
        None
    }
}

/// How a read ends.
pub enum GetResult {
    /// An item stands under the key.
    Found(Attributes),
    /// No item stands under the key.
    Empty,
    /// The table does not exist.
    NoSuchTable,
    /// The key lacks one of the table's key attributes.
    MissingKey,
}

/// How a read of `key` from the table `table_name` ends.
pub open spec fn get_result(catalog: CatalogView, table_name: Seq<char>, key: Attributes) -> GetResult {
    if !catalog.contains_key(table_name) {
        GetResult::NoSuchTable
    } else if !has_key_attributes(catalog[table_name].schema, key) {
        GetResult::MissingKey
    } else {
        match stored_item(catalog[table_name], key) {
            Some(item) => GetResult::Found(item),
            None => GetResult::Empty,
        }
    }
}

/// How a write ends.
pub enum PutResult {
    /// The item was stored.
    Stored,
    /// The table does not exist.
    NoSuchTable,
    /// The item lacks one of the table's key attributes.
    MissingKey,
    /// The condition does not hold of the item that stands under the key.
    ConditionFailed,
}

/// How a write of `item` to the table `table_name` ends, under the condition
/// `condition` with the placeholder values `values`.
pub open spec fn put_result(
    catalog: CatalogView,
    table_name: Seq<char>,
    item: Attributes,
    condition: Option<Seq<char>>,
    values: Option<Attributes>,
) -> PutResult {
    if !catalog.contains_key(table_name) {
        PutResult::NoSuchTable
    } else if !has_key_attributes(catalog[table_name].schema, item) {
        PutResult::MissingKey
    } else if condition is Some && !condition_holds(
        condition->0,
        stored_item(catalog[table_name], item),
        values,
    ) {
        PutResult::ConditionFailed
    } else {
        PutResult::Stored
    }
}

/// The catalog after a write: the item stands under its composite key where
/// the write stored it, and nothing has changed where it did not.
pub open spec fn after_put(
    catalog: CatalogView,
    table_name: Seq<char>,
    item: Attributes,
    condition: Option<Seq<char>>,
    values: Option<Attributes>,
) -> CatalogView {
    if put_result(catalog, table_name, item, condition, values) is Stored {
        catalog.insert(table_name, catalog[table_name].with_item(item))
    } else {
        catalog
    }
}

/// How the creation of a table ends.
pub enum CreateResult {
    /// The table was created.
    Created,
    /// A table of that name exists already.
    TableExists,
}

/// How the creation of the table `table_name` ends.
pub open spec fn create_result(catalog: CatalogView, table_name: Seq<char>) -> CreateResult {
    if catalog.contains_key(table_name) {
        CreateResult::TableExists
    } else {
        CreateResult::Created
    }
}

/// The catalog after the creation of the table `table_name` with the key
/// attributes `schema`: the new table is empty, and nothing has changed where
/// a table of that name existed.
pub open spec fn after_create(catalog: CatalogView, table_name: Seq<char>, schema: Seq<Seq<char>>) -> CatalogView {
    if create_result(catalog, table_name) is Created {
        catalog.insert(table_name, TableView::empty(schema))
    } else {
        catalog
    }
}

} // verus!
