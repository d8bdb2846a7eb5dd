//! An in-memory stand-in for a key-value table service: a catalog of tables
//! with point reads, point writes, table creation and conditional writes.
//!
//! * [`value`] holds the value model: tagged attribute values and items.
//! * [`condition`] evaluates the conditions of conditional writes.
//! * [`table`] holds a table: its key schema and its items by composite key.
//! * [`catalog`] is the model of the catalog and of the operations on it.
//! * [`backend`] holds the backend that runs the operations in memory.
//! * [`laws`] states what holds of the operations on every catalog.
//! * [`input`], [`output`] and [`error`] are the types of the operations.
//! * [`text`] and [`assoc`] are the tools of the others: text search, and
//!   association lists read as maps.
//!
//! A backend is changed through an exclusive reference, so every operation
//! runs alone from its first step to its last. Callers that share a backend
//! put it behind a lock and hold the lock for the whole of an operation.

use crate::backend::InMemoryDynamoDb;
use crate::catalog::{
    after_create, after_put, catalog_wf, create_result, get_result, optional_item, optional_text,
    put_result, CatalogView, GetResult,
};
use crate::error::{
    condition_failed_message, missing_key_message, table_in_use_message,
    table_not_found_message, unsupported_message, CreateTableError, GetItemError, PutItemError,
    UpdateItemError,
};
use crate::input::{CreateTableInput, GetItemInput, PutItemInput, UpdateItemInput};
use crate::output::{CreateTableOutput, GetItemOutput, PutItemOutput, UpdateItemOutput};
use crate::table::TableView;
use crate::value::strings_view;
use vstd::prelude::*;

pub mod assoc;
pub mod backend;
pub mod catalog;
pub mod condition;
pub mod error;
pub mod input;
pub mod laws;
pub mod output;
pub mod table;
pub mod text;
pub mod value;

verus! {

/// The operations of a backend, on the catalog that it holds.
pub trait DynamoDb {
    /// The catalog that the backend holds.
    spec fn catalog(&self) -> CatalogView;

    /// Reads the item that stands under the key `input.key` in the table
    /// `input.table_name`. That no item stands there is no error: the output
    /// then carries none.
    fn get_item(&self, input: GetItemInput) -> (r: Result<GetItemOutput, GetItemError>)
        ensures
            match r {
                Ok(output) => match output.item {
                    Some(item) => get_result(self.catalog(), input.table_name@, input.key@)
                        == GetResult::Found(item@),
                    None => get_result(self.catalog(), input.table_name@, input.key@)
                        == GetResult::Empty,
                },
                Err(GetItemError::ResourceNotFoundException(m)) => get_result(
                    self.catalog(),
                    input.table_name@,
                    input.key@,
                ) == GetResult::NoSuchTable && m@ == table_not_found_message(input.table_name@),
                Err(GetItemError::ValidationException(m)) => get_result(
                    self.catalog(),
                    input.table_name@,
                    input.key@,
                ) == GetResult::MissingKey && m@ == missing_key_message(),
            },
    ;

    /// Writes `input.item` to the table `input.table_name`, under its
    /// composite key and in place of the item that stood there. With a
    /// condition, the item is stored only where the condition holds of the
    /// item that stands under the key; where it does not, nothing changes.
    fn put_item(&mut self, input: PutItemInput) -> (r: Result<PutItemOutput, PutItemError>)
        ensures
            catalog_wf(old(self).catalog()) ==> catalog_wf(final(self).catalog()),
            final(self).catalog() == after_put(
                old(self).catalog(),
                input.table_name@,
                input.item@,
                optional_text(input.condition_expression),
                optional_item(input.expression_attribute_values),
            ),
            match r {
                Ok(_) => put_result(
                    old(self).catalog(),
                    input.table_name@,
                    input.item@,
                    optional_text(input.condition_expression),
                    optional_item(input.expression_attribute_values),
                ) is Stored,
                Err(PutItemError::ResourceNotFoundException(m)) => put_result(
                    old(self).catalog(),
                    input.table_name@,
                    input.item@,
                    optional_text(input.condition_expression),
                    optional_item(input.expression_attribute_values),
                ) is NoSuchTable && m@ == table_not_found_message(input.table_name@),
                Err(PutItemError::ValidationException(m)) => put_result(
                    old(self).catalog(),
                    input.table_name@,
                    input.item@,
                    optional_text(input.condition_expression),
                    optional_item(input.expression_attribute_values),
                ) is MissingKey && m@ == missing_key_message(),
                Err(PutItemError::ConditionalCheckFailedException(m)) => put_result(
                    old(self).catalog(),
                    input.table_name@,
                    input.item@,
                    optional_text(input.condition_expression),
                    optional_item(input.expression_attribute_values),
                ) is ConditionFailed && m@ == condition_failed_message(),
            },
    ;

    /// Creates the empty table `input.table_name` with the key attributes
    /// `input.key_schema`. Where a table of that name exists, the call fails
    /// and nothing changes.
    fn create_table(&mut self, input: CreateTableInput) -> (r: Result<
        CreateTableOutput,
        CreateTableError,
    >)
        ensures
            catalog_wf(old(self).catalog()) ==> catalog_wf(final(self).catalog()),
            final(self).catalog() == after_create(
                old(self).catalog(),
                input.table_name@,
                strings_view(input.key_schema@),
            ),
            match r {
                Ok(_) => create_result(old(self).catalog(), input.table_name@) is Created,
                Err(CreateTableError::ResourceInUseException(m)) => create_result(
                    old(self).catalog(),
                    input.table_name@,
                ) is TableExists && m@ == table_in_use_message(input.table_name@),
            },
    ;

    /// Not implemented: fails on every input and changes nothing.
    fn update_item(&mut self, input: UpdateItemInput) -> (r: Result<
        UpdateItemOutput,
        UpdateItemError,
    >)
        ensures
            final(self).catalog() == old(self).catalog(),
            r matches Err(UpdateItemError::Unsupported(m)) && m@ == unsupported_message(),
    ;
}

/// The entry point for setting up a local instance.
pub struct DynamoDbLocal;

impl DynamoDbLocal {
    /// A builder that starts from an empty in-memory backend.
    pub fn builder() -> (r: DynamoDbLocalBuilder<InMemoryDynamoDb>)
        ensures
            r.chosen().catalog() == Map::<Seq<char>, TableView>::empty(),
    {
        DynamoDbLocalBuilder::new()
    }
}

/// Sets up a local instance: holds the backend that the instance will serve.
pub struct DynamoDbLocalBuilder<B: DynamoDb> {
    backend: B,
}

impl DynamoDbLocalBuilder<InMemoryDynamoDb> {
    /// A builder with an empty in-memory backend.
    pub fn new() -> (r: Self)
        ensures
            r.chosen().catalog() == Map::<Seq<char>, TableView>::empty(),
    {
        DynamoDbLocalBuilder { backend: InMemoryDynamoDb::new() }
    }
}

impl<B: DynamoDb> DynamoDbLocalBuilder<B> {
    /// The backend that the builder holds.
    pub closed spec fn chosen(&self) -> B {
        self.backend
    }

    /// Serves `backend` in place of the backend held so far.
    pub fn with_backend<C: DynamoDb>(self, backend: C) -> (r: DynamoDbLocalBuilder<C>)
        ensures
            r.chosen() == backend,
    {
        DynamoDbLocalBuilder { backend }
    }

    /// Hands the backend to the transport that will serve it.
    pub fn into_backend(self) -> (r: B)
        ensures
            r == self.chosen(),
    {
        self.backend
    }
}

impl Default for DynamoDbLocalBuilder<InMemoryDynamoDb> {
    fn default() -> (r: Self)
        ensures
            r.chosen().catalog() == Map::<Seq<char>, TableView>::empty(),
    {
        DynamoDbLocalBuilder::new()
    }
}

} // verus!
