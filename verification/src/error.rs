//! The errors of the operations. Each carries a message for the caller.

use vstd::prelude::*;

verus! {

/// The message of the error "no such table".
pub open spec fn table_not_found_message(table_name: Seq<char>) -> Seq<char> {
    "Table: "@ + table_name + " not found"@
}

/// The message of the error "the table exists already".
pub open spec fn table_in_use_message(table_name: Seq<char>) -> Seq<char> {
    "Table "@ + table_name + " already exists"@
}

/// The message of the error "the condition of the write does not hold".
pub open spec fn condition_failed_message() -> Seq<char> {
    "The conditional request failed"@
}

/// The message of the error "a key attribute is missing".
pub open spec fn missing_key_message() -> Seq<char> {
    "One of the required keys was not given a value"@
}

/// The message of the error "the operation is not implemented".
pub open spec fn unsupported_message() -> Seq<char> {
    "UpdateItem is not supported"@
}

/// Why a `get_item` failed.
#[derive(Debug)]
pub enum GetItemError {
    /// The table does not exist.
    ResourceNotFoundException(String),
    /// The key lacks one of the table's key attributes.
    ValidationException(String),
}

/// Why a `put_item` failed.
#[derive(Debug)]
pub enum PutItemError {
    /// The condition of the write does not hold of the stored item.
    ConditionalCheckFailedException(String),
    /// The table does not exist.
    ResourceNotFoundException(String),
    /// The item lacks one of the table's key attributes.
    ValidationException(String),
}

/// Why a `create_table` failed.
#[derive(Debug)]
pub enum CreateTableError {
    /// A table of that name exists already.
    ResourceInUseException(String),
}

/// Why an `update_item` failed.
#[derive(Debug)]
pub enum UpdateItemError {
    /// The operation is not implemented.
    Unsupported(String),
}

impl GetItemError {
    /// The text of the message.
    pub open spec fn text(&self) -> Seq<char> {
        match self {
            GetItemError::ResourceNotFoundException(m) => m@,
            GetItemError::ValidationException(m) => m@,
        }
    }

    /// The message for the caller.
    pub fn message(&self) -> (r: &String)
        ensures
            r@ == self.text(),
    {
        match self {
            GetItemError::ResourceNotFoundException(m) => m,
            GetItemError::ValidationException(m) => m,
        }
    }
}

impl PutItemError {
    /// The text of the message.
    pub open spec fn text(&self) -> Seq<char> {
        match self {
            PutItemError::ConditionalCheckFailedException(m) => m@,
            PutItemError::ResourceNotFoundException(m) => m@,
            PutItemError::ValidationException(m) => m@,
        }
    }

    /// The message for the caller.
    pub fn message(&self) -> (r: &String)
        ensures
            r@ == self.text(),
    {
        match self {
            PutItemError::ConditionalCheckFailedException(m) => m,
            PutItemError::ResourceNotFoundException(m) => m,
            PutItemError::ValidationException(m) => m,
        }
    }
}

impl CreateTableError {
    /// The text of the message.
    pub open spec fn text(&self) -> Seq<char> {
        match self {
            CreateTableError::ResourceInUseException(m) => m@,
        }
    }

    /// The message for the caller.
    pub fn message(&self) -> (r: &String)
        ensures
            r@ == self.text(),
    {
        match self {
            CreateTableError::ResourceInUseException(m) => m,
        }
    }
}

impl UpdateItemError {
    /// The text of the message.
    pub open spec fn text(&self) -> Seq<char> {
        match self {
            UpdateItemError::Unsupported(m) => m@,
        }
    }

    /// The message for the caller.
    pub fn message(&self) -> (r: &String)
        ensures
            r@ == self.text(),
    {
        match self {
            UpdateItemError::Unsupported(m) => m,
        }
    }
}

/// Builds the message of the error "no such table".
pub(crate) fn table_not_found(table_name: &String) -> (r: String)
    ensures
        r@ == table_not_found_message(table_name@),
{
    let mut m = String::from_str("Table: ");
    m.append(table_name.as_str());
    m.append(" not found");
    m
}

/// Builds the message of the error "the table exists already".
pub(crate) fn table_in_use(table_name: &String) -> (r: String)
    ensures
        r@ == table_in_use_message(table_name@),
{
    let mut m = String::from_str("Table ");
    m.append(table_name.as_str());
    m.append(" already exists");
    m
}

} // verus!
