//! The in-memory backend: the catalog of tables and the operations on it.

use crate::assoc::{lemma_absent, lemma_last_wins, lemma_push, lemma_replace, to_map};
use crate::catalog::{catalog_wf, optional_item, optional_text, CatalogView};
use crate::condition::evaluate_condition_expression;
use crate::error::{
    table_in_use, table_not_found, CreateTableError, GetItemError, PutItemError, UpdateItemError,
};
use crate::input::{CreateTableInput, GetItemInput, PutItemInput, UpdateItemInput};
use crate::laws::law_put_keeps_well_formed;
use crate::output::{CreateTableOutput, GetItemOutput, PutItemOutput, UpdateItemOutput};
use crate::table::{TableStore, TableView};
use crate::value::strings_view;
use crate::DynamoDb;
use vstd::prelude::*;

verus! {

/// The in-memory backend: a catalog of tables.
///
/// The tables are kept in a vector of pairs of name and table; where a name
/// stands more than once the last pair is the one that counts. No operation
/// adds a second pair for a name.
#[derive(Debug)]
pub struct InMemoryDynamoDb {
    tables: Vec<(String, TableStore)>,
}

/// The models of a sequence of named tables.
pub open spec fn table_models(s: Seq<(String, TableStore)>) -> Seq<(Seq<char>, TableView)> {
    Seq::new(s.len(), |i: int| (s[i].0@, s[i].1@))
}

impl InMemoryDynamoDb {
    /// The model of the backend: its tables by name.
    pub closed spec fn view(&self) -> CatalogView {
        to_map(table_models(self.tables@))
    }

    /// Whether every table of the backend is well formed: every stored item
    /// has the key attributes of its table and stands under its own
    /// composite key.
    pub open spec fn wf(&self) -> bool {
        catalog_wf(self@)
    }

    /// A backend without tables.
    pub fn new() -> (r: InMemoryDynamoDb)
        ensures
            r@ == Map::<Seq<char>, TableView>::empty(),
            r.wf(),
    {
        InMemoryDynamoDb { tables: Vec::new() }
    }

    /// The index of the pair that counts for `table_name`, if there is one.
    fn position(&self, table_name: &String) -> (r: Option<usize>)
        ensures
            match r {
                Some(i) => {
                    &&& i < self.tables.len()
                    &&& self.tables@[i as int].0@ == table_name@
                    &&& forall|j: int|
                        i < j < self.tables.len() ==> self.tables@[j].0@ != table_name@
                    &&& self@.contains_key(table_name@)
                    &&& self@[table_name@] == self.tables@[i as int].1@
                },
                None => !self@.contains_key(table_name@),
            },
    {
        let mut i: usize = self.tables.len();
        while i > 0
            invariant
                i <= self.tables.len(),
                forall|j: int| i <= j < self.tables.len() ==> self.tables@[j].0@ != table_name@,
            decreases i,
        {
            i = i - 1;
            if self.tables[i].0 == *table_name {
                proof {
                    lemma_last_wins(table_models(self.tables@), table_name@, i as int);
                }
                return Some(i);
            }
        }
        proof {
            lemma_absent(table_models(self.tables@), table_name@);
        }
        None
    }

    /// Adds the table `name` with the key attributes `schema`.
    fn add_table(&mut self, name: String, schema: Vec<String>)
        ensures
            old(self).wf() ==> final(self).wf(),
            final(self)@ == old(self)@.insert(name@, TableView::empty(strings_view(schema@))),
    {
        let table = TableStore::new(schema);
        proof {
            let models = table_models(self.tables@);
            lemma_push(models, (name@, table@));
            assert(table_models(self.tables@.push((name, table))) == models.push(
                (name@, table@),
            ));
        }
        self.tables.push((name, table));
        proof {
            if old(self).wf() {
                assert forall|n: Seq<char>| #[trigger] self@.contains_key(n) implies self@[n].wf() by {
                    if n != name@ {
                        assert(old(self)@.contains_key(n));
                    }
                }
            }
        }
    }

    /// Looks up the table `table_name`.
    pub fn table(&self, table_name: &str) -> (r: Option<&TableStore>)
        ensures
            match r {
                Some(table) => self@.contains_key(table_name@) && table@ == self@[table_name@],
                None => !self@.contains_key(table_name@),
            },
    {
        let name = String::from_str(table_name);
        match self.position(&name) {
            Some(i) => Some(&self.tables[i].1),
            None => None,
        }
    }

    /// Tells whether a table of that name exists.
    pub fn has_table(&self, table_name: &str) -> (r: bool)
        ensures
            r == self@.contains_key(table_name@),
    {
        let name = String::from_str(table_name);
        self.position(&name).is_some()
    }

    /// Creates the table `table_name` with the key attributes `key_schema`.
    /// The table must not exist yet.
    pub fn create_table(&mut self, table_name: &str, key_schema: &[&str])
        requires
            !old(self)@.contains_key(table_name@),
        ensures
            old(self).wf() ==> final(self).wf(),
            final(self)@ == old(self)@.insert(
                table_name@,
                TableView::empty(Seq::new(key_schema@.len(), |i: int| key_schema@[i]@)),
            ),
    {
        let mut schema: Vec<String> = Vec::new();
        let mut i: usize = 0;
        while i < key_schema.len()
            invariant
                i <= key_schema.len(),
                schema.len() == i,
                forall|j: int| 0 <= j < i ==> schema@[j]@ == key_schema@[j]@,
            decreases key_schema.len() - i,
        {
            schema.push(String::from_str(key_schema[i]));
            i = i + 1;
        }
        assert(strings_view(schema@) == Seq::new(key_schema@.len(), |i: int| key_schema@[i]@));
        self.add_table(String::from_str(table_name), schema);
    }
}

impl Default for InMemoryDynamoDb {
    fn default() -> (r: InMemoryDynamoDb)
        ensures
            r@ == Map::<Seq<char>, TableView>::empty(),
    {
        InMemoryDynamoDb::new()
    }
}

/// The operations on the catalog of the backend. What each of them answers
/// and changes is stated on [`DynamoDb`].
impl DynamoDb for InMemoryDynamoDb {
    open spec fn catalog(&self) -> CatalogView {
        self@
    }

    fn get_item(&self, input: GetItemInput) -> Result<GetItemOutput, GetItemError>
    {
        match self.position(&input.table_name) {
            Some(t) => {
                let table = &self.tables[t].1;
                match table.key_from_item(&input.key) {
                    Some(key) => match table.get(&key) {
                        Some(item) => Ok(GetItemOutput { item: Some(item.copy()) }),
                        None => Ok(GetItemOutput { item: None }),
                    },
                    None => Err(
                        GetItemError::ValidationException(
                            String::from_str("One of the required keys was not given a value"),
                        ),
                    ),
                }
            },
            None => Err(GetItemError::ResourceNotFoundException(table_not_found(&input.table_name))),
        }
    }

    fn put_item(&mut self, input: PutItemInput) -> Result<PutItemOutput, PutItemError>
    {
        let t = match self.position(&input.table_name) {
            Some(t) => t,
            None => {
                return Err(
                    PutItemError::ResourceNotFoundException(table_not_found(&input.table_name)),
                );
            },
        };
        let key = match self.tables[t].1.key_from_item(&input.item) {
            Some(key) => key,
            None => {
                return Err(
                    PutItemError::ValidationException(
                        String::from_str("One of the required keys was not given a value"),
                    ),
                );
            },
        };
        match &input.condition_expression {
            Some(condition) => {
                let existing = self.tables[t].1.get(&key);
                let met = evaluate_condition_expression(
                    condition.as_str(),
                    existing,
                    input.expression_attribute_values.as_ref(),
                );
                if !met {
                    return Err(
                        PutItemError::ConditionalCheckFailedException(
                            String::from_str("The conditional request failed"),
                        ),
                    );
                }
            },
            None => {},
        }
        let ghost models = table_models(self.tables@);
        self.tables[t].1.insert(key, input.item);
        proof {
            let after = self.tables@[t as int];
            assert(after.1@ == old(self)@[input.table_name@].with_item(input.item@));
            lemma_replace(models, t as int, (input.table_name@, after.1@));
            if catalog_wf(old(self)@) {
                law_put_keeps_well_formed(
                    old(self)@,
                    input.table_name@,
                    input.item@,
                    optional_text(input.condition_expression),
                    optional_item(input.expression_attribute_values),
                );
            }
            assert(table_models(self.tables@) == models.update(
                t as int,
                (input.table_name@, after.1@),
            ));
        }
        Ok(PutItemOutput {  })
    }

    fn create_table(&mut self, input: CreateTableInput) -> Result<CreateTableOutput, CreateTableError>
    {
        match self.position(&input.table_name) {
            Some(_) => Err(
                CreateTableError::ResourceInUseException(table_in_use(&input.table_name)),
            ),
            None => {
                self.add_table(input.table_name, input.key_schema);
                Ok(CreateTableOutput {  })
            },
        }
    }

    fn update_item(&mut self, input: UpdateItemInput) -> Result<UpdateItemOutput, UpdateItemError>
    {
        Err(UpdateItemError::Unsupported(String::from_str("UpdateItem is not supported")))
    }
}

} // verus!
