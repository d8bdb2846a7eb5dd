//! A table: its key schema and the items stored under their composite keys.

use crate::assoc::{lemma_absent, lemma_last_wins, lemma_push, lemma_replace, to_map};
use crate::value::{list_equal, list_view, strings_view, AttributeValue, Attributes, Item, Value};
use vstd::prelude::*;

verus! {

/// Whether `item` has every attribute that `schema` names.
pub open spec fn has_key_attributes(schema: Seq<Seq<char>>, item: Attributes) -> bool {
    forall|i: int| 0 <= i < schema.len() ==> item.contains_key(#[trigger] schema[i])
}

/// The composite key of `item` under `schema`: the values of the attributes
/// that the schema names, in the order of the schema.
pub open spec fn key_of(schema: Seq<Seq<char>>, item: Attributes) -> Seq<Value> {
    Seq::new(schema.len(), |i: int| item[schema[i]])
}

/// The mathematical model of a table.
pub struct TableView {
    /// The names of the key attributes, in their declared order.
    pub schema: Seq<Seq<char>>,
    /// The stored items by composite key.
    pub items: Map<Seq<Value>, Attributes>,
}

impl TableView {
    /// A table without items.
    pub open spec fn empty(schema: Seq<Seq<char>>) -> TableView {
        TableView { schema, items: Map::empty() }
    }

    /// Whether every stored item has the key attributes and stands under its
    /// own composite key.
    pub open spec fn wf(self) -> bool {
        forall|k: Seq<Value>| #[trigger]
            self.items.contains_key(k) ==> has_key_attributes(self.schema, self.items[k])
                && key_of(self.schema, self.items[k]) == k
    }

    /// The table after `item` was stored under its composite key.
    pub open spec fn with_item(self, item: Attributes) -> TableView {
        TableView { schema: self.schema, items: self.items.insert(key_of(self.schema, item), item) }
    }
}

/// A table: the names of its key attributes and its items.
///
/// The composite key of an item is the sequence of the values that it has
/// under the key attributes, in the order of the schema. Keys are compared as
/// values are: two items stand under one key exactly when they agree on every
/// key attribute, so no two different sequences of key values fall together.
///
/// The items are kept in a vector of pairs of composite key and item; where a
/// key stands more than once the last pair is the one that counts. Storing
/// replaces in place, so a table filled through this interface holds each key
/// once.
#[derive(Debug)]
pub struct TableStore {
    schema: Vec<String>,
    items: Vec<(Vec<AttributeValue>, Item)>,
}

/// The models of a sequence of stored pairs.
pub open spec fn item_models(s: Seq<(Vec<AttributeValue>, Item)>) -> Seq<(Seq<Value>, Attributes)> {
    Seq::new(s.len(), |i: int| (list_view(s[i].0@), s[i].1@))
}

impl TableStore {
    /// The model of this table.
    pub closed spec fn view(&self) -> TableView {
        TableView { schema: strings_view(self.schema@), items: to_map(item_models(self.items@)) }
    }

    /// A table without items, whose key attributes are `schema`.
    pub fn new(schema: Vec<String>) -> (r: TableStore)
        ensures
            r@ == TableView::empty(strings_view(schema@)),
            r@.wf(),
    {
        TableStore { schema, items: Vec::new() }
    }

    /// The names of the key attributes, in their declared order.
    pub fn schema(&self) -> (r: &Vec<String>)
        ensures
            strings_view(r@) == self@.schema,
    {
        &self.schema
    }

    /// Derives the composite key of `item`: the values of the key attributes
    /// in the order of the schema. `None` where the item lacks one of them.
    pub fn key_from_item(&self, item: &Item) -> (r: Option<Vec<AttributeValue>>)
        ensures
            match r {
                Some(key) => has_key_attributes(self@.schema, item@) && list_view(key@) == key_of(
                    self@.schema,
                    item@,
                ),
                None => !has_key_attributes(self@.schema, item@),
            },
    {
        let ghost schema = strings_view(self.schema@);
        let mut key: Vec<AttributeValue> = Vec::new();
        let mut i: usize = 0;
        while i < self.schema.len()
            invariant
                i <= self.schema.len(),
                schema == strings_view(self.schema@),
                key.len() == i,
                forall|j: int|
                    0 <= j < i ==> item@.contains_key(#[trigger] schema[j]) && key@[j].view()
                        == item@[schema[j]],
            decreases self.schema.len() - i,
        {
            assert(schema[i as int] == self.schema@[i as int]@);
            match item.get(self.schema[i].as_str()) {
                Some(value) => {
                    key.push(value.copy());
                },
                None => {
                    return None;
                },
            }
            i = i + 1;
        }
        assert(list_view(key@) =~= key_of(schema, item@));
        Some(key)
    }

    /// The index of the pair that counts for `key`, if there is one.
    fn position(&self, key: &Vec<AttributeValue>) -> (r: Option<usize>)
        ensures
            match r {
                Some(i) => {
                    &&& i < self.items.len()
                    &&& list_view(self.items@[i as int].0@) == list_view(key@)
                    &&& forall|j: int|
                        i < j < self.items.len() ==> list_view(self.items@[j].0@) != list_view(
                            key@,
                        )
                    &&& self@.items.contains_key(list_view(key@))
                    &&& self@.items[list_view(key@)] == self.items@[i as int].1@
                },
                None => !self@.items.contains_key(list_view(key@)),
            },
    {
        let mut i: usize = self.items.len();
        while i > 0
            invariant
                i <= self.items.len(),
                forall|j: int|
                    i <= j < self.items.len() ==> list_view(self.items@[j].0@) != list_view(key@),
            decreases i,
        {
            i = i - 1;
            if list_equal(&self.items[i].0, key) {
                proof {
                    lemma_last_wins(item_models(self.items@), list_view(key@), i as int);
                }
                return Some(i);
            }
        }
        proof {
            lemma_absent(item_models(self.items@), list_view(key@));
        }
        None
    }

    /// The item stored under `key`, if there is one.
    pub fn get(&self, key: &Vec<AttributeValue>) -> (r: Option<&Item>)
        ensures
            match r {
                Some(item) => self@.items.contains_key(list_view(key@)) && item@
                    == self@.items[list_view(key@)],
                None => !self@.items.contains_key(list_view(key@)),
            },
    {
        match self.position(key) {
            Some(i) => Some(&self.items[i].1),
            None => None,
        }
    }

    /// Stores `item` under its composite key, in place of the item that
    /// stood there, if one did. An item that lacks a key attribute is handed
    /// back, and nothing changes.
    pub fn put(&mut self, item: Item) -> (r: Result<(), Item>)
        ensures
            old(self)@.wf() ==> final(self)@.wf(),
            match r {
                Ok(_) => has_key_attributes(old(self)@.schema, item@) && final(self)@ == old(
                    self,
                )@.with_item(item@),
                Err(back) => !has_key_attributes(old(self)@.schema, item@) && final(self)@ == old(
                    self,
                )@ && back@ == item@,
            },
    {
        match self.key_from_item(&item) {
            Some(key) => {
                self.insert(key, item);
                Ok(())
            },
            None => Err(item),
        }
    }

    /// Stores `item` under `key`, in place of the item that stood there, if
    /// one did.
    pub(crate) fn insert(&mut self, key: Vec<AttributeValue>, item: Item)
        ensures
            final(self)@.schema == old(self)@.schema,
            final(self)@.items == old(self)@.items.insert(list_view(key@), item@),
    {
        let ghost models = item_models(self.items@);
        match self.position(&key) {
            Some(i) => {
                proof {
                    lemma_replace(models, i as int, (list_view(key@), item@));
                    assert(item_models(self.items@.update(i as int, (key, item))) == models.update(
                        i as int,
                        (list_view(key@), item@),
                    ));
                }
                self.items.set(i, (key, item));
            },
            None => {
                proof {
                    lemma_push(models, (list_view(key@), item@));
                    assert(item_models(self.items@.push((key, item))) == models.push(
                        (list_view(key@), item@),
                    ));
                }
                self.items.push((key, item));
            },
        }
    }
}

} // verus!
