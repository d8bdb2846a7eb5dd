//! The value model: tagged attribute values and the items built from them.
//!
//! An [`AttributeValue`] is modelled by a [`Value`], an [`Item`] by a map from
//! attribute names to `Value`s. Two attribute values are equal when their
//! models are: the tag and the content must both agree, a map compares by its
//! entries whatever their order, and a list or a set of scalars compares
//! element by element.

use crate::assoc::{
    lemma_absent, lemma_carried, lemma_last_wins, lemma_present, lemma_push, lemma_replace, to_map,
};
use vstd::prelude::*;

verus! {

/// The mathematical model of an attribute value.
pub enum Value {
    /// Binary data.
    B(Seq<u8>),
    /// A boolean.
    Bool(bool),
    /// A set of binary values, in the order given.
    Bs(Seq<Seq<u8>>),
    /// A list of values.
    L(Seq<Value>),
    /// A map from attribute names to values.
    M(Map<Seq<char>, Value>),
    /// A number, kept as its decimal text.
    N(Seq<char>),
    /// A set of numbers, in the order given.
    Ns(Seq<Seq<char>>),
    /// The null marker.
    Null(bool),
    /// A string.
    S(Seq<char>),
    /// A set of strings, in the order given.
    Ss(Seq<Seq<char>>),
}

/// The mathematical model of an item: its attributes by name.
pub type Attributes = Map<Seq<char>, Value>;

/// A tagged attribute value.
#[derive(Debug)]
pub enum AttributeValue {
    /// Binary data.
    B(Vec<u8>),
    /// A boolean.
    Bool(bool),
    /// A set of binary values.
    Bs(Vec<Vec<u8>>),
    /// A list of values.
    L(Vec<AttributeValue>),
    /// A map from attribute names to values.
    M(Item),
    /// A number, kept as its decimal text.
    N(String),
    /// A set of numbers.
    Ns(Vec<String>),
    /// The null marker.
    Null(bool),
    /// A string.
    S(String),
    /// A set of strings.
    Ss(Vec<String>),
}

/// A mapping from attribute names to attribute values.
///
/// The entries are kept in a vector; where a name stands more than once the
/// last entry is the one that counts. `insert` replaces in place, so an item
/// built through this interface holds each name once.
#[derive(Debug)]
pub struct Item {
    entries: Vec<(String, AttributeValue)>,
}

/// The texts that a sequence of strings holds.
pub open spec fn strings_view(s: Seq<String>) -> Seq<Seq<char>> {
    Seq::new(s.len(), |i: int| s[i]@)
}

/// The byte sequences that a sequence of byte vectors holds.
pub open spec fn blobs_view(s: Seq<Vec<u8>>) -> Seq<Seq<u8>> {
    Seq::new(s.len(), |i: int| s[i]@)
}

/// The models of a sequence of attribute values.
pub open spec fn list_view(s: Seq<AttributeValue>) -> Seq<Value>
    decreases s,
{
    Seq::new(
        s.len(),
        |i: int|
            if 0 <= i < s.len() {
                s[i].view()
            } else {
                Value::Null(true)
            },
    )
}

/// The models of a sequence of name-value entries.
pub open spec fn entry_models(s: Seq<(String, AttributeValue)>) -> Seq<(Seq<char>, Value)>
    decreases s,
{
    Seq::new(
        s.len(),
        |i: int|
            if 0 <= i < s.len() {
                (s[i].0@, s[i].1.view())
            } else {
                (Seq::empty(), Value::Null(true))
            },
    )
}

impl AttributeValue {
    /// The model of this value.
    pub open spec fn view(&self) -> Value
        decreases self,
    {
        match self {
            AttributeValue::B(b) => Value::B(b@),
            AttributeValue::Bool(b) => Value::Bool(*b),
            AttributeValue::Bs(bs) => Value::Bs(blobs_view(bs@)),
            AttributeValue::L(l) => Value::L(list_view(l@)),
            AttributeValue::M(m) => Value::M(m.view()),
            AttributeValue::N(n) => Value::N(n@),
            AttributeValue::Ns(ns) => Value::Ns(strings_view(ns@)),
            AttributeValue::Null(b) => Value::Null(*b),
            AttributeValue::S(s) => Value::S(s@),
            AttributeValue::Ss(ss) => Value::Ss(strings_view(ss@)),
        }
    }
}

impl Item {
    /// The model of this item: its attributes by name.
    pub closed spec fn view(&self) -> Attributes
        decreases self,
    {
        to_map(entry_models(self.entries@))
    }
}

/// Tells whether two byte vectors hold the same bytes.
fn bytes_equal(a: &Vec<u8>, b: &Vec<u8>) -> (r: bool)
    ensures
        r == (a@ == b@),
{
    if a.len() != b.len() {
        return false;
    }
    let mut i: usize = 0;
    while i < a.len()
        invariant
            i <= a.len(),
            a.len() == b.len(),
            forall|j: int| 0 <= j < i ==> a@[j] == b@[j],
        decreases a.len() - i,
    {
        if a[i] != b[i] {
            return false;
        }
        i = i + 1;
    }
    assert(a@ =~= b@);
    true
}

/// Tells whether two vectors of byte vectors hold the same byte sequences
/// in the same order.
fn blobs_equal(a: &Vec<Vec<u8>>, b: &Vec<Vec<u8>>) -> (r: bool)
    ensures
        r == (blobs_view(a@) == blobs_view(b@)),
{
    if a.len() != b.len() {
        assert(blobs_view(a@).len() != blobs_view(b@).len());
        return false;
    }
    let mut i: usize = 0;
    while i < a.len()
        invariant
            i <= a.len(),
            a.len() == b.len(),
            forall|j: int| 0 <= j < i ==> a@[j]@ == b@[j]@,
        decreases a.len() - i,
    {
        if !bytes_equal(&a[i], &b[i]) {
            assert(blobs_view(a@)[i as int] != blobs_view(b@)[i as int]);
            return false;
        }
        i = i + 1;
    }
    assert(blobs_view(a@) =~= blobs_view(b@));
    true
}

/// Tells whether two vectors of strings hold the same texts in the same
/// order.
fn strings_equal(a: &Vec<String>, b: &Vec<String>) -> (r: bool)
    ensures
        r == (strings_view(a@) == strings_view(b@)),
{
    if a.len() != b.len() {
        assert(strings_view(a@).len() != strings_view(b@).len());
        return false;
    }
    let mut i: usize = 0;
    while i < a.len()
        invariant
            i <= a.len(),
            a.len() == b.len(),
            forall|j: int| 0 <= j < i ==> a@[j]@ == b@[j]@,
        decreases a.len() - i,
    {
        if a[i] != b[i] {
            assert(strings_view(a@)[i as int] != strings_view(b@)[i as int]);
            return false;
        }
        i = i + 1;
    }
    assert(strings_view(a@) =~= strings_view(b@));
    true
}

/// Copies a byte vector.
fn bytes_copy(a: &Vec<u8>) -> (r: Vec<u8>)
    ensures
        r@ == a@,
{
    let mut r: Vec<u8> = Vec::new();
    let mut i: usize = 0;
    while i < a.len()
        invariant
            i <= a.len(),
            r@ == a@.take(i as int),
        decreases a.len() - i,
    {
        r.push(a[i]);
        assert(a@.take(i + 1) == a@.take(i as int).push(a@[i as int]));
        i = i + 1;
    }
    assert(a@.take(a.len() as int) == a@);
    r
}

/// Copies a vector of byte vectors.
fn blobs_copy(a: &Vec<Vec<u8>>) -> (r: Vec<Vec<u8>>)
    ensures
        blobs_view(r@) == blobs_view(a@),
{
    let mut r: Vec<Vec<u8>> = Vec::new();
    let mut i: usize = 0;
    while i < a.len()
        invariant
            i <= a.len(),
            r.len() == i,
            forall|j: int| 0 <= j < i ==> r@[j]@ == a@[j]@,
        decreases a.len() - i,
    {
        r.push(bytes_copy(&a[i]));
        i = i + 1;
    }
    assert(blobs_view(r@) =~= blobs_view(a@));
    r
}

/// Copies a vector of strings.
fn strings_copy(a: &Vec<String>) -> (r: Vec<String>)
    ensures
        strings_view(r@) == strings_view(a@),
{
    let mut r: Vec<String> = Vec::new();
    let mut i: usize = 0;
    while i < a.len()
        invariant
            i <= a.len(),
            r.len() == i,
            forall|j: int| 0 <= j < i ==> r@[j]@ == a@[j]@,
        decreases a.len() - i,
    {
        r.push(a[i].clone());
        i = i + 1;
    }
    assert(strings_view(r@) =~= strings_view(a@));
    r
}

/// Tells whether two vectors hold equal values in the same order.
pub(crate) fn list_equal(a: &Vec<AttributeValue>, b: &Vec<AttributeValue>) -> (r: bool)
    ensures
        r == (list_view(a@) == list_view(b@)),
    decreases a,
{
    if a.len() != b.len() {
        assert(list_view(a@).len() != list_view(b@).len());
        return false;
    }
    let mut i: usize = 0;
    while i < a.len()
        invariant
            i <= a.len(),
            a.len() == b.len(),
            forall|j: int| 0 <= j < i ==> a@[j].view() == b@[j].view(),
        decreases a.len() - i,
    {
        if !a[i].equals(&b[i]) {
            assert(list_view(a@)[i as int] != list_view(b@)[i as int]);
            return false;
        }
        i = i + 1;
    }
    assert(list_view(a@) =~= list_view(b@));
    true
}

/// Copies a vector of values.
fn list_copy(a: &Vec<AttributeValue>) -> (r: Vec<AttributeValue>)
    ensures
        list_view(r@) == list_view(a@),
    decreases a,
{
    let mut r: Vec<AttributeValue> = Vec::new();
    let mut i: usize = 0;
    while i < a.len()
        invariant
            i <= a.len(),
            r.len() == i,
            forall|j: int| 0 <= j < i ==> r@[j].view() == a@[j].view(),
        decreases a.len() - i,
    {
        r.push(a[i].copy());
        i = i + 1;
    }
    assert(list_view(r@) =~= list_view(a@));
    r
}

impl AttributeValue {
    /// Tells whether this value and `other` are the same value: the same
    /// tag with the same content.
    pub fn equals(&self, other: &AttributeValue) -> (r: bool)
        ensures
            r == (self@ == other@),
        decreases self,
    {
        match self {
            AttributeValue::B(a) => match other {
                AttributeValue::B(b) => bytes_equal(a, b),
                _ => false,
            },
            AttributeValue::Bool(a) => match other {
                AttributeValue::Bool(b) => *a == *b,
                _ => false,
            },
            AttributeValue::Bs(a) => match other {
                AttributeValue::Bs(b) => blobs_equal(a, b),
                _ => false,
            },
            AttributeValue::L(a) => match other {
                AttributeValue::L(b) => list_equal(a, b),
                _ => false,
            },
            AttributeValue::M(a) => match other {
                AttributeValue::M(b) => a.equals(b),
                _ => false,
            },
            AttributeValue::N(a) => match other {
                AttributeValue::N(b) => *a == *b,
                _ => false,
            },
            AttributeValue::Ns(a) => match other {
                AttributeValue::Ns(b) => strings_equal(a, b),
                _ => false,
            },
            AttributeValue::Null(a) => match other {
                AttributeValue::Null(b) => *a == *b,
                _ => false,
            },
            AttributeValue::S(a) => match other {
                AttributeValue::S(b) => *a == *b,
                _ => false,
            },
            AttributeValue::Ss(a) => match other {
                AttributeValue::Ss(b) => strings_equal(a, b),
                _ => false,
            },
        }
    }

    /// The text of this value where it is a string, the value itself where
    /// it is not.
    pub fn as_s(&self) -> (r: Result<&String, &AttributeValue>)
        ensures
            match r {
                Ok(text) => *self == AttributeValue::S(*text),
                Err(other) => !(self is S) && other == self,
            },
    {
        match self {
            AttributeValue::S(text) => Ok(text),
            _ => Err(self),
        }
    }

    /// A copy of this value.
    pub fn copy(&self) -> (r: AttributeValue)
        ensures
            r@ == self@,
        decreases self,
    {
        match self {
            AttributeValue::B(a) => AttributeValue::B(bytes_copy(a)),
            AttributeValue::Bool(a) => AttributeValue::Bool(*a),
            AttributeValue::Bs(a) => AttributeValue::Bs(blobs_copy(a)),
            AttributeValue::L(a) => AttributeValue::L(list_copy(a)),
            AttributeValue::M(a) => AttributeValue::M(a.copy()),
            AttributeValue::N(a) => AttributeValue::N(a.clone()),
            AttributeValue::Ns(a) => AttributeValue::Ns(strings_copy(a)),
            AttributeValue::Null(a) => AttributeValue::Null(*a),
            AttributeValue::S(a) => AttributeValue::S(a.clone()),
            AttributeValue::Ss(a) => AttributeValue::Ss(strings_copy(a)),
        }
    }
}

impl Item {
    /// An item without attributes.
    pub fn new() -> (r: Item)
        ensures
            r@ == Map::<Seq<char>, Value>::empty(),
    {
        Item { entries: Vec::new() }
    }

    /// The index of the entry that counts for `name`, if there is one.
    fn position(&self, name: &String) -> (r: Option<usize>)
        ensures
            match r {
                Some(i) => {
                    &&& i < self.entries.len()
                    &&& self.entries@[i as int].0@ == name@
                    &&& forall|j: int| i < j < self.entries.len() ==> self.entries@[j].0@ != name@
                    &&& self@.contains_key(name@)
                    &&& self@[name@] == self.entries@[i as int].1.view()
                },
                None => !self@.contains_key(name@),
            },
    {
        let mut i: usize = self.entries.len();
        while i > 0
            invariant
                i <= self.entries.len(),
                forall|j: int| i <= j < self.entries.len() ==> self.entries@[j].0@ != name@,
            decreases i,
        {
            i = i - 1;
            if self.entries[i].0 == *name {
                proof {
                    lemma_last_wins(entry_models(self.entries@), name@, i as int);
                }
                return Some(i);
            }
        }
        proof {
            lemma_absent(entry_models(self.entries@), name@);
        }
        None
    }

    /// Sets the attribute `name` to `value`, in place of the value that the
    /// item held under that name, if it held one.
    pub fn insert(&mut self, name: String, value: AttributeValue)
        ensures
            final(self)@ == old(self)@.insert(name@, value@),
    {
        match self.position(&name) {
            Some(i) => {
                proof {
                    let models = entry_models(self.entries@);
                    lemma_replace(models, i as int, (name@, value@));
                    assert(entry_models(self.entries@.update(i as int, (name, value)))
                        == models.update(i as int, (name@, value@)));
                }
                self.entries.set(i, (name, value));
            },
            None => {
                proof {
                    let models = entry_models(self.entries@);
                    lemma_push(models, (name@, value@));
                    assert(entry_models(self.entries@.push((name, value))) == models.push(
                        (name@, value@),
                    ));
                }
                self.entries.push((name, value));
            },
        }
    }

    /// The value of the attribute `name`, if the item has that attribute.
    pub fn get(&self, name: &str) -> (r: Option<&AttributeValue>)
        ensures
            match r {
                Some(v) => self@.contains_key(name@) && v@ == self@[name@],
                None => !self@.contains_key(name@),
            },
    {
        let key = String::from_str(name);
        match self.position(&key) {
            Some(i) => Some(&self.entries[i].1),
            None => None,
        }
    }

    /// The entries of the item. Where a name stands more than once, the last
    /// of its entries is the one that counts.
    pub fn entries(&self) -> (r: &Vec<(String, AttributeValue)>)
        ensures
            to_map(entry_models(r@)) == self@,
    {
        &self.entries
    }

    /// Tells whether the item has the attribute `name`.
    pub fn contains_key(&self, name: &str) -> (r: bool)
        ensures
            r == self@.contains_key(name@),
    {
        let key = String::from_str(name);
        self.position(&key).is_some()
    }

    /// Tells whether two items hold the same attributes with the same
    /// values.
    pub fn equals(&self, other: &Item) -> (r: bool)
        ensures
            r == (self@ == other@),
        decreases self,
    {
        let mut i: usize = 0;
        while i < self.entries.len()
            invariant
                i <= self.entries.len(),
                forall|j: int|
                    0 <= j < i ==> other@.contains_key(#[trigger] self.entries@[j].0@)
                        && other@[self.entries@[j].0@] == self@[self.entries@[j].0@],
            decreases self.entries.len() - i,
        {
            let name = &self.entries[i].0;
            match self.position(name) {
                Some(p) => match other.position(name) {
                    Some(q) => {
                        if !self.entries[p].1.equals(&other.entries[q].1) {
                            return false;
                        }
                    },
                    None => {
                        return false;
                    },
                },
                None => {
                    proof {
                        lemma_carried(entry_models(self.entries@), i as int);
                    }
                    return false;
                },
            }
            i = i + 1;
        }
        let mut k: usize = 0;
        while k < other.entries.len()
            invariant
                k <= other.entries.len(),
                forall|j: int|
                    0 <= j < k ==> self@.contains_key(#[trigger] other.entries@[j].0@),
            decreases other.entries.len() - k,
        {
            if self.position(&other.entries[k].0).is_none() {
                proof {
                    lemma_carried(entry_models(other.entries@), k as int);
                }
                return false;
            }
            k = k + 1;
        }
        proof {
            assert forall|n: Seq<char>| #[trigger]
                self@.contains_key(n) implies other@.contains_key(n) && other@[n] == self@[n] by {
                lemma_present(entry_models(self.entries@), n);
            }
            assert forall|n: Seq<char>| #[trigger]
                other@.contains_key(n) implies self@.contains_key(n) by {
                lemma_present(entry_models(other.entries@), n);
            }
            assert(self@ =~= other@);
        }
        true
    }

    /// A copy of this item.
    pub fn copy(&self) -> (r: Item)
        ensures
            r@ == self@,
        decreases self,
    {
        let mut entries: Vec<(String, AttributeValue)> = Vec::new();
        let mut i: usize = 0;
        while i < self.entries.len()
            invariant
                i <= self.entries.len(),
                entries.len() == i,
                forall|j: int|
                    0 <= j < i ==> entries@[j].0@ == self.entries@[j].0@ && entries@[j].1.view()
                        == self.entries@[j].1.view(),
            decreases self.entries.len() - i,
        {
            let name = self.entries[i].0.clone();
            let value = self.entries[i].1.copy();
            entries.push((name, value));
            i = i + 1;
        }
        assert(entry_models(entries@) == entry_models(self.entries@));
        Item { entries }
    }
}

impl PartialEq for AttributeValue {
    fn eq(&self, other: &AttributeValue) -> (r: bool) {
        self.equals(other)
    }
}

impl vstd::std_specs::cmp::PartialEqSpecImpl for AttributeValue {
    open spec fn obeys_eq_spec() -> bool {
        true
    }

    open spec fn eq_spec(&self, other: &AttributeValue) -> bool {
        self@ == other@
    }
}

impl PartialEq for Item {
    fn eq(&self, other: &Item) -> (r: bool) {
        self.equals(other)
    }
}

impl vstd::std_specs::cmp::PartialEqSpecImpl for Item {
    open spec fn obeys_eq_spec() -> bool {
        true
    }

    open spec fn eq_spec(&self, other: &Item) -> bool {
        self@ == other@
    }
}

impl Clone for AttributeValue {
    fn clone(&self) -> (r: AttributeValue)
        ensures
            r@ == self@,
    {
        self.copy()
    }
}

impl Clone for Item {
    fn clone(&self) -> (r: Item)
        ensures
            r@ == self@,
    {
        self.copy()
    }
}

} // verus!
