//! What holds of the operations, whatever the catalog and the inputs.
//!
//! The laws are stated over the model of the catalog ([`crate::catalog`]), in
//! which every operation is one step from a catalog to the next. The
//! executable operations take the backend by exclusive reference, so no two
//! of them overlap, and each is proved to make exactly that step: what holds
//! of every sequence of steps holds of every order in which callers that
//! share a backend get their turn.

use crate::catalog::{
    after_create, after_put, catalog_wf, create_result, get_result, put_result, stored_item,
    CatalogView, GetResult,
};
use crate::condition::{
    and_connective, call_argument, closing_parenthesis, condition_holds, equals_marker,
    exists_marker, not_exists_marker, or_connective, predicate_holds,
};
use crate::table::{has_key_attributes, key_of, TableView};
use crate::text::{
    contains, find, is_first_occurrence, is_whitespace, lemma_find_first, lemma_trim_identity,
    occurs_at, split, trim,
};
use crate::value::{Attributes, Value};
use vstd::prelude::*;

verus! {

/// The text of the condition "the attribute `name` is absent".
pub open spec fn attribute_not_exists(name: Seq<char>) -> Seq<char> {
    not_exists_marker() + name + closing_parenthesis()
}

/// Whether `name` can stand as the argument of a function call in a
/// condition: it holds no closing parenthesis and neither connective.
pub open spec fn is_plain_name(name: Seq<char>) -> bool {
    &&& forall|i: int| 0 <= i < name.len() ==> name[i] != ')'
    &&& !contains(name, and_connective())
    &&& !contains(name, or_connective())
}

/// A pattern that begins and ends with a blank stands in a function call
/// only where it stands in the argument.
proof fn lemma_connective_only_in_argument(marker: Seq<char>, name: Seq<char>, pat: Seq<char>)
    requires
        forall|i: int| 0 <= i < marker.len() ==> marker[i] != ' ',
        pat.len() > 0,
        pat[0] == ' ',
        pat.last() == ' ',
        !contains(name, pat),
    ensures
        !contains(marker + name + seq![')'], pat),
{
    let s = marker + name + seq![')'];
    assert forall|j: int| !occurs_at(s, pat, j) by {
        if occurs_at(s, pat, j) {
            let w = s.subrange(j, j + pat.len());
            assert(w[0] == s[j]);
            assert(w[pat.len() - 1] == s[j + pat.len() - 1]);
            assert(j >= marker.len());
            assert(j + pat.len() - 1 < marker.len() + name.len());
            assert(name.subrange(j - marker.len(), j - marker.len() + pat.len()) == w);
            assert(occurs_at(name, pat, j - marker.len()));
        }
    }
}

/// A pattern that does not stand in `head`, and does not hold the last
/// character of `head`, stands nowhere in `head + tail` before the end of
/// `head`.
proof fn lemma_not_before_end(head: Seq<char>, tail: Seq<char>, pat: Seq<char>, j: int)
    requires
        head.len() > 0,
        !contains(head, pat),
        forall|i: int| 0 <= i < pat.len() ==> pat[i] != head.last(),
        0 <= j < head.len(),
    ensures
        !occurs_at(head + tail, pat, j),
{
    let s = head + tail;
    if occurs_at(s, pat, j) {
        let w = s.subrange(j, j + pat.len());
        if j + pat.len() <= head.len() {
            assert(head.subrange(j, j + pat.len()) == w);
            assert(occurs_at(head, pat, j));
        } else {
            assert(w[head.len() - 1 - j] == s[head.len() - 1]);
        }
    }
}

/// The marker that opens "the attribute is absent" holds no blank, begins
/// with a letter and is 21 characters long.
proof fn lemma_not_exists_marker()
    ensures
        not_exists_marker().len() == 21,
        not_exists_marker()[0] == 'a',
        forall|i: int| 0 <= i < 21 ==> not_exists_marker()[i] != ' ',
{
    reveal_strlit("attribute_not_exists(");
    let m = not_exists_marker();
    assert(m =~= seq![
        'a',
        't',
        't',
        'r',
        'i',
        'b',
        'u',
        't',
        'e',
        '_',
        'n',
        'o',
        't',
        '_',
        'e',
        'x',
        'i',
        's',
        't',
        's',
        '(',
    ]);
}

/// The condition "the attribute `name` is absent" is its own trimmed form
/// and holds neither connective.
proof fn lemma_not_exists_shape(name: Seq<char>)
    requires
        is_plain_name(name),
    ensures
        trim(attribute_not_exists(name)) == attribute_not_exists(name),
        !contains(attribute_not_exists(name), and_connective()),
        !contains(attribute_not_exists(name), or_connective()),
        attribute_not_exists(name).len() == name.len() + 22,
        attribute_not_exists(name).last() == ')',
{
    let s = attribute_not_exists(name);
    lemma_not_exists_marker();
    reveal_strlit(")");
    reveal_strlit(" AND ");
    reveal_strlit(" OR ");
    assert(closing_parenthesis() == seq![')']);
    assert(s[0] == 'a');
    assert(s.last() == ')');
    assert(!is_whitespace('a'));
    assert(!is_whitespace(')'));
    lemma_trim_identity(s);
    lemma_connective_only_in_argument(not_exists_marker(), name, and_connective());
    lemma_connective_only_in_argument(not_exists_marker(), name, or_connective());
}

/// The condition `attribute_not_exists(name)` holds exactly when no item is
/// stored or the stored item lacks the attribute `name`.
pub proof fn law_attribute_not_exists(
    name: Seq<char>,
    item: Option<Attributes>,
    values: Option<Attributes>,
)
    requires
        is_plain_name(name),
    ensures
        condition_holds(attribute_not_exists(name), item, values) == (item is None
            || !item->0.contains_key(name)),
{
    let m = not_exists_marker();
    let s = attribute_not_exists(name);
    lemma_not_exists_shape(name);
    lemma_not_exists_marker();
    reveal_strlit(")");
    assert(closing_parenthesis() == seq![')']);
    assert(s.subrange(0, m.len() as int) == m);
    assert(is_first_occurrence(s, m, 0));
    lemma_find_first(s, m, 0);
    let rest = s.subrange(m.len() as int, s.len() as int);
    assert(rest == name + closing_parenthesis());
    assert(rest.subrange(name.len() as int, name.len() as int + 1) == closing_parenthesis());
    assert forall|j: int| 0 <= j < name.len() implies !occurs_at(
        rest,
        closing_parenthesis(),
        j,
    ) by {
        assert(rest.subrange(j, j + 1)[0] == name[j]);
    }
    assert(is_first_occurrence(rest, closing_parenthesis(), name.len() as int));
    lemma_find_first(rest, closing_parenthesis(), name.len() as int);
    assert(rest.subrange(0, name.len() as int) == name);
    assert(call_argument(s, m) == Some(name));
    assert(predicate_holds(s, item, values) == (item is None || !item->0.contains_key(name)));
}

/// The text of the condition "the attribute `name` is present".
pub open spec fn attribute_exists(name: Seq<char>) -> Seq<char> {
    exists_marker() + name + closing_parenthesis()
}

/// The text of the condition "the attribute `name` has the value that
/// stands for `placeholder`".
pub open spec fn attribute_equals(name: Seq<char>, placeholder: Seq<char>) -> Seq<char> {
    name + equals_marker() + placeholder
}

/// Whether `word` is a plain word: not empty, without white space, without
/// parentheses and without an equals sign.
pub open spec fn is_word(word: Seq<char>) -> bool {
    &&& word.len() > 0
    &&& forall|i: int|
        0 <= i < word.len() ==> !is_whitespace(#[trigger] word[i]) && word[i] != '(' && word[i]
            != ')' && word[i] != '='
}

/// The marker that opens "the attribute is present" holds no blank, begins
/// with a letter and is 17 characters long.
proof fn lemma_exists_marker()
    ensures
        exists_marker().len() == 17,
        exists_marker()[0] == 'a',
        exists_marker()[16] == '(',
        forall|i: int| 0 <= i < 17 ==> exists_marker()[i] != ' ',
{
    reveal_strlit("attribute_exists(");
    let m = exists_marker();
    assert(m =~= seq![
        'a',
        't',
        't',
        'r',
        'i',
        'b',
        'u',
        't',
        'e',
        '_',
        'e',
        'x',
        'i',
        's',
        't',
        's',
        '(',
    ]);
}

/// The condition `attribute_exists(name)` holds exactly when an item is
/// stored and has the attribute `name`.
pub proof fn law_attribute_exists(
    name: Seq<char>,
    item: Option<Attributes>,
    values: Option<Attributes>,
)
    requires
        is_plain_name(name),
        !contains(name, not_exists_marker()),
    ensures
        condition_holds(attribute_exists(name), item, values) == (item is Some
            && item->0.contains_key(name)),
{
    let m = exists_marker();
    let absent = not_exists_marker();
    let s = attribute_exists(name);
    lemma_exists_marker();
    lemma_not_exists_marker();
    reveal_strlit("attribute_not_exists(");
    reveal_strlit(")");
    reveal_strlit(" AND ");
    reveal_strlit(" OR ");
    assert(closing_parenthesis() == seq![')']);
    assert(s[0] == 'a');
    assert(s.last() == ')');
    assert(!is_whitespace('a'));
    assert(!is_whitespace(')'));
    lemma_trim_identity(s);
    lemma_connective_only_in_argument(m, name, and_connective());
    lemma_connective_only_in_argument(m, name, or_connective());
    assert forall|j: int| !occurs_at(s, absent, j) by {
        if occurs_at(s, absent, j) {
            let w = s.subrange(j, j + 21);
            if j <= 16 {
                assert(w[16 - j] == s[16]);
                assert(absent[16 - j] != '(');
            } else {
                assert(w[20] == s[j + 20]);
                assert(j + 20 < 17 + name.len());
                assert(name.subrange(j - 17, j - 17 + 21) == w);
                assert(occurs_at(name, absent, j - 17));
            }
        }
    }
    assert(s.subrange(0, m.len() as int) == m);
    assert(is_first_occurrence(s, m, 0));
    lemma_find_first(s, m, 0);
    let rest = s.subrange(m.len() as int, s.len() as int);
    assert(rest == name + closing_parenthesis());
    assert(rest.subrange(name.len() as int, name.len() as int + 1) == closing_parenthesis());
    assert forall|j: int| 0 <= j < name.len() implies !occurs_at(
        rest,
        closing_parenthesis(),
        j,
    ) by {
        assert(rest.subrange(j, j + 1)[0] == name[j]);
    }
    assert(is_first_occurrence(rest, closing_parenthesis(), name.len() as int));
    lemma_find_first(rest, closing_parenthesis(), name.len() as int);
    assert(rest.subrange(0, name.len() as int) == name);
    assert(call_argument(s, m) == Some(name));
    assert(contains(s, m));
    assert(predicate_holds(s, item, values) == (item is Some && item->0.contains_key(name)));
}

/// The condition `name = placeholder` holds exactly when an item is stored,
/// placeholder values are given, the item has the attribute, the
/// placeholder has a value, and the two values are equal.
pub proof fn law_attribute_equals(
    name: Seq<char>,
    placeholder: Seq<char>,
    item: Option<Attributes>,
    values: Option<Attributes>,
)
    requires
        is_word(name),
        is_word(placeholder),
    ensures
        condition_holds(attribute_equals(name, placeholder), item, values) == {
            &&& item is Some
            &&& values is Some
            &&& item->0.contains_key(name)
            &&& values->0.contains_key(placeholder)
            &&& item->0[name] == values->0[placeholder]
        },
{
    let eq = equals_marker();
    let s = attribute_equals(name, placeholder);
    let n = name.len() as int;
    reveal_strlit(" = ");
    reveal_strlit(" AND ");
    reveal_strlit(" OR ");
    lemma_not_exists_marker();
    lemma_exists_marker();
    reveal_strlit("attribute_not_exists(");
    assert(is_whitespace(' '));
    assert(s.len() == n + 3 + placeholder.len());
    assert(s[0] == name[0]);
    assert(s.last() == placeholder.last());
    lemma_trim_identity(s);
    lemma_trim_identity(name);
    lemma_trim_identity(placeholder);
    assert forall|i: int| 0 <= i < s.len() implies (#[trigger] s[i] == ' ' <==> i == n || i == n
        + 2) by {
        if i < n {
            assert(s[i] == name[i]);
        } else if i >= n + 3 {
            assert(s[i] == placeholder[i - n - 3]);
        }
    }
    assert forall|i: int| 0 <= i < s.len() implies #[trigger] s[i] != '(' by {
        if i < n {
            assert(s[i] == name[i]);
        } else if i >= n + 3 {
            assert(s[i] == placeholder[i - n - 3]);
        }
    }
    assert forall|j: int| !occurs_at(s, and_connective(), j) by {
        if occurs_at(s, and_connective(), j) {
            let w = s.subrange(j, j + 5);
            assert(w[0] == s[j]);
            assert(w[4] == s[j + 4]);
        }
    }
    assert forall|j: int| !occurs_at(s, or_connective(), j) by {
        if occurs_at(s, or_connective(), j) {
            let w = s.subrange(j, j + 4);
            assert(w[0] == s[j]);
            assert(w[3] == s[j + 3]);
        }
    }
    assert forall|j: int| !occurs_at(s, not_exists_marker(), j) by {
        if occurs_at(s, not_exists_marker(), j) {
            let w = s.subrange(j, j + 21);
            assert(w[20] == s[j + 20]);
        }
    }
    assert forall|j: int| !occurs_at(s, exists_marker(), j) by {
        if occurs_at(s, exists_marker(), j) {
            let w = s.subrange(j, j + 17);
            assert(w[16] == s[j + 16]);
        }
    }
    assert(s.subrange(n, n + 3) == eq);
    assert forall|j: int| 0 <= j < n implies !occurs_at(s, eq, j) by {
        if occurs_at(s, eq, j) {
            assert(s.subrange(j, j + 3)[0] == s[j]);
        }
    }
    assert(is_first_occurrence(s, eq, n));
    lemma_find_first(s, eq, n);
    assert(s.subrange(0, n) == name);
    assert(s.subrange(n + eq.len(), s.len() as int) == placeholder);
}

/// A condition in which neither a connective nor the marker of a predicate
/// stands does not hold.
pub proof fn law_unrecognized_condition_fails(
    expr: Seq<char>,
    item: Option<Attributes>,
    values: Option<Attributes>,
)
    requires
        !contains(trim(expr), and_connective()),
        !contains(trim(expr), or_connective()),
        !contains(trim(expr), not_exists_marker()),
        !contains(trim(expr), exists_marker()),
        !contains(trim(expr), equals_marker()),
    ensures
        !condition_holds(expr, item, values),
{
}

/// The condition `attribute_not_exists(a) AND attribute_not_exists(b)` holds
/// exactly when no item is stored or the stored item lacks both attributes:
/// it fails as soon as one of them is present, whatever holds of the other.
pub proof fn law_conjunction_of_absences(
    a: Seq<char>,
    b: Seq<char>,
    item: Option<Attributes>,
    values: Option<Attributes>,
)
    requires
        is_plain_name(a),
        is_plain_name(b),
    ensures
        condition_holds(
            attribute_not_exists(a) + and_connective() + attribute_not_exists(b),
            item,
            values,
        ) == (item is None || (!item->0.contains_key(a) && !item->0.contains_key(b))),
{
    let left = attribute_not_exists(a);
    let right = attribute_not_exists(b);
    let and = and_connective();
    let s = left + and + right;
    lemma_not_exists_shape(a);
    lemma_not_exists_shape(b);
    lemma_not_exists_marker();
    reveal_strlit(" AND ");
    assert(s[0] == 'a');
    assert(s.last() == ')');
    assert(!is_whitespace('a'));
    assert(!is_whitespace(')'));
    lemma_trim_identity(s);
    assert(s.subrange(left.len() as int, left.len() as int + and.len()) == and);
    assert forall|j: int| 0 <= j < left.len() implies !occurs_at(s, and, j) by {
        assert(s == left + (and + right));
        lemma_not_before_end(left, and + right, and, j);
    }
    assert(is_first_occurrence(s, and, left.len() as int));
    lemma_find_first(s, and, left.len() as int);
    assert(s.subrange(0, left.len() as int) == left);
    assert(s.subrange(left.len() as int + and.len(), s.len() as int) == right);
    assert(find(right, and) is None);
    assert(split(right, and) == seq![right]);
    let parts = split(s, and);
    assert(parts == seq![left] + seq![right]);
    assert(parts.len() == 2);
    assert(parts[0] == left);
    assert(parts[1] == right);
    law_attribute_not_exists(a, item, values);
    law_attribute_not_exists(b, item, values);
    assert(contains(s, and));
    if condition_holds(left, item, values) && condition_holds(right, item, values) {
        assert forall|i: int| 0 <= i < parts.len() implies condition_holds(
            #[trigger] parts[i],
            item,
            values,
        ) by {}
    }
}

/// Two items have the same composite key exactly when they agree on every
/// key attribute: no two different sequences of key values fall together.
pub proof fn law_key_is_injective(schema: Seq<Seq<char>>, a: Attributes, b: Attributes)
    ensures
        key_of(schema, a) == key_of(schema, b) <==> forall|i: int|
            0 <= i < schema.len() ==> a[#[trigger] schema[i]] == b[schema[i]],
{
    if key_of(schema, a) == key_of(schema, b) {
        assert forall|i: int| 0 <= i < schema.len() implies a[#[trigger] schema[i]]
            == b[schema[i]] by {
            assert(key_of(schema, a)[i] == key_of(schema, b)[i]);
        }
    }
    if forall|i: int| 0 <= i < schema.len() ==> a[#[trigger] schema[i]] == b[schema[i]] {
        assert(key_of(schema, a) =~= key_of(schema, b));
    }
}

/// A catalog without tables is well formed.
pub proof fn law_empty_catalog_is_well_formed()
    ensures
        catalog_wf(Map::<Seq<char>, TableView>::empty()),
{
}

/// A write keeps a well-formed catalog well formed: every stored item has
/// the key attributes of its table and stands under its own composite key.
pub proof fn law_put_keeps_well_formed(
    catalog: CatalogView,
    table_name: Seq<char>,
    item: Attributes,
    condition: Option<Seq<char>>,
    values: Option<Attributes>,
)
    requires
        catalog_wf(catalog),
    ensures
        catalog_wf(after_put(catalog, table_name, item, condition, values)),
{
    let next = after_put(catalog, table_name, item, condition, values);
    assert forall|name: Seq<char>| #[trigger] next.contains_key(name) implies next[name].wf() by {
        assert(catalog.contains_key(name));
    }
}

/// The creation of a table keeps a well-formed catalog well formed.
pub proof fn law_create_keeps_well_formed(
    catalog: CatalogView,
    table_name: Seq<char>,
    schema: Seq<Seq<char>>,
)
    requires
        catalog_wf(catalog),
    ensures
        catalog_wf(after_create(catalog, table_name, schema)),
{
    let next = after_create(catalog, table_name, schema);
    assert forall|name: Seq<char>| #[trigger] next.contains_key(name) implies next[name].wf() by {
        if name != table_name {
            assert(catalog.contains_key(name));
        }
    }
}

/// The schema of a table is fixed when the table is created: no write and
/// no later creation changes it, and neither removes a table.
pub proof fn law_schema_is_fixed(
    catalog: CatalogView,
    existing: Seq<char>,
    table_name: Seq<char>,
    item: Attributes,
    condition: Option<Seq<char>>,
    values: Option<Attributes>,
    schema: Seq<Seq<char>>,
)
    requires
        catalog.contains_key(existing),
    ensures
        after_put(catalog, table_name, item, condition, values).contains_key(existing),
        after_put(catalog, table_name, item, condition, values)[existing].schema
            == catalog[existing].schema,
        after_create(catalog, table_name, schema).contains_key(existing),
        after_create(catalog, table_name, schema)[existing] == catalog[existing],
{
}

/// A write that fails commits nothing: the catalog is as it was.
pub proof fn law_failed_put_changes_nothing(
    catalog: CatalogView,
    table_name: Seq<char>,
    item: Attributes,
    condition: Option<Seq<char>>,
    values: Option<Attributes>,
)
    requires
        !(put_result(catalog, table_name, item, condition, values) is Stored),
    ensures
        after_put(catalog, table_name, item, condition, values) == catalog,
{
}

/// A write that stores touches one key of one table: every other table and
/// every item under another key is as it was.
pub proof fn law_put_touches_one_key(
    catalog: CatalogView,
    table_name: Seq<char>,
    item: Attributes,
    condition: Option<Seq<char>>,
    values: Option<Attributes>,
    other_table: Seq<char>,
    other_key: Seq<Value>,
)
    requires
        put_result(catalog, table_name, item, condition, values) is Stored,
    ensures
        other_table != table_name ==> after_put(
            catalog,
            table_name,
            item,
            condition,
            values,
        ).contains_key(other_table) == catalog.contains_key(other_table),
        other_table != table_name && catalog.contains_key(other_table) ==> after_put(
            catalog,
            table_name,
            item,
            condition,
            values,
        )[other_table] == catalog[other_table],
        other_key != key_of(catalog[table_name].schema, item) ==> after_put(
            catalog,
            table_name,
            item,
            condition,
            values,
        )[table_name].items.contains_key(other_key) == catalog[table_name].items.contains_key(
            other_key,
        ),
        other_key != key_of(catalog[table_name].schema, item)
            && catalog[table_name].items.contains_key(other_key) ==> after_put(
            catalog,
            table_name,
            item,
            condition,
            values,
        )[table_name].items[other_key] == catalog[table_name].items[other_key],
{
}

/// An item that was written is read back: after a write of `item` whose
/// condition, if it has one, holds, a read with the key attributes of `item`
/// gives `item`. A write without condition to a table that exists, of an item
/// that has the key attributes, always stores.
pub proof fn law_put_then_get(
    catalog: CatalogView,
    table_name: Seq<char>,
    item: Attributes,
    condition: Option<Seq<char>>,
    values: Option<Attributes>,
    key: Attributes,
)
    requires
        catalog.contains_key(table_name),
        has_key_attributes(catalog[table_name].schema, item),
        has_key_attributes(catalog[table_name].schema, key),
        key_of(catalog[table_name].schema, key) == key_of(catalog[table_name].schema, item),
        condition is Some ==> condition_holds(
            condition->0,
            stored_item(catalog[table_name], item),
            values,
        ),
    ensures
        put_result(catalog, table_name, item, condition, values) is Stored,
        get_result(after_put(catalog, table_name, item, condition, values), table_name, key)
            == GetResult::Found(item),
{
}

/// A read from a table that exists, under a key at which no item stands, is
/// no error: it gives the empty result.
pub proof fn law_get_of_absent_item(catalog: CatalogView, table_name: Seq<char>, key: Attributes)
    requires
        catalog.contains_key(table_name),
        has_key_attributes(catalog[table_name].schema, key),
        !catalog[table_name].items.contains_key(key_of(catalog[table_name].schema, key)),
    ensures
        get_result(catalog, table_name, key) == GetResult::Empty,
{
}

/// A read from or a write to a table that does not exist fails with "no such
/// table", whatever the other inputs are, and the write changes nothing.
pub proof fn law_no_such_table(
    catalog: CatalogView,
    table_name: Seq<char>,
    item: Attributes,
    condition: Option<Seq<char>>,
    values: Option<Attributes>,
)
    requires
        !catalog.contains_key(table_name),
    ensures
        get_result(catalog, table_name, item) == GetResult::NoSuchTable,
        put_result(catalog, table_name, item, condition, values) is NoSuchTable,
        after_put(catalog, table_name, item, condition, values) == catalog,
{
}

/// After the creation of a table, a second creation under the same name
/// fails with "the table exists" and changes nothing: the table keeps the
/// schema and the items that it had.
pub proof fn law_create_twice(
    catalog: CatalogView,
    table_name: Seq<char>,
    first: Seq<Seq<char>>,
    second: Seq<Seq<char>>,
)
    ensures
        create_result(after_create(catalog, table_name, first), table_name) is TableExists,
        after_create(after_create(catalog, table_name, first), table_name, second) == after_create(
            catalog,
            table_name,
            first,
        ),
        create_result(catalog, table_name) is Created ==> after_create(
            after_create(catalog, table_name, first),
            table_name,
            second,
        )[table_name] == TableView::empty(first),
{
}

/// A write under the condition `attribute_not_exists(k)`, where `k` is a key
/// attribute, stores exactly when no item stands under the key of the item,
/// and fails with "condition failed" when one does. A second write of the
/// same kind under the same key then fails with "condition failed".
pub proof fn law_conditional_put_once(
    catalog: CatalogView,
    table_name: Seq<char>,
    item: Attributes,
    again: Attributes,
    k: Seq<char>,
    values: Option<Attributes>,
)
    requires
        catalog_wf(catalog),
        catalog.contains_key(table_name),
        has_key_attributes(catalog[table_name].schema, item),
        has_key_attributes(catalog[table_name].schema, again),
        key_of(catalog[table_name].schema, again) == key_of(catalog[table_name].schema, item),
        catalog[table_name].schema.contains(k),
        is_plain_name(k),
    ensures
        put_result(catalog, table_name, item, Some(attribute_not_exists(k)), values) is Stored
            <==> stored_item(catalog[table_name], item) is None,
        put_result(catalog, table_name, item, Some(attribute_not_exists(k)), values) is Stored
            || put_result(
            catalog,
            table_name,
            item,
            Some(attribute_not_exists(k)),
            values,
        ) is ConditionFailed,
        put_result(
            after_put(catalog, table_name, item, Some(attribute_not_exists(k)), values),
            table_name,
            again,
            Some(attribute_not_exists(k)),
            values,
        ) is ConditionFailed,
{
    let table = catalog[table_name];
    let condition = Some(attribute_not_exists(k));
    let i = choose|i: int| 0 <= i < table.schema.len() && table.schema[i] == k;
    assert(table.schema[i] == k);
    law_attribute_not_exists(k, stored_item(table, item), values);
    if stored_item(table, item) is Some {
        assert(table.items.contains_key(key_of(table.schema, item)));
    }
    let next = after_put(catalog, table_name, item, condition, values);
    let after = next[table_name];
    assert(after.schema == table.schema);
    law_put_keeps_well_formed(catalog, table_name, item, condition, values);
    assert(next.contains_key(table_name));
    assert(after.items.contains_key(key_of(after.schema, again)));
    assert(after.wf());
    assert(stored_item(after, again)->0.contains_key(after.schema[i]));
    law_attribute_not_exists(k, stored_item(after, again), values);
}

/// The catalog after the writes of `items` to the table `table_name`, one
/// after the other in the order of the sequence, all under the condition
/// `condition`.
pub open spec fn after_puts(
    catalog: CatalogView,
    table_name: Seq<char>,
    items: Seq<Attributes>,
    condition: Option<Seq<char>>,
    values: Option<Attributes>,
) -> CatalogView
    decreases items.len(),
{
    if items.len() == 0 {
        catalog
    } else {
        after_put(
            after_puts(catalog, table_name, items.drop_last(), condition, values),
            table_name,
            items.last(),
            condition,
            values,
        )
    }
}

/// Whether the write of `items[i]` stores, when the writes of `items` are
/// made one after the other in the order of the sequence.
pub open spec fn stores_in_turn(
    catalog: CatalogView,
    table_name: Seq<char>,
    items: Seq<Attributes>,
    condition: Option<Seq<char>>,
    values: Option<Attributes>,
    i: int,
) -> bool {
    put_result(
        after_puts(catalog, table_name, items.take(i), condition, values),
        table_name,
        items[i],
        condition,
        values,
    ) is Stored
}

/// Whether the write of `items[i]` fails on its condition, when the writes
/// of `items` are made one after the other in the order of the sequence.
pub open spec fn fails_in_turn(
    catalog: CatalogView,
    table_name: Seq<char>,
    items: Seq<Attributes>,
    condition: Option<Seq<char>>,
    values: Option<Attributes>,
    i: int,
) -> bool {
    put_result(
        after_puts(catalog, table_name, items.take(i), condition, values),
        table_name,
        items[i],
        condition,
        values,
    ) is ConditionFailed
}

/// Writes to one table keep the catalog well formed, keep the table and its
/// schema, and leave an item under every key that was taken before or that
/// one of them wrote to.
proof fn lemma_after_puts(
    catalog: CatalogView,
    table_name: Seq<char>,
    items: Seq<Attributes>,
    condition: Option<Seq<char>>,
    values: Option<Attributes>,
)
    requires
        catalog_wf(catalog),
        catalog.contains_key(table_name),
    ensures
        catalog_wf(after_puts(catalog, table_name, items, condition, values)),
        after_puts(catalog, table_name, items, condition, values).contains_key(table_name),
        after_puts(catalog, table_name, items, condition, values)[table_name].schema
            == catalog[table_name].schema,
        forall|key: Seq<Value>| #[trigger]
            catalog[table_name].items.contains_key(key) ==> after_puts(
                catalog,
                table_name,
                items,
                condition,
                values,
            )[table_name].items.contains_key(key),
    decreases items.len(),
{
    if items.len() > 0 {
        lemma_after_puts(catalog, table_name, items.drop_last(), condition, values);
        law_put_keeps_well_formed(
            after_puts(catalog, table_name, items.drop_last(), condition, values),
            table_name,
            items.last(),
            condition,
            values,
        );
    }
}

/// Writes that race for one key under the condition
/// `attribute_not_exists(k)`, where `k` is a key attribute: in whatever
/// order they get their turn, the first stores exactly when no item stood
/// under the key, every later one fails with "condition failed", and so no
/// two of them store.
pub proof fn law_racing_conditional_puts(
    catalog: CatalogView,
    table_name: Seq<char>,
    items: Seq<Attributes>,
    k: Seq<char>,
    values: Option<Attributes>,
)
    requires
        catalog_wf(catalog),
        catalog.contains_key(table_name),
        items.len() > 0,
        forall|i: int|
            0 <= i < items.len() ==> has_key_attributes(
                catalog[table_name].schema,
                #[trigger] items[i],
            ) && key_of(catalog[table_name].schema, items[i]) == key_of(
                catalog[table_name].schema,
                items[0],
            ),
        catalog[table_name].schema.contains(k),
        is_plain_name(k),
    ensures
        stores_in_turn(catalog, table_name, items, Some(attribute_not_exists(k)), values, 0)
            <==> stored_item(catalog[table_name], items[0]) is None,
        forall|i: int|
            0 < i < items.len() ==> #[trigger] fails_in_turn(
                catalog,
                table_name,
                items,
                Some(attribute_not_exists(k)),
                values,
                i,
            ),
        forall|i: int, j: int|
            0 <= i < j < items.len() ==> !(#[trigger] stores_in_turn(
                catalog,
                table_name,
                items,
                Some(attribute_not_exists(k)),
                values,
                i,
            ) && #[trigger] stores_in_turn(
                catalog,
                table_name,
                items,
                Some(attribute_not_exists(k)),
                values,
                j,
            )),
{
    let condition = Some(attribute_not_exists(k));
    let schema = catalog[table_name].schema;
    assert(items.take(0) == Seq::<Attributes>::empty());
    law_conditional_put_once(catalog, table_name, items[0], items[0], k, values);
    assert forall|i: int| 0 < i < items.len() implies #[trigger] fails_in_turn(
        catalog,
        table_name,
        items,
        condition,
        values,
        i,
    ) by {
        let before = items.take(i - 1);
        let earlier = after_puts(catalog, table_name, before, condition, values);
        lemma_after_puts(catalog, table_name, before, condition, values);
        assert(items.take(i).drop_last() == before);
        assert(items.take(i).last() == items[i - 1]);
        assert(has_key_attributes(schema, items[i - 1]));
        assert(has_key_attributes(schema, items[i]));
        law_conditional_put_once(earlier, table_name, items[i - 1], items[i], k, values);
    }
    assert forall|i: int, j: int| 0 <= i < j < items.len() implies !(#[trigger] stores_in_turn(
        catalog,
        table_name,
        items,
        condition,
        values,
        i,
    ) && #[trigger] stores_in_turn(catalog, table_name, items, condition, values, j)) by {
        assert(fails_in_turn(catalog, table_name, items, condition, values, j));
    }
}

} // verus!
