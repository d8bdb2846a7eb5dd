//! The evaluator for write-time condition expressions.
//!
//! A condition is read by looking for marker texts, not by a grammar with
//! precedence:
//!
//! * a text in which `" AND "` stands is a conjunction of the pieces between
//!   its occurrences;
//! * otherwise a text in which `" OR "` stands is a disjunction of the pieces
//!   between its occurrences;
//! * otherwise the text is a single predicate: `attribute_not_exists(name)`,
//!   `attribute_exists(name)` or `name = :placeholder`.
//!
//! So a text that mixes both connectives is a conjunction whose pieces may be
//! disjunctions: `a OR b AND c` reads as `(a OR b) AND c`. There is no
//! grouping with parentheses. A text that is none of the three predicates does
//! not hold, and neither does a function call without its closing
//! parenthesis.

use crate::text::{
    chars_of, contains, find, find_in, lemma_find_some, lemma_split_pieces_shorter,
    lemma_trim_len, split, trim, trim_range,
};
use crate::value::{Attributes, Item};
use vstd::prelude::*;

verus! {

/// The connective between the parts of a conjunction.
pub open spec fn and_connective() -> Seq<char> {
    " AND "@
}

/// The connective between the parts of a disjunction.
pub open spec fn or_connective() -> Seq<char> {
    " OR "@
}

/// The text that opens the predicate "the attribute is absent".
pub open spec fn not_exists_marker() -> Seq<char> {
    "attribute_not_exists("@
}

/// The text that opens the predicate "the attribute is present".
pub open spec fn exists_marker() -> Seq<char> {
    "attribute_exists("@
}

/// The text between the two sides of an equality.
pub open spec fn equals_marker() -> Seq<char> {
    " = "@
}

/// The text that closes a function call.
pub open spec fn closing_parenthesis() -> Seq<char> {
    ")"@
}

/// The argument of the function call that `marker` opens in `e`: the text
/// from the end of the first occurrence of `marker` to the next closing
/// parenthesis. `None` where `marker` does not stand in `e` or no closing
/// parenthesis follows it.
pub open spec fn call_argument(e: Seq<char>, marker: Seq<char>) -> Option<Seq<char>> {
    match find(e, marker) {
        Some(p) => {
            let rest = e.subrange(p + marker.len(), e.len() as int);
            match find(rest, closing_parenthesis()) {
                Some(q) => Some(rest.subrange(0, q)),
                None => None,
            }
        },
        None => None,
    }
}

/// Whether the single predicate `e` holds of `item`, with the placeholder
/// values `values`. The three forms are tried in this order, and the first
/// whose marker stands in `e` decides.
pub open spec fn predicate_holds(
    e: Seq<char>,
    item: Option<Attributes>,
    values: Option<Attributes>,
) -> bool {
    if contains(e, not_exists_marker()) {
        match call_argument(e, not_exists_marker()) {
            Some(name) => item is None || !item->0.contains_key(name),
            None => false,
        }
    } else if contains(e, exists_marker()) {
        match call_argument(e, exists_marker()) {
            Some(name) => item is Some && item->0.contains_key(name),
            None => false,
        }
    } else {
        match find(e, equals_marker()) {
            Some(p) => {
                let name = trim(e.subrange(0, p));
                let placeholder = trim(e.subrange(p + equals_marker().len(), e.len() as int));
                &&& item is Some
                &&& values is Some
                &&& item->0.contains_key(name)
                &&& values->0.contains_key(placeholder)
                &&& item->0[name] == values->0[placeholder]
            },
            None => false,
        }
    }
}

/// Whether the condition `expr` holds of the current item `item` (`None`
/// where no item is stored), with the placeholder values `values`.
pub open spec fn condition_holds(
    expr: Seq<char>,
    item: Option<Attributes>,
    values: Option<Attributes>,
) -> bool
    decreases expr.len(),
    via condition_holds_decreases
{
    let e = trim(expr);
    if contains(e, and_connective()) {
        forall|i: int|
            0 <= i < split(e, and_connective()).len() ==> condition_holds(
                #[trigger] split(e, and_connective())[i],
                item,
                values,
            )
    } else if contains(e, or_connective()) {
        exists|i: int|
            0 <= i < split(e, or_connective()).len() && condition_holds(
                #[trigger] split(e, or_connective())[i],
                item,
                values,
            )
    } else {
        predicate_holds(e, item, values)
    }
}

#[via_fn]
proof fn condition_holds_decreases(
    expr: Seq<char>,
    item: Option<Attributes>,
    values: Option<Attributes>,
) {
    let e = trim(expr);
    lemma_trim_len(expr);
    reveal_strlit(" AND ");
    reveal_strlit(" OR ");
    if contains(e, and_connective()) {
        assert forall|i: int| 0 <= i < split(e, and_connective()).len() implies (#[trigger] split(
            e,
            and_connective(),
        )[i]).len() < expr.len() by {
            lemma_split_pieces_shorter(e, and_connective(), i);
        }
    } else if contains(e, or_connective()) {
        assert forall|i: int| 0 <= i < split(e, or_connective()).len() implies (#[trigger] split(
            e,
            or_connective(),
        )[i]).len() < expr.len() by {
            lemma_split_pieces_shorter(e, or_connective(), i);
        }
    }
}

/// Whether the condition holds of every one of `parts`.
pub open spec fn all_hold(
    parts: Seq<Seq<char>>,
    item: Option<Attributes>,
    values: Option<Attributes>,
) -> bool {
    forall|i: int| 0 <= i < parts.len() ==> condition_holds(#[trigger] parts[i], item, values)
}

/// Whether the condition holds of one of `parts`.
pub open spec fn any_holds(
    parts: Seq<Seq<char>>,
    item: Option<Attributes>,
    values: Option<Attributes>,
) -> bool {
    exists|i: int| 0 <= i < parts.len() && condition_holds(#[trigger] parts[i], item, values)
}

/// The model of an item that may be absent.
pub open spec fn model_of(item: Option<&Item>) -> Option<Attributes> {
    match item {
        Some(i) => Some(i@),
        None => None,
    }
}

/// A conjunction holds when its first piece and all the others do.
proof fn lemma_all_hold_step(
    first: Seq<char>,
    rest: Seq<Seq<char>>,
    item: Option<Attributes>,
    values: Option<Attributes>,
)
    ensures
        all_hold(seq![first] + rest, item, values) == (condition_holds(first, item, values)
            && all_hold(rest, item, values)),
{
    let parts = seq![first] + rest;
    assert(parts[0] == first);
    if all_hold(parts, item, values) {
        assert forall|i: int| 0 <= i < rest.len() implies condition_holds(
            #[trigger] rest[i],
            item,
            values,
        ) by {
            assert(parts[i + 1] == rest[i]);
        }
    }
    if condition_holds(first, item, values) && all_hold(rest, item, values) {
        assert forall|i: int| 0 <= i < parts.len() implies condition_holds(
            #[trigger] parts[i],
            item,
            values,
        ) by {
            if i > 0 {
                assert(parts[i] == rest[i - 1]);
            }
        }
    }
}

/// A disjunction holds when its first piece or one of the others does.
proof fn lemma_any_holds_step(
    first: Seq<char>,
    rest: Seq<Seq<char>>,
    item: Option<Attributes>,
    values: Option<Attributes>,
)
    ensures
        any_holds(seq![first] + rest, item, values) == (condition_holds(first, item, values)
            || any_holds(rest, item, values)),
{
    let parts = seq![first] + rest;
    assert(parts[0] == first);
    if any_holds(parts, item, values) {
        let i = choose|i: int|
            0 <= i < parts.len() && condition_holds(#[trigger] parts[i], item, values);
        if i > 0 {
            assert(parts[i] == rest[i - 1]);
        }
    }
    if any_holds(rest, item, values) {
        let i = choose|i: int|
            0 <= i < rest.len() && condition_holds(#[trigger] rest[i], item, values);
        assert(parts[i + 1] == rest[i]);
    }
}

/// The marker texts, as characters.
struct Markers {
    and: Vec<char>,
    or: Vec<char>,
    not_exists: Vec<char>,
    exists: Vec<char>,
    equals: Vec<char>,
    close: Vec<char>,
}

impl Markers {
    spec fn wf(&self) -> bool {
        &&& self.and@ == and_connective()
        &&& self.or@ == or_connective()
        &&& self.not_exists@ == not_exists_marker()
        &&& self.exists@ == exists_marker()
        &&& self.equals@ == equals_marker()
        &&& self.close@ == closing_parenthesis()
    }

    fn new() -> (r: Markers)
        ensures
            r.wf(),
    {
        Markers {
            and: chars_of(" AND "),
            or: chars_of(" OR "),
            not_exists: chars_of("attribute_not_exists("),
            exists: chars_of("attribute_exists("),
            equals: chars_of(" = "),
            close: chars_of(")"),
        }
    }
}

/// Finds the argument of the function call that `marker` opens in the range
/// `a..b` of `chars`, as a range.
fn argument_range(chars: &Vec<char>, a: usize, b: usize, marker: &Vec<char>, close: &Vec<char>) -> (r:
    Option<(usize, usize)>)
    requires
        a <= b <= chars.len(),
        close@ == closing_parenthesis(),
        contains(chars@.subrange(a as int, b as int), marker@),
    ensures
        match r {
            Some((from, to)) => a <= from <= to <= b && call_argument(
                chars@.subrange(a as int, b as int),
                marker@,
            ) == Some(chars@.subrange(from as int, to as int)),
            None => call_argument(chars@.subrange(a as int, b as int), marker@) is None,
        },
{
    let ghost e = chars@.subrange(a as int, b as int);
    proof {
        lemma_find_some(e, marker@);
    }
    match find_in(chars, a, b, marker) {
        Some(p) => {
            let from = p + marker.len();
            assert(e.subrange(p - a + marker@.len(), e.len() as int) == chars@.subrange(
                from as int,
                b as int,
            ));
            match find_in(chars, from, b, close) {
                Some(q) => {
                    assert(chars@.subrange(from as int, b as int).subrange(0, q - from)
                        == chars@.subrange(from as int, q as int));
                    Some((from, q))
                },
                None => None,
            }
        },
        None => None,
    }
}

/// Evaluates the single predicate that stands in the range `a..b` of
/// `chars`, the characters of `text`.
fn evaluate_predicate(
    text: &str,
    chars: &Vec<char>,
    a: usize,
    b: usize,
    markers: &Markers,
    item: Option<&Item>,
    values: Option<&Item>,
) -> (r: bool)
    requires
        chars@ == text@,
        a <= b <= chars.len(),
        markers.wf(),
    ensures
        r == predicate_holds(chars@.subrange(a as int, b as int), model_of(item), model_of(values)),
{
    let ghost e = chars@.subrange(a as int, b as int);
    if find_in(chars, a, b, &markers.not_exists).is_some() {
        match argument_range(chars, a, b, &markers.not_exists, &markers.close) {
            Some((from, to)) => match item {
                Some(current) => !current.contains_key(text.substring_char(from, to)),
                None => true,
            },
            None => false,
        }
    } else if find_in(chars, a, b, &markers.exists).is_some() {
        match argument_range(chars, a, b, &markers.exists, &markers.close) {
            Some((from, to)) => match item {
                Some(current) => current.contains_key(text.substring_char(from, to)),
                None => false,
            },
            None => false,
        }
    } else {
        match find_in(chars, a, b, &markers.equals) {
            Some(p) => {
                let (n0, n1) = trim_range(chars, a, p);
                let (v0, v1) = trim_range(chars, p + markers.equals.len(), b);
                assert(e.subrange(0, p - a) == chars@.subrange(a as int, p as int));
                assert(e.subrange(p - a + equals_marker().len(), e.len() as int)
                    == chars@.subrange(p + markers.equals.len(), b as int));
                match item {
                    Some(current) => match values {
                        Some(given) => match current.get(text.substring_char(n0, n1)) {
                            Some(have) => match given.get(text.substring_char(v0, v1)) {
                                Some(want) => have.equals(want),
                                None => false,
                            },
                            None => false,
                        },
                        None => false,
                    },
                    None => false,
                }
            },
            None => false,
        }
    }
}

/// Evaluates what is left of the range `a..b` of `chars` once the
/// conjunctions are taken apart: a disjunction or a single predicate.
fn evaluate_range(
    text: &str,
    chars: &Vec<char>,
    lo: usize,
    hi: usize,
    markers: &Markers,
    item: Option<&Item>,
    values: Option<&Item>,
) -> (r: bool)
    requires
        chars@ == text@,
        lo <= hi <= chars.len(),
        markers.wf(),
    ensures
        r == condition_holds(chars@.subrange(lo as int, hi as int), model_of(item), model_of(values)),
    decreases hi - lo,
{
    let (a, b) = trim_range(chars, lo, hi);
    let ghost e = chars@.subrange(a as int, b as int);
    let ghost im = model_of(item);
    let ghost vm = model_of(values);
    proof {
        reveal_strlit(" AND ");
        reveal_strlit(" OR ");
    }
    if find_in(chars, a, b, &markers.and).is_some() {
        let mut start: usize = a;
        loop
            invariant
                chars@ == text@,
                lo <= a <= start <= b <= hi <= chars.len(),
                start == a || start >= a + 5,
                markers.wf(),
                e == chars@.subrange(a as int, b as int),
                e == trim(chars@.subrange(lo as int, hi as int)),
                im == model_of(item),
                vm == model_of(values),
                contains(e, and_connective()),
                all_hold(split(e, and_connective()), im, vm) == all_hold(
                    split(chars@.subrange(start as int, b as int), and_connective()),
                    im,
                    vm,
                ),
            decreases b - start,
        {
            let ghost rest = chars@.subrange(start as int, b as int);
            proof {
                reveal_strlit(" AND ");
            }
            match find_in(chars, start, b, &markers.and) {
                Some(i) => {
                    proof {
                        assert(rest.subrange(0, i - start) == chars@.subrange(
                            start as int,
                            i as int,
                        ));
                        assert(rest.subrange(i - start + 5, rest.len() as int) == chars@.subrange(
                            i + 5,
                            b as int,
                        ));
                        lemma_all_hold_step(
                            chars@.subrange(start as int, i as int),
                            split(chars@.subrange(i + 5, b as int), and_connective()),
                            im,
                            vm,
                        );
                    }
                    if !evaluate_range(text, chars, start, i, markers, item, values) {
                        return false;
                    }
                    start = i + markers.and.len();
                },
                None => {
                    proof {
                        if start == a {
                            lemma_find_some(e, and_connective());
                        }
                        assert(split(rest, and_connective()) == seq![rest]);
                        assert(seq![rest][0] == rest);
                    }
                    return evaluate_range(text, chars, start, b, markers, item, values);
                },
            }
        }
    } else if find_in(chars, a, b, &markers.or).is_some() {
        let mut start: usize = a;
        loop
            invariant
                chars@ == text@,
                lo <= a <= start <= b <= hi <= chars.len(),
                start == a || start >= a + 4,
                markers.wf(),
                e == chars@.subrange(a as int, b as int),
                e == trim(chars@.subrange(lo as int, hi as int)),
                im == model_of(item),
                vm == model_of(values),
                !contains(e, and_connective()),
                contains(e, or_connective()),
                any_holds(split(e, or_connective()), im, vm) == any_holds(
                    split(chars@.subrange(start as int, b as int), or_connective()),
                    im,
                    vm,
                ),
            decreases b - start,
        {
            let ghost rest = chars@.subrange(start as int, b as int);
            proof {
                reveal_strlit(" OR ");
            }
            match find_in(chars, start, b, &markers.or) {
                Some(i) => {
                    proof {
                        assert(rest.subrange(0, i - start) == chars@.subrange(
                            start as int,
                            i as int,
                        ));
                        assert(rest.subrange(i - start + 4, rest.len() as int) == chars@.subrange(
                            i + 4,
                            b as int,
                        ));
                        lemma_any_holds_step(
                            chars@.subrange(start as int, i as int),
                            split(chars@.subrange(i + 4, b as int), or_connective()),
                            im,
                            vm,
                        );
                    }
                    if evaluate_range(text, chars, start, i, markers, item, values) {
                        return true;
                    }
                    start = i + markers.or.len();
                },
                None => {
                    proof {
                        if start == a {
                            lemma_find_some(e, or_connective());
                        }
                        assert(split(rest, or_connective()) == seq![rest]);
                        assert(seq![rest][0] == rest);
                    }
                    return evaluate_range(text, chars, start, b, markers, item, values);
                },
            }
        }
    } else {
        evaluate_predicate(text, chars, a, b, markers, item, values)
    }
}

/// Evaluates the condition `expression` against the current item `item`
/// (`None` where no item is stored) and the placeholder values
/// `expression_attribute_values`.
pub fn evaluate_condition_expression(
    expression: &str,
    item: Option<&Item>,
    expression_attribute_values: Option<&Item>,
) -> (r: bool)
    ensures
        r == condition_holds(
            expression@,
            model_of(item),
            model_of(expression_attribute_values),
        ),
{
    let chars = chars_of(expression);
    let markers = Markers::new();
    assert(chars@.subrange(0, chars@.len() as int) == chars@);
    evaluate_range(
        expression,
        &chars,
        0,
        chars.len(),
        &markers,
        item,
        expression_attribute_values,
    )
}

} // verus!
