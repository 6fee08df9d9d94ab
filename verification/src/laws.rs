//! What holds of the operations on every value.

use crate::casing::lowercased;
use crate::casing::uppercased;
use crate::codec::lemma_url_round_trip;
use crate::codec::Encoding;
use crate::text::join_spec;
use crate::text::occurs_at;
use crate::text::pieces_by_char;
use crate::text::pieces_from;
use crate::text::split_spec;
use crate::transform::all_fit;
use crate::transform::input_error;
use crate::transform::leaves;
use crate::transform::leaves_of;
use crate::transform::text_list;
use crate::transform::Operation;
use crate::value::Value;
use vstd::prelude::*;

verus! {

/// An operation other than joining makes of a list the list of what it
/// makes of each element, in the same order.
pub proof fn law_list_is_mapped(op: Operation, items: Seq<Value>)
    requires
        !(op is Join),
    ensures
        op.apply(Value::List(items)) == Value::List(
            items.map_values(|item: Value| op.apply(item)),
        ),
{
    assert(op.apply(Value::List(items))->List_0 =~= items.map_values(
        |item: Value| op.apply(item),
    ));
}

/// What can be carried out on a list within the machine's limits can be
/// carried out on each of its elements.
pub proof fn law_list_admits_elements(op: Operation, items: Seq<Value>, i: int)
    requires
        op.admits(Value::List(items)),
        0 <= i < items.len(),
    ensures
        op.admits(items[i]),
{
    if op matches Operation::Encode { encoding } && encoding != Encoding::URL {
        let list = Value::List(items);
        assert(all_fit(list));
        assert(list->List_0[i] == items[i]);
    }
}

/// Every operation makes the input error of an error, whatever its message.
pub proof fn law_error_in_error_out(op: Operation, message: Seq<char>)
    ensures
        op.apply(Value::Error(message)) == Value::Error(input_error()),
{
}

/// The upper-case form of a text for `Uppercase`, the lower-case form for
/// any other operation.
pub open spec fn case_form(op: Operation, text: Seq<char>) -> Seq<char> {
    if op is Uppercase {
        uppercased(text)
    } else {
        lowercased(text)
    }
}

/// Whether the case mapping of `op` leaves the form that it gives to each
/// text in `value` as it is.
pub open spec fn settles(op: Operation, value: Value) -> bool
    decreases value,
{
    match value {
        Value::Text(text) => case_form(op, case_form(op, text)) == case_form(op, text),
        Value::List(items) => forall|i: int|
            0 <= i < items.len() ==> settles(op, #[trigger] items[i]),
        Value::Error(_) => true,
    }
}

/// Changing the case a second time changes nothing, on every value on whose
/// texts the case mapping itself has that property.
pub proof fn law_case_twice(op: Operation, value: Value)
    requires
        op is Uppercase || op is Lowercase,
    ensures
        settles(op, value) ==> op.apply(op.apply(value)) == op.apply(value),
    decreases value,
{
    if settles(op, value) {
        match value {
            Value::Text(text) => {},
            Value::List(items) => {
                let once = op.apply(value)->List_0;
                let twice = op.apply(op.apply(value))->List_0;
                assert forall|i: int| 0 <= i < items.len() implies twice[i] == once[i] by {
                    assert(settles(op, items[i]));
                    law_case_twice(op, items[i]);
                }
                assert(twice =~= once);
            },
            Value::Error(_) => {},
        }
    }
}

/// Whether the value is an error or holds one at any depth.
pub open spec fn holds_error(value: Value) -> bool
    decreases value,
{
    match value {
        Value::Text(_) => false,
        Value::List(items) => exists|i: int| 0 <= i < items.len() && holds_error(#[trigger] items[i]),
        Value::Error(_) => true,
    }
}

/// A walk through a value finds its texts exactly where the value holds no
/// error.
pub proof fn lemma_leaves_or_error(value: Value)
    ensures
        leaves(value) is None <==> holds_error(value),
    decreases value, 1nat,
{
    if let Value::List(items) = value {
        lemma_leaves_or_error_among(items);
    }
}

/// A walk through values finds their texts exactly where none of them
/// holds an error.
pub proof fn lemma_leaves_or_error_among(items: Seq<Value>)
    ensures
        leaves_of(items) is None <==> exists|i: int|
            0 <= i < items.len() && holds_error(#[trigger] items[i]),
    decreases items, 0nat,
{
    if items.len() > 0 {
        let front = items.drop_last();
        lemma_leaves_or_error_among(front);
        lemma_leaves_or_error(items.last());
        if leaves_of(items) is None {
            if leaves(items.last()) is None {
                assert(holds_error(items[items.len() - 1]));
            } else {
                let i = choose|i: int| 0 <= i < front.len() && holds_error(#[trigger] front[i]);
                assert(holds_error(items[i]));
            }
        } else {
            assert forall|i: int| 0 <= i < items.len() implies !holds_error(
                #[trigger] items[i],
            ) by {
                if i < front.len() {
                    assert(front[i] == items[i]);
                }
            }
        }
    }
}

/// Joining makes one text or one error of any list: the input error where
/// the list holds an error at any depth, else the texts that a walk through
/// it meets, with the separator between them.
pub proof fn law_join_is_poisoned_by_errors(separator: Seq<char>, items: Seq<Value>)
    ensures
        (Operation::Join { separator }).apply(Value::List(items)) == if holds_error(
            Value::List(items),
        ) {
            Value::Error(input_error())
        } else {
            Value::Text(join_spec(leaves_of(items)->0, separator))
        },
{
    lemma_leaves_or_error(Value::List(items));
}

/// No text or message at any depth of a list's elements is longer than the
/// greatest length found in the list.
pub proof fn law_longest_bounds_elements(items: Seq<Value>, i: int)
    requires
        0 <= i < items.len(),
    ensures
        items[i].longest() <= Value::List(items).longest(),
    decreases items.len(),
{
    if i < items.len() - 1 {
        law_longest_bounds_elements(items.drop_last(), i);
    }
}

/// Decoding what percent-encoding made of a text gives the text back.
pub proof fn law_url_round_trip(text: Seq<char>)
    ensures
        (Operation::Decode { encoding: Encoding::URL }).apply(
            (Operation::Encode { encoding: Encoding::URL }).apply(Value::Text(text)),
        ) == Value::Text(text),
{
    lemma_url_round_trip(text);
}

/// The leaves of a list of texts are those texts.
pub proof fn lemma_leaves_of_texts(pieces: Seq<Seq<char>>)
    ensures
        leaves_of(text_list(pieces)->List_0) == Some(pieces),
    decreases pieces.len(),
{
    let items = text_list(pieces)->List_0;
    if pieces.len() > 0 {
        lemma_leaves_of_texts(pieces.drop_last());
        assert(items.drop_last() =~= text_list(pieces.drop_last())->List_0);
        assert(leaves(items.last()) == Some(seq![pieces.last()]));
        assert(pieces.drop_last() + seq![pieces.last()] =~= pieces);
    } else {
        assert(pieces =~= Seq::empty());
    }
}

/// Joining a piece and then more pieces puts the separator between them.
pub proof fn lemma_join_first(first: Seq<char>, rest: Seq<Seq<char>>, separator: Seq<char>)
    requires
        rest.len() > 0,
    ensures
        join_spec(seq![first] + rest, separator) == first + separator + join_spec(rest, separator),
    decreases rest.len(),
{
    let all = seq![first] + rest;
    assert(all.drop_last() =~= seq![first] + rest.drop_last());
    assert(all.last() == rest.last());
    if rest.len() == 1 {
        assert(all.drop_last() =~= seq![first]);
        assert(join_spec(all.drop_last(), separator) == first);
        assert(join_spec(rest, separator) == rest[0]);
    } else {
        lemma_join_first(first, rest.drop_last(), separator);
        assert(join_spec(all, separator) =~= first + separator + join_spec(rest, separator));
    }
}

/// The pieces from a position on, joined by the pattern, are the text from
/// that position on.
pub proof fn lemma_join_pieces(text: Seq<char>, pattern: Seq<char>, start: int, at: int)
    requires
        0 <= start <= at <= text.len(),
        pattern.len() > 0,
    ensures
        pieces_from(text, pattern, start, at).len() > 0,
        join_spec(pieces_from(text, pattern, start, at), pattern) == text.subrange(
            start,
            text.len() as int,
        ),
    decreases text.len() - at,
{
    let end = text.len() as int;
    if at + pattern.len() > text.len() {
    } else if occurs_at(text, pattern, at) {
        let next = at + pattern.len();
        let rest = pieces_from(text, pattern, next, next);
        lemma_join_pieces(text, pattern, next, next);
        lemma_join_first(text.subrange(start, at), rest, pattern);
        assert(text.subrange(start, at) + pattern + text.subrange(next, end) =~= text.subrange(
            start,
            end,
        ));
    } else {
        lemma_join_pieces(text, pattern, start, at + 1);
    }
}

/// The first characters of a text, each a piece of its own behind an empty
/// piece, join to those characters.
pub proof fn lemma_join_chars(text: Seq<char>, upto: int)
    requires
        0 <= upto <= text.len(),
    ensures
        join_spec(
            seq![Seq::<char>::empty()] + Seq::new(upto as nat, |i: int| seq![text[i]]),
            Seq::empty(),
        ) == text.take(upto),
    decreases upto,
{
    let pieces = seq![Seq::<char>::empty()] + Seq::new(upto as nat, |i: int| seq![text[i]]);
    if upto == 0 {
        assert(join_spec(pieces, Seq::empty()) =~= text.take(0));
    } else {
        lemma_join_chars(text, upto - 1);
        assert(pieces.drop_last() =~= seq![Seq::<char>::empty()] + Seq::new(
            (upto - 1) as nat,
            |i: int| seq![text[i]],
        ));
        assert(pieces.last() == seq![text[upto - 1]]);
        assert(text.take(upto - 1) + Seq::<char>::empty() + seq![text[upto - 1]] =~= text.take(
            upto,
        ));
    }
}

/// The pieces that a pattern cuts a text into, joined by that pattern, are
/// the text.
pub proof fn lemma_join_split(text: Seq<char>, pattern: Seq<char>)
    ensures
        join_spec(split_spec(text, pattern), pattern) == text,
{
    if pattern.len() == 0 {
        let inner = seq![Seq::<char>::empty()] + Seq::new(text.len(), |i: int| seq![text[i]]);
        let pieces = pieces_by_char(text);
        lemma_join_chars(text, text.len() as int);
        assert(pieces.drop_last() =~= inner);
        assert(pattern =~= Seq::<char>::empty());
        assert(text.take(text.len() as int) =~= text);
        assert(join_spec(pieces, pattern) =~= text);
    } else {
        lemma_join_pieces(text, pattern, 0, 0);
        assert(text.subrange(0, text.len() as int) =~= text);
    }
}

/// Where the pattern stands nowhere in `start..scan`, it stands in none of
/// the pieces from `start` on.
pub proof fn lemma_pieces_are_free(
    text: Seq<char>,
    pattern: Seq<char>,
    start: int,
    scan: int,
    index: int,
    at: int,
)
    requires
        pattern.len() > 0,
        0 <= start <= scan <= text.len(),
        forall|k: int| start <= k < scan ==> !occurs_at(text, pattern, k),
        0 <= index < pieces_from(text, pattern, start, scan).len(),
    ensures
        !occurs_at(pieces_from(text, pattern, start, scan)[index], pattern, at),
    decreases text.len() - scan,
{
    let end = text.len() as int;
    let width = pattern.len() as int;
    let piece = pieces_from(text, pattern, start, scan)[index];
    if scan + width > end {
        if occurs_at(piece, pattern, at) {
            assert(piece.subrange(at, at + width) =~= text.subrange(start + at, start + at + width));
            assert(occurs_at(text, pattern, start + at));
        }
    } else if occurs_at(text, pattern, scan) {
        if index == 0 {
            if occurs_at(piece, pattern, at) {
                assert(piece.subrange(at, at + width) =~= text.subrange(
                    start + at,
                    start + at + width,
                ));
                assert(occurs_at(text, pattern, start + at));
            }
        } else {
            lemma_pieces_are_free(text, pattern, scan + width, scan + width, index - 1, at);
        }
    } else {
        lemma_pieces_are_free(text, pattern, start, scan + 1, index, at);
    }
}

/// A pattern that is not empty stands in none of the pieces that it cuts a
/// text into: the text is cut at every occurrence.
pub proof fn law_pieces_hold_no_pattern(
    text: Seq<char>,
    pattern: Seq<char>,
    index: int,
    at: int,
)
    requires
        pattern.len() > 0,
        0 <= index < split_spec(text, pattern).len(),
    ensures
        !occurs_at(split_spec(text, pattern)[index], pattern, at),
{
    lemma_pieces_are_free(text, pattern, 0, 0, index, at);
}

/// Splitting a text at a pattern and joining the pieces with that pattern
/// gives the text back.
pub proof fn law_split_then_join(text: Seq<char>, pattern: Seq<char>)
    ensures
        (Operation::Join { separator: pattern }).apply(
            (Operation::Split { pattern }).apply(Value::Text(text)),
        ) == Value::Text(text),
{
    lemma_leaves_of_texts(split_spec(text, pattern));
    lemma_join_split(text, pattern);
}

} // verus!
