//! The operations and what each makes of a value.

use crate::casing::lowercased;
use crate::casing::uppercased;
use crate::codec::base64_fits;
use crate::codec::can_encode;
use crate::codec::decode;
use crate::codec::decoded;
use crate::codec::encodable;
use crate::codec::encode;
use crate::codec::encoded;
use crate::codec::outcome_view;
use crate::codec::Encoding;
use crate::pattern::find;
use crate::pattern::found_view;
use crate::pattern::matches_of;
use crate::pattern::replace;
use crate::pattern::replaced;
use crate::pattern::text_view;
use crate::text::cut;
use crate::text::cut_spec;
use crate::text::join;
use crate::text::join_spec;
use crate::text::split;
use crate::text::split_spec;
use crate::text::byte_len;
use crate::text::texts;
use crate::text::Cut;
use crate::text::CutView;
use crate::value::Data;
use crate::value::Value;
use vstd::prelude::*;
use vstd::string::StringExecFns;

verus! {

/// The message of the error that an operation makes of an error.
pub open spec fn input_error() -> Seq<char> {
    "Input error"@
}

/// The message of the error that a pattern which is no regular expression
/// gives.
pub open spec fn invalid_pattern() -> Seq<char> {
    "Invalid pattern"@
}

/// The message of the error that a range gives whose bound falls inside a
/// character.
pub open spec fn invalid_slice() -> Seq<char> {
    "Invalid slice bounds"@
}

/// What a [`Transformer`] stands for.
pub enum Operation {
    Split { pattern: Seq<char> },
    Join { separator: Seq<char> },
    Find { pattern: Seq<char> },
    Replace { pattern: Seq<char>, replacer: Seq<char> },
    Slice { from: nat, to: nat },
    Encode { encoding: Encoding },
    Decode { encoding: Encoding },
    Uppercase,
    Lowercase,
}

/// The list whose elements are the given texts.
pub open spec fn text_list(pieces: Seq<Seq<char>>) -> Value {
    Value::List(pieces.map_values(|piece: Seq<char>| Value::Text(piece)))
}

/// The texts that a walk through the values from the left meets, each list
/// walked through in its place; nothing where the walk meets an error.
pub open spec fn leaves_of(items: Seq<Value>) -> Option<Seq<Seq<char>>>
    decreases items, 0nat,
{
    if items.len() == 0 {
        Some(Seq::empty())
    } else {
        match (leaves_of(items.drop_last()), leaves(items.last())) {
            (Some(front), Some(back)) => Some(front + back),
            _ => None,
        }
    }
}

/// The texts that a walk through the value meets; nothing where it meets an
/// error.
pub open spec fn leaves(value: Value) -> Option<Seq<Seq<char>>>
    decreases value, 1nat,
{
    match value {
        Value::Text(text) => Some(seq![text]),
        Value::List(items) => leaves_of(items),
        Value::Error(_) => None,
    }
}

impl Operation {
    /// What the operation makes of a text.
    ///
    /// A range of bytes whose lower bound lies above the upper one, both
    /// brought down to the text's length, is the empty text; one with a
    /// bound inside a character is an error. Decoding gives an error for a
    /// text that is not well formed in its encoding: for percent-encoding,
    /// one with a `%` that no two hexadecimal digits follow, or one whose
    /// decoded bytes are no UTF-8.
    pub open spec fn on_text(self, text: Seq<char>) -> Value {
        match self {
            Operation::Split { pattern } => text_list(split_spec(text, pattern)),
            Operation::Join { separator } => Value::Text(text),
            Operation::Find { pattern } => match matches_of(pattern, text) {
                Some(found) => text_list(found),
                None => Value::Error(invalid_pattern()),
            },
            Operation::Replace { pattern, replacer } => match replaced(pattern, text, replacer) {
                Some(changed) => Value::Text(changed),
                None => Value::Error(invalid_pattern()),
            },
            Operation::Slice { from, to } => match cut_spec(text, from, to) {
                CutView::Nothing => Value::Text(Seq::empty()),
                CutView::Broken => Value::Error(invalid_slice()),
                CutView::Part(part) => Value::Text(part),
            },
            Operation::Encode { encoding } => Value::Text(encoded(encoding, text)),
            Operation::Decode { encoding } => match decoded(encoding, text) {
                Ok(plain) => Value::Text(plain),
                Err(message) => Value::Error(message),
            },
            Operation::Uppercase => Value::Text(uppercased(text)),
            Operation::Lowercase => Value::Text(lowercased(text)),
        }
    }

    /// What joining makes of a list: the texts at its leaves with
    /// `separator` between them, or an error where an error is among them.
    pub open spec fn joined(items: Seq<Value>, separator: Seq<char>) -> Value {
        match leaves_of(items) {
            Some(found) => Value::Text(join_spec(found, separator)),
            None => Value::Error(input_error()),
        }
    }

    /// What the operation makes of a value: of a text what `on_text` says,
    /// of an error the input error, of a list the list of what it makes of
    /// each element; joining alone makes one text of a list.
    pub open spec fn apply(self, value: Value) -> Value
        decreases value,
    {
        match value {
            Value::Text(text) => self.on_text(text),
            Value::List(items) => match self {
                Operation::Join { separator } => Self::joined(items, separator),
                _ => Value::List(
                    Seq::new(
                        items.len(),
                        |i: int|
                            if 0 <= i < items.len() {
                                self.apply(items[i])
                            } else {
                                Value::List(Seq::empty())
                            },
                    ),
                ),
            },
            Value::Error(_) => Value::Error(input_error()),
        }
    }

    /// Whether the operation can be carried out on the text within the
    /// machine's limits.
    pub open spec fn admits_text(self, text: Seq<char>) -> bool {
        self matches Operation::Encode { encoding } ==> encodable(encoding, text)
    }

    /// Whether the operation can be carried out on the value within the
    /// machine's limits. Only encoding to base64 has one: the length of the
    /// encoded form of each text.
    pub open spec fn admits(self, value: Value) -> bool {
        self matches Operation::Encode { encoding } ==> encoding == Encoding::URL || all_fit(
            value,
        )
    }
}

/// Whether the base64 form of every text in the value has a length that
/// fits in `usize`.
pub open spec fn all_fit(value: Value) -> bool
    decreases value,
{
    match value {
        Value::Text(text) => base64_fits(byte_len(text)),
        Value::List(items) => forall|i: int| 0 <= i < items.len() ==> all_fit(#[trigger] items[i]),
        Value::Error(_) => true,
    }
}

/// An operation on values, with its parameters.
#[derive(Clone, Debug)]
pub enum Transformer {
    Split { pattern: String },
    Join { separator: String },
    Find { pattern: String },
    Replace { pattern: String, replacer: String },
    Slice { from: usize, to: usize },
    Encode { encoding: Encoding },
    Decode { encoding: Encoding },
    Uppercase,
    Lowercase,
}

impl View for Transformer {
    type V = Operation;

    open spec fn view(&self) -> Operation {
        match self {
            Transformer::Split { pattern } => Operation::Split { pattern: pattern@ },
            Transformer::Join { separator } => Operation::Join { separator: separator@ },
            Transformer::Find { pattern } => Operation::Find { pattern: pattern@ },
            Transformer::Replace { pattern, replacer } => Operation::Replace {
                pattern: pattern@,
                replacer: replacer@,
            },
            Transformer::Slice { from, to } => Operation::Slice {
                from: *from as nat,
                to: *to as nat,
            },
            Transformer::Encode { encoding } => Operation::Encode { encoding: *encoding },
            Transformer::Decode { encoding } => Operation::Decode { encoding: *encoding },
            Transformer::Uppercase => Operation::Uppercase,
            Transformer::Lowercase => Operation::Lowercase,
        }
    }
}

/// The error that an operation makes of an error.
pub fn input_error_value() -> (out: Data)
    ensures
        out@ == Value::Error(input_error()),
{
    Data::Error(String::from_str("Input error"))
}

/// The list of the given texts.
pub fn list_of_texts(pieces: Vec<String>) -> (out: Data)
    ensures
        out@ == text_list(texts(pieces@)),
{
    let ghost all = texts(pieces@);
    let mut items: Vec<Data> = Vec::new();
    for piece in it: pieces
        invariant
            all == texts(it.seq()),
            items.len() == it.index(),
            forall|j: int| 0 <= j < it.index() ==> (#[trigger] items@[j])@ == Value::Text(all[j]),
    {
        items.push(Data::Text(piece));
    }
    let out = Data::List(items);
    assert(out@->List_0 =~= text_list(all)->List_0);
    out
}

/// The matches as a list of texts, or the error that tells of a pattern
/// which is no regular expression.
pub fn found_or_error(found: Option<Vec<String>>) -> (out: Data)
    ensures
        out@ == match found_view(found) {
            Some(found) => text_list(found),
            None => Value::Error(invalid_pattern()),
        },
{
    match found {
        Some(found) => list_of_texts(found),
        None => Data::Error(String::from_str("Invalid pattern")),
    }
}

/// The changed text, or the error that tells of a pattern which is no
/// regular expression.
pub fn replaced_or_error(changed: Option<String>) -> (out: Data)
    ensures
        out@ == match text_view(changed) {
            Some(changed) => Value::Text(changed),
            None => Value::Error(invalid_pattern()),
        },
{
    match changed {
        Some(changed) => Data::Text(changed),
        None => Data::Error(String::from_str("Invalid pattern")),
    }
}

/// The decoded text, or the error with the message of the fault.
pub fn decoded_or_error(outcome: Result<String, String>) -> (out: Data)
    ensures
        out@ == match outcome_view(outcome) {
            Ok(plain) => Value::Text(plain),
            Err(message) => Value::Error(message),
        },
{
    match outcome {
        Ok(plain) => Data::Text(plain),
        Err(message) => Data::Error(message),
    }
}

/// The part that a range of bytes holds, the empty text for a range whose
/// bounds are out of order, or the error for a bound inside a character.
pub fn slice_or_error(range: Cut) -> (out: Data)
    ensures
        out@ == match range@ {
            CutView::Nothing => Value::Text(Seq::empty()),
            CutView::Broken => Value::Error(invalid_slice()),
            CutView::Part(part) => Value::Text(part),
        },
{
    match range {
        Cut::Nothing => Data::Text(String::new()),
        Cut::Broken => Data::Error(String::from_str("Invalid slice bounds")),
        Cut::Part(part) => Data::Text(String::from_str(part)),
    }
}

/// The leaves of the first values and one more are the leaves of the first
/// and then those of the one more, where neither holds an error.
pub proof fn lemma_leaves_step(items: Seq<Value>, upto: int)
    requires
        0 <= upto < items.len(),
    ensures
        leaves_of(items.take(upto + 1)) == match (
            leaves_of(items.take(upto)),
            leaves(items[upto]),
        ) {
            (Some(front), Some(back)) => Some(front + back),
            _ => None,
        },
{
    assert(items.take(upto + 1).drop_last() =~= items.take(upto));
    assert(items.take(upto + 1).last() == items[upto]);
}

/// Once part of a list holds an error, the whole list does.
pub proof fn lemma_leaves_none(items: Seq<Value>, upto: int)
    requires
        0 <= upto <= items.len(),
        leaves_of(items.take(upto)) is None,
    ensures
        leaves_of(items) is None,
    decreases items.len() - upto,
{
    if upto < items.len() {
        lemma_leaves_step(items, upto);
        lemma_leaves_none(items, upto + 1);
    } else {
        assert(items.take(upto) =~= items);
    }
}

/// Walks through `data` from the left and adds the texts it meets to
/// `found`. The walk ends at the first error, and the result says whether it
/// met none.
pub fn collect(data: &Data, found: &mut Vec<String>) -> (whole: bool)
    ensures
        whole == leaves(data@) is Some,
        whole ==> texts(final(found)@) == texts(old(found)@) + leaves(data@)->0,
    decreases data,
{
    match data {
        Data::Text(text) => {
            let ghost before = texts(found@);
            found.push(text.clone());
            assert(texts(found@) =~= before + seq![text@]);
            true
        },
        Data::Error(_) => false,
        Data::List(items) => {
            let ghost values = data@->List_0;
            let mut i: usize = 0;
            while i < items.len()
                invariant
                    i <= items.len(),
                    *data == Data::List(*items),
                    values == data@->List_0,
                    leaves_of(values.take(i as int)) is Some,
                    texts(found@) == texts(old(found)@) + leaves_of(values.take(i as int))->0,
                decreases items.len() - i,
            {
                proof {
                    lemma_leaves_step(values, i as int);
                }
                let ghost before = texts(found@);
                if !collect(&items[i], found) {
                    proof {
                        lemma_leaves_none(values, i as int + 1);
                    }
                    return false;
                }
                assert(texts(found@) =~= texts(old(found)@) + leaves_of(
                    values.take(i as int + 1),
                )->0);
                i += 1;
            }
            assert(values.take(i as int) =~= values);
            true
        },
    }
}

/// Whether the base64 form of every text in `data` has a length that fits
/// in `usize`.
pub fn all_fit_in(data: &Data) -> (ok: bool)
    ensures
        ok == all_fit(data@),
    decreases data,
{
    match data {
        Data::Text(text) => can_encode(Encoding::Base64, text.as_str()),
        Data::Error(_) => true,
        Data::List(items) => {
            let mut i: usize = 0;
            while i < items.len()
                invariant
                    i <= items.len(),
                    *data == Data::List(*items),
                    forall|j: int| 0 <= j < i ==> all_fit(#[trigger] data@->List_0[j]),
                decreases items.len() - i,
            {
                if !all_fit_in(&items[i]) {
                    assert(!all_fit(data@->List_0[i as int]));
                    return false;
                }
                i += 1;
            }
            true
        },
    }
}

impl Transformer {
    /// Whether the operation can be carried out on `text` within the
    /// machine's limits.
    pub fn admits_text(&self, text: &str) -> (ok: bool)
        ensures
            ok == self@.admits_text(text@),
    {
        match self {
            Transformer::Encode { encoding } => can_encode(*encoding, text),
            _ => true,
        }
    }

    /// Whether the operation can be carried out on `data` within the
    /// machine's limits.
    pub fn admits(&self, data: &Data) -> (ok: bool)
        ensures
            ok == self@.admits(data@),
    {
        match self {
            Transformer::Encode { encoding } => match encoding {
                Encoding::URL => true,
                _ => all_fit_in(data),
            },
            _ => true,
        }
    }

    /// Applies the operation to one text. Where it encodes, decoding the
    /// result in the same encoding gives the text back.
    pub fn transform_text(&self, text: &str) -> (out: Data)
        requires
            self@.admits_text(text@),
        ensures
            out@ == self@.on_text(text@),
            self@ matches Operation::Encode { encoding } ==> (Operation::Decode {
                encoding,
            }).apply(out@) == Value::Text(text@),
    {
        match self {
            Transformer::Split { pattern } => list_of_texts(split(text, pattern.as_str())),
            Transformer::Join { .. } => Data::Text(String::from_str(text)),
            Transformer::Find { pattern } => found_or_error(find(pattern.as_str(), text)),
            Transformer::Replace { pattern, replacer } => replaced_or_error(
                replace(pattern.as_str(), text, replacer.as_str()),
            ),
            Transformer::Slice { from, to } => slice_or_error(cut(text, *from, *to)),
            Transformer::Encode { encoding } => Data::Text(encode(*encoding, text)),
            Transformer::Decode { encoding } => decoded_or_error(decode(*encoding, text)),
            Transformer::Uppercase => Data::Text(text.to_uppercase()),
            Transformer::Lowercase => Data::Text(text.to_lowercase()),
        }
    }

    /// Applies the operation to `data`. Where it encodes a text, decoding
    /// the result in the same encoding gives the text back.
    pub fn transform(&self, data: &Data) -> (out: Data)
        requires
            self@.admits(data@),
        ensures
            out@ == self@.apply(data@),
            self@ matches Operation::Encode { encoding } ==> data@ is Text ==> (Operation::Decode {
                encoding,
            }).apply(out@) == data@,
        decreases data,
    {
        match data {
            Data::Text(text) => self.transform_text(text.as_str()),
            Data::Error(_) => input_error_value(),
            Data::List(items) => {
                if let Transformer::Join { separator } = self {
                    let mut found: Vec<String> = Vec::new();
                    let whole = collect(data, &mut found);
                    assert(texts(found@) =~= leaves(data@)->0 || !whole);
                    return if whole {
                        Data::Text(join(&found, separator.as_str()))
                    } else {
                        input_error_value()
                    };
                }
                let ghost values = data@->List_0;
                let mut made: Vec<Data> = Vec::new();
                let mut i: usize = 0;
                while i < items.len()
                    invariant
                        i <= items.len(),
                        made.len() == i,
                        *data == Data::List(*items),
                        values == data@->List_0,
                        !(self@ is Join),
                        forall|j: int|
                            0 <= j < items.len() ==> self@.admits(#[trigger] values[j]),
                        forall|j: int|
                            0 <= j < i ==> (#[trigger] made@[j])@ == self@.apply(values[j]),
                    decreases items.len() - i,
                {
                    assert(self@.admits(values[i as int]));
                    let item = self.transform(&items[i]);
                    made.push(item);
                    i += 1;
                }
                let out = Data::List(made);
                assert(out@->List_0 =~= self@.apply(data@)->List_0);
                out
            },
        }
    }
}

} // verus!
