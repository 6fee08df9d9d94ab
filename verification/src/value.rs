//! The values that flow between transformation steps.

use crate::text::byte_len;
use crate::text::join;
use crate::text::join_spec;
use crate::text::text_len;
use crate::text::texts;
use vstd::prelude::*;
use vstd::std_specs::cmp::PartialEqSpecImpl;
use vstd::string::StringExecFns;

verus! {

/// What a [`Data`] stands for: a text, an ordered list of values, or an
/// error that carries a message.
pub enum Value {
    Text(Seq<char>),
    List(Seq<Value>),
    Error(Seq<char>),
}

/// The greatest of the numbers `longest(v)` over the elements `v` of `items`,
/// and 0 where there is none.
pub open spec fn longest_of(items: Seq<Value>) -> nat
    decreases items, 0nat,
{
    if items.len() == 0 {
        0
    } else {
        let head = items.last().longest();
        let rest = longest_of(items.drop_last());
        if head >= rest {
            head
        } else {
            rest
        }
    }
}

impl Value {
    /// The greatest byte length of a text or an error message at any depth,
    /// and 0 where the value holds neither.
    pub open spec fn longest(self) -> nat
        decreases self, 1nat,
    {
        match self {
            Value::Text(text) => byte_len(text),
            Value::List(items) => longest_of(items),
            Value::Error(message) => byte_len(message),
        }
    }
}

/// How each of the values is shown, in order.
pub open spec fn renderings(items: Seq<Value>) -> Seq<Seq<char>>
    decreases items, 0nat,
{
    if items.len() == 0 {
        Seq::empty()
    } else {
        renderings(items.drop_last()).push(items.last().rendering())
    }
}

impl Value {
    /// How the value is shown: a text and an error as they are, a list as
    /// its elements in square brackets, with a comma and a space between
    /// each two.
    pub open spec fn rendering(self) -> Seq<char>
        decreases self, 1nat,
    {
        match self {
            Value::Text(text) => text,
            Value::List(items) => "["@ + join_spec(renderings(items), ", "@) + "]"@,
            Value::Error(message) => message,
        }
    }
}

/// A value as the program holds it.
#[derive(Debug)]
pub enum Data {
    Text(String),
    List(Vec<Data>),
    Error(String),
}

impl View for Data {
    type V = Value;

    open spec fn view(&self) -> Value
        decreases self,
    {
        match self {
            Data::Text(text) => Value::Text(text@),
            Data::List(items) => Value::List(
                Seq::new(
                    items.len() as nat,
                    |i: int|
                        if 0 <= i < items.len() {
                            items[i]@
                        } else {
                            Value::List(Seq::empty())
                        },
                ),
            ),
            Data::Error(message) => Value::Error(message@),
        }
    }
}

impl Clone for Data {
    /// A copy that stands for the same value.
    fn clone(&self) -> (copy: Data)
        ensures
            copy@ == self@,
        decreases self,
    {
        match self {
            Data::Text(text) => Data::Text(text.clone()),
            Data::List(items) => {
                let mut copies: Vec<Data> = Vec::new();
                let mut i: usize = 0;
                while i < items.len()
                    invariant
                        i <= items.len(),
                        copies.len() == i,
                        *self == Data::List(*items),
                        forall|j: int| 0 <= j < i ==> (#[trigger] copies@[j])@ == self@->List_0[j],
                    decreases items.len() - i,
                {
                    let item = items[i].clone();
                    copies.push(item);
                    i += 1;
                }
                let copy = Data::List(copies);
                assert(copy@->List_0 =~= self@->List_0);
                copy
            },
            Data::Error(message) => Data::Error(message.clone()),
        }
    }
}

impl PartialEq for Data {
    /// Whether the two stand for the same value.
    fn eq(&self, other: &Data) -> (same: bool)
        decreases self,
    {
        match (self, other) {
            (Data::Text(mine), Data::Text(theirs)) => *mine == *theirs,
            (Data::Error(mine), Data::Error(theirs)) => *mine == *theirs,
            (Data::List(mine), Data::List(theirs)) => {
                if mine.len() != theirs.len() {
                    assert(self@->List_0.len() != other@->List_0.len());
                    return false;
                }
                let mut i: usize = 0;
                while i < mine.len()
                    invariant
                        i <= mine.len(),
                        mine.len() == theirs.len(),
                        *self == Data::List(*mine),
                        *other == Data::List(*theirs),
                        forall|j: int| 0 <= j < i ==> (#[trigger] mine@[j])@ == theirs@[j]@,
                    decreases mine.len() - i,
                {
                    if !mine[i].eq(&theirs[i]) {
                        assert(self@->List_0[i as int] != other@->List_0[i as int]);
                        return false;
                    }
                    i += 1;
                }
                assert(self@->List_0 =~= other@->List_0);
                true
            },
            _ => false,
        }
    }
}

impl PartialEqSpecImpl for Data {
    open spec fn obeys_eq_spec() -> bool {
        true
    }

    open spec fn eq_spec(&self, other: &Data) -> bool {
        self@ == other@
    }
}

impl Data {
    /// How the value is shown.
    pub fn render(&self) -> (shown: String)
        ensures
            shown@ == self@.rendering(),
        decreases self,
    {
        match self {
            Data::Text(text) => text.clone(),
            Data::List(items) => {
                let ghost values = self@->List_0;
                let mut parts: Vec<String> = Vec::new();
                let mut i: usize = 0;
                while i < items.len()
                    invariant
                        i <= items.len(),
                        *self == Data::List(*items),
                        values == self@->List_0,
                        texts(parts@) == renderings(values.take(i as int)),
                    decreases items.len() - i,
                {
                    let ghost before = texts(parts@);
                    let part = items[i].render();
                    parts.push(part);
                    assert(values.take(i as int + 1).drop_last() =~= values.take(i as int));
                    assert(texts(parts@) =~= before.push(values[i as int].rendering()));
                    i += 1;
                }
                assert(values.take(i as int) =~= values);
                let mut shown = String::from_str("[");
                let inner = join(&parts, ", ");
                shown.append(inner.as_str());
                shown.append("]");
                shown
            },
            Data::Error(message) => message.clone(),
        }
    }

    /// The greatest byte length of a text or an error message at any depth.
    pub fn max_str_len(&self) -> (len: usize)
        ensures
            len == self@.longest(),
        decreases self,
    {
        match self {
            Data::Text(text) => text_len(text.as_str()),
            Data::List(items) => {
                let mut best: usize = 0;
                let mut i: usize = 0;
                while i < items.len()
                    invariant
                        i <= items.len(),
                        self == Data::List(*items),
                        best == longest_of(self@->List_0.take(i as int)),
                    decreases items.len() - i,
                {
                    let len: usize = items[i].max_str_len();
                    assert(self@->List_0.take(i as int + 1).drop_last() == self@->List_0.take(i as int));
                    if len > best {
                        best = len;
                    }
                    i += 1;
                }
                assert(self@->List_0.take(i as int) == self@->List_0);
                best
            },
            Data::Error(message) => text_len(message.as_str()),
        }
    }
}

} // verus!
