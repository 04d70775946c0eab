use vstd::prelude::*;
use crate::protocol::text::{decimal_string, decimal_text, join, join_text};

verus! {

/// A protocol value as it travels between the codec, the evaluator and the
/// store.
#[derive(Debug, PartialEq, Eq)]
pub enum Value {
    Int64(i64),
    Int32(i32),
    String(String),
    Vector(Vec<Value>),
    VectorString(Vec<String>),
    Empty,
}

/// The mathematical content of a [`Value`].
pub enum ValueView {
    Int64(i64),
    Int32(i32),
    String(Seq<char>),
    Vector(Seq<ValueView>),
    VectorString(Seq<Seq<char>>),
    Empty,
}

/// The contents of a list of values.
pub open spec fn values_view(v: Seq<Value>) -> Seq<ValueView> {
    Seq::new(v.len(), |i: int| v[i]@)
}

/// The contents of a list of strings.
pub open spec fn strings_view(v: Seq<String>) -> Seq<Seq<char>> {
    Seq::new(v.len(), |i: int| v[i]@)
}

/// An array value holds the contents of its elements, in order.
pub proof fn lemma_vector_view(v: Vec<Value>)
    ensures
        Value::Vector(v)@ == ValueView::Vector(values_view(v@)),
{
    reveal_with_fuel(value_view, 2);
    assert(Value::Vector(v)@->Vector_0 =~= values_view(v@));
}

/// A string list value holds the contents of its strings, in order.
pub proof fn lemma_vector_string_view(v: Vec<String>)
    ensures
        Value::VectorString(v)@ == ValueView::VectorString(strings_view(v@)),
{
    assert(Value::VectorString(v)@->VectorString_0 =~= strings_view(v@));
}

/// The content of a value: integers as they are, strings as their
/// characters, lists as the contents of their elements.
pub open spec fn value_view(value: Value) -> ValueView
    decreases value,
{
    match value {
        Value::Int64(i) => ValueView::Int64(i),
        Value::Int32(i) => ValueView::Int32(i),
        Value::String(s) => ValueView::String(s@),
        Value::Vector(v) => ValueView::Vector(
            Seq::new(
                v@.len(),
                |i: int|
                    if 0 <= i < v@.len() {
                        value_view(v@[i])
                    } else {
                        ValueView::Empty
                    },
            ),
        ),
        Value::VectorString(v) => ValueView::VectorString(strings_view(v@)),
        Value::Empty => ValueView::Empty,
    }
}

impl View for Value {
    type V = ValueView;

    open spec fn view(&self) -> ValueView {
        value_view(*self)
    }
}

/// Copies a string list element by element.
pub fn clone_strings(v: &Vec<String>) -> (res: Vec<String>)
    ensures
        res@.len() == v@.len(),
        forall|i: int| 0 <= i < v@.len() ==> res@[i]@ == v@[i]@,
{
    let mut out: Vec<String> = Vec::new();
    let mut i: usize = 0;
    while i < v.len()
        invariant
            i <= v@.len(),
            out@.len() == i,
            forall|j: int| 0 <= j < i ==> out@[j]@ == v@[j]@,
        decreases v@.len() - i,
    {
        out.push(v[i].clone());
        i += 1;
    }
    out
}

/// Copies a list of values, each with everything nested in it.
pub fn clone_values(v: &Vec<Value>) -> (res: Vec<Value>)
    ensures
        res@.len() == v@.len(),
        forall|i: int| 0 <= i < v@.len() ==> res@[i]@ == v@[i]@,
    decreases v,
{
    let mut out: Vec<Value> = Vec::new();
    let mut i: usize = 0;
    while i < v.len()
        invariant
            i <= v@.len(),
            out@.len() == i,
            forall|j: int| 0 <= j < i ==> out@[j]@ == v@[j]@,
        decreases v@.len() - i,
    {
        assert(decreases_to!(*v => v[i as int]));
        out.push(clone_value(&v[i]));
        i += 1;
    }
    out
}

/// Copies a value together with everything nested in it.
pub fn clone_value(value: &Value) -> (res: Value)
    ensures
        res@ == value@,
    decreases value,
{
    match value {
        Value::Int64(i) => Value::Int64(*i),
        Value::Int32(i) => Value::Int32(*i),
        Value::String(s) => Value::String(s.clone()),
        Value::Vector(v) => {
            let out = clone_values(v);
            assert(Value::Vector(out)@->Vector_0 =~= value@->Vector_0);
            Value::Vector(out)
        },
        Value::VectorString(v) => {
            let out = clone_strings(v);
            assert(Value::VectorString(out)@->VectorString_0 =~= value@->VectorString_0);
            Value::VectorString(out)
        },
        Value::Empty => Value::Empty,
    }
}

/// The text of a value that is no array: a string as it is, an integer in
/// decimal, a string list joined by a comma and a space, anything else empty.
pub open spec fn simple_text(value: ValueView) -> Seq<char> {
    match value {
        ValueView::String(s) => s,
        ValueView::Int64(i) => decimal_text(i as int),
        ValueView::Int32(i) => decimal_text(i as int),
        ValueView::VectorString(parts) => join_text(parts),
        _ => Seq::<char>::empty(),
    }
}

/// The text of a value: an array as the texts of its elements joined by a
/// comma and a space, any other value as its own text.
pub open spec fn text_of(value: ValueView) -> Seq<char> {
    match value {
        ValueView::Vector(elems) => join_text(Seq::new(elems.len(), |i: int| simple_text(elems[i]))),
        _ => simple_text(value),
    }
}

impl Value {
    /// The text of a value that is no array.
    pub fn simple_to_str(&self) -> (r: String)
        ensures
            r@ == simple_text(self@),
    {
        match self {
            Value::String(s) => s.clone(),
            Value::Int64(i) => decimal_string(*i),
            Value::Int32(i) => decimal_string(*i as i64),
            Value::VectorString(parts) => {
                proof {
                    lemma_vector_string_view(*parts);
                }
                join(parts)
            },
            _ => String::new(),
        }
    }

    /// The text of a value.
    pub fn custom_to_string(&self) -> (r: String)
        ensures
            r@ == text_of(self@),
    {
        match self {
            Value::Vector(elems) => {
                let mut texts: Vec<String> = Vec::new();
                let mut i: usize = 0;
                while i < elems.len()
                    invariant
                        i <= elems@.len(),
                        texts@.len() == i,
                        forall|j: int| 0 <= j < i ==> texts@[j]@ == simple_text(elems@[j]@),
                    decreases elems@.len() - i,
                {
                    texts.push(elems[i].simple_to_str());
                    i += 1;
                }
                proof {
                    lemma_vector_view(*elems);
                    assert(strings_view(texts@) =~= Seq::new(
                        values_view(elems@).len(),
                        |i: int| simple_text(values_view(elems@)[i]),
                    ));
                }
                join(&texts)
            },
            _ => self.simple_to_str(),
        }
    }
}

impl Clone for Value {
    fn clone(&self) -> (res: Value)
        ensures
            res@ == self@,
    {
        clone_value(self)
    }
}

} // verus!
