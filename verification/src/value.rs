//! The data model that templates are rendered against.
//!
//! A `Value` is a closed description of an application value by its shape: a
//! scalar, an aggregate with named or positional fields, a sequence, a map, a
//! tagged union or an optional value. Whatever produces application data
//! hands it over in this form; the renderers read nothing else.

use vstd::prelude::*;
use vstd::string::*;
use crate::escape::{escape, escaped};
use crate::text::{bool_text, push_bool, push_signed, push_unsigned, signed_decimal};

verus! {

/// A primitive value.
#[derive(Debug, Clone, PartialEq, Eq)]
pub enum Scalar {
    Bool(bool),
    /// A signed integer of any width.
    Int(i128),
    /// An unsigned integer of any width.
    UInt(u128),
    /// A floating point number, held as the text it is written with.
    Float(String),
    Char(char),
    Str(String),
    /// A file system path, held as the text it is displayed with.
    Path(String),
    /// Text that is written as it is, without escaping.
    Raw(String),
}

/// A field of a named-field aggregate.
#[derive(Debug, PartialEq, Eq)]
pub struct Entry {
    pub name: String,
    pub value: Value,
}

/// A key of a map with the value stored under it.
#[derive(Debug, PartialEq, Eq)]
pub struct Pair {
    pub key: Value,
    pub value: Value,
}

/// What the active variant of a tagged union carries.
#[derive(Debug, PartialEq, Eq)]
pub enum Fields {
    Unit,
    Named(Vec<Entry>),
    Unnamed(Vec<Value>),
}

/// A value by its shape.
#[derive(Debug, PartialEq, Eq)]
pub enum Value {
    Scalar(Scalar),
    /// An aggregate whose fields have names.
    Struct(Vec<Entry>),
    /// An aggregate whose fields have positions.
    Tuple(Vec<Value>),
    /// An ordered sequence of values.
    List(Vec<Value>),
    /// Key and value pairs, in the order in which the map hands them out.
    Mapping(Vec<Pair>),
    /// A tagged union: the name of its active variant and what it carries.
    Enum(String, Fields),
    /// A value that may be absent.
    Optional(Option<Box<Value>>),
}

/// The name of a shape, for diagnostics.
#[derive(Debug, Clone, Copy, PartialEq, Eq, Structural)]
pub enum Shape {
    Scalar,
    Struct,
    Tuple,
    List,
    Mapping,
    Enum,
    Optional,
}

/// What a scalar stands for: integers of every width are integers.
pub enum ScalarView {
    Bool(bool),
    Int(int),
    Float(Seq<char>),
    Char(char),
    Str(Seq<char>),
    Path(Seq<char>),
    Raw(Seq<char>),
}

/// What a field of a named-field aggregate stands for.
pub struct EntryView {
    pub name: Seq<char>,
    pub value: ValueView,
}

/// What a pair of a map stands for.
pub struct PairView {
    pub key: ValueView,
    pub value: ValueView,
}

/// What the fields of a variant stand for.
pub enum FieldsView {
    Unit,
    Named(Seq<EntryView>),
    Unnamed(Seq<ValueView>),
}

/// What a value stands for: its shape, with sequences for its parts.
pub enum ValueView {
    Scalar(ScalarView),
    Struct(Seq<EntryView>),
    Tuple(Seq<ValueView>),
    List(Seq<ValueView>),
    Mapping(Seq<PairView>),
    Enum(Seq<char>, FieldsView),
    Optional(Option<Box<ValueView>>),
}

impl View for Scalar {
    type V = ScalarView;

    open spec fn view(&self) -> ScalarView {
        match self {
            Scalar::Bool(b) => ScalarView::Bool(*b),
            Scalar::Int(n) => ScalarView::Int(*n as int),
            Scalar::UInt(n) => ScalarView::Int(*n as int),
            Scalar::Float(s) => ScalarView::Float(s@),
            Scalar::Char(c) => ScalarView::Char(*c),
            Scalar::Str(s) => ScalarView::Str(s@),
            Scalar::Path(s) => ScalarView::Path(s@),
            Scalar::Raw(s) => ScalarView::Raw(s@),
        }
    }
}

/// The views of a run of values, one for one.
pub open spec fn values_view(values: Seq<Value>) -> Seq<ValueView>
    decreases values,
{
    Seq::new(
        values.len(),
        |i: int|
            if 0 <= i < values.len() {
                value_view(values[i])
            } else {
                ValueView::Optional(None)
            },
    )
}

/// The views of a run of named fields, one for one.
pub open spec fn entries_view(entries: Seq<Entry>) -> Seq<EntryView>
    decreases entries,
{
    Seq::new(
        entries.len(),
        |i: int|
            if 0 <= i < entries.len() {
                EntryView { name: entries[i].name@, value: value_view(entries[i].value) }
            } else {
                EntryView { name: Seq::empty(), value: ValueView::Optional(None) }
            },
    )
}

/// The views of the pairs of a map, one for one.
pub open spec fn pairs_view(pairs: Seq<Pair>) -> Seq<PairView>
    decreases pairs,
{
    Seq::new(
        pairs.len(),
        |i: int|
            if 0 <= i < pairs.len() {
                PairView { key: value_view(pairs[i].key), value: value_view(pairs[i].value) }
            } else {
                PairView { key: ValueView::Optional(None), value: ValueView::Optional(None) }
            },
    )
}

/// The view of what a variant carries.
pub open spec fn fields_view(fields: Fields) -> FieldsView
    decreases fields,
{
    match fields {
        Fields::Unit => FieldsView::Unit,
        Fields::Named(entries) => FieldsView::Named(entries_view(entries@)),
        Fields::Unnamed(values) => FieldsView::Unnamed(values_view(values@)),
    }
}

/// The mathematical value that `value` stands for.
pub open spec fn value_view(value: Value) -> ValueView
    decreases value,
{
    match value {
        Value::Scalar(s) => ValueView::Scalar(s@),
        Value::Struct(entries) => ValueView::Struct(entries_view(entries@)),
        Value::Tuple(values) => ValueView::Tuple(values_view(values@)),
        Value::List(values) => ValueView::List(values_view(values@)),
        Value::Mapping(pairs) => ValueView::Mapping(pairs_view(pairs@)),
        Value::Enum(name, fields) => ValueView::Enum(name@, fields_view(fields)),
        Value::Optional(inner) => match inner {
            Some(b) => ValueView::Optional(Some(Box::new(value_view(*b)))),
            None => ValueView::Optional(None),
        },
    }
}

impl View for Value {
    type V = ValueView;

    open spec fn view(&self) -> ValueView {
        value_view(*self)
    }
}

impl View for Entry {
    type V = EntryView;

    open spec fn view(&self) -> EntryView {
        EntryView { name: self.name@, value: self.value@ }
    }
}

impl View for Pair {
    type V = PairView;

    open spec fn view(&self) -> PairView {
        PairView { key: self.key@, value: self.value@ }
    }
}

impl View for Fields {
    type V = FieldsView;

    open spec fn view(&self) -> FieldsView {
        fields_view(*self)
    }
}

/// The view of a value that may be missing.
pub open spec fn option_view(v: Option<&Value>) -> Option<ValueView> {
    match v {
        Some(v) => Some(v@),
        None => None,
    }
}

/// The value inside any number of optional wrappers, or nothing where one of
/// them is absent.
pub open spec fn unwrapped(v: ValueView) -> Option<ValueView>
    decreases v,
{
    match v {
        ValueView::Optional(Some(inner)) => unwrapped(*inner),
        ValueView::Optional(None) => None,
        _ => Some(v),
    }
}

/// The text that a scalar is written as. Text, characters and paths are
/// HTML-escaped, raw text is not, and numbers and truth values are written
/// in their usual form.
pub open spec fn scalar_text(s: ScalarView) -> Seq<char> {
    match s {
        ScalarView::Bool(b) => bool_text(b),
        ScalarView::Int(n) => signed_decimal(n),
        ScalarView::Float(t) => escaped(t),
        ScalarView::Char(c) => escaped(seq![c]),
        ScalarView::Str(t) => escaped(t),
        ScalarView::Path(t) => escaped(t),
        ScalarView::Raw(t) => t,
    }
}

/// The shape of a value.
pub open spec fn shape_of(v: ValueView) -> Shape {
    match v {
        ValueView::Scalar(_) => Shape::Scalar,
        ValueView::Struct(_) => Shape::Struct,
        ValueView::Tuple(_) => Shape::Tuple,
        ValueView::List(_) => Shape::List,
        ValueView::Mapping(_) => Shape::Mapping,
        ValueView::Enum(_, _) => Shape::Enum,
        ValueView::Optional(_) => Shape::Optional,
    }
}

impl Scalar {
    /// Appends the text of the scalar to `out`.
    pub fn write(&self, out: &mut String)
        ensures
            final(out)@ == old(out)@ + scalar_text(self@),
    {
        match self {
            Scalar::Bool(b) => push_bool(out, *b),
            Scalar::Int(n) => push_signed(out, *n),
            Scalar::UInt(n) => push_unsigned(out, *n),
            Scalar::Float(t) => {
                let e = escape(t.as_str());
                out.append(e.as_str());
            },
            Scalar::Char(c) => {
                let mut t = String::new();
                t.push(*c);
                assert(t@ =~= seq![*c]);
                let e = escape(t.as_str());
                out.append(e.as_str());
            },
            Scalar::Str(t) => {
                let e = escape(t.as_str());
                out.append(e.as_str());
            },
            Scalar::Path(t) => {
                let e = escape(t.as_str());
                out.append(e.as_str());
            },
            Scalar::Raw(t) => out.append(t.as_str()),
        }
    }
}

impl Value {
    /// The shape of the value.
    pub fn shape(&self) -> (r: Shape)
        ensures
            r == shape_of(self@),
    {
        match self {
            Value::Scalar(_) => Shape::Scalar,
            Value::Struct(_) => Shape::Struct,
            Value::Tuple(_) => Shape::Tuple,
            Value::List(_) => Shape::List,
            Value::Mapping(_) => Shape::Mapping,
            Value::Enum(_, _) => Shape::Enum,
            Value::Optional(_) => Shape::Optional,
        }
    }

    /// The value inside the optional wrappers of this one, or nothing where
    /// one of them is absent.
    pub fn unwrap_value(&self) -> (r: Option<&Value>)
        ensures
            option_view(r) == unwrapped(self@),
        decreases self,
    {
        match self {
            Value::Optional(inner) => match inner {
                Some(b) => (&**b).unwrap_value(),
                None => None,
            },
            _ => Some(self),
        }
    }
}

} // verus!
