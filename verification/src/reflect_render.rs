//! Path resolution on values, and the renderer that takes its data with
//! each call.

use vstd::prelude::*;
use crate::errors::{result_of, Error, MAX_INCLUDE_DEPTH};
use crate::parse::{path_view, Access, AccessView, Field, FieldView, Part, PartView, parts_view};
use crate::render::{
    parts_outcome, render_parts, stack_view, template_outcome, write_value, written,
};
use crate::templates::Templates;
use crate::value::{
    entries_view, option_view, pairs_view, unwrapped, value_view, values_view, Entry, EntryView,
    Fields, FieldsView, Pair, PairView, Scalar, ScalarView, Value, ValueView,
};

verus! {

/// The value of the first field from position `i` on that is called `name`.
pub open spec fn entry_named(entries: Seq<EntryView>, name: Seq<char>, i: int) -> Option<ValueView>
    decreases entries.len() - i,
{
    if i < 0 || i >= entries.len() {
        None
    } else if entries[i].name == name {
        Some(entries[i].value)
    } else {
        entry_named(entries, name, i + 1)
    }
}

/// The value of the first pair from position `i` on whose key is the string
/// `name`.
pub open spec fn pair_keyed(pairs: Seq<PairView>, name: Seq<char>, i: int) -> Option<ValueView>
    decreases pairs.len() - i,
{
    if i < 0 || i >= pairs.len() {
        None
    } else if pairs[i].key == ValueView::Scalar(ScalarView::Str(name)) {
        Some(pairs[i].value)
    } else {
        pair_keyed(pairs, name, i + 1)
    }
}

/// The element at position `i`, if there is one.
pub open spec fn element(items: Seq<ValueView>, i: nat) -> Option<ValueView> {
    if i < items.len() {
        Some(items[i as int])
    } else {
        None
    }
}

/// What a position finds in a value that is no optional: an element of a
/// sequence or of a positional aggregate, or a positional field of the
/// active variant of a tagged union.
pub open spec fn positional(v: ValueView, i: nat) -> Option<ValueView> {
    match v {
        ValueView::List(items) => element(items, i),
        ValueView::Tuple(items) => element(items, i),
        ValueView::Enum(_, FieldsView::Unnamed(items)) => element(items, i),
        _ => None,
    }
}

/// What one selector finds in a value that is no optional. A name finds a
/// field of an aggregate, a string key of a map, the tagged union itself
/// where it names the active variant, or else a field of that variant.
pub open spec fn lookup(v: ValueView, f: FieldView) -> Option<ValueView> {
    match f {
        FieldView::Named(name) => match v {
            ValueView::Struct(entries) => entry_named(entries, name, 0),
            ValueView::Mapping(pairs) => pair_keyed(pairs, name, 0),
            ValueView::Enum(variant, fields) => if variant == name {
                Some(v)
            } else {
                match fields {
                    FieldsView::Named(entries) => entry_named(entries, name, 0),
                    _ => None,
                }
            },
            _ => None,
        },
        FieldView::Index(i) => positional(v, i),
        FieldView::Nth(i) => positional(v, i),
    }
}

/// What the optional `v` holds: nothing where it is absent or no optional.
pub open spec fn option_value_of(v: ValueView) -> Option<ValueView> {
    match v {
        ValueView::Optional(Some(inner)) => Some(*inner),
        _ => None,
    }
}

/// One step of a path: what the selector finds in `v`, looked for inside
/// the optional wrappers of `v`. An absent optional holds no field.
pub open spec fn field_of(v: ValueView, f: FieldView) -> Option<ValueView> {
    match unwrapped(v) {
        Some(inner) => lookup(inner, f),
        None => None,
    }
}

/// The value that the selectors from position `i` on lead to from `v`. The
/// path is absent as soon as one step finds nothing.
pub open spec fn fields_of(v: ValueView, path: Seq<FieldView>, i: int) -> Option<ValueView>
    decreases path.len() - i,
{
    if i < 0 || i >= path.len() {
        Some(v)
    } else {
        match field_of(v, path[i]) {
            Some(next) => fields_of(next, path, i + 1),
            None => None,
        }
    }
}

/// The value that `access` refers to in `v`. `This` is `v` itself, or what
/// it holds where `v` is an optional. A variant is the tagged union inside
/// `v` where its active variant has that name.
pub open spec fn path_of(v: ValueView, access: AccessView) -> Option<ValueView> {
    match access {
        AccessView::This => if v is Optional {
            option_value_of(v)
        } else {
            Some(v)
        },
        AccessView::Variant(name) => match unwrapped(v) {
            Some(inner) => if inner matches ValueView::Enum(variant, _) && variant == name {
                Some(inner)
            } else {
                None
            },
            None => None,
        },
        AccessView::Path(path) => fields_of(v, path, 0),
    }
}

fn find_entry<'a>(entries: &'a Vec<Entry>, name: &String) -> (r: Option<&'a Value>)
    ensures
        option_view(r) == entry_named(entries_view(entries@), name@, 0),
{
    let mut i: usize = 0;
    while i < entries.len()
        invariant
            i <= entries.len(),
            entry_named(entries_view(entries@), name@, 0) == entry_named(
                entries_view(entries@),
                name@,
                i as int,
            ),
        decreases entries.len() - i,
    {
        if entries[i].name == *name {
            return Some(&entries[i].value);
        }
        i += 1;
    }
    None
}

fn find_pair<'a>(pairs: &'a Vec<Pair>, name: &String) -> (r: Option<&'a Value>)
    ensures
        option_view(r) == pair_keyed(pairs_view(pairs@), name@, 0),
{
    let mut i: usize = 0;
    while i < pairs.len()
        invariant
            i <= pairs.len(),
            pair_keyed(pairs_view(pairs@), name@, 0) == pair_keyed(
                pairs_view(pairs@),
                name@,
                i as int,
            ),
        decreases pairs.len() - i,
    {
        let is_key = match &pairs[i].key {
            Value::Scalar(Scalar::Str(key)) => *key == *name,
            _ => false,
        };
        if is_key {
            return Some(&pairs[i].value);
        }
        i += 1;
    }
    None
}

fn element_at<'a>(items: &'a Vec<Value>, i: usize) -> (r: Option<&'a Value>)
    ensures
        option_view(r) == element(values_view(items@), i as nat),
{
    if i < items.len() {
        Some(&items[i])
    } else {
        None
    }
}

fn positional_value<'a>(v: &'a Value, i: usize) -> (r: Option<&'a Value>)
    ensures
        option_view(r) == positional(v@, i as nat),
{
    proof {
        reveal_with_fuel(value_view, 3);
    }
    match v {
        Value::List(items) => element_at(items, i),
        Value::Tuple(items) => element_at(items, i),
        Value::Enum(_, fields) => match fields {
            Fields::Unnamed(items) => element_at(items, i),
            _ => None,
        },
        _ => None,
    }
}

fn lookup_value<'a>(v: &'a Value, f: &Field) -> (r: Option<&'a Value>)
    ensures
        option_view(r) == lookup(v@, f@),
{
    proof {
        reveal_with_fuel(value_view, 3);
    }
    match f {
        Field::Named(name) => match v {
            Value::Struct(entries) => find_entry(entries, name),
            Value::Mapping(pairs) => find_pair(pairs, name),
            Value::Enum(variant, fields) => {
                if *variant == *name {
                    Some(v)
                } else {
                    match fields {
                        Fields::Named(entries) => find_entry(entries, name),
                        _ => None,
                    }
                }
            },
            _ => None,
        },
        Field::Index(i) => positional_value(v, *i),
        Field::Nth(i) => positional_value(v, *i),
    }
}

/// Whether `v` is an optional.
pub fn is_option(v: &Value) -> (r: bool)
    ensures
        r == (v@ is Optional),
{
    match v {
        Value::Optional(_) => true,
        _ => false,
    }
}

/// What the optional `v` holds.
pub fn option_value<'a>(v: &'a Value) -> (r: Option<&'a Value>)
    ensures
        option_view(r) == option_value_of(v@),
{
    match v {
        Value::Optional(inner) => match inner {
            Some(b) => Some(&**b),
            None => None,
        },
        _ => None,
    }
}

/// What the selector `field` finds in `v`.
pub fn get_field<'a>(v: &'a Value, field: &Field) -> (r: Option<&'a Value>)
    ensures
        option_view(r) == field_of(v@, field@),
{
    match v.unwrap_value() {
        Some(inner) => lookup_value(inner, field),
        None => None,
    }
}

/// The value that the selectors of `fields` lead to from `v`.
pub fn get_fields<'a>(v: &'a Value, fields: &Vec<Field>) -> (r: Option<&'a Value>)
    ensures
        option_view(r) == fields_of(v@, path_view(fields@), 0),
{
    let mut cur: &'a Value = v;
    let mut i: usize = 0;
    while i < fields.len()
        invariant
            i <= fields.len(),
            fields_of(v@, path_view(fields@), 0) == fields_of(
                cur@,
                path_view(fields@),
                i as int,
            ),
        decreases fields.len() - i,
    {
        match get_field(cur, &fields[i]) {
            Some(next) => {
                cur = next;
            },
            None => {
                return None;
            },
        }
        i += 1;
    }
    Some(cur)
}

/// The value that `access` refers to in `v`.
pub fn get_path<'a>(v: &'a Value, access: &Access) -> (r: Option<&'a Value>)
    ensures
        option_view(r) == path_of(v@, access@),
{
    match access {
        Access::This => {
            if is_option(v) {
                option_value(v)
            } else {
                Some(v)
            }
        },
        Access::Variant(name) => match v.unwrap_value() {
            Some(inner) => match inner {
                Value::Enum(variant, _) => {
                    if *variant == *name {
                        Some(inner)
                    } else {
                        None
                    }
                },
                _ => None,
            },
            None => None,
        },
        Access::Path(fields) => get_fields(v, fields),
    }
}

/// Text that is written as it is, without escaping.
#[derive(Clone, Debug, PartialEq, Eq, Hash, PartialOrd, Ord)]
pub struct Unescaped(pub String);

impl Unescaped {
    /// The value that stands for this text.
    pub fn into_value(self) -> (r: Value)
        ensures
            r@ == ValueView::Scalar(ScalarView::Raw(self.0@)),
    {
        Value::Scalar(Scalar::Raw(self.0))
    }
}

impl From<String> for Unescaped {
    fn from(value: String) -> (r: Unescaped)
        ensures
            r.0 == value,
    {
        Unescaped(value)
    }
}

impl vstd::std_specs::convert::FromSpecImpl<String> for Unescaped {
    open spec fn obeys_from_spec() -> bool {
        true
    }

    open spec fn from_spec(value: String) -> Unescaped {
        Unescaped(value)
    }
}

/// A renderer of the templates of a registry against one value at a time:
/// the value is the outermost scope of each rendering.
pub struct Renderer<'a> {
    templates: &'a Templates,
}

impl<'a> Renderer<'a> {
    /// A renderer of `templates`.
    pub fn new(templates: &'a Templates) -> (r: Self)
        ensures
            r.registry() == templates@,
    {
        Renderer { templates }
    }

    /// The templates that this renderer knows, by name.
    pub closed spec fn registry(&self) -> Map<Seq<char>, Seq<PartView>> {
        self.templates@
    }

    /// Renders the template called `template` with `data` as its outermost
    /// scope and appends what it writes to `out`. An unknown name is an
    /// error.
    pub fn render(&self, template: &str, data: &Value, out: &mut String) -> (r: Result<(), Error>)
        ensures
            final(out)@ == old(out)@ + template_outcome(self.registry(), template@, data@).text,
            r == result_of(template_outcome(self.registry(), template@, data@)),
    {
        crate::render::Renderer::new(self.templates, data).render(template, out)
    }

    /// Renders `parts` with `data` as their outermost scope and appends
    /// what they write to `out`. Rendering stops at the first part that
    /// fails; what was written before stays in `out`.
    pub fn render_parts(&self, parts: &Vec<Part>, data: &Value, out: &mut String) -> (r: Result<
        (),
        Error,
    >)
        ensures
            final(out)@ == old(out)@ + parts_outcome(
                self.registry(),
                parts_view(parts@),
                0,
                seq![data@],
                MAX_INCLUDE_DEPTH as nat,
            ).text,
            r == result_of(
                parts_outcome(
                    self.registry(),
                    parts_view(parts@),
                    0,
                    seq![data@],
                    MAX_INCLUDE_DEPTH as nat,
                ),
            ),
    {
        let mut stack: Vec<&Value> = Vec::new();
        stack.push(data);
        assert(stack_view(stack@) =~= seq![data@]);
        render_parts(self.templates, parts, &mut stack, out, MAX_INCLUDE_DEPTH)
    }

    /// Appends the text of `value` to `out`: the text of a scalar, also
    /// inside optionals, and nothing for an absent optional. Any other
    /// value is an error.
    pub fn render_value(&self, value: &Value, out: &mut String) -> (r: Result<(), Error>)
        ensures
            final(out)@ == old(out)@ + written(value@).text,
            r == result_of(written(value@)),
    {
        write_value(value, out)
    }
}

} // verus!
