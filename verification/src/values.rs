//! Runtime values of Serow expressions: their mathematical model, their text, their
//! types, and the comparisons and built-in list operations on them.
use vstd::prelude::*;

use crate::eval::opt_view;
use crate::text::{i64_text, int_text, owned, push_char, seq_eq};

verus! {

/// A value that an expression evaluates to.
#[derive(Debug, PartialEq, Eq)]
pub enum Value {
    Int(i64),
    Bool(bool),
    Text(String),
    /// A record, its fields in the order of its type declaration.
    Record { type_text: String, fields: Vec<(String, Value)> },
    Enum { type_text: String, variant: String },
    List { element_type: Option<String>, elements: Vec<Value> },
    Unit,
}

/// A value as the specification sees it.
pub enum Val {
    Int(int),
    Bool(bool),
    Text(Seq<char>),
    Record(Seq<char>, Seq<(Seq<char>, Val)>),
    Enum(Seq<char>, Seq<char>),
    List(Option<Seq<char>>, Seq<Val>),
    Unit,
}

pub open spec fn value_view(v: Value) -> Val
    decreases v, 0nat,
{
    match v {
        Value::Int(n) => Val::Int(n as int),
        Value::Bool(b) => Val::Bool(b),
        Value::Text(s) => Val::Text(s@),
        Value::Record { type_text, fields } => Val::Record(type_text@, fields_view(fields, fields@.len())),
        Value::Enum { type_text, variant } => Val::Enum(type_text@, variant@),
        Value::List { element_type, elements } => Val::List(
            opt_view(element_type),
            values_view(elements, elements@.len()),
        ),
        Value::Unit => Val::Unit,
    }
}

/// The views of the first `n` values.
pub open spec fn values_view(es: Vec<Value>, n: nat) -> Seq<Val>
    decreases es, n,
{
    if n == 0 || n > es@.len() {
        seq![]
    } else {
        values_view(es, (n - 1) as nat).push(value_view(es[n - 1]))
    }
}

/// The views of the first `n` fields.
pub open spec fn fields_view(fs: Vec<(String, Value)>, n: nat) -> Seq<(Seq<char>, Val)>
    decreases fs, n,
{
    if n == 0 || n > fs@.len() {
        seq![]
    } else {
        fields_view(fs, (n - 1) as nat).push((fs[n - 1].0@, value_view(fs[n - 1].1)))
    }
}

pub proof fn lemma_values_view(es: Vec<Value>, n: nat)
    requires
        n <= es@.len(),
    ensures
        values_view(es, n).len() == n,
        forall|i: int| 0 <= i < n ==> #[trigger] values_view(es, n)[i] == value_view(es@[i]),
    decreases n,
{
    if n > 0 {
        lemma_values_view(es, (n - 1) as nat);
    }
}

pub proof fn lemma_fields_view(fs: Vec<(String, Value)>, n: nat)
    requires
        n <= fs@.len(),
    ensures
        fields_view(fs, n).len() == n,
        forall|i: int| 0 <= i < n ==> #[trigger] fields_view(fs, n)[i] == (fs@[i].0@, value_view(fs@[i].1)),
    decreases n,
{
    if n > 0 {
        lemma_fields_view(fs, (n - 1) as nat);
    }
}

/// The views of all the values of a list.
pub open spec fn vals(es: Vec<Value>) -> Seq<Val> {
    values_view(es, es@.len())
}

/// The views of all the fields of a record.
pub open spec fn field_vals(fs: Vec<(String, Value)>) -> Seq<(Seq<char>, Val)> {
    fields_view(fs, fs@.len())
}

impl Value {
    /// A copy of the value.
    pub fn copy(&self) -> (res: Value)
        ensures
            value_view(res) == value_view(*self),
        decreases self,
    {
        match self {
            Value::Int(n) => Value::Int(*n),
            Value::Bool(b) => Value::Bool(*b),
            Value::Text(s) => Value::Text(s.clone()),
            Value::Record { type_text, fields } => {
                let mut out: Vec<(String, Value)> = Vec::new();
                let mut i: usize = 0;
                while i < fields.len()
                    invariant
                        i <= fields@.len(),
                        out@.len() == i,
                        forall|k: int| 0 <= k < i ==> #[trigger] out@[k].0@ == fields@[k].0@ && value_view(out@[k].1) == value_view(fields@[k].1),
                        *self == (Value::Record { type_text: *type_text, fields: *fields }),
                    decreases fields@.len() - i,
                {
                    proof {
                        vstd::std_specs::vec::axiom_vec_index_decreases(*fields, i as int);
                        assert(decreases_to!(*self => (*self)->fields));
                        assert(decreases_to!(*fields => fields[i as int]));
                        assert(decreases_to!(fields[i as int] => fields[i as int].1));
                        assert(decreases_to!(*self => fields[i as int].1));
                    }
                    let v = fields[i].1.copy();
                    out.push((fields[i].0.clone(), v));
                    i += 1;
                }
                proof {
                    lemma_fields_view(out, out@.len());
                    lemma_fields_view(*fields, fields@.len());
                    assert(field_vals(out) =~= field_vals(*fields));
                }
                Value::Record { type_text: type_text.clone(), fields: out }
            },
            Value::Enum { type_text, variant } => Value::Enum { type_text: type_text.clone(), variant: variant.clone() },
            Value::List { element_type, elements } => {
                let mut out: Vec<Value> = Vec::new();
                let mut i: usize = 0;
                while i < elements.len()
                    invariant
                        i <= elements@.len(),
                        out@.len() == i,
                        forall|k: int| 0 <= k < i ==> value_view(#[trigger] out@[k]) == value_view(elements@[k]),
                        *self == (Value::List { element_type: *element_type, elements: *elements }),
                    decreases elements@.len() - i,
                {
                    proof {
                        vstd::std_specs::vec::axiom_vec_index_decreases(*elements, i as int);
                        assert(decreases_to!(*self => (*self)->elements));
                        assert(decreases_to!(*self => elements[i as int]));
                    }
                    let v = elements[i].copy();
                    out.push(v);
                    i += 1;
                }
                proof {
                    lemma_values_view(out, out@.len());
                    lemma_values_view(*elements, elements@.len());
                    assert(vals(out) =~= vals(*elements));
                }
                let t = match element_type {
                    Some(t) => Some(t.clone()),
                    None => None,
                };
                Value::List { element_type: t, elements: out }
            },
            Value::Unit => Value::Unit,
        }
    }
}


// ---------------------------------------------------------------------------
// Types of values
// ---------------------------------------------------------------------------
/// `List<e>`
pub open spec fn list_type(e: Seq<char>) -> Seq<char> {
    "List<"@ + e + ">"@
}

/// The type of a list literal without elements.
pub open spec fn empty_list_type() -> Seq<char> {
    "List<_>"@
}

/// The element type of a list type.
pub open spec fn list_element_type(t: Seq<char>) -> Option<Seq<char>> {
    if t.len() >= 6 && t.take(5) == "List<"@ && t.last() == '>' {
        Some(t.subrange(5, t.len() - 1))
    } else {
        None
    }
}

/// A value of type `actual` can stand where `expected` is asked for: the same type, or an
/// empty list where a list is asked for.
pub open spec fn type_accepts(actual: Seq<char>, expected: Seq<char>) -> bool {
    actual == expected || (actual == empty_list_type() && list_element_type(expected) is Some)
}

/// The type of a value.
pub open spec fn type_of(v: Val) -> Seq<char> {
    match v {
        Val::Int(_) => "Int"@,
        Val::Bool(_) => "Bool"@,
        Val::Text(_) => "Text"@,
        Val::Record(t, _) => t,
        Val::Enum(t, _) => t,
        Val::List(Some(e), _) => list_type(e),
        Val::List(None, _) => empty_list_type(),
        Val::Unit => "Unit"@,
    }
}

pub fn list_type_text(e: &str) -> (res: String)
    ensures
        res@ == list_type(e@),
{
    let mut s = owned("List<");
    s.append(e);
    s.append(">");
    proof {
        reveal_strlit("List<");
        reveal_strlit(">");
    }
    s
}

pub fn empty_list_type_text() -> (res: String)
    ensures
        res@ == empty_list_type(),
{
    owned("List<_>")
}

pub fn element_type_of(t: &str) -> (res: Option<String>)
    ensures
        opt_view(res) == list_element_type(t@),
{
    let cs = crate::text::chars_of(t);
    proof {
        reveal_strlit("List<");
    }
    let n = cs.len();
    if n >= 6 && crate::text::has_prefix_str(&cs, "List<") && cs[n - 1] == '>' {
        let inner = crate::text::slice_chars(&cs, 5, n - 1);
        proof {
            assert(cs@.take(5) =~= "List<"@);
        }
        Some(crate::text::string_of(&inner))
    } else {
        proof {
            if n >= 6 && cs@.take(5) == "List<"@ {
                assert(cs@.subrange(0, 5) =~= cs@.take(5));
            }
        }
        None
    }
}

pub fn accepts(actual: &str, expected: &str) -> (res: bool)
    ensures
        res == type_accepts(actual@, expected@),
{
    if crate::text::str_eq(actual, expected) {
        return true;
    }
    let e = empty_list_type_text();
    crate::text::str_eq(actual, e.as_str()) && element_type_of(expected).is_some()
}

pub fn value_type_text(v: &Value) -> (res: String)
    ensures
        res@ == type_of(value_view(*v)),
{
    proof {
        reveal_strlit("Int");
        reveal_strlit("Bool");
        reveal_strlit("Text");
        reveal_strlit("Unit");
    }
    match v {
        Value::Int(_) => owned("Int"),
        Value::Bool(_) => owned("Bool"),
        Value::Text(_) => owned("Text"),
        Value::Record { type_text, .. } => type_text.clone(),
        Value::Enum { type_text, .. } => type_text.clone(),
        Value::List { element_type: Some(e), .. } => list_type_text(e.as_str()),
        Value::List { element_type: None, .. } => empty_list_type_text(),
        Value::Unit => owned("Unit"),
    }
}

/// A value made to fit the type `expected`: refused when its type is not accepted; a
/// list takes the element type that `expected` names.
pub open spec fn coerced(v: Val, expected: Seq<char>) -> Result<Val, Seq<char>> {
    if !type_accepts(type_of(v), expected) {
        Err("Expected "@ + expected + ", got "@ + type_of(v) + "."@)
    } else {
        match v {
            Val::List(_, es) => if list_element_type(expected) is Some {
                Ok(Val::List(list_element_type(expected), es))
            } else {
                Ok(v)
            },
            _ => Ok(v),
        }
    }
}

pub fn coerce_value_to_type(value: Value, expected: &str) -> (res: Result<Value, String>)
    ensures
        match coerced(value_view(value), expected@) {
            Ok(w) => res is Ok && value_view(res->Ok_0) == w,
            Err(m) => res is Err && res->Err_0@ == m,
        },
{
    let actual = value_type_text(&value);
    if !accepts(actual.as_str(), expected) {
        let mut m = owned("Expected ");
        m.append(expected);
        m.append(", got ");
        m.append(actual.as_str());
        m.append(".");
        proof {
            reveal_strlit("Expected ");
            reveal_strlit(", got ");
            reveal_strlit(".");
        }
        return Err(m);
    }
    match value {
        Value::List { element_type, elements } => {
            let et = element_type_of(expected);
            if et.is_some() {
                Ok(Value::List { element_type: et, elements })
            } else {
                Ok(Value::List { element_type, elements })
            }
        },
        other => Ok(other),
    }
}

/// Both values have one type: equal scalar kinds, records or enums of one name, or lists
/// whose known element types accept each other.
pub open spec fn same_type(a: Val, b: Val) -> bool {
    match (a, b) {
        (Val::Int(_), Val::Int(_)) => true,
        (Val::Bool(_), Val::Bool(_)) => true,
        (Val::Text(_), Val::Text(_)) => true,
        (Val::Unit, Val::Unit) => true,
        (Val::Record(x, _), Val::Record(y, _)) => x == y,
        (Val::Enum(x, _), Val::Enum(y, _)) => x == y,
        (Val::List(x, _), Val::List(y, _)) => match (x, y) {
            (Some(x), Some(y)) => type_accepts(x, y) || type_accepts(y, x),
            _ => true,
        },
        _ => false,
    }
}

pub fn same_value_type(a: &Value, b: &Value) -> (res: bool)
    ensures
        res == same_type(value_view(*a), value_view(*b)),
{
    match (a, b) {
        (Value::Int(_), Value::Int(_)) => true,
        (Value::Bool(_), Value::Bool(_)) => true,
        (Value::Text(_), Value::Text(_)) => true,
        (Value::Unit, Value::Unit) => true,
        (Value::Record { type_text: x, .. }, Value::Record { type_text: y, .. }) => crate::text::str_eq(x.as_str(), y.as_str()),
        (Value::Enum { type_text: x, .. }, Value::Enum { type_text: y, .. }) => crate::text::str_eq(x.as_str(), y.as_str()),
        (Value::List { element_type: x, .. }, Value::List { element_type: y, .. }) => match (x, y) {
            (Some(x), Some(y)) => accepts(x.as_str(), y.as_str()) || accepts(y.as_str(), x.as_str()),
            _ => true,
        },
        _ => false,
    }
}

// ---------------------------------------------------------------------------
// Text of values
// ---------------------------------------------------------------------------
/// What `{:?}` writes for a string: the string quoted, with its special characters
/// escaped.
pub uninterp spec fn debug_text(s: Seq<char>) -> Seq<char>;

/// `format!("{:?}", s)`: the quoted and escaped form of `s`.
#[verifier::external_body]
pub(crate) fn debug_quoted(s: &str) -> (res: String)
    ensures
        res@ == debug_text(s@),
{
    format!("{s:?}")
}

/// How a value is written in messages.
pub open spec fn show(v: Val) -> Seq<char>
    decreases v, 0nat,
{
    match v {
        Val::Int(n) => int_text(n),
        Val::Bool(b) => if b {
            "true"@
        } else {
            "false"@
        },
        Val::Text(s) => debug_text(s),
        Val::Record(t, fs) => t + " { "@ + show_fields(fs, fs.len()) + " }"@,
        Val::Enum(_, variant) => variant,
        Val::List(_, es) => "["@ + show_list(es, es.len()) + "]"@,
        Val::Unit => "unit"@,
    }
}

/// The first `n` values, written and joined by `, `.
pub open spec fn show_list(es: Seq<Val>, n: nat) -> Seq<char>
    decreases es, n,
{
    if n == 0 || n > es.len() {
        seq![]
    } else if n == 1 {
        show(es[0])
    } else {
        show_list(es, (n - 1) as nat) + ", "@ + show(es[n - 1])
    }
}

/// The first `n` fields, each as `name: value`, joined by `, `.
pub open spec fn show_fields(fs: Seq<(Seq<char>, Val)>, n: nat) -> Seq<char>
    decreases fs, n,
{
    if n == 0 || n > fs.len() {
        seq![]
    } else if n == 1 {
        fs[0].0 + ": "@ + show(fs[0].1)
    } else {
        show_fields(fs, (n - 1) as nat) + ", "@ + fs[n - 1].0 + ": "@ + show(fs[n - 1].1)
    }
}

impl Value {
    /// The text of the value as messages write it.
    pub fn to_text(&self) -> (res: String)
        ensures
            res@ == show(value_view(*self)),
        decreases self,
    {
        proof {
            reveal_strlit("true");
            reveal_strlit("false");
            reveal_strlit(" { ");
            reveal_strlit(" }");
            reveal_strlit("[");
            reveal_strlit("]");
            reveal_strlit("unit");
            reveal_strlit(", ");
            reveal_strlit(": ");
        }
        match self {
            Value::Int(n) => i64_text(*n),
            Value::Bool(b) => if *b {
                owned("true")
            } else {
                owned("false")
            },
            Value::Text(s) => debug_quoted(s.as_str()),
            Value::Record { type_text, fields } => {
                let ghost fv = field_vals(*fields);
                proof {
                    lemma_fields_view(*fields, fields@.len());
                }
                let mut out = type_text.clone();
                out.append(" { ");
                let ghost base = out@;
                let mut i: usize = 0;
                while i < fields.len()
                    invariant
                        i <= fields@.len(),
                        fv == field_vals(*fields),
                        fv.len() == fields@.len(),
                        forall|k: int| 0 <= k < fields@.len() ==> #[trigger] fv[k] == (fields@[k].0@, value_view(fields@[k].1)),
                        out@ == base + show_fields(fv, i as nat),
                        *self == (Value::Record { type_text: *type_text, fields: *fields }),
                    decreases fields@.len() - i,
                {
                    proof {
                        vstd::std_specs::vec::axiom_vec_index_decreases(*fields, i as int);
                        assert(decreases_to!(*self => (*self)->fields));
                        assert(decreases_to!(fields[i as int] => fields[i as int].1));
                        assert(decreases_to!(*self => fields[i as int].1));
                    }
                    if i > 0 {
                        out.append(", ");
                    }
                    out.append(fields[i].0.as_str());
                    out.append(": ");
                    let t = fields[i].1.to_text();
                    out.append(t.as_str());
                    proof {
                        if i == 0 {
                            assert(out@ =~= base + show_fields(fv, 1));
                        } else {
                            assert(out@ =~= base + show_fields(fv, (i + 1) as nat));
                        }
                    }
                    i += 1;
                }
                out.append(" }");
                proof {
                    assert(out@ =~= show(value_view(*self)));
                }
                out
            },
            Value::Enum { variant, .. } => variant.clone(),
            Value::List { elements, .. } => {
                let ghost ev = vals(*elements);
                proof {
                    lemma_values_view(*elements, elements@.len());
                }
                let mut out = owned("[");
                let mut i: usize = 0;
                while i < elements.len()
                    invariant
                        i <= elements@.len(),
                        ev == vals(*elements),
                        ev.len() == elements@.len(),
                        forall|k: int| 0 <= k < elements@.len() ==> #[trigger] ev[k] == value_view(elements@[k]),
                        out@ == "["@ + show_list(ev, i as nat),
                        (*self) is List && (*self)->elements == *elements,
                    decreases elements@.len() - i,
                {
                    proof {
                        vstd::std_specs::vec::axiom_vec_index_decreases(*elements, i as int);
                        assert(decreases_to!(*self => (*self)->elements));
                        assert(decreases_to!(*self => elements[i as int]));
                    }
                    if i > 0 {
                        out.append(", ");
                    }
                    let t = elements[i].to_text();
                    out.append(t.as_str());
                    proof {
                        if i == 0 {
                            assert(out@ =~= "["@ + show_list(ev, 1));
                        } else {
                            assert(out@ =~= "["@ + show_list(ev, (i + 1) as nat));
                        }
                    }
                    i += 1;
                }
                out.append("]");
                proof {
                    assert(out@ =~= show(value_view(*self)));
                }
                out
            },
            Value::Unit => owned("unit"),
        }
    }
}


// ---------------------------------------------------------------------------
// Equality and order
// ---------------------------------------------------------------------------
/// Lists are equal when their elements are, whatever element type they carry; other
/// values when they are the same.
pub open spec fn val_equal(a: Val, b: Val) -> bool
    decreases a, 0nat,
{
    match (a, b) {
        (Val::List(_, x), Val::List(_, y)) => x.len() == y.len() && all_equal(x, y, x.len()),
        _ => a == b,
    }
}

/// The first `n` elements of `x` and `y` are equal as `val_equal` says.
pub open spec fn all_equal(x: Seq<Val>, y: Seq<Val>, n: nat) -> bool
    decreases x, n,
{
    if n == 0 || n > x.len() {
        true
    } else {
        all_equal(x, y, (n - 1) as nat) && val_equal(x[n - 1], y[n - 1])
    }
}

/// The values are the same.
pub fn same_value(a: &Value, b: &Value) -> (res: bool)
    ensures
        res == (value_view(*a) == value_view(*b)),
    decreases a,
{
    match (a, b) {
        (Value::Int(x), Value::Int(y)) => *x == *y,
        (Value::Bool(x), Value::Bool(y)) => *x == *y,
        (Value::Text(x), Value::Text(y)) => crate::text::str_eq(x.as_str(), y.as_str()),
        (Value::Enum { type_text: t, variant: v }, Value::Enum { type_text: u, variant: w }) => crate::text::str_eq(t.as_str(), u.as_str())
            && crate::text::str_eq(v.as_str(), w.as_str()),
        (Value::Unit, Value::Unit) => true,
        (Value::Record { type_text: t, fields: x }, Value::Record { type_text: u, fields: y }) => {
            proof {
                lemma_fields_view(*x, x@.len());
                lemma_fields_view(*y, y@.len());
            }
            if !crate::text::str_eq(t.as_str(), u.as_str()) || x.len() != y.len() {
                return false;
            }
            let mut i: usize = 0;
            while i < x.len()
                invariant
                    i <= x@.len(),
                    x@.len() == y@.len(),
                    field_vals(*x).len() == x@.len(),
                    field_vals(*y).len() == y@.len(),
                    forall|k: int| 0 <= k < x@.len() ==> #[trigger] field_vals(*x)[k] == (x@[k].0@, value_view(x@[k].1)),
                    forall|k: int| 0 <= k < y@.len() ==> #[trigger] field_vals(*y)[k] == (y@[k].0@, value_view(y@[k].1)),
                    forall|k: int| 0 <= k < i ==> #[trigger] field_vals(*x)[k] == field_vals(*y)[k],
                    (*a) is Record && (*a)->fields == *x,
                    (*b) is Record && (*b)->fields == *y,
                decreases x@.len() - i,
            {
                proof {
                    vstd::std_specs::vec::axiom_vec_index_decreases(*x, i as int);
                    assert(decreases_to!(*a => (*a)->fields));
                    assert(decreases_to!(x[i as int] => x[i as int].1));
                    assert(decreases_to!(*a => x[i as int].1));
                }
                if !crate::text::str_eq(x[i].0.as_str(), y[i].0.as_str()) || !same_value(&x[i].1, &y[i].1) {
                    proof {
                        assert(field_vals(*x)[i as int] != field_vals(*y)[i as int]);
                    }
                    return false;
                }
                i += 1;
            }
            proof {
                assert(field_vals(*x) =~= field_vals(*y));
            }
            true
        },
        (Value::List { element_type: s, elements: x }, Value::List { element_type: t, elements: y }) => {
            proof {
                lemma_values_view(*x, x@.len());
                lemma_values_view(*y, y@.len());
            }
            let same_type = match (s, t) {
                (Some(s), Some(t)) => crate::text::str_eq(s.as_str(), t.as_str()),
                (None, None) => true,
                _ => false,
            };
            if !same_type || x.len() != y.len() {
                return false;
            }
            let mut i: usize = 0;
            while i < x.len()
                invariant
                    i <= x@.len(),
                    x@.len() == y@.len(),
                    vals(*x).len() == x@.len(),
                    vals(*y).len() == y@.len(),
                    forall|k: int| 0 <= k < x@.len() ==> #[trigger] vals(*x)[k] == value_view(x@[k]),
                    forall|k: int| 0 <= k < y@.len() ==> #[trigger] vals(*y)[k] == value_view(y@[k]),
                    forall|k: int| 0 <= k < i ==> #[trigger] vals(*x)[k] == vals(*y)[k],
                    (*a) is List && (*a)->elements == *x,
                    (*b) is List && (*b)->elements == *y,
                decreases x@.len() - i,
            {
                proof {
                    vstd::std_specs::vec::axiom_vec_index_decreases(*x, i as int);
                    assert(decreases_to!(*a => (*a)->elements));
                    assert(decreases_to!(*a => x[i as int]));
                }
                if !same_value(&x[i], &y[i]) {
                    proof {
                        assert(vals(*x)[i as int] != vals(*y)[i as int]);
                    }
                    return false;
                }
                i += 1;
            }
            proof {
                assert(vals(*x) =~= vals(*y));
            }
            true
        },
        _ => false,
    }
}

/// `==` between values of the language.
pub fn value_equal(a: &Value, b: &Value) -> (res: bool)
    ensures
        res == val_equal(value_view(*a), value_view(*b)),
    decreases a,
{
    match (a, b) {
        (Value::List { elements: x, .. }, Value::List { elements: y, .. }) => {
            proof {
                lemma_values_view(*x, x@.len());
                lemma_values_view(*y, y@.len());
            }
            if x.len() != y.len() {
                return false;
            }
            let mut i: usize = 0;
            while i < x.len()
                invariant
                    i <= x@.len(),
                    x@.len() == y@.len(),
                    vals(*x).len() == x@.len(),
                    vals(*y).len() == y@.len(),
                    forall|k: int| 0 <= k < x@.len() ==> #[trigger] vals(*x)[k] == value_view(x@[k]),
                    forall|k: int| 0 <= k < y@.len() ==> #[trigger] vals(*y)[k] == value_view(y@[k]),
                    all_equal(vals(*x), vals(*y), i as nat),
                    (*a) is List && (*a)->elements == *x,
                    (*b) is List && (*b)->elements == *y,
                decreases x@.len() - i,
            {
                proof {
                    vstd::std_specs::vec::axiom_vec_index_decreases(*x, i as int);
                    assert(decreases_to!(*a => (*a)->elements));
                    assert(decreases_to!(*a => x[i as int]));
                }
                if !value_equal(&x[i], &y[i]) {
                    proof {
                        lemma_all_equal_prefix(vals(*x), vals(*y), (i + 1) as nat, vals(*x).len());
                    }
                    return false;
                }
                i += 1;
            }
            true
        },
        _ => same_value(a, b),
    }
}

proof fn lemma_all_equal_prefix(x: Seq<Val>, y: Seq<Val>, m: nat, n: nat)
    requires
        0 < m <= n <= x.len(),
        !val_equal(x[m - 1], y[m - 1]),
    ensures
        !all_equal(x, y, n),
    decreases n,
{
    if n > m {
        lemma_all_equal_prefix(x, y, m, (n - 1) as nat);
    }
}

/// The order of two texts, character by character: negative, zero or positive.
pub open spec fn text_order(a: Seq<char>, b: Seq<char>) -> int
    decreases a.len(),
{
    if a.len() == 0 {
        if b.len() == 0 {
            0
        } else {
            -1
        }
    } else if b.len() == 0 {
        1
    } else if a[0] < b[0] {
        -1
    } else if a[0] > b[0] {
        1
    } else {
        text_order(a.drop_first(), b.drop_first())
    }
}

proof fn lemma_text_order_skip(a: Seq<char>, b: Seq<char>, i: int)
    requires
        0 <= i <= a.len(),
        i <= b.len(),
        forall|k: int| 0 <= k < i ==> a[k] == b[k],
    ensures
        text_order(a, b) == text_order(a.skip(i), b.skip(i)),
    decreases i,
{
    if i > 0 {
        assert(a.skip(1).skip(i - 1) =~= a.skip(i));
        assert(b.skip(1).skip(i - 1) =~= b.skip(i));
        assert(a.drop_first() =~= a.skip(1));
        assert(b.drop_first() =~= b.skip(1));
        lemma_text_order_skip(a.skip(1), b.skip(1), i - 1);
        assert(a[0] == b[0]);
    } else {
        assert(a.skip(0) =~= a);
        assert(b.skip(0) =~= b);
    }
}

pub fn text_order_of(a: &str, b: &str) -> (res: i8)
    ensures
        res as int == text_order(a@, b@),
{
    let x = crate::text::chars_of(a);
    let y = crate::text::chars_of(b);
    let mut i: usize = 0;
    while i < x.len() && i < y.len() && x[i] == y[i]
        invariant
            i <= x@.len(),
            i <= y@.len(),
            x@ == a@,
            y@ == b@,
            forall|k: int| 0 <= k < i ==> x@[k] == y@[k],
        decreases x@.len() - i,
    {
        i += 1;
    }
    proof {
        lemma_text_order_skip(x@, y@, i as int);
        assert(x@.skip(i as int).len() == x@.len() - i);
        assert(y@.skip(i as int).len() == y@.len() - i);
        if i < x@.len() && i < y@.len() {
            assert(x@.skip(i as int)[0] == x@[i as int]);
            assert(y@.skip(i as int)[0] == y@[i as int]);
            assert(x@[i as int] != y@[i as int]);
        }
    }
    if i == x.len() {
        if i == y.len() {
            0
        } else {
            -1
        }
    } else if i == y.len() {
        1
    } else if x[i] < y[i] {
        -1
    } else {
        1
    }
}

} // verus!
