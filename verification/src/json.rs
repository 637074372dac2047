//! JSON text for diagnostics and the portable IR.
use vstd::prelude::*;
use vstd::string::*;

use crate::checker::CheckSummary;
use crate::diagnostic::{Diagnostic, RepairAction, Severity};
use crate::ir::{binary_name, unary_name, IrExpr, IrFunction, IrProgram, IrProperty, IrSummary};
use crate::diagnostic::any_error;
use crate::model::{type_symbol_text, Param, RecordField, TypeDecl};
use crate::text::{decimal, i64_text, int_text, join_spec, join_strings, owned, push_char, usize_text};

verus! {

// ---------------------------------------------------------------------------
// Strings
// ---------------------------------------------------------------------------

/// A control character: U+0000 to U+001F and U+007F to U+009F.
pub open spec fn is_control(c: char) -> bool {
    c <= '\u{1f}' || ('\u{7f}' <= c && c <= '\u{9f}')
}

/// A lower-case hexadecimal digit.
pub open spec fn hex_digit(d: nat) -> char {
    if d < 10 {
        ((d + 48) as u32) as char
    } else {
        ((d + 87) as u32) as char
    }
}

/// Four lower-case hexadecimal digits.
pub open spec fn hex4(n: nat) -> Seq<char> {
    seq![hex_digit((n / 4096) % 16), hex_digit((n / 256) % 16), hex_digit((n / 16) % 16), hex_digit(n % 16)]
}

/// One character inside a JSON string.
pub open spec fn escape_char(c: char) -> Seq<char> {
    if c == '"' {
        seq!['\\', '"']
    } else if c == '\\' {
        seq!['\\', '\\']
    } else if c == '\n' {
        seq!['\\', 'n']
    } else if c == '\r' {
        seq!['\\', 'r']
    } else if c == '\t' {
        seq!['\\', 't']
    } else if is_control(c) {
        seq!['\\', 'u'] + hex4(c as nat)
    } else {
        seq![c]
    }
}

pub open spec fn escaped(s: Seq<char>) -> Seq<char>
    decreases s.len(),
{
    if s.len() == 0 {
        seq![]
    } else {
        escaped(s.drop_last()) + escape_char(s.last())
    }
}

/// A JSON string literal.
pub open spec fn json_str(s: Seq<char>) -> Seq<char> {
    seq!['"'] + escaped(s) + seq!['"']
}

fn hex_char(d: u32) -> (c: char)
    requires
        d < 16,
    ensures
        c == hex_digit(d as nat),
{
    let v: u32 = if d < 10 { d + 48 } else { d + 87 };
    let b: u8 = v as u8;
    b as char
}

fn push_escaped(out: &mut String, c: char)
    ensures
        final(out)@ == old(out)@ + escape_char(c),
{
    if c == '"' {
        push_char(out, '\\');
        push_char(out, '"');
    } else if c == '\\' {
        push_char(out, '\\');
        push_char(out, '\\');
    } else if c == '\n' {
        push_char(out, '\\');
        push_char(out, 'n');
    } else if c == '\r' {
        push_char(out, '\\');
        push_char(out, 'r');
    } else if c == '\t' {
        push_char(out, '\\');
        push_char(out, 't');
    } else if c <= '\u{1f}' || ('\u{7f}' <= c && c <= '\u{9f}') {
        let n = c as u32;
        push_char(out, '\\');
        push_char(out, 'u');
        push_char(out, hex_char((n / 4096) % 16));
        push_char(out, hex_char((n / 256) % 16));
        push_char(out, hex_char((n / 16) % 16));
        push_char(out, hex_char(n % 16));
    } else {
        push_char(out, c);
    }
    assert(final(out)@ =~= old(out)@ + escape_char(c));
}

/// A string as a JSON string literal, escaping quotes, backslashes and control characters.
pub fn json_string(value: &str) -> (res: String)
    ensures
        res@ == json_str(value@),
{
    let cs = crate::text::chars_of(value);
    let mut out = String::new();
    push_char(&mut out, '"');
    let mut i: usize = 0;
    assert(cs@.take(0) =~= Seq::<char>::empty());
    while i < cs.len()
        invariant
            i <= cs@.len(),
            cs@ == value@,
            out@ == seq!['"'] + escaped(cs@.take(i as int)),
        decreases cs@.len() - i,
    {
        assert(cs@.take(i + 1).drop_last() =~= cs@.take(i as int));
        push_escaped(&mut out, cs[i]);
        assert(out@ =~= seq!['"'] + escaped(cs@.take(i + 1)));
        i += 1;
    }
    assert(cs@.take(cs@.len() as int) =~= cs@);
    push_char(&mut out, '"');
    assert(out@ =~= json_str(value@));
    out
}

// ---------------------------------------------------------------------------
// Lists and scalars
// ---------------------------------------------------------------------------

/// Items between brackets, separated by `, `.
pub open spec fn json_list(items: Seq<Seq<char>>) -> Seq<char> {
    seq!['['] + join_spec(items, ", "@) + seq![']']
}

pub open spec fn bool_text(b: bool) -> Seq<char> {
    if b {
        "true"@
    } else {
        "false"@
    }
}

pub fn bool_str(b: bool) -> (res: &'static str)
    ensures
        res@ == bool_text(b),
{
    if b {
        "true"
    } else {
        "false"
    }
}

fn bracketed(rows: &Vec<String>) -> (res: String)
    ensures
        res@ == json_list(rows@.map_values(|r: String| r@)),
{
    let mut out = String::new();
    push_char(&mut out, '[');
    let inner = join_strings(rows.as_slice(), ", ");
    out.append(inner.as_str());
    push_char(&mut out, ']');
    assert(out@ =~= json_list(rows@.map_values(|r: String| r@)));
    out
}

pub open spec fn json_strings(v: Seq<String>) -> Seq<char> {
    json_list(v.map_values(|s: String| json_str(s@)))
}

/// A list of strings as a JSON array.
pub fn string_array_json(values: &Vec<String>) -> (res: String)
    ensures
        res@ == json_strings(values@),
{
    let mut rows: Vec<String> = Vec::new();
    let mut i: usize = 0;
    while i < values.len()
        invariant
            i <= values@.len(),
            rows@.len() == i,
            forall|k: int| 0 <= k < i ==> #[trigger] rows@[k]@ == json_str(values@[k]@),
        decreases values@.len() - i,
    {
        rows.push(json_string(values[i].as_str()));
        i += 1;
    }
    let out = bracketed(&rows);
    assert(rows@.map_values(|r: String| r@) =~= values@.map_values(|s: String| json_str(s@)));
    out
}

pub open spec fn json_usizes(v: Seq<usize>) -> Seq<char> {
    json_list(v.map_values(|n: usize| decimal(n as nat)))
}

/// A list of numbers as a JSON array.
pub fn usize_array_json(values: &Vec<usize>) -> (res: String)
    ensures
        res@ == json_usizes(values@),
{
    let mut rows: Vec<String> = Vec::new();
    let mut i: usize = 0;
    while i < values.len()
        invariant
            i <= values@.len(),
            rows@.len() == i,
            forall|k: int| 0 <= k < i ==> #[trigger] rows@[k]@ == decimal(values@[k] as nat),
        decreases values@.len() - i,
    {
        rows.push(usize_text(values[i]));
        i += 1;
    }
    let out = bracketed(&rows);
    assert(rows@.map_values(|r: String| r@) =~= values@.map_values(|n: usize| decimal(n as nat)));
    out
}

// ---------------------------------------------------------------------------
// Diagnostics
// ---------------------------------------------------------------------------

pub open spec fn json_data(data: Seq<(String, String)>) -> Seq<char> {
    seq!['{'] + join_spec(data.map_values(|kv: (String, String)| json_str(kv.0@) + ": "@ + json_str(kv.1@)), ", "@)
        + seq!['}']
}

pub open spec fn json_action(a: RepairAction) -> Seq<char> {
    "{\"kind\": "@ + json_str(a.kind@) + ", \"label\": "@ + json_str(a.label@) + ", \"command\": "@
        + json_strings(a.command@) + "}"@
}

pub open spec fn severity_text(s: Severity) -> Seq<char> {
    match s {
        Severity::Error => "error"@,
        Severity::Warning => "warning"@,
    }
}

/// The fields of a diagnostic: severity, code and message always; target, data, repairs
/// and repair actions when there are any.
pub open spec fn diagnostic_fields(d: Diagnostic) -> Seq<Seq<char>> {
    let base = seq![
        "\"severity\": "@ + json_str(severity_text(d.severity)),
        "\"code\": "@ + json_str(d.code@),
        "\"message\": "@ + json_str(d.message@),
    ];
    let t = if d.target is Some {
        base.push("\"target\": "@ + json_str(d.target->0@))
    } else {
        base
    };
    let a = if d.data@.len() > 0 {
        t.push("\"data\": "@ + json_data(d.data@))
    } else {
        t
    };
    let r = if d.repairs@.len() > 0 {
        a.push("\"repairs\": "@ + json_strings(d.repairs@))
    } else {
        a
    };
    if d.repair_actions@.len() > 0 {
        r.push("\"repair_actions\": "@ + json_list(d.repair_actions@.map_values(|x: RepairAction| json_action(x))))
    } else {
        r
    }
}

pub open spec fn json_diagnostic(d: Diagnostic) -> Seq<char> {
    seq!['{'] + join_spec(diagnostic_fields(d), ", "@) + seq!['}']
}

pub open spec fn json_diagnostics(ds: Seq<Diagnostic>) -> Seq<char> {
    json_list(ds.map_values(|d: Diagnostic| json_diagnostic(d)))
}

fn data_json(data: &Vec<(String, String)>) -> (res: String)
    ensures
        res@ == json_data(data@),
{
    let mut rows: Vec<String> = Vec::new();
    let mut i: usize = 0;
    while i < data.len()
        invariant
            i <= data@.len(),
            rows@.len() == i,
            forall|k: int| 0 <= k < i ==> #[trigger] rows@[k]@ == json_str(data@[k].0@) + ": "@ + json_str(data@[k].1@),
        decreases data@.len() - i,
    {
        let mut row = json_string(data[i].0.as_str());
        row.append(": ");
        let v = json_string(data[i].1.as_str());
        row.append(v.as_str());
        rows.push(row);
        i += 1;
    }
    let inner = join_strings(rows.as_slice(), ", ");
    let mut out = String::new();
    push_char(&mut out, '{');
    out.append(inner.as_str());
    push_char(&mut out, '}');
    assert(rows@.map_values(|r: String| r@) =~= data@.map_values(
        |kv: (String, String)| json_str(kv.0@) + ": "@ + json_str(kv.1@),
    ));
    assert(out@ =~= json_data(data@));
    out
}

fn action_json(a: &RepairAction) -> (res: String)
    ensures
        res@ == json_action(*a),
{
    let mut out = owned("{\"kind\": ");
    let k = json_string(a.kind.as_str());
    out.append(k.as_str());
    out.append(", \"label\": ");
    let l = json_string(a.label.as_str());
    out.append(l.as_str());
    out.append(", \"command\": ");
    let c = string_array_json(&a.command);
    out.append(c.as_str());
    out.append("}");
    out
}

fn diagnostic_json(d: &Diagnostic) -> (res: String)
    ensures
        res@ == json_diagnostic(*d),
{
    let mut fields: Vec<String> = Vec::new();
    let mut f = owned("\"severity\": ");
    let s = json_string(d.severity.as_str());
    f.append(s.as_str());
    fields.push(f);
    let mut f = owned("\"code\": ");
    let s = json_string(d.code.as_str());
    f.append(s.as_str());
    fields.push(f);
    let mut f = owned("\"message\": ");
    let s = json_string(d.message.as_str());
    f.append(s.as_str());
    fields.push(f);
    match &d.target {
        Some(t) => {
            let mut f = owned("\"target\": ");
            let s = json_string(t.as_str());
            f.append(s.as_str());
            fields.push(f);
        },
        None => {},
    }
    if d.data.len() > 0 {
        let mut f = owned("\"data\": ");
        let s = data_json(&d.data);
        f.append(s.as_str());
        fields.push(f);
    }
    if d.repairs.len() > 0 {
        let mut f = owned("\"repairs\": ");
        let s = string_array_json(&d.repairs);
        f.append(s.as_str());
        fields.push(f);
    }
    if d.repair_actions.len() > 0 {
        let mut rows: Vec<String> = Vec::new();
        let mut i: usize = 0;
        while i < d.repair_actions.len()
            invariant
                i <= d.repair_actions@.len(),
                rows@.len() == i,
                forall|k: int| 0 <= k < i ==> #[trigger] rows@[k]@ == json_action(d.repair_actions@[k]),
            decreases d.repair_actions@.len() - i,
        {
            rows.push(action_json(&d.repair_actions[i]));
            i += 1;
        }
        let list = bracketed(&rows);
        assert(rows@.map_values(|r: String| r@) =~= d.repair_actions@.map_values(|x: RepairAction| json_action(x)));
        let mut f = owned("\"repair_actions\": ");
        f.append(list.as_str());
        fields.push(f);
    }
    assert(fields@.map_values(|r: String| r@) =~= diagnostic_fields(*d));
    let inner = join_strings(fields.as_slice(), ", ");
    let mut out = String::new();
    push_char(&mut out, '{');
    out.append(inner.as_str());
    push_char(&mut out, '}');
    assert(out@ =~= json_diagnostic(*d));
    out
}

/// Diagnostics as a JSON array of objects.
pub fn diagnostics_array_json(diagnostics: &Vec<Diagnostic>) -> (res: String)
    ensures
        res@ == json_diagnostics(diagnostics@),
{
    let mut rows: Vec<String> = Vec::new();
    let mut i: usize = 0;
    while i < diagnostics.len()
        invariant
            i <= diagnostics@.len(),
            rows@.len() == i,
            forall|k: int| 0 <= k < i ==> #[trigger] rows@[k]@ == json_diagnostic(diagnostics@[k]),
        decreases diagnostics@.len() - i,
    {
        rows.push(diagnostic_json(&diagnostics[i]));
        i += 1;
    }
    let out = bracketed(&rows);
    assert(rows@.map_values(|r: String| r@) =~= diagnostics@.map_values(|d: Diagnostic| json_diagnostic(d)));
    out
}


// ---------------------------------------------------------------------------
// The portable IR
// ---------------------------------------------------------------------------

/// An IR expression as a JSON object, keys in the order the emitter writes them.
pub open spec fn json_of(e: IrExpr) -> Seq<char>
    decreases e, 2int,
{
    match e {
        IrExpr::Int(v) => "{\"kind\": \"int\", \"value\": "@ + int_text(v as int) + "}"@,
        IrExpr::Bool(b) => "{\"kind\": \"bool\", \"value\": "@ + bool_text(b) + "}"@,
        IrExpr::Text(t) => "{\"kind\": \"text\", \"value\": "@ + json_str(t@) + "}"@,
        IrExpr::Unit => "{\"kind\": \"unit\"}"@,
        IrExpr::Var(n) => "{\"kind\": \"var\", \"name\": "@ + json_str(n@) + "}"@,
        IrExpr::EnumVariant { type_text, variant } => "{\"kind\": \"enum_variant\", \"type\": "@ + json_str(type_text@)
            + ", \"variant\": "@ + json_str(variant@) + "}"@,
        IrExpr::Call { reference, target, args } => {
            proof {
                assert(decreases_to!(e => args));
                assert(decreases_to!(args => args@));
            }
            "{\"args\": "@ + json_exprs(args@) + ", \"kind\": \"call\", \"reference\": "@ + json_str(reference@)
                + ", \"target\": "@ + json_str(target@) + "}"@
        },
        IrExpr::RecordConstruct { type_text, fields } => {
            proof {
                assert(decreases_to!(e => fields));
                assert(decreases_to!(fields => fields@));
            }
            "{\"fields\": "@ + json_record_fields(fields@) + ", \"kind\": \"record_construct\", \"type\": "@
                + json_str(type_text@) + "}"@
        },
        IrExpr::FieldAccess { base, field } => "{\"base\": "@ + json_of(*base) + ", \"field\": "@ + json_str(field@)
            + ", \"kind\": \"field_access\"}"@,
        IrExpr::RecordUpdate { base, fields } => {
            proof {
                assert(decreases_to!(e => fields));
                assert(decreases_to!(fields => fields@));
            }
            "{\"base\": "@ + json_of(*base) + ", \"fields\": "@ + json_record_fields(fields@)
                + ", \"kind\": \"record_update\"}"@
        },
        IrExpr::Unary { op, expr } => "{\"expr\": "@ + json_of(*expr) + ", \"kind\": \"unary\", \"op\": "@
            + json_str(unary_name(op)) + "}"@,
        IrExpr::Binary { op, left, right } => "{\"kind\": \"binary\", \"left\": "@ + json_of(*left) + ", \"op\": "@
            + json_str(binary_name(op)) + ", \"right\": "@ + json_of(*right) + "}"@,
        IrExpr::If { condition, then_expr, else_expr } => "{\"condition\": "@ + json_of(*condition)
            + ", \"else\": "@ + json_of(*else_expr) + ", \"kind\": \"if\", \"then\": "@ + json_of(*then_expr)
            + "}"@,
        IrExpr::Match { expr, branches } => {
            proof {
                assert(decreases_to!(e => branches));
                assert(decreases_to!(branches => branches@));
            }
            "{\"branches\": "@ + json_branches(branches@) + ", \"expr\": "@ + json_of(*expr) + ", \"kind\": \"match\"}"@
        },
        IrExpr::Let { name, value, body } => "{\"body\": "@ + json_of(*body) + ", \"kind\": \"let\", \"name\": "@
            + json_str(name@) + ", \"value\": "@ + json_of(*value) + "}"@,
        IrExpr::Assign { name, value } => "{\"kind\": \"assign\", \"name\": "@ + json_str(name@) + ", \"value\": "@
            + json_of(*value) + "}"@,
        IrExpr::While { condition, body } => "{\"body\": "@ + json_of(*body) + ", \"condition\": "@
            + json_of(*condition) + ", \"kind\": \"while\"}"@,
        IrExpr::Sequence { first, second } => "{\"first\": "@ + json_of(*first) + ", \"kind\": \"sequence\", \"second\": "@
            + json_of(*second) + "}"@,
    }
}

pub open spec fn json_exprs(v: Seq<IrExpr>) -> Seq<char>
    decreases v, 1int,
{
    json_list(expr_texts(v))
}

pub open spec fn expr_texts(v: Seq<IrExpr>) -> Seq<Seq<char>>
    decreases v, 0int,
{
    (
        Seq::new(
            v.len(),
            |i: int|
                if 0 <= i < v.len() {
                    proof {
                        assert(decreases_to!(v => v[i]));
                    }
                    json_of(v[i])
                } else {
                    seq![]
                },
        )
    )
}

pub open spec fn json_record_fields(v: Seq<(String, IrExpr)>) -> Seq<char>
    decreases v, 1int,
{
    json_list(field_texts(v))
}

pub open spec fn field_texts(v: Seq<(String, IrExpr)>) -> Seq<Seq<char>>
    decreases v, 0int,
{
    (
        Seq::new(
            v.len(),
            |i: int|
                if 0 <= i < v.len() {
                    proof {
                        assert(decreases_to!(v => v[i]));
                        assert(decreases_to!(v[i] => v[i].1));
                    }
                    "{\"name\": "@ + json_str(v[i].0@) + ", \"value\": "@ + json_of(v[i].1) + "}"@
                } else {
                    seq![]
                },
        )
    )
}

pub open spec fn json_branches(v: Seq<(String, IrExpr)>) -> Seq<char>
    decreases v, 1int,
{
    json_list(branch_texts(v))
}

pub open spec fn branch_texts(v: Seq<(String, IrExpr)>) -> Seq<Seq<char>>
    decreases v, 0int,
{
    (
        Seq::new(
            v.len(),
            |i: int|
                if 0 <= i < v.len() {
                    proof {
                        assert(decreases_to!(v => v[i]));
                        assert(decreases_to!(v[i] => v[i].1));
                    }
                    "{\"expr\": "@ + json_of(v[i].1) + ", \"variant\": "@ + json_str(v[i].0@) + "}"@
                } else {
                    seq![]
                },
        )
    )
}

fn append_json(out: &mut String, s: &String)
    ensures
        final(out)@ == old(out)@ + s@,
{
    out.append(s.as_str());
}

fn quoted_field(out: &mut String, s: &String)
    ensures
        final(out)@ == old(out)@ + json_str(s@),
{
    let j = json_string(s.as_str());
    out.append(j.as_str());
}

/// An IR expression as JSON.
pub fn ir_expr_json(e: &IrExpr) -> (res: String)
    ensures
        res@ == json_of(*e),
    decreases e,
{
    match e {
        IrExpr::Int(v) => {
            let mut out = owned("{\"kind\": \"int\", \"value\": ");
            let t = i64_text(*v);
            out.append(t.as_str());
            out.append("}");
            out
        },
        IrExpr::Bool(b) => {
            let mut out = owned("{\"kind\": \"bool\", \"value\": ");
            out.append(bool_str(*b));
            out.append("}");
            out
        },
        IrExpr::Text(t) => {
            let mut out = owned("{\"kind\": \"text\", \"value\": ");
            quoted_field(&mut out, t);
            out.append("}");
            out
        },
        IrExpr::Unit => owned("{\"kind\": \"unit\"}"),
        IrExpr::Var(n) => {
            let mut out = owned("{\"kind\": \"var\", \"name\": ");
            quoted_field(&mut out, n);
            out.append("}");
            out
        },
        IrExpr::EnumVariant { type_text, variant } => {
            let mut out = owned("{\"kind\": \"enum_variant\", \"type\": ");
            quoted_field(&mut out, type_text);
            out.append(", \"variant\": ");
            quoted_field(&mut out, variant);
            out.append("}");
            out
        },
        IrExpr::Call { reference, target, args } => {
            let mut out = owned("{\"args\": ");
            let a = exprs_json(args);
            append_json(&mut out, &a);
            out.append(", \"kind\": \"call\", \"reference\": ");
            quoted_field(&mut out, reference);
            out.append(", \"target\": ");
            quoted_field(&mut out, target);
            out.append("}");
            out
        },
        IrExpr::RecordConstruct { type_text, fields } => {
            let mut out = owned("{\"fields\": ");
            let a = record_fields_json(fields);
            append_json(&mut out, &a);
            out.append(", \"kind\": \"record_construct\", \"type\": ");
            quoted_field(&mut out, type_text);
            out.append("}");
            out
        },
        IrExpr::FieldAccess { base, field } => {
            let mut out = owned("{\"base\": ");
            let b = ir_expr_json(base);
            append_json(&mut out, &b);
            out.append(", \"field\": ");
            quoted_field(&mut out, field);
            out.append(", \"kind\": \"field_access\"}");
            out
        },
        IrExpr::RecordUpdate { base, fields } => {
            let mut out = owned("{\"base\": ");
            let b = ir_expr_json(base);
            append_json(&mut out, &b);
            out.append(", \"fields\": ");
            let a = record_fields_json(fields);
            append_json(&mut out, &a);
            out.append(", \"kind\": \"record_update\"}");
            out
        },
        IrExpr::Unary { op, expr } => {
            let mut out = owned("{\"expr\": ");
            let b = ir_expr_json(expr);
            append_json(&mut out, &b);
            out.append(", \"kind\": \"unary\", \"op\": ");
            let o = json_string(op.as_str());
            append_json(&mut out, &o);
            out.append("}");
            out
        },
        IrExpr::Binary { op, left, right } => {
            let mut out = owned("{\"kind\": \"binary\", \"left\": ");
            let l = ir_expr_json(left);
            append_json(&mut out, &l);
            out.append(", \"op\": ");
            let o = json_string(op.as_str());
            append_json(&mut out, &o);
            out.append(", \"right\": ");
            let r = ir_expr_json(right);
            append_json(&mut out, &r);
            out.append("}");
            out
        },
        IrExpr::If { condition, then_expr, else_expr } => {
            let mut out = owned("{\"condition\": ");
            let c = ir_expr_json(condition);
            append_json(&mut out, &c);
            out.append(", \"else\": ");
            let x = ir_expr_json(else_expr);
            append_json(&mut out, &x);
            out.append(", \"kind\": \"if\", \"then\": ");
            let t = ir_expr_json(then_expr);
            append_json(&mut out, &t);
            out.append("}");
            out
        },
        IrExpr::Match { expr, branches } => {
            let mut out = owned("{\"branches\": ");
            let b = branches_json(branches);
            append_json(&mut out, &b);
            out.append(", \"expr\": ");
            let x = ir_expr_json(expr);
            append_json(&mut out, &x);
            out.append(", \"kind\": \"match\"}");
            out
        },
        IrExpr::Let { name, value, body } => {
            let mut out = owned("{\"body\": ");
            let b = ir_expr_json(body);
            append_json(&mut out, &b);
            out.append(", \"kind\": \"let\", \"name\": ");
            quoted_field(&mut out, name);
            out.append(", \"value\": ");
            let v = ir_expr_json(value);
            append_json(&mut out, &v);
            out.append("}");
            out
        },
        IrExpr::Assign { name, value } => {
            let mut out = owned("{\"kind\": \"assign\", \"name\": ");
            quoted_field(&mut out, name);
            out.append(", \"value\": ");
            let v = ir_expr_json(value);
            append_json(&mut out, &v);
            out.append("}");
            out
        },
        IrExpr::While { condition, body } => {
            let mut out = owned("{\"body\": ");
            let b = ir_expr_json(body);
            append_json(&mut out, &b);
            out.append(", \"condition\": ");
            let c = ir_expr_json(condition);
            append_json(&mut out, &c);
            out.append(", \"kind\": \"while\"}");
            out
        },
        IrExpr::Sequence { first, second } => {
            let mut out = owned("{\"first\": ");
            let f = ir_expr_json(first);
            append_json(&mut out, &f);
            out.append(", \"kind\": \"sequence\", \"second\": ");
            let x = ir_expr_json(second);
            append_json(&mut out, &x);
            out.append("}");
            out
        },
    }
}

/// IR expressions as a JSON array.
pub fn exprs_json(v: &Vec<IrExpr>) -> (res: String)
    ensures
        res@ == json_exprs(v@),
    decreases v,
{
    let ghost items = Seq::new(v@.len(), |i: int| if 0 <= i < v@.len() { json_of(v@[i]) } else { seq![] });
    let mut rows: Vec<String> = Vec::new();
    let mut i: usize = 0;
    while i < v.len()
        invariant
            i <= v@.len(),
            rows@.len() == i,
            forall|k: int| 0 <= k < i ==> #[trigger] rows@[k]@ == json_of(v@[k]),
        decreases v@.len() - i,
    {
        proof {
            assert(decreases_to!(v => v@));
            assert(decreases_to!(v@ => v@[i as int]));
        }
        rows.push(ir_expr_json(&v[i]));
        i += 1;
    }
    let out = bracketed(&rows);
    assert(rows@.map_values(|r: String| r@) =~= items);
    assert(expr_texts(v@) =~= items);
    out
}

fn record_fields_json(v: &Vec<(String, IrExpr)>) -> (res: String)
    ensures
        res@ == json_record_fields(v@),
    decreases v,
{
    let ghost items = Seq::new(
        v@.len(),
        |i: int|
            if 0 <= i < v@.len() {
                "{\"name\": "@ + json_str(v@[i].0@) + ", \"value\": "@ + json_of(v@[i].1) + "}"@
            } else {
                seq![]
            },
    );
    let mut rows: Vec<String> = Vec::new();
    let mut i: usize = 0;
    while i < v.len()
        invariant
            i <= v@.len(),
            rows@.len() == i,
            forall|k: int| 0 <= k < i ==> #[trigger] rows@[k]@ == "{\"name\": "@ + json_str(v@[k].0@) + ", \"value\": "@ + json_of(v@[k].1) + "}"@,
        decreases v@.len() - i,
    {
        proof {
            assert(decreases_to!(v => v@));
            assert(decreases_to!(v@ => v@[i as int]));
            assert(decreases_to!(v@[i as int] => v@[i as int].1));
        }
        let mut row = owned("{\"name\": ");
        quoted_field(&mut row, &v[i].0);
        row.append(", \"value\": ");
        let x = ir_expr_json(&v[i].1);
        append_json(&mut row, &x);
        row.append("}");
        rows.push(row);
        i += 1;
    }
    let out = bracketed(&rows);
    assert(rows@.map_values(|r: String| r@) =~= items);
    assert(field_texts(v@) =~= items);
    out
}

fn branches_json(v: &Vec<(String, IrExpr)>) -> (res: String)
    ensures
        res@ == json_branches(v@),
    decreases v,
{
    let ghost items = Seq::new(
        v@.len(),
        |i: int|
            if 0 <= i < v@.len() {
                "{\"expr\": "@ + json_of(v@[i].1) + ", \"variant\": "@ + json_str(v@[i].0@) + "}"@
            } else {
                seq![]
            },
    );
    let mut rows: Vec<String> = Vec::new();
    let mut i: usize = 0;
    while i < v.len()
        invariant
            i <= v@.len(),
            rows@.len() == i,
            forall|k: int| 0 <= k < i ==> #[trigger] rows@[k]@ == "{\"expr\": "@ + json_of(v@[k].1) + ", \"variant\": "@ + json_str(v@[k].0@) + "}"@,
        decreases v@.len() - i,
    {
        proof {
            assert(decreases_to!(v => v@));
            assert(decreases_to!(v@ => v@[i as int]));
            assert(decreases_to!(v@[i as int] => v@[i as int].1));
        }
        let mut row = owned("{\"expr\": ");
        let x = ir_expr_json(&v[i].1);
        append_json(&mut row, &x);
        row.append(", \"variant\": ");
        quoted_field(&mut row, &v[i].0);
        row.append("}");
        rows.push(row);
        i += 1;
    }
    let out = bracketed(&rows);
    assert(rows@.map_values(|r: String| r@) =~= items);
    assert(branch_texts(v@) =~= items);
    out
}


pub open spec fn param_json(p: Param) -> Seq<char> {
    "{\"name\": "@ + json_str(p.name@) + ", \"type\": "@ + json_str(p.type_text@) + "}"@
}

pub open spec fn json_params(v: Seq<Param>) -> Seq<char> {
    json_list(v.map_values(|p: Param| param_json(p)))
}

pub open spec fn property_json(p: IrProperty) -> Seq<char> {
    "{\"expression\": "@ + json_of(p.expression) + ", \"index\": "@ + decimal(p.index as nat) + ", \"line\": "@
        + decimal(p.line as nat) + ", \"variables\": "@ + json_params(p.variables@) + "}"@
}

/// An IR function as a JSON object.
pub open spec fn function_json(f: IrFunction) -> Seq<char> {
    "{\"body\": "@ + json_of(f.body) + ", \"effects\": "@ + json_strings(f.effects@) + ", \"ensures\": "@
        + json_exprs(f.ensures@) + ", \"examples\": "@ + json_exprs(f.examples@) + ", \"example_lines\": "@
        + json_usizes(f.example_lines@) + ", \"module\": "@ + json_str(f.module@) + ", \"name\": "@
        + json_str(f.name@) + ", \"params\": "@ + json_params(f.params@) + ", \"properties\": "@
        + json_list(f.properties@.map_values(|p: IrProperty| property_json(p))) + ", \"requires\": "@
        + json_exprs(f.requires@) + ", \"return_type\": "@ + json_str(f.return_type@) + ", \"source_path\": "@
        + json_str(f.source_path@) + ", \"line\": "@ + decimal(f.line as nat) + ", \"symbol\": "@
        + json_str(f.symbol@) + ", \"version\": "@ + json_str(f.version@) + "}"@
}

/// A type declaration as a JSON object.
pub open spec fn type_json(t: TypeDecl) -> Seq<char> {
    "{\"fields\": ["@ + join_spec(
        t.fields@.map_values(|f: RecordField| "{\"name\": "@ + json_str(f.name@) + ", \"type\": "@ + json_str(f.type_text@) + "}"@),
        ", "@,
    ) + "], \"kind\": "@ + json_str(if t.variants@.len() > 0 { "enum"@ } else { "record"@ }) + ", \"line\": "@
        + decimal(t.line as nat) + ", \"module\": "@ + json_str(t.module@) + ", \"name\": "@ + json_str(t.name@)
        + ", \"source_path\": "@ + json_str(t.source_path@) + ", \"symbol\": "@ + json_str(type_symbol_text(t))
        + ", \"variants\": ["@ + join_spec(t.variants@.map_values(|v: String| json_str(v@)), ", "@) + "]}"@
}

/// An IR program as a JSON object: its functions, one per line, then its types and version.
pub open spec fn program_json(p: IrProgram) -> Seq<char> {
    "{\"functions\": [\n    "@ + join_spec(p.functions@.map_values(|f: IrFunction| function_json(f)), ",\n    "@)
        + "\n  ], \"types\": ["@ + join_spec(p.types@.map_values(|t: TypeDecl| type_json(t)), ", "@) + "], \"version\": "@
        + json_str(p.version@) + "}"@
}

/// A lowering summary as JSON: diagnostics, the program or `null`, whether it succeeded,
/// and the counts.
pub open spec fn summary_json(s: IrSummary) -> Seq<char> {
    "{\n  \"diagnostics\": "@ + json_diagnostics(s.diagnostics@) + ",\n  \"ir\": "@ + (match s.ir {
        Some(p) => program_json(p),
        None => "null"@,
    }) + ",\n  \"ok\": "@ + bool_text(s.ir is Some && !any_error(s.diagnostics@)) + ",\n  \"summary\": {\n    \"contracts\": "@
        + decimal(s.check_summary.contracts as nat) + ",\n    \"examples\": "@ + decimal(s.check_summary.examples as nat)
        + ",\n    \"functions\": "@ + decimal(s.check_summary.functions as nat) + ",\n    \"holes\": "@
        + decimal(s.check_summary.holes as nat) + ",\n    \"lowered_functions\": "@ + decimal(
        match s.ir {
            Some(p) => p.functions@.len(),
            None => 0,
        },
    ) + ",\n    \"properties\": "@ + decimal(s.check_summary.properties as nat) + "\n  }\n}"@
}

fn params_json(v: &Vec<Param>) -> (res: String)
    ensures
        res@ == json_params(v@),
{
    let mut rows: Vec<String> = Vec::new();
    let mut i: usize = 0;
    while i < v.len()
        invariant
            i <= v@.len(),
            rows@.len() == i,
            forall|k: int| 0 <= k < i ==> #[trigger] rows@[k]@ == param_json(v@[k]),
        decreases v@.len() - i,
    {
        let mut row = owned("{\"name\": ");
        quoted_field(&mut row, &v[i].name);
        row.append(", \"type\": ");
        quoted_field(&mut row, &v[i].type_text);
        row.append("}");
        rows.push(row);
        i += 1;
    }
    let out = bracketed(&rows);
    assert(rows@.map_values(|r: String| r@) =~= v@.map_values(|p: Param| param_json(p)));
    out
}

fn property_row(p: &IrProperty) -> (res: String)
    ensures
        res@ == property_json(*p),
{
    let mut row = owned("{\"expression\": ");
    let x = ir_expr_json(&p.expression);
    append_json(&mut row, &x);
    row.append(", \"index\": ");
    let n = usize_text(p.index);
    row.append(n.as_str());
    row.append(", \"line\": ");
    let n = usize_text(p.line);
    row.append(n.as_str());
    row.append(", \"variables\": ");
    let vs = params_json(&p.variables);
    append_json(&mut row, &vs);
    row.append("}");
    row
}

fn properties_json(v: &Vec<IrProperty>) -> (res: String)
    ensures
        res@ == json_list(v@.map_values(|p: IrProperty| property_json(p))),
{
    let mut rows: Vec<String> = Vec::new();
    let mut i: usize = 0;
    while i < v.len()
        invariant
            i <= v@.len(),
            rows@.len() == i,
            forall|k: int| 0 <= k < i ==> #[trigger] rows@[k]@ == property_json(v@[k]),
        decreases v@.len() - i,
    {
        rows.push(property_row(&v[i]));
        i += 1;
    }
    let out = bracketed(&rows);
    assert(rows@.map_values(|r: String| r@) =~= v@.map_values(|p: IrProperty| property_json(p)));
    out
}

/// An IR function as JSON.
pub fn ir_function_json(f: &IrFunction) -> (res: String)
    ensures
        res@ == function_json(*f),
{
    let mut out = owned("{\"body\": ");
    let x = ir_expr_json(&f.body);
    append_json(&mut out, &x);
    out.append(", \"effects\": ");
    let x = string_array_json(&f.effects);
    append_json(&mut out, &x);
    out.append(", \"ensures\": ");
    let x = exprs_json(&f.ensures);
    append_json(&mut out, &x);
    out.append(", \"examples\": ");
    let x = exprs_json(&f.examples);
    append_json(&mut out, &x);
    out.append(", \"example_lines\": ");
    let x = usize_array_json(&f.example_lines);
    append_json(&mut out, &x);
    out.append(", \"module\": ");
    quoted_field(&mut out, &f.module);
    out.append(", \"name\": ");
    quoted_field(&mut out, &f.name);
    out.append(", \"params\": ");
    let x = params_json(&f.params);
    append_json(&mut out, &x);
    out.append(", \"properties\": ");
    let x = properties_json(&f.properties);
    append_json(&mut out, &x);
    out.append(", \"requires\": ");
    let x = exprs_json(&f.requires);
    append_json(&mut out, &x);
    out.append(", \"return_type\": ");
    quoted_field(&mut out, &f.return_type);
    out.append(", \"source_path\": ");
    quoted_field(&mut out, &f.source_path);
    out.append(", \"line\": ");
    let n = usize_text(f.line);
    out.append(n.as_str());
    out.append(", \"symbol\": ");
    quoted_field(&mut out, &f.symbol);
    out.append(", \"version\": ");
    quoted_field(&mut out, &f.version);
    out.append("}");
    out
}

/// A type declaration as JSON.
pub fn type_decl_json(t: &TypeDecl) -> (res: String)
    ensures
        res@ == type_json(*t),
{
    let mut rows: Vec<String> = Vec::new();
    let mut i: usize = 0;
    while i < t.fields.len()
        invariant
            i <= t.fields@.len(),
            rows@.len() == i,
            forall|k: int| 0 <= k < i ==> #[trigger] rows@[k]@ == "{\"name\": "@ + json_str(t.fields@[k].name@) + ", \"type\": "@ + json_str(t.fields@[k].type_text@) + "}"@,
        decreases t.fields@.len() - i,
    {
        let mut row = owned("{\"name\": ");
        quoted_field(&mut row, &t.fields[i].name);
        row.append(", \"type\": ");
        quoted_field(&mut row, &t.fields[i].type_text);
        row.append("}");
        rows.push(row);
        i += 1;
    }
    assert(rows@.map_values(|r: String| r@) =~= t.fields@.map_values(|f: RecordField| "{\"name\": "@ + json_str(f.name@) + ", \"type\": "@ + json_str(f.type_text@) + "}"@));
    let fields = join_strings(rows.as_slice(), ", ");
    let mut vrows: Vec<String> = Vec::new();
    let mut i: usize = 0;
    while i < t.variants.len()
        invariant
            i <= t.variants@.len(),
            vrows@.len() == i,
            forall|k: int| 0 <= k < i ==> #[trigger] vrows@[k]@ == json_str(t.variants@[k]@),
        decreases t.variants@.len() - i,
    {
        vrows.push(json_string(t.variants[i].as_str()));
        i += 1;
    }
    assert(vrows@.map_values(|r: String| r@) =~= t.variants@.map_values(|v: String| json_str(v@)));
    let variants = join_strings(vrows.as_slice(), ", ");
    let mut out = owned("{\"fields\": [");
    append_json(&mut out, &fields);
    out.append("], \"kind\": ");
    let kind = if t.variants.len() > 0 { json_string("enum") } else { json_string("record") };
    append_json(&mut out, &kind);
    out.append(", \"line\": ");
    let n = usize_text(t.line);
    out.append(n.as_str());
    out.append(", \"module\": ");
    quoted_field(&mut out, &t.module);
    out.append(", \"name\": ");
    quoted_field(&mut out, &t.name);
    out.append(", \"source_path\": ");
    quoted_field(&mut out, &t.source_path);
    out.append(", \"symbol\": ");
    let sym = t.symbol();
    quoted_field(&mut out, &sym);
    out.append(", \"variants\": [");
    append_json(&mut out, &variants);
    out.append("]}");
    out
}

/// An IR program as JSON.
pub fn ir_program_json(p: &IrProgram) -> (res: String)
    ensures
        res@ == program_json(*p),
{
    let mut frows: Vec<String> = Vec::new();
    let mut i: usize = 0;
    while i < p.functions.len()
        invariant
            i <= p.functions@.len(),
            frows@.len() == i,
            forall|k: int| 0 <= k < i ==> #[trigger] frows@[k]@ == function_json(p.functions@[k]),
        decreases p.functions@.len() - i,
    {
        frows.push(ir_function_json(&p.functions[i]));
        i += 1;
    }
    assert(frows@.map_values(|r: String| r@) =~= p.functions@.map_values(|f: IrFunction| function_json(f)));
    let functions = join_strings(frows.as_slice(), ",\n    ");
    let mut trows: Vec<String> = Vec::new();
    let mut i: usize = 0;
    while i < p.types.len()
        invariant
            i <= p.types@.len(),
            trows@.len() == i,
            forall|k: int| 0 <= k < i ==> #[trigger] trows@[k]@ == type_json(p.types@[k]),
        decreases p.types@.len() - i,
    {
        trows.push(type_decl_json(&p.types[i]));
        i += 1;
    }
    assert(trows@.map_values(|r: String| r@) =~= p.types@.map_values(|t: TypeDecl| type_json(t)));
    let types = join_strings(trows.as_slice(), ", ");
    let mut out = owned("{\"functions\": [\n    ");
    append_json(&mut out, &functions);
    out.append("\n  ], \"types\": [");
    append_json(&mut out, &types);
    out.append("], \"version\": ");
    quoted_field(&mut out, &p.version);
    out.append("}");
    out
}

/// A lowering summary as JSON.
pub fn ir_summary_json(s: &IrSummary) -> (res: String)
    ensures
        res@ == summary_json(*s),
{
    let mut out = owned("{\n  \"diagnostics\": ");
    let d = diagnostics_array_json(&s.diagnostics);
    append_json(&mut out, &d);
    out.append(",\n  \"ir\": ");
    let lowered: usize = match &s.ir {
        Some(p) => {
            let x = ir_program_json(p);
            append_json(&mut out, &x);
            p.functions.len()
        },
        None => {
            out.append("null");
            0
        },
    };
    out.append(",\n  \"ok\": ");
    out.append(bool_str(s.ok()));
    out.append(",\n  \"summary\": {\n    \"contracts\": ");
    let n = usize_text(s.check_summary.contracts);
    out.append(n.as_str());
    out.append(",\n    \"examples\": ");
    let n = usize_text(s.check_summary.examples);
    out.append(n.as_str());
    out.append(",\n    \"functions\": ");
    let n = usize_text(s.check_summary.functions);
    out.append(n.as_str());
    out.append(",\n    \"holes\": ");
    let n = usize_text(s.check_summary.holes);
    out.append(n.as_str());
    out.append(",\n    \"lowered_functions\": ");
    let n = usize_text(lowered);
    out.append(n.as_str());
    out.append(",\n    \"properties\": ");
    let n = usize_text(s.check_summary.properties);
    out.append(n.as_str());
    out.append("\n  }\n}");
    out
}

} // verus!
