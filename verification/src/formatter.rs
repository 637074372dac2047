//! Canonical formatting of Serow programs.
use vstd::prelude::*;
use vstd::string::*;

use crate::diagnostic::{any_error, escape_quoted, has_errors, Diagnostic};
use crate::model::{
    param_text, Function, MigrationRecord, Module, ModuleDependency, Param, Program, RecordField,
    TypeDecl,
};
use crate::text::{
    append_chars, chars_of, ends_with, has_prefix_str, has_suffix_str, join_spec, join_strings,
    lines_of, lines_spec, push_char, starts_with, trim, trim_chars, views,
};

verus! {

#[derive(Clone, Debug)]
pub struct FormatSummary {
    pub files: usize,
    pub changed: usize,
    pub diagnostics: Vec<Diagnostic>,
}

impl FormatSummary {
    pub fn ok(&self) -> (res: bool)
        ensures
            res == !any_error(self.diagnostics@),
    {
        !has_errors(&self.diagnostics)
    }
}

/// `prefix + trim(x) + "\n"` for every `x`, concatenated.
pub open spec fn prefixed_lines(prefix: Seq<char>, xs: Seq<Seq<char>>) -> Seq<char>
    decreases xs.len(),
{
    if xs.len() == 0 {
        seq![]
    } else {
        prefixed_lines(prefix, xs.drop_last()) + prefix + trim(xs.last()) + seq!['\n']
    }
}

/// One property line: `forall ...:` headers at four spaces, bodies at six.
pub open spec fn property_line(x: Seq<char>) -> Seq<char> {
    let t = trim(x);
    if starts_with(t, "forall "@) && ends_with(t, ":"@) {
        "    "@ + t + seq!['\n']
    } else {
        "      "@ + t + seq!['\n']
    }
}

pub open spec fn property_block(xs: Seq<Seq<char>>) -> Seq<char>
    decreases xs.len(),
{
    if xs.len() == 0 {
        seq![]
    } else {
        property_block(xs.drop_last()) + property_line(xs.last())
    }
}

pub open spec fn migration_block(ms: Seq<MigrationRecord>) -> Seq<char>
    decreases ms.len(),
{
    if ms.len() == 0 {
        seq![]
    } else {
        migration_block(ms.drop_last()) + "    "@ + ms.last().kind@ + " \""@ + escape_quoted(
            ms.last().note@,
        ) + "\"\n"@
    }
}

pub open spec fn sv(v: Seq<String>) -> Seq<Seq<char>> {
    v.map_values(|s: String| s@)
}

/// The effects line's value: `pure`, or the trimmed effects in brackets.
pub open spec fn effects_text(effects: Seq<String>) -> Seq<char> {
    if effects.len() == 1 && effects[0]@ == "pure"@ {
        "pure\n"@
    } else {
        "["@ + join_spec(sv(effects).map_values(|e: Seq<char>| trim(e)), ", "@) + "]\n"@
    }
}

pub open spec fn header_text(f: Function) -> Seq<char> {
    (if f.public { "pub "@ } else { seq![] }) + "fn "@ + f.name@ + seq!['('] + join_spec(
        f.params@.map_values(|p: Param| param_text(p)),
        ", "@,
    ) + ") -> "@ + f.return_type@ + seq!['\n']
}

pub open spec fn intent_text(f: Function) -> Seq<char> {
    match f.intent {
        Some(i) => "  intent \""@ + escape_quoted(i@) + "\"\n"@,
        None => seq![],
    }
}

pub open spec fn version_text(f: Function) -> Seq<char> {
    if f.version_explicit {
        "  version "@ + f.version@ + seq!['\n']
    } else {
        seq![]
    }
}

pub open spec fn migration_text(f: Function) -> Seq<char> {
    if f.migrations@.len() > 0 {
        "  migration\n"@ + migration_block(f.migrations@)
    } else {
        seq![]
    }
}

pub open spec fn contract_text(f: Function) -> Seq<char> {
    if f.requires@.len() > 0 || f.contracts@.len() > 0 {
        "  contract\n"@ + prefixed_lines("    requires "@, sv(f.requires@)) + prefixed_lines(
            "    ensures "@,
            sv(f.contracts@),
        )
    } else {
        seq![]
    }
}

pub open spec fn examples_text(f: Function) -> Seq<char> {
    if f.examples@.len() > 0 {
        "  examples\n"@ + prefixed_lines("    "@, sv(f.examples@))
    } else {
        seq![]
    }
}

pub open spec fn properties_text(f: Function) -> Seq<char> {
    if f.properties@.len() > 0 {
        "  properties\n"@ + property_block(sv(f.properties@))
    } else {
        seq![]
    }
}

pub open spec fn effects_section(f: Function) -> Seq<char> {
    if f.effects@.len() > 0 {
        "  effects "@ + effects_text(f.effects@)
    } else {
        seq![]
    }
}

pub open spec fn impl_text(f: Function) -> Seq<char> {
    match f.implementation {
        Some(i) => "  impl\n"@ + prefixed_lines("    "@, lines_spec(i@)),
        None => seq![],
    }
}

/// The canonical text of one function: its header line, then each declared section in a
/// fixed order.
#[verifier::opaque]
pub open spec fn function_text(f: Function) -> Seq<char> {
    header_text(f) + intent_text(f) + version_text(f) + migration_text(f) + contract_text(f)
        + examples_text(f) + properties_text(f) + effects_section(f) + impl_text(f)
}

pub open spec fn uses_block(deps: Seq<ModuleDependency>) -> Seq<char>
    decreases deps.len(),
{
    if deps.len() == 0 {
        seq![]
    } else {
        uses_block(deps.drop_last()) + "use "@ + deps.last().module@ + seq!['\n']
    }
}

/// `name: Type`
pub open spec fn field_text(f: RecordField) -> Seq<char> {
    f.name@ + ": "@ + f.type_text@
}

/// The right-hand side of a type declaration: `A | B` for an enum, `{ a: T, b: U }` for a
/// record (`{}` when it has no fields).
pub open spec fn type_body(t: TypeDecl) -> Seq<char> {
    if t.variants@.len() > 0 {
        join_spec(t.variants@.map_values(|v: String| v@), " | "@)
    } else if t.fields@.len() == 0 {
        "{}"@
    } else {
        "{ "@ + join_spec(t.fields@.map_values(|f: RecordField| field_text(f)), ", "@) + " }"@
    }
}

/// `type Name = body` on a line of its own.
pub open spec fn type_line(t: TypeDecl) -> Seq<char> {
    "type "@ + t.name@ + " = "@ + type_body(t) + seq!['\n']
}

pub open spec fn types_block(ts: Seq<TypeDecl>) -> Seq<char>
    decreases ts.len(),
{
    if ts.len() == 0 {
        seq![]
    } else {
        types_block(ts.drop_last()) + type_line(ts.last())
    }
}

/// The canonical text of one module: its name, then its `use` lines, its type declarations
/// and its functions, each group after a blank line.
pub open spec fn module_text(m: Module) -> Seq<char> {
    "module "@ + m.name@ + seq!['\n'] + (if m.dependencies@.len() > 0 {
        seq!['\n'] + uses_block(m.dependencies@)
    } else {
        seq![]
    }) + (if m.types@.len() > 0 {
        seq!['\n'] + types_block(m.types@)
    } else {
        seq![]
    }) + seq!['\n'] + join_spec(m.functions@.map_values(|f: Function| function_text(f)), "\n"@)
}

/// The canonical text of a program: its modules, separated by blank lines.
pub open spec fn program_text(p: Program) -> Seq<char> {
    join_spec(p.modules@.map_values(|m: Module| module_text(m)), "\n"@)
}

fn escape_string(value: &String) -> (res: Vec<char>)
    ensures
        res@ == escape_quoted(value@),
{
    let cs = chars_of(value.as_str());
    let mut out: Vec<char> = Vec::new();
    let mut k: usize = 0;
    while k < cs.len()
        invariant
            k <= cs@.len(),
            cs@ == value@,
            out@ == escape_quoted(cs@.take(k as int)),
        decreases cs@.len() - k,
    {
        let c = cs[k];
        proof {
            assert(cs@.take(k + 1).drop_last() =~= cs@.take(k as int));
        }
        if c == '\\' {
            out.push('\\');
            out.push('\\');
        } else if c == '"' {
            out.push('\\');
            out.push('"');
        } else {
            out.push(c);
        }
        assert(out@ =~= escape_quoted(cs@.take(k + 1)));
        k += 1;
    }
    assert(cs@.take(cs@.len() as int) =~= cs@);
    out
}

fn push_prefixed_lines(output: &mut String, prefix: &str, xs: &Vec<String>)
    ensures
        final(output)@ == old(output)@ + prefixed_lines(prefix@, sv(xs@)),
{
    let ghost start = output@;
    let mut k: usize = 0;
    while k < xs.len()
        invariant
            k <= xs@.len(),
            output@ == start + prefixed_lines(prefix@, sv(xs@.take(k as int))),
        decreases xs@.len() - k,
    {
        proof {
            assert(sv(xs@.take(k + 1)).drop_last() =~= sv(xs@.take(k as int)));
            assert(sv(xs@.take(k + 1)).last() == xs@[k as int]@);
        }
        output.append(prefix);
        let t = trim_chars(&chars_of(xs[k].as_str()));
        append_chars(output, &t);
        push_char(output, '\n');
        k += 1;
    }
    assert(xs@.take(xs@.len() as int) =~= xs@);
}

fn push_lines_of(output: &mut String, prefix: &str, xs: &Vec<Vec<char>>)
    ensures
        final(output)@ == old(output)@ + prefixed_lines(prefix@, views(xs@)),
{
    let ghost start = output@;
    let mut k: usize = 0;
    while k < xs.len()
        invariant
            k <= xs@.len(),
            output@ == start + prefixed_lines(prefix@, views(xs@.take(k as int))),
        decreases xs@.len() - k,
    {
        proof {
            assert(views(xs@.take(k + 1)).drop_last() =~= views(xs@.take(k as int)));
            assert(views(xs@.take(k + 1)).last() == xs@[k as int]@);
        }
        output.append(prefix);
        let t = trim_chars(&xs[k]);
        append_chars(output, &t);
        push_char(output, '\n');
        k += 1;
    }
    assert(xs@.take(xs@.len() as int) =~= xs@);
}

fn push_property_lines(output: &mut String, xs: &Vec<String>)
    ensures
        final(output)@ == old(output)@ + property_block(sv(xs@)),
{
    proof {
        reveal_strlit("forall ");
        reveal_strlit(":");
    }
    let ghost start = output@;
    let mut k: usize = 0;
    while k < xs.len()
        invariant
            k <= xs@.len(),
            output@ == start + property_block(sv(xs@.take(k as int))),
        decreases xs@.len() - k,
    {
        proof {
            assert(sv(xs@.take(k + 1)).drop_last() =~= sv(xs@.take(k as int)));
            assert(sv(xs@.take(k + 1)).last() == xs@[k as int]@);
        }
        let t = trim_chars(&chars_of(xs[k].as_str()));
        if has_prefix_str(&t, "forall ") && has_suffix_str(&t, ":") {
            output.append("    ");
        } else {
            output.append("      ");
        }
        append_chars(output, &t);
        push_char(output, '\n');
        k += 1;
    }
    assert(xs@.take(xs@.len() as int) =~= xs@);
}

fn push_migrations(output: &mut String, ms: &Vec<MigrationRecord>)
    ensures
        final(output)@ == old(output)@ + migration_block(ms@),
{
    let ghost start = output@;
    let mut k: usize = 0;
    while k < ms.len()
        invariant
            k <= ms@.len(),
            output@ == start + migration_block(ms@.take(k as int)),
        decreases ms@.len() - k,
    {
        proof {
            assert(ms@.take(k + 1).drop_last() =~= ms@.take(k as int));
        }
        output.append("    ");
        output.append(ms[k].kind.as_str());
        output.append(" \"");
        let e = escape_string(&ms[k].note);
        append_chars(output, &e);
        output.append("\"\n");
        k += 1;
    }
    assert(ms@.take(ms@.len() as int) =~= ms@);
}

fn push_effects(output: &mut String, effects: &Vec<String>)
    ensures
        final(output)@ == old(output)@ + effects_text(effects@),
{
    if effects.len() == 1 && crate::parser::str_is(&effects[0], "pure") {
        output.append("pure\n");
        return;
    }
    let mut trimmed: Vec<String> = Vec::new();
    let mut k: usize = 0;
    while k < effects.len()
        invariant
            k <= effects@.len(),
            trimmed@.len() == k,
            forall|j: int| 0 <= j < k ==> #[trigger] trimmed@[j]@ == trim(effects@[j]@),
        decreases effects@.len() - k,
    {
        trimmed.push(crate::text::trim_str(effects[k].as_str()));
        k += 1;
    }
    let joined = join_strings(&trimmed, ", ");
    assert(trimmed@.map_values(|p: String| p@) =~= sv(effects@).map_values(|e: Seq<char>| trim(e)));
    output.append("[");
    output.append(joined.as_str());
    output.append("]\n");
}

fn push_header(function: &Function, output: &mut String)
    ensures
        final(output)@ == old(output)@ + header_text(*function),
{
    let ghost start = output@;
    if function.public {
        output.append("pub ");
    }
    output.append("fn ");
    output.append(function.name.as_str());
    push_char(output, '(');
    let signature_params = function.signature_params();
    output.append(signature_params.as_str());
    output.append(") -> ");
    output.append(function.return_type.as_str());
    push_char(output, '\n');
    assert(output@ =~= start + header_text(*function));
}

fn push_intent(function: &Function, output: &mut String)
    ensures
        final(output)@ == old(output)@ + intent_text(*function),
{
    let ghost start = output@;
    if let Some(intent) = &function.intent {
        output.append("  intent \"");
        let e = escape_string(intent);
        append_chars(output, &e);
        output.append("\"\n");
    }
    assert(output@ =~= start + intent_text(*function));
}

fn push_version(function: &Function, output: &mut String)
    ensures
        final(output)@ == old(output)@ + version_text(*function),
{
    let ghost start = output@;
    if function.version_explicit {
        output.append("  version ");
        output.append(function.version());
        push_char(output, '\n');
    }
    assert(output@ =~= start + version_text(*function));
}

fn push_migration_section(function: &Function, output: &mut String)
    ensures
        final(output)@ == old(output)@ + migration_text(*function),
{
    let ghost start = output@;
    if function.migrations.len() > 0 {
        output.append("  migration\n");
        push_migrations(output, &function.migrations);
    }
    assert(output@ =~= start + migration_text(*function));
}

fn push_contract_section(function: &Function, output: &mut String)
    ensures
        final(output)@ == old(output)@ + contract_text(*function),
{
    let ghost start = output@;
    if function.requires.len() > 0 || function.contracts.len() > 0 {
        output.append("  contract\n");
        push_prefixed_lines(output, "    requires ", &function.requires);
        push_prefixed_lines(output, "    ensures ", &function.contracts);
    }
    assert(output@ =~= start + contract_text(*function));
}

fn push_examples_section(function: &Function, output: &mut String)
    ensures
        final(output)@ == old(output)@ + examples_text(*function),
{
    let ghost start = output@;
    if function.examples.len() > 0 {
        output.append("  examples\n");
        push_prefixed_lines(output, "    ", &function.examples);
    }
    assert(output@ =~= start + examples_text(*function));
}

fn push_properties_section(function: &Function, output: &mut String)
    ensures
        final(output)@ == old(output)@ + properties_text(*function),
{
    let ghost start = output@;
    if function.properties.len() > 0 {
        output.append("  properties\n");
        push_property_lines(output, &function.properties);
    }
    assert(output@ =~= start + properties_text(*function));
}

fn push_effects_section(function: &Function, output: &mut String)
    ensures
        final(output)@ == old(output)@ + effects_section(*function),
{
    let ghost start = output@;
    if function.effects.len() > 0 {
        output.append("  effects ");
        push_effects(output, &function.effects);
    }
    assert(output@ =~= start + effects_section(*function));
}

fn push_impl_section(function: &Function, output: &mut String)
    ensures
        final(output)@ == old(output)@ + impl_text(*function),
{
    let ghost start = output@;
    if let Some(implementation) = &function.implementation {
        output.append("  impl\n");
        let lines = lines_of(&chars_of(implementation.as_str()));
        push_lines_of(output, "    ", &lines);
        proof {
            assert(views(lines@) =~= lines_spec(implementation@));
        }
    }
    assert(output@ =~= start + impl_text(*function));
}

/// Appends the canonical text of one function.
pub fn format_function(function: &Function, output: &mut String)
    ensures
        final(output)@ == old(output)@ + function_text(*function),
{
    let ghost start = output@;
    push_header(function, output);
    push_intent(function, output);
    push_version(function, output);
    push_migration_section(function, output);
    push_contract_section(function, output);
    push_examples_section(function, output);
    push_properties_section(function, output);
    push_effects_section(function, output);
    push_impl_section(function, output);
    proof {
        reveal(function_text);
        let f = *function;
        assert(output@ =~= start + (header_text(f) + intent_text(f) + version_text(f) + migration_text(f) + contract_text(f)
            + examples_text(f) + properties_text(f) + effects_section(f) + impl_text(f)));
    }
}

fn push_uses(output: &mut String, deps: &Vec<ModuleDependency>)
    ensures
        final(output)@ == old(output)@ + uses_block(deps@),
{
    let ghost s = output@;
    let mut k: usize = 0;
    while k < deps.len()
        invariant
            k <= deps@.len(),
            output@ == s + uses_block(deps@.take(k as int)),
        decreases deps@.len() - k,
    {
        proof {
            assert(deps@.take(k + 1).drop_last() =~= deps@.take(k as int));
        }
        output.append("use ");
        output.append(deps[k].module.as_str());
        push_char(output, '\n');
        k += 1;
    }
    assert(deps@.take(deps@.len() as int) =~= deps@);
}

fn type_body_string(t: &TypeDecl) -> (res: String)
    ensures
        res@ == type_body(*t),
{
    if t.variants.len() > 0 {
        return join_strings(&t.variants, " | ");
    }
    if t.fields.len() == 0 {
        return crate::text::owned("{}");
    }
    let mut parts: Vec<String> = Vec::new();
    let mut k: usize = 0;
    while k < t.fields.len()
        invariant
            k <= t.fields@.len(),
            parts@.len() == k,
            forall|j: int| 0 <= j < k ==> #[trigger] parts@[j]@ == field_text(t.fields@[j]),
        decreases t.fields@.len() - k,
    {
        let mut x = t.fields[k].name.clone();
        x.append(": ");
        x.append(t.fields[k].type_text.as_str());
        parts.push(x);
        k += 1;
    }
    assert(parts@.map_values(|p: String| p@) =~= t.fields@.map_values(
        |f: RecordField| field_text(f),
    ));
    let joined = join_strings(&parts, ", ");
    let mut out = crate::text::owned("{ ");
    out.append(joined.as_str());
    out.append(" }");
    out
}

fn push_types(output: &mut String, ts: &Vec<TypeDecl>)
    ensures
        final(output)@ == old(output)@ + types_block(ts@),
{
    let ghost s = output@;
    let mut k: usize = 0;
    while k < ts.len()
        invariant
            k <= ts@.len(),
            output@ == s + types_block(ts@.take(k as int)),
        decreases ts@.len() - k,
    {
        proof {
            assert(ts@.take(k + 1).drop_last() =~= ts@.take(k as int));
        }
        output.append("type ");
        output.append(ts[k].name.as_str());
        output.append(" = ");
        let b = type_body_string(&ts[k]);
        output.append(b.as_str());
        push_char(output, '\n');
        k += 1;
    }
    assert(ts@.take(ts@.len() as int) =~= ts@);
}

fn push_functions(output: &mut String, functions: &Vec<Function>)
    ensures
        final(output)@ == old(output)@ + join_spec(functions@.map_values(|f: Function| function_text(f)), "\n"@),
{
    let ghost s2 = output@;
    let ghost texts = functions@.map_values(|f: Function| function_text(f));
    let mut k: usize = 0;
    while k < functions.len()
        invariant
            k <= functions@.len(),
            texts == functions@.map_values(|f: Function| function_text(f)),
            output@ == s2 + join_spec(texts.take(k as int), "\n"@),
        decreases functions@.len() - k,
    {
        proof {
            assert(texts.take(k + 1).drop_last() =~= texts.take(k as int));
            if k == 0 {
                assert(texts.take(0) =~= Seq::<Seq<char>>::empty());
            }
        }
        if k > 0 {
            output.append("\n");
        }
        format_function(&functions[k], output);
        k += 1;
    }
    assert(texts.take(functions@.len() as int) =~= texts);
}

fn format_module(module: &Module, output: &mut String)
    ensures
        final(output)@ == old(output)@ + module_text(*module),
{
    let ghost start = output@;
    output.append("module ");
    output.append(module.name.as_str());
    push_char(output, '\n');
    if module.dependencies.len() > 0 {
        push_char(output, '\n');
        push_uses(output, &module.dependencies);
    }
    if module.types.len() > 0 {
        push_char(output, '\n');
        push_types(output, &module.types);
    }
    push_char(output, '\n');
    push_functions(output, &module.functions);
    assert(output@ =~= start + module_text(*module));
}

/// The canonical source text of a program.
pub fn format_program(program: &Program) -> (res: String)
    ensures
        res@ == program_text(*program),
{
    let mut output = String::new();
    let ghost texts = program.modules@.map_values(|m: Module| module_text(m));
    let mut k: usize = 0;
    while k < program.modules.len()
        invariant
            k <= program.modules@.len(),
            texts == program.modules@.map_values(|m: Module| module_text(m)),
            output@ == join_spec(texts.take(k as int), "\n"@),
        decreases program.modules@.len() - k,
    {
        proof {
            assert(texts.take(k + 1).drop_last() =~= texts.take(k as int));
            if k == 0 {
                assert(texts.take(0) =~= Seq::<Seq<char>>::empty());
            }
        }
        if k > 0 {
            output.append("\n");
        }
        format_module(&program.modules[k], &mut output);
        k += 1;
    }
    assert(texts.take(program.modules@.len() as int) =~= texts);
    output
}

// ---------------------------------------------------------------------------
// What formatting keeps
// ---------------------------------------------------------------------------
/// The canonical line of one migration acknowledgement.
pub open spec fn migration_line(m: MigrationRecord) -> Seq<char> {
    "    "@ + m.kind@ + " \""@ + escape_quoted(m.note@) + "\"\n"@
}

proof fn lemma_middle(a: Seq<char>, b: Seq<char>, c: Seq<char>)
    ensures
        crate::text::contains_seq(a + b + c, b),
{
    assert((a + b + c).subrange(a.len() as int, (a.len() + b.len()) as int) =~= b);
    assert(crate::text::occurs_at(a + b + c, b, a.len() as int));
}

proof fn lemma_contains_trans(s: Seq<char>, t: Seq<char>, u: Seq<char>)
    requires
        crate::text::contains_seq(s, t),
        crate::text::contains_seq(t, u),
    ensures
        crate::text::contains_seq(s, u),
{
    let i = choose|i: int| crate::text::occurs_at(s, t, i);
    let j = choose|j: int| crate::text::occurs_at(t, u, j);
    assert(s.subrange(i + j, i + j + u.len()) =~= t.subrange(j, j + u.len()));
    assert(crate::text::occurs_at(s, u, i + j));
}

proof fn lemma_join_has_part(parts: Seq<Seq<char>>, sep: Seq<char>, k: int)
    requires
        0 <= k < parts.len(),
    ensures
        crate::text::contains_seq(join_spec(parts, sep), parts[k]),
    decreases parts.len(),
{
    if parts.len() == 1 {
        lemma_middle(seq![], parts[0], seq![]);
        assert(seq![] + parts[0] + seq![] =~= parts[0]);
    } else if k == parts.len() - 1 {
        lemma_middle(join_spec(parts.drop_last(), sep) + sep, parts.last(), seq![]);
        assert(join_spec(parts.drop_last(), sep) + sep + parts.last() + seq![] =~= join_spec(parts, sep));
    } else {
        lemma_join_has_part(parts.drop_last(), sep, k);
        assert(parts.drop_last()[k] == parts[k]);
        lemma_middle(seq![], join_spec(parts.drop_last(), sep), sep + parts.last());
        assert(seq![] + join_spec(parts.drop_last(), sep) + (sep + parts.last()) =~= join_spec(parts, sep));
        lemma_contains_trans(join_spec(parts, sep), join_spec(parts.drop_last(), sep), parts[k]);
    }
}

proof fn lemma_block_concat(ms: Seq<MigrationRecord>, j: int)
    requires
        0 <= j <= ms.len(),
    ensures
        migration_block(ms) == migration_block(ms.take(j)) + migration_block(ms.skip(j)),
    decreases ms.len(),
{
    if j == ms.len() {
        assert(ms.take(j) =~= ms);
        assert(ms.skip(j) =~= Seq::<MigrationRecord>::empty());
        assert(migration_block(ms.skip(j)) == Seq::<char>::empty());
        assert(migration_block(ms) + Seq::<char>::empty() =~= migration_block(ms));
    } else {
        lemma_block_concat(ms.drop_last(), j);
        assert(ms.drop_last().take(j) =~= ms.take(j));
        assert(ms.skip(j).drop_last() =~= ms.drop_last().skip(j));
        assert(ms.skip(j).last() == ms.last());
        let l = "    "@ + ms.last().kind@ + " \""@ + escape_quoted(ms.last().note@) + "\"\n"@;
        assert(migration_block(ms) == migration_block(ms.drop_last()) + l);
        assert(migration_block(ms.skip(j)) == migration_block(ms.drop_last().skip(j)) + l);
        assert(migration_block(ms) =~= migration_block(ms.take(j)) + migration_block(ms.skip(j)));
    }
}

proof fn lemma_block_head(ms: Seq<MigrationRecord>)
    requires
        ms.len() > 0,
    ensures
        migration_block(ms) == migration_line(ms[0]) + migration_block(ms.skip(1)),
{
    lemma_block_concat(ms, 1);
    let one = ms.take(1);
    assert(one.drop_last() =~= Seq::<MigrationRecord>::empty());
    assert(one.last() == ms[0]);
    assert(migration_block(one.drop_last()) == Seq::<char>::empty());
    let l = "    "@ + one.last().kind@ + " \""@ + escape_quoted(one.last().note@) + "\"\n"@;
    assert(migration_block(one) == migration_block(one.drop_last()) + l);
    assert(migration_block(one) =~= migration_line(ms[0]));
}

proof fn lemma_function_in_program(p: Program, mi: int, fi: int)
    requires
        0 <= mi < p.modules@.len(),
        0 <= fi < p.modules@[mi].functions@.len(),
    ensures
        crate::text::contains_seq(program_text(p), function_text(p.modules@[mi].functions@[fi])),
{
    let m = p.modules@[mi];
    let ft = function_text(m.functions@[fi]);
    let fts = m.functions@.map_values(|g: Function| function_text(g));
    lemma_join_has_part(fts, "\n"@, fi);
    let pre = "module "@ + m.name@ + seq!['\n'] + (if m.dependencies@.len() > 0 {
        seq!['\n'] + uses_block(m.dependencies@)
    } else {
        seq![]
    }) + (if m.types@.len() > 0 {
        seq!['\n'] + types_block(m.types@)
    } else {
        seq![]
    }) + seq!['\n'];
    lemma_middle(pre, join_spec(fts, "\n"@), seq![]);
    assert(pre + join_spec(fts, "\n"@) + seq![] =~= module_text(m));
    lemma_contains_trans(module_text(m), join_spec(fts, "\n"@), ft);
    let mts = p.modules@.map_values(|x: Module| module_text(x));
    lemma_join_has_part(mts, "\n"@, mi);
    lemma_contains_trans(program_text(p), module_text(m), ft);
}

proof fn lemma_prefix(a: Seq<char>, b: Seq<char>)
    ensures
        crate::text::contains_seq(a + b, a),
{
    lemma_middle(seq![], a, b);
    assert(seq![] + a + b =~= a + b);
}

/// The text of a function holds its header, intent and version followed by its migration
/// section.
proof fn lemma_function_head(f: Function)
    ensures
        crate::text::contains_seq(function_text(f), header_text(f) + intent_text(f) + version_text(f) + migration_text(f)),
{
    let s1 = header_text(f) + intent_text(f) + version_text(f) + migration_text(f);
    let s2 = s1 + contract_text(f);
    let s3 = s2 + examples_text(f);
    let s4 = s3 + properties_text(f);
    let s5 = s4 + effects_section(f);
    reveal(function_text);
    assert(function_text(f) == s5 + impl_text(f));
    lemma_prefix(s5, impl_text(f));
    lemma_prefix(s4, effects_section(f));
    lemma_prefix(s3, properties_text(f));
    lemma_prefix(s2, examples_text(f));
    lemma_prefix(s1, contract_text(f));
    lemma_contains_trans(function_text(f), s5, s4);
    lemma_contains_trans(function_text(f), s4, s3);
    lemma_contains_trans(function_text(f), s3, s2);
    lemma_contains_trans(function_text(f), s2, s1);
}

proof fn lemma_block_has(ms: Seq<MigrationRecord>, k: int)
    requires
        0 <= k < ms.len(),
    ensures
        crate::text::contains_seq(migration_block(ms), migration_line(ms[k])),
        k + 1 < ms.len() ==> crate::text::contains_seq(migration_block(ms), migration_line(ms[k]) + migration_line(ms[k + 1])),
{
    lemma_block_concat(ms, k);
    lemma_block_head(ms.skip(k));
    assert(ms.skip(k)[0] == ms[k]);
    let a = migration_block(ms.take(k));
    let r = migration_block(ms.skip(k).skip(1));
    lemma_middle(a, migration_line(ms[k]), r);
    assert(a + migration_line(ms[k]) + r =~= migration_block(ms));
    if k + 1 < ms.len() {
        lemma_block_head(ms.skip(k).skip(1));
        assert(ms.skip(k).skip(1)[0] == ms[k + 1]);
        let r2 = migration_block(ms.skip(k).skip(1).skip(1));
        let pair = migration_line(ms[k]) + migration_line(ms[k + 1]);
        lemma_middle(a, pair, r2);
        assert(a + pair + r2 =~= migration_block(ms));
    }
}

#[verifier::spinoff_prover]
proof fn lemma_function_migrations(f: Function)
    ensures
        ({
            let ms = f.migrations@;
            let ft = function_text(f);
            &&& ms.len() > 0 ==> crate::text::contains_seq(ft, version_text(f) + "  migration\n"@ + migration_line(ms[0]))
            &&& forall|k: int| 0 <= k < ms.len() ==> crate::text::contains_seq(ft, #[trigger] migration_line(ms[k]))
            &&& forall|k: int|
                0 <= k < ms.len() - 1 ==> crate::text::contains_seq(ft, #[trigger] migration_line(ms[k]) + migration_line(ms[k + 1]))
        }),
{
    let ms = f.migrations@;
    let ft = function_text(f);
    if ms.len() > 0 {
        let p = header_text(f) + intent_text(f);
        let v = version_text(f);
        let mig = "  migration\n"@;
        let block = migration_block(ms);
        let s1 = p + v + migration_text(f);
        lemma_function_head(f);
        assert(migration_text(f) == mig + block);
        lemma_block_head(ms);
        let x = v + mig + migration_line(ms[0]);
        let rest = migration_block(ms.skip(1));
        lemma_middle(p, x, rest);
        assert(p + x + rest =~= s1);
        lemma_contains_trans(ft, s1, x);
        lemma_middle(p + v + mig, block, seq![]);
        assert(p + v + mig + block + seq![] =~= s1);
        lemma_contains_trans(ft, s1, block);
        assert forall|k: int| 0 <= k < ms.len() implies crate::text::contains_seq(ft, #[trigger] migration_line(ms[k])) by {
            lemma_block_has(ms, k);
            lemma_contains_trans(ft, block, migration_line(ms[k]));
        }
        assert forall|k: int| 0 <= k < ms.len() - 1 implies crate::text::contains_seq(
            ft,
            #[trigger] migration_line(ms[k]) + migration_line(ms[k + 1]),
        ) by {
            lemma_block_has(ms, k);
            lemma_contains_trans(ft, block, migration_line(ms[k]) + migration_line(ms[k + 1]));
        }
    }
}

/// Formatting keeps every migration acknowledgement of every function of every module:
/// right after its version line comes the `migration` section, starting with its first
/// acknowledgement, and every acknowledgement stands on its own line, each followed by the
/// next one in order.
#[verifier::spinoff_prover]
pub proof fn law_format_keeps_migrations(p: Program, mi: int, fi: int)
    requires
        0 <= mi < p.modules@.len(),
        0 <= fi < p.modules@[mi].functions@.len(),
    ensures
        ({
            let f = p.modules@[mi].functions@[fi];
            let ms = f.migrations@;
            let t = program_text(p);
            &&& ms.len() > 0 ==> crate::text::contains_seq(t, version_text(f) + "  migration\n"@ + migration_line(ms[0]))
            &&& forall|k: int| 0 <= k < ms.len() ==> crate::text::contains_seq(t, #[trigger] migration_line(ms[k]))
            &&& forall|k: int|
                0 <= k < ms.len() - 1 ==> crate::text::contains_seq(t, #[trigger] migration_line(ms[k]) + migration_line(ms[k + 1]))
        }),
{
    let f = p.modules@[mi].functions@[fi];
    let ms = f.migrations@;
    let t = program_text(p);
    let ft = function_text(f);
    lemma_function_in_program(p, mi, fi);
    lemma_function_migrations(f);
    if ms.len() > 0 {
        lemma_contains_trans(t, ft, version_text(f) + "  migration\n"@ + migration_line(ms[0]));
    }
    assert forall|k: int| 0 <= k < ms.len() implies crate::text::contains_seq(t, #[trigger] migration_line(ms[k])) by {
        lemma_contains_trans(t, ft, migration_line(ms[k]));
    }
    assert forall|k: int| 0 <= k < ms.len() - 1 implies crate::text::contains_seq(
        t,
        #[trigger] migration_line(ms[k]) + migration_line(ms[k + 1]),
    ) by {
        lemma_contains_trans(t, ft, migration_line(ms[k]) + migration_line(ms[k + 1]));
    }
}

proof fn lemma_suffix(a: Seq<char>, b: Seq<char>)
    ensures
        crate::text::contains_seq(a + b, b),
{
    lemma_middle(a, b, seq![]);
    assert(a + b + seq![] =~= a + b);
}

/// The text of a function holds its intent, contract and examples sections.
proof fn lemma_function_parts(f: Function)
    ensures
        crate::text::contains_seq(function_text(f), intent_text(f)),
        crate::text::contains_seq(function_text(f), contract_text(f)),
        crate::text::contains_seq(function_text(f), examples_text(f)),
{
    let s1 = header_text(f) + intent_text(f);
    let s2 = s1 + version_text(f) + migration_text(f);
    let s3 = s2 + contract_text(f);
    let s4 = s3 + examples_text(f);
    let s5 = s4 + properties_text(f) + effects_section(f);
    reveal(function_text);
    assert(function_text(f) == s5 + impl_text(f));
    lemma_prefix(s5, impl_text(f));
    lemma_prefix(s4, properties_text(f));
    lemma_prefix(s4 + properties_text(f), effects_section(f));
    lemma_contains_trans(function_text(f), s5, s4 + properties_text(f));
    lemma_contains_trans(function_text(f), s4 + properties_text(f), s4);
    lemma_suffix(s3, examples_text(f));
    lemma_contains_trans(function_text(f), s4, examples_text(f));
    lemma_prefix(s3, examples_text(f));
    lemma_contains_trans(function_text(f), s4, s3);
    lemma_suffix(s2, contract_text(f));
    lemma_contains_trans(function_text(f), s3, contract_text(f));
    lemma_prefix(s2, contract_text(f));
    lemma_contains_trans(function_text(f), s3, s2);
    lemma_prefix(s1 + version_text(f), migration_text(f));
    lemma_prefix(s1, version_text(f));
    lemma_contains_trans(function_text(f), s2, s1 + version_text(f));
    lemma_contains_trans(function_text(f), s1 + version_text(f), s1);
    lemma_suffix(header_text(f), intent_text(f));
    lemma_contains_trans(function_text(f), s1, intent_text(f));
}

proof fn lemma_prefixed_has(prefix: Seq<char>, xs: Seq<Seq<char>>, k: int)
    requires
        0 <= k < xs.len(),
    ensures
        crate::text::contains_seq(prefixed_lines(prefix, xs), prefix + trim(xs[k]) + seq!['\n']),
    decreases xs.len(),
{
    let rest = prefixed_lines(prefix, xs.drop_last());
    let line = prefix + trim(xs.last()) + seq!['\n'];
    assert(prefixed_lines(prefix, xs) =~= rest + line);
    if k == xs.len() - 1 {
        lemma_suffix(rest, line);
    } else {
        lemma_prefixed_has(prefix, xs.drop_last(), k);
        assert(xs.drop_last()[k] == xs[k]);
        lemma_prefix(rest, line);
        lemma_contains_trans(prefixed_lines(prefix, xs), rest, prefix + trim(xs[k]) + seq!['\n']);
    }
}

/// Formatting keeps the intent, every precondition, postcondition and example of every
/// function of every module, each on its own line.
#[verifier::spinoff_prover]
pub proof fn law_format_keeps_evidence(p: Program, mi: int, fi: int)
    requires
        0 <= mi < p.modules@.len(),
        0 <= fi < p.modules@[mi].functions@.len(),
    ensures
        ({
            let f = p.modules@[mi].functions@[fi];
            let t = program_text(p);
            &&& f.intent is Some ==> crate::text::contains_seq(t, "  intent \""@ + escape_quoted(f.intent->0@) + "\"\n"@)
            &&& forall|k: int| 0 <= k < f.requires@.len() ==> crate::text::contains_seq(
                t,
                "    requires "@ + trim(#[trigger] f.requires@[k]@) + seq!['\n'],
            )
            &&& forall|k: int| 0 <= k < f.contracts@.len() ==> crate::text::contains_seq(
                t,
                "    ensures "@ + trim(#[trigger] f.contracts@[k]@) + seq!['\n'],
            )
            &&& forall|k: int| 0 <= k < f.examples@.len() ==> crate::text::contains_seq(
                t,
                "    "@ + trim(#[trigger] f.examples@[k]@) + seq!['\n'],
            )
        }),
{
    let f = p.modules@[mi].functions@[fi];
    let t = program_text(p);
    let ft = function_text(f);
    lemma_function_in_program(p, mi, fi);
    lemma_function_parts(f);
    if f.intent is Some {
        lemma_contains_trans(t, ft, intent_text(f));
    }
    let rq = prefixed_lines("    requires "@, sv(f.requires@));
    let en = prefixed_lines("    ensures "@, sv(f.contracts@));
    if f.requires@.len() > 0 || f.contracts@.len() > 0 {
        assert(contract_text(f) == "  contract\n"@ + rq + en);
        lemma_middle("  contract\n"@, rq, en);
        lemma_suffix("  contract\n"@ + rq, en);
        lemma_contains_trans(t, ft, contract_text(f));
        lemma_contains_trans(t, contract_text(f), rq);
        lemma_contains_trans(t, contract_text(f), en);
    }
    assert forall|k: int| 0 <= k < f.requires@.len() implies crate::text::contains_seq(
        t,
        "    requires "@ + trim(#[trigger] f.requires@[k]@) + seq!['\n'],
    ) by {
        lemma_prefixed_has("    requires "@, sv(f.requires@), k);
        assert(sv(f.requires@)[k] == f.requires@[k]@);
        lemma_contains_trans(t, rq, "    requires "@ + trim(f.requires@[k]@) + seq!['\n']);
    }
    assert forall|k: int| 0 <= k < f.contracts@.len() implies crate::text::contains_seq(
        t,
        "    ensures "@ + trim(#[trigger] f.contracts@[k]@) + seq!['\n'],
    ) by {
        lemma_prefixed_has("    ensures "@, sv(f.contracts@), k);
        assert(sv(f.contracts@)[k] == f.contracts@[k]@);
        lemma_contains_trans(t, en, "    ensures "@ + trim(f.contracts@[k]@) + seq!['\n']);
    }
    let ex = prefixed_lines("    "@, sv(f.examples@));
    if f.examples@.len() > 0 {
        assert(examples_text(f) == "  examples\n"@ + ex);
        lemma_suffix("  examples\n"@, ex);
        lemma_contains_trans(t, ft, examples_text(f));
        lemma_contains_trans(t, examples_text(f), ex);
    }
    assert forall|k: int| 0 <= k < f.examples@.len() implies crate::text::contains_seq(
        t,
        "    "@ + trim(#[trigger] f.examples@[k]@) + seq!['\n'],
    ) by {
        lemma_prefixed_has("    "@, sv(f.examples@), k);
        assert(sv(f.examples@)[k] == f.examples@[k]@);
        lemma_contains_trans(t, ex, "    "@ + trim(f.examples@[k]@) + seq!['\n']);
    }
}

} // verus!
