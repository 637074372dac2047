//! Structured edits of a whole Serow source: modules, their `use` lines, type
//! declarations and functions. Each edit is decided on a parsed program and yields the
//! program's new canonical text, or the diagnostic that refused it.
use vstd::prelude::*;
use vstd::string::*;

use crate::checks::{first_symbol, intent_query, target_of};
use crate::diagnostic::{
    add_command, add_prose, any_error, has_errors, no_repairs, push_arg, repairs_of, strs, Diagnostic,
    Repairs,
};
use crate::formatter::{format_program, program_text};
use crate::ledger::{exact_intent_key, intent_key};
use crate::model::{
    first_index_from, first_module_index, lemma_first_index_from, symbol_text, Function, Module, Param,
    Program,
};
use crate::parser::{is_valid_module, param_views, valid_module};
use crate::patch::{
    data_texts, duplicates_intent, error_at, first_duplicate, one_more, parse_signature, prose, quote,
    quoted, refused, refused_with, signature_of, PatchSummary,
};
use crate::pinning::find_symbol;
use crate::text::{chars_of, ends_with, owned, str_eq, trim, trim_str};

verus! {

// ---------------------------------------------------------------------------
// Outcomes
// ---------------------------------------------------------------------------
/// Nothing was written, and the diagnostics are the parse diagnostics.
pub open spec fn kept(res: (PatchSummary, Option<String>), diags: Seq<Diagnostic>) -> bool {
    res.0.diagnostics@ == diags && res.0.changed == 0 && res.1 is None
}

/// Nothing was written: one error after the parse diagnostics, with its code, message,
/// target, data and repairs.
pub open spec fn rejected(
    res: (PatchSummary, Option<String>),
    diags: Seq<Diagnostic>,
    code: Seq<char>,
    message: Seq<char>,
    target: Seq<char>,
    data: Seq<(Seq<char>, Seq<char>)>,
    repairs: Repairs,
) -> bool {
    &&& res.1 is None
    &&& res.0.changed == 0
    &&& one_more(res.0.diagnostics@, diags)
    &&& error_at(res.0.diagnostics@.last(), code, message, target)
    &&& data_texts(res.0.diagnostics@.last()) == data
    &&& repairs_of(res.0.diagnostics@.last()) == repairs
}

/// The program `q` was written: its canonical text, and the parse diagnostics unchanged.
pub open spec fn written(res: (PatchSummary, Option<String>), diags: Seq<Diagnostic>, q: Program) -> bool {
    &&& res.0.diagnostics@ == diags
    &&& res.0.changed == 1
    &&& res.1 is Some
    &&& res.1->0@ == program_text(q)
}

/// `q` is `p` with module `i` replaced by `m`.
pub open spec fn module_replaced(p: Program, q: Program, i: int, m: Module) -> bool {
    &&& q.modules@.len() == p.modules@.len()
    &&& q.modules@[i] == m
    &&& forall|k: int| 0 <= k < p.modules@.len() && k != i ==> #[trigger] q.modules@[k] == p.modules@[k]
}

/// Every function line of the program can be followed by another line.
pub open spec fn lines_bounded(p: Program) -> bool {
    forall|i: int, j: int|
        0 <= i < p.modules@.len() && 0 <= j < p.modules@[i].functions@.len() ==> #[trigger] p.modules@[i].functions@[j].line
            < usize::MAX
}

fn written_result(summary: PatchSummary, program: &Program) -> (res: (PatchSummary, Option<String>))
    ensures
        res.0.diagnostics == summary.diagnostics,
        res.0.changed == 1,
        res.1 is Some,
        res.1->0@ == program_text(*program),
{
    let text = format_program(program);
    let mut summary = summary;
    summary.changed = 1;
    (summary, Some(text))
}

fn rejection(summary: PatchSummary, d: Diagnostic) -> (res: (PatchSummary, Option<String>))
    requires
        summary.changed == 0,
    ensures
        res.1 is None,
        res.0.changed == 0,
        res.0.diagnostics@ == summary.diagnostics@.push(d),
        res.0.diagnostics@.drop_last() == summary.diagnostics@,
        res.0.diagnostics@.last() == d,
{
    let ghost before = summary.diagnostics@;
    let mut summary = summary;
    summary.diagnostics.push(d);
    assert(summary.diagnostics@.drop_last() =~= before);
    (summary, None)
}

/// The index of the first module called `name`, or the number of modules.
fn find_module(p: &Program, name: &str) -> (res: usize)
    ensures
        res == first_module_index(p.modules@, name@),
        res <= p.modules@.len(),
{
    proof {
        lemma_first_index_from(p.modules@, name@, 0);
    }
    let mut i: usize = 0;
    while i < p.modules.len()
        invariant
            i <= p.modules@.len(),
            first_index_from(p.modules@, name@, i as int) == first_module_index(p.modules@, name@),
        decreases p.modules@.len() - i,
    {
        if str_eq(p.modules[i].name.as_str(), name) {
            return i;
        }
        i += 1;
    }
    i
}

fn module_not_found(module: &str, path: &str) -> (res: Diagnostic)
    ensures
        error_at(res, "PatchTargetNotFound"@, quote("Module `"@, module@, "` was not found."@), path@),
        data_texts(res) == Seq::<(Seq<char>, Seq<char>)>::empty(),
        repairs_of(res) == no_repairs(),
{
    let m = quoted("Module `", module, "` was not found.");
    let d = Diagnostic::error("PatchTargetNotFound", m.as_str(), Some(owned(path)));
    assert(data_texts(d) =~= Seq::<(Seq<char>, Seq<char>)>::empty());
    d
}

// ---------------------------------------------------------------------------
// Adding a function
// ---------------------------------------------------------------------------
/// `@module.name.v1`
pub open spec fn first_version_symbol(module: Seq<char>, name: Seq<char>) -> Seq<char> {
    "@"@ + module + "."@ + name + ".v1"@
}

/// `g` is the new public function: version `v1` declared explicitly, the given signature,
/// the trimmed intent, pure, and a typed hole of its return type as its implementation.
pub open spec fn added_function(
    g: Function,
    module: Seq<char>,
    path: Seq<char>,
    name: Seq<char>,
    ps: Seq<(Seq<char>, Seq<char>)>,
    ret: Seq<char>,
    intent: Seq<char>,
    line: int,
) -> bool {
    &&& g.name@ == name
    &&& g.module@ == module
    &&& g.public
    &&& g.version@ == "v1"@
    &&& g.version_explicit
    &&& param_views(g.params@) == ps
    &&& g.return_type@ == ret
    &&& g.source_path@ == path
    &&& g.line == line
    &&& g.intent is Some && g.intent->0@ == trim(intent)
    &&& g.requires@.len() == 0
    &&& g.contracts@.len() == 0
    &&& g.examples@.len() == 0
    &&& g.example_lines@.len() == 0
    &&& g.properties@.len() == 0
    &&& g.property_lines@.len() == 0
    &&& g.migrations@.len() == 0
    &&& strs(g.effects@) == seq!["pure"@]
    &&& g.implementation is Some && g.implementation->0@ == "HOLE("@ + ret + ")"@
}

/// The line after the module's last function, or 1.
pub open spec fn next_line(m: Module) -> int {
    if m.functions@.len() == 0 {
        1
    } else {
        m.functions@.last().line + 1
    }
}

/// What adding a function to a parsed program gives, once the arguments are valid.
pub open spec fn add_function_holds(
    res: (PatchSummary, Option<String>),
    p: Program,
    diags: Seq<Diagnostic>,
    path: Seq<char>,
    module: Seq<char>,
    name: Seq<char>,
    ps: Seq<(Seq<char>, Seq<char>)>,
    ret: Seq<char>,
    intent: Seq<char>,
) -> bool {
    let fs = p.functions@;
    let mi = first_module_index(p.modules@, module);
    let sym = first_version_symbol(module, name);
    let e = first_symbol(fs, sym, 0);
    let key = intent_key(intent);
    let dup = first_duplicate(fs, sym, key, 0);
    if any_error(diags) {
        kept(res, diags)
    } else if mi >= p.modules@.len() {
        rejected(res, diags, "PatchTargetNotFound"@, quote("Module `"@, module, "` was not found."@), path, seq![], no_repairs())
    } else if e < fs.len() {
        rejected(
            res,
            diags,
            "PatchConflict"@,
            quote("Public symbol `"@, sym, "` already exists."@),
            target_of(fs[e]),
            seq![("symbol"@, sym)],
            prose("Choose a different name or add a new explicit version manually."@),
        )
    } else if key.len() > 0 && dup < fs.len() {
        rejected(
            res,
            diags,
            "PossibleDuplicate"@,
            "New public function `"@ + name + "` has the same intent as `"@ + symbol_text(fs[dup]) + "`."@,
            target_of(fs[dup]),
            seq![
                ("candidate"@, symbol_text(fs[dup])),
                ("candidate_intent"@, fs[dup].intent->0@),
                ("intent"@, intent),
            ],
            add_prose(
                add_command(no_repairs(), "Find existing functions with the same intent"@, intent_query(intent)),
                "Reuse the existing symbol or make the new intent more specific."@,
            ),
        )
    } else {
        exists|q: Program|
            {
                &&& written(res, diags, q)
                &&& q.types == p.types
                &&& module_replaced(p, q, mi, q.modules@[mi])
                &&& q.modules@[mi].name == p.modules@[mi].name
                &&& q.modules@[mi].source_path == p.modules@[mi].source_path
                &&& q.modules@[mi].dependencies == p.modules@[mi].dependencies
                &&& q.modules@[mi].types == p.modules@[mi].types
                &&& q.modules@[mi].functions@.drop_last() == p.modules@[mi].functions@
                &&& q.functions@.drop_last() == fs
                &&& q.modules@[mi].functions@.len() == p.modules@[mi].functions@.len() + 1
                &&& q.functions@.len() == fs.len() + 1
                &&& added_function(
                    q.functions@.last(),
                    module,
                    path,
                    name,
                    ps,
                    ret,
                    intent,
                    next_line(p.modules@[mi]),
                )
                &&& added_function(
                    q.modules@[mi].functions@.last(),
                    module,
                    path,
                    name,
                    ps,
                    ret,
                    intent,
                    next_line(p.modules@[mi]),
                )
            }
    }
}

/// The index of the first public function other than `sym` whose intent has key `key`.
fn find_duplicate(fs: &Vec<Function>, sym: &String, key: &String) -> (res: usize)
    ensures
        res == first_duplicate(fs@, sym@, key@, 0),
{
    let mut i: usize = 0;
    while i < fs.len()
        invariant
            i <= fs@.len(),
            first_duplicate(fs@, sym@, key@, i as int) == first_duplicate(fs@, sym@, key@, 0),
        decreases fs@.len() - i,
    {
        let c = &fs[i];
        let csym = c.symbol();
        let mut dup = false;
        if c.public && !str_eq(csym.as_str(), sym.as_str()) {
            match &c.intent {
                Some(ci) => {
                    let ck = exact_intent_key(ci.as_str());
                    dup = str_eq(ck.as_str(), key.as_str());
                },
                None => {},
            }
        }
        assert(dup == duplicates_intent(*c, sym@, key@));
        if dup {
            return i;
        }
        i += 1;
    }
    i
}

fn new_function(
    module: &str,
    path: &str,
    name: String,
    params: Vec<Param>,
    ret: String,
    intent: &str,
    line: usize,
) -> (g: Function)
    ensures
        added_function(g, module@, path@, name@, param_views(params@), ret@, intent@, line as int),
{
    let mut effects: Vec<String> = Vec::new();
    assert(strs(effects@) =~= Seq::<Seq<char>>::empty());
    push_arg(&mut effects, owned("pure"));
    assert(strs(effects@) =~= seq!["pure"@]);
    let mut hole = owned("HOLE(");
    hole.append(ret.as_str());
    hole.append(")");
    Function {
        name,
        module: owned(module),
        public: true,
        version: owned("v1"),
        version_explicit: true,
        params,
        return_type: ret,
        source_path: owned(path),
        line,
        intent: Some(trim_str(intent)),
        requires: Vec::new(),
        contracts: Vec::new(),
        examples: Vec::new(),
        example_lines: Vec::new(),
        properties: Vec::new(),
        property_lines: Vec::new(),
        migrations: Vec::new(),
        effects,
        implementation: Some(hole),
    }
}

/// Adds a new public function at version `v1` to a module of the parsed source at
/// `path`: its signature, its intent, a pure declaration and a typed hole to fill. Refused
/// for an invalid module name, an empty intent, a malformed signature, a module the
/// source lacks, a symbol that exists, and an intent that an existing public function
/// already states.
pub fn add_function(
    program: Program,
    parse_diagnostics: Vec<Diagnostic>,
    path: &str,
    module: &str,
    signature: &str,
    intent: &str,
) -> (res: (PatchSummary, Option<String>))
    requires
        lines_bounded(program),
    ensures
        if !valid_module(module@) {
            refused(res, "InvalidPatchTarget"@, quote("Invalid module name `"@, module@, "`."@), path@)
        } else if trim(intent@).len() == 0 {
            refused(res, "InvalidPatchTarget"@, "Function intent must not be empty."@, path@)
        } else {
            match signature_of(signature@) {
                None => refused_with(
                    res,
                    "InvalidPatchTarget"@,
                    quote("Invalid function signature `"@, signature@, "`."@),
                    path@,
                    prose("Use a signature like `name(x: Int, y: Int) -> Int`."@),
                ),
                Some((n, ps, r)) => add_function_holds(
                    res,
                    program,
                    parse_diagnostics@,
                    path@,
                    module@,
                    n,
                    ps,
                    r,
                    intent@,
                ),
            }
        },
{
    let ghost p = program;
    let ghost diags = parse_diagnostics@;
    let mc = chars_of(module);
    if !is_valid_module(&mc) {
        let m = quoted("Invalid module name `", module, "`.");
        return crate::patch::refuse("InvalidPatchTarget", m.as_str(), path);
    }
    let ti = trim_str(intent);
    if ti.as_str().unicode_len() == 0 {
        return crate::patch::refuse("InvalidPatchTarget", "Function intent must not be empty.", path);
    }
    let sc = chars_of(signature);
    let (name, params, ret) = match parse_signature(&sc) {
        Some(t) => t,
        None => {
            let m = quoted("Invalid function signature `", signature, "`.");
            return crate::patch::refuse_with_repair(
                "InvalidPatchTarget",
                m.as_str(),
                path,
                "Use a signature like `name(x: Int, y: Int) -> Int`.",
            );
        },
    };
    let mut program = program;
    let summary = PatchSummary { changed: 0, diagnostics: parse_diagnostics };
    if has_errors(&summary.diagnostics) {
        return (summary, None);
    }
    let mi = find_module(&program, module);
    if mi >= program.modules.len() {
        let d = module_not_found(module, path);
        return rejection(summary, d);
    }
    let sym = quoted("@", module, ".");
    let mut sym = sym;
    sym.append(name.as_str());
    sym.append(".v1");
    proof {
        reveal_strlit("@");
        reveal_strlit(".");
        reveal_strlit(".v1");
        assert(sym@ =~= first_version_symbol(module@, name@));
    }
    let e = find_symbol(&program.functions, &sym);
    if e < program.functions.len() {
        let ex = &program.functions[e];
        let m = quoted("Public symbol `", sym.as_str(), "` already exists.");
        let d = Diagnostic::error("PatchConflict", m.as_str(), Some(ex.target()))
            .with_data("symbol", sym.as_str())
            .with_repair("Choose a different name or add a new explicit version manually.");
        assert(data_texts(d) =~= seq![("symbol"@, sym@)]);
        return rejection(summary, d);
    }
    let key = exact_intent_key(intent);
    if key.as_str().unicode_len() > 0 {
        let j = find_duplicate(&program.functions, &sym, &key);
        if j < program.functions.len() {
            proof {
                lemma_first_duplicate(program.functions@, sym@, key@, 0);
            }
            let c = &program.functions[j];
            let csym = c.symbol();
            let mut m = owned("New public function `");
            m.append(name.as_str());
            m.append("` has the same intent as `");
            m.append(csym.as_str());
            m.append("`.");
            let ci = match &c.intent {
                Some(x) => x.clone(),
                None => String::new(),
            };
            let mut command: Vec<String> = Vec::new();
            push_arg(&mut command, owned("bin/serow"));
            push_arg(&mut command, owned("query"));
            push_arg(&mut command, owned("intent"));
            push_arg(&mut command, owned(intent));
            assert(strs(command@) =~= intent_query(intent@));
            let d = Diagnostic::error("PossibleDuplicate", m.as_str(), Some(c.target()))
                .with_data("candidate", csym.as_str())
                .with_data("candidate_intent", ci.as_str())
                .with_data("intent", intent)
                .with_command_repair("Find existing functions with the same intent", command)
                .with_repair("Reuse the existing symbol or make the new intent more specific.");
            assert(data_texts(d) =~= seq![
                ("candidate"@, symbol_text(p.functions@[j as int])),
                ("candidate_intent"@, p.functions@[j as int].intent->0@),
                ("intent"@, intent@),
            ]);
            return rejection(summary, d);
        }
    }
    let n = program.modules[mi].functions.len();
    let line: usize = if n == 0 {
        1
    } else {
        assert(program.modules@[mi as int].functions@[n - 1].line < usize::MAX);
        program.modules[mi].functions[n - 1].line + 1
    };
    let g = new_function(module, path, name, params, ret, intent, line);
    let ghost before = program.modules@;
    let mut m = program.modules.remove(mi);
    let ghost m0 = m;
    m.functions.push(g.copy());
    program.modules.insert(mi, m);
    program.functions.push(g);
    proof {
        assert(m0 == p.modules@[mi as int]);
        assert(m.functions@.drop_last() =~= m0.functions@);
        assert(program.functions@.drop_last() =~= p.functions@);
        assert forall|k: int| 0 <= k < p.modules@.len() && k != mi implies #[trigger] program.modules@[k] == p.modules@[k] by {
            assert(program.modules@[k] == before[k]);
        }
    }
    let r = written_result(summary, &program);
    proof {
        let q = program;
        let mi = mi as int;
        assert(module_replaced(p, q, mi, q.modules@[mi]));
        assert(written(r, diags, q));
        assert(q.modules@[mi].functions@.drop_last() == p.modules@[mi].functions@);
        assert(added_function(q.functions@.last(), module@, path@, name@, param_views(params@), ret@, intent@, next_line(p.modules@[mi])));
        assert(added_function(q.modules@[mi].functions@.last(), module@, path@, name@, param_views(params@), ret@, intent@, next_line(p.modules@[mi])));
    }
    r
}

proof fn lemma_first_duplicate(fs: Seq<Function>, sym: Seq<char>, key: Seq<char>, i: int)
    requires
        0 <= i,
        first_duplicate(fs, sym, key, i) < fs.len(),
    ensures
        i <= first_duplicate(fs, sym, key, i),
        duplicates_intent(fs[first_duplicate(fs, sym, key, i)], sym, key),
    decreases fs.len() - i,
{
    if i < fs.len() && !duplicates_intent(fs[i], sym, key) {
        lemma_first_duplicate(fs, sym, key, i + 1);
    }
}


// ---------------------------------------------------------------------------
// Modules and their `use` lines
// ---------------------------------------------------------------------------
/// Whether any module is called `name`.
pub open spec fn has_module(p: Program, name: Seq<char>) -> bool {
    first_module_index(p.modules@, name) < p.modules@.len()
}

/// Adds an empty module to the parsed source at `path`, unless one with that (trimmed)
/// name exists. Refused for an invalid module name and a path that is not a `.serow`
/// file.
pub fn add_module(
    program: Program,
    parse_diagnostics: Vec<Diagnostic>,
    path: &str,
    module: &str,
) -> (res: (PatchSummary, Option<String>))
    ensures
        if !valid_module(trim(module@)) {
            refused(res, "InvalidPatchTarget"@, quote("Invalid module name `"@, trim(module@), "`."@), path@)
        } else if !ends_with(path@, ".serow"@) {
            refused_with(
                res,
                "InvalidPatchTarget"@,
                quote("Patch path `"@, path@, "` must end in `.serow`."@),
                path@,
                prose("Choose a Serow source path such as `examples/new_module.serow`."@),
            )
        } else if any_error(parse_diagnostics@) || has_module(program, trim(module@)) {
            kept(res, parse_diagnostics@)
        } else {
            exists|q: Program|
                {
                    &&& written(res, parse_diagnostics@, q)
                    &&& q.types == program.types
                    &&& q.functions == program.functions
                    &&& q.modules@.drop_last() == program.modules@
                    &&& q.modules@.len() == program.modules@.len() + 1
                    &&& crate::model::fresh_module(q.modules@.last(), trim(module@), path@)
                }
        },
{
    let ghost p = program;
    let ghost module_text = module;
    let module = trim_str(module);
    let mc = chars_of(module.as_str());
    if !is_valid_module(&mc) {
        let m = quoted("Invalid module name `", module.as_str(), "`.");
        return crate::patch::refuse("InvalidPatchTarget", m.as_str(), path);
    }
    let pc = chars_of(path);
    if !crate::text::has_suffix_str(&pc, ".serow") {
        let m = quoted("Patch path `", path, "` must end in `.serow`.");
        return crate::patch::refuse_with_repair(
            "InvalidPatchTarget",
            m.as_str(),
            path,
            "Choose a Serow source path such as `examples/new_module.serow`.",
        );
    }
    let mut program = program;
    let summary = PatchSummary { changed: 0, diagnostics: parse_diagnostics };
    if has_errors(&summary.diagnostics) {
        return (summary, None);
    }
    let mi = find_module(&program, module.as_str());
    if mi < program.modules.len() {
        return (summary, None);
    }
    program.modules.push(
        Module {
            name: module,
            source_path: owned(path),
            dependencies: Vec::new(),
            types: Vec::new(),
            functions: Vec::new(),
        },
    );
    assert(program.modules@.drop_last() =~= p.modules@);
    let r = written_result(summary, &program);
    proof {
        assert(written(r, summary.diagnostics@, program));
        assert(crate::model::fresh_module(program.modules@.last(), trim(module_text@), path@));
    }
    r
}

/// The index of the first dependency on module `name`, from `i` on, or the length.
pub open spec fn first_dependency(deps: Seq<crate::model::ModuleDependency>, name: Seq<char>, i: int) -> int
    decreases deps.len() - i,
{
    if i < 0 || i >= deps.len() {
        deps.len() as int
    } else if deps[i].module@ == name {
        i
    } else {
        first_dependency(deps, name, i + 1)
    }
}

/// The used module names, comma-separated.
pub open spec fn dependency_names(deps: Seq<crate::model::ModuleDependency>) -> Seq<char> {
    crate::text::join_spec(deps.map_values(|d: crate::model::ModuleDependency| d.module@), ", "@)
}

fn find_dependency(deps: &Vec<crate::model::ModuleDependency>, name: &str) -> (res: usize)
    ensures
        res == first_dependency(deps@, name@, 0),
        res <= deps@.len(),
        res < deps@.len() ==> deps@[res as int].module@ == name@,
        forall|k: int| 0 <= k < res ==> #[trigger] deps@[k].module@ != name@,
{
    let mut i: usize = 0;
    while i < deps.len()
        invariant
            i <= deps@.len(),
            first_dependency(deps@, name@, i as int) == first_dependency(deps@, name@, 0),
            forall|k: int| 0 <= k < i ==> #[trigger] deps@[k].module@ != name@,
        decreases deps@.len() - i,
    {
        if str_eq(deps[i].module.as_str(), name) {
            return i;
        }
        i += 1;
    }
    i
}

fn dependency_names_text(deps: &Vec<crate::model::ModuleDependency>) -> (res: String)
    ensures
        res@ == dependency_names(deps@),
{
    let mut names: Vec<String> = Vec::new();
    let mut i: usize = 0;
    while i < deps.len()
        invariant
            i <= deps@.len(),
            names@.len() == i,
            forall|k: int| 0 <= k < i ==> #[trigger] names@[k]@ == deps@[k].module@,
        decreases deps@.len() - i,
    {
        names.push(deps[i].module.clone());
        i += 1;
    }
    assert(names@.map_values(|s: String| s@) =~= deps@.map_values(|d: crate::model::ModuleDependency| d.module@));
    crate::text::join_strings(&names, ", ")
}

/// `q` is `p` with only the dependencies of module `mi` changed.
pub open spec fn dependencies_changed(p: Program, q: Program, mi: int) -> bool {
    &&& q.types == p.types
    &&& q.functions == p.functions
    &&& module_replaced(p, q, mi, q.modules@[mi])
    &&& q.modules@[mi].name == p.modules@[mi].name
    &&& q.modules@[mi].source_path == p.modules@[mi].source_path
    &&& q.modules@[mi].types == p.modules@[mi].types
    &&& q.modules@[mi].functions == p.modules@[mi].functions
}

fn replace_dependencies(program: &mut Program, mi: usize, deps: Vec<crate::model::ModuleDependency>)
    requires
        mi < old(program).modules@.len(),
    ensures
        dependencies_changed(*old(program), *final(program), mi as int),
        final(program).modules@[mi as int].dependencies == deps,
{
    let ghost before = program.modules@;
    let mut m = program.modules.remove(mi);
    m.dependencies = deps;
    program.modules.insert(mi, m);
    proof {
        assert forall|k: int| 0 <= k < before.len() && k != mi implies #[trigger] program.modules@[k] == before[k] by {
            if k < mi {
                assert(program.modules@[k] == before[k]);
            } else {
                assert(program.modules@[k] == before[k]);
            }
        }
    }
}

fn copy_dependencies(v: &Vec<crate::model::ModuleDependency>) -> (res: Vec<crate::model::ModuleDependency>)
    ensures
        res@ == v@,
{
    let mut out: Vec<crate::model::ModuleDependency> = Vec::new();
    let mut i: usize = 0;
    while i < v.len()
        invariant
            i <= v@.len(),
            out@ == v@.take(i as int),
        decreases v@.len() - i,
    {
        let d = crate::model::ModuleDependency {
            module: v[i].module.clone(),
            source_path: v[i].source_path.clone(),
            line: v[i].line,
        };
        out.push(d);
        proof {
            assert(out@ =~= v@.take(i + 1));
        }
        i += 1;
    }
    assert(v@.take(v@.len() as int) =~= v@);
    out
}

/// The two names of a `use` edit are valid module names.
pub open spec fn use_names_refused(
    res: (PatchSummary, Option<String>),
    module: Seq<char>,
    dependency: Seq<char>,
    path: Seq<char>,
) -> bool {
    if !valid_module(module) {
        refused(res, "InvalidPatchTarget"@, quote("Invalid module name `"@, module, "`."@), path)
    } else {
        refused(res, "InvalidPatchTarget"@, quote("Invalid dependency module name `"@, dependency, "`."@), path)
    }
}

fn check_use_names(module: &str, dependency: &str, path: &str) -> (res: Option<(PatchSummary, Option<String>)>)
    ensures
        match res {
            Some(r) => (!valid_module(module@) || !valid_module(dependency@)) && use_names_refused(r, module@, dependency@, path@),
            None => valid_module(module@) && valid_module(dependency@),
        },
{
    if !is_valid_module(&chars_of(module)) {
        let m = quoted("Invalid module name `", module, "`.");
        return Some(crate::patch::refuse("InvalidPatchTarget", m.as_str(), path));
    }
    if !is_valid_module(&chars_of(dependency)) {
        let m = quoted("Invalid dependency module name `", dependency, "`.");
        return Some(crate::patch::refuse("InvalidPatchTarget", m.as_str(), path));
    }
    None
}

/// Declares `use dependency` in a module of the parsed source at `path`, unless it already
/// does.
pub fn add_use(
    program: Program,
    parse_diagnostics: Vec<Diagnostic>,
    path: &str,
    module: &str,
    dependency: &str,
) -> (res: (PatchSummary, Option<String>))
    ensures
        if !valid_module(module@) || !valid_module(dependency@) {
            use_names_refused(res, module@, dependency@, path@)
        } else if any_error(parse_diagnostics@) {
            kept(res, parse_diagnostics@)
        } else if !has_module(program, module@) {
            rejected(res, parse_diagnostics@, "PatchTargetNotFound"@, quote("Module `"@, module@, "` was not found."@), path@, seq![], no_repairs())
        } else {
            let mi = first_module_index(program.modules@, module@);
            let deps = program.modules@[mi].dependencies@;
            if first_dependency(deps, dependency@, 0) < deps.len() {
                kept(res, parse_diagnostics@)
            } else {
                exists|q: Program|
                    {
                        &&& written(res, parse_diagnostics@, q)
                        &&& dependencies_changed(program, q, mi)
                        &&& q.modules@[mi].dependencies@.drop_last() == deps
                        &&& q.modules@[mi].dependencies@.len() == deps.len() + 1
                        &&& q.modules@[mi].dependencies@.last().module@ == dependency@
                        &&& q.modules@[mi].dependencies@.last().source_path@ == path@
                        &&& q.modules@[mi].dependencies@.last().line == 1
                    }
            }
        },
{
    if let Some(r) = check_use_names(module, dependency, path) {
        return r;
    }
    let ghost p = program;
    let mut program = program;
    let summary = PatchSummary { changed: 0, diagnostics: parse_diagnostics };
    if has_errors(&summary.diagnostics) {
        return (summary, None);
    }
    let mi = find_module(&program, module);
    if mi >= program.modules.len() {
        return rejection(summary, module_not_found(module, path));
    }
    let k = find_dependency(&program.modules[mi].dependencies, dependency);
    if k < program.modules[mi].dependencies.len() {
        return (summary, None);
    }
    let mut deps = copy_dependencies(&program.modules[mi].dependencies);
    deps.push(crate::model::ModuleDependency { module: owned(dependency), source_path: owned(path), line: 1 });
    assert(deps@.drop_last() =~= p.modules@[mi as int].dependencies@);
    replace_dependencies(&mut program, mi, deps);
    written_result(summary, &program)
}

/// The conflict when a module does not declare a dependency.
pub open spec fn undeclared(
    res: (PatchSummary, Option<String>),
    diags: Seq<Diagnostic>,
    module: Seq<char>,
    dependency: Seq<char>,
    deps: Seq<crate::model::ModuleDependency>,
    path: Seq<char>,
    repair: Seq<char>,
) -> bool {
    rejected(
        res,
        diags,
        "PatchConflict"@,
        "Module `"@ + module + "` does not declare `use "@ + dependency + "`."@,
        path,
        seq![("dependencies"@, dependency_names(deps))],
        prose(repair),
    )
}

fn undeclared_error(module: &str, dependency: &str, deps: &Vec<crate::model::ModuleDependency>, path: &str, repair: &str) -> (res: Diagnostic)
    ensures
        error_at(res, "PatchConflict"@, "Module `"@ + module@ + "` does not declare `use "@ + dependency@ + "`."@, path@),
        data_texts(res) == seq![("dependencies"@, dependency_names(deps@))],
        repairs_of(res) == prose(repair@),
{
    let mut m = owned("Module `");
    m.append(module);
    m.append("` does not declare `use ");
    m.append(dependency);
    m.append("`.");
    let names = dependency_names_text(deps);
    let d = Diagnostic::error("PatchConflict", m.as_str(), Some(owned(path)))
        .with_data("dependencies", names.as_str())
        .with_repair(repair);
    assert(data_texts(d) =~= seq![("dependencies"@, dependency_names(deps@))]);
    d
}

/// Removes the `use dependency` line of a module of the parsed source at `path`.
pub fn remove_use(
    program: Program,
    parse_diagnostics: Vec<Diagnostic>,
    path: &str,
    module: &str,
    dependency: &str,
) -> (res: (PatchSummary, Option<String>))
    ensures
        if !valid_module(module@) || !valid_module(dependency@) {
            use_names_refused(res, module@, dependency@, path@)
        } else if any_error(parse_diagnostics@) {
            kept(res, parse_diagnostics@)
        } else if !has_module(program, module@) {
            rejected(res, parse_diagnostics@, "PatchTargetNotFound"@, quote("Module `"@, module@, "` was not found."@), path@, seq![], no_repairs())
        } else {
            let mi = first_module_index(program.modules@, module@);
            let deps = program.modules@[mi].dependencies@;
            let k = first_dependency(deps, dependency@, 0);
            if k >= deps.len() {
                undeclared(res, parse_diagnostics@, module@, dependency@, deps, path@, "Remove only an existing module dependency declaration."@)
            } else {
                exists|q: Program|
                    {
                        &&& written(res, parse_diagnostics@, q)
                        &&& dependencies_changed(program, q, mi)
                        &&& q.modules@[mi].dependencies@ == deps.remove(k)
                    }
            }
        },
{
    if let Some(r) = check_use_names(module, dependency, path) {
        return r;
    }
    let ghost p = program;
    let mut program = program;
    let summary = PatchSummary { changed: 0, diagnostics: parse_diagnostics };
    if has_errors(&summary.diagnostics) {
        return (summary, None);
    }
    let mi = find_module(&program, module);
    if mi >= program.modules.len() {
        return rejection(summary, module_not_found(module, path));
    }
    let k = find_dependency(&program.modules[mi].dependencies, dependency);
    if k >= program.modules[mi].dependencies.len() {
        let d = undeclared_error(
            module,
            dependency,
            &program.modules[mi].dependencies,
            path,
            "Remove only an existing module dependency declaration.",
        );
        return rejection(summary, d);
    }
    let mut deps = copy_dependencies(&program.modules[mi].dependencies);
    deps.remove(k);
    replace_dependencies(&mut program, mi, deps);
    written_result(summary, &program)
}

/// Replaces `use old_dependency` by `use new_dependency` in a module of the parsed source
/// at `path`.
pub fn set_use(
    program: Program,
    parse_diagnostics: Vec<Diagnostic>,
    path: &str,
    module: &str,
    old_dependency: &str,
    new_dependency: &str,
) -> (res: (PatchSummary, Option<String>))
    ensures
        if !valid_module(module@) {
            refused(res, "InvalidPatchTarget"@, quote("Invalid module name `"@, module@, "`."@), path@)
        } else if !valid_module(old_dependency@) {
            refused(res, "InvalidPatchTarget"@, quote("Invalid old dependency module name `"@, old_dependency@, "`."@), path@)
        } else if !valid_module(new_dependency@) {
            refused(res, "InvalidPatchTarget"@, quote("Invalid new dependency module name `"@, new_dependency@, "`."@), path@)
        } else if any_error(parse_diagnostics@) {
            kept(res, parse_diagnostics@)
        } else if !has_module(program, module@) {
            rejected(res, parse_diagnostics@, "PatchTargetNotFound"@, quote("Module `"@, module@, "` was not found."@), path@, seq![], no_repairs())
        } else {
            let mi = first_module_index(program.modules@, module@);
            let deps = program.modules@[mi].dependencies@;
            let k = first_dependency(deps, old_dependency@, 0);
            if k >= deps.len() {
                undeclared(res, parse_diagnostics@, module@, old_dependency@, deps, path@, "Replace only an existing module dependency declaration."@)
            } else if old_dependency@ == new_dependency@ {
                kept(res, parse_diagnostics@)
            } else if first_dependency(deps, new_dependency@, 0) < deps.len() {
                rejected(
                    res,
                    parse_diagnostics@,
                    "PatchConflict"@,
                    "Module `"@ + module@ + "` already declares `use "@ + new_dependency@ + "`."@,
                    path@,
                    seq![],
                    prose("Choose a dependency that is not already declared, or remove the old dependency."@),
                )
            } else {
                exists|q: Program|
                    {
                        &&& written(res, parse_diagnostics@, q)
                        &&& dependencies_changed(program, q, mi)
                        &&& q.modules@[mi].dependencies@.len() == deps.len()
                        &&& forall|j: int| 0 <= j < deps.len() && j != k ==> #[trigger] q.modules@[mi].dependencies@[j] == deps[j]
                        &&& q.modules@[mi].dependencies@[k].module@ == new_dependency@
                        &&& q.modules@[mi].dependencies@[k].source_path == deps[k].source_path
                        &&& q.modules@[mi].dependencies@[k].line == deps[k].line
                    }
            }
        },
{
    if !is_valid_module(&chars_of(module)) {
        let m = quoted("Invalid module name `", module, "`.");
        return crate::patch::refuse("InvalidPatchTarget", m.as_str(), path);
    }
    if !is_valid_module(&chars_of(old_dependency)) {
        let m = quoted("Invalid old dependency module name `", old_dependency, "`.");
        return crate::patch::refuse("InvalidPatchTarget", m.as_str(), path);
    }
    if !is_valid_module(&chars_of(new_dependency)) {
        let m = quoted("Invalid new dependency module name `", new_dependency, "`.");
        return crate::patch::refuse("InvalidPatchTarget", m.as_str(), path);
    }
    let ghost p = program;
    let mut program = program;
    let summary = PatchSummary { changed: 0, diagnostics: parse_diagnostics };
    if has_errors(&summary.diagnostics) {
        return (summary, None);
    }
    let mi = find_module(&program, module);
    if mi >= program.modules.len() {
        return rejection(summary, module_not_found(module, path));
    }
    let k = find_dependency(&program.modules[mi].dependencies, old_dependency);
    if k >= program.modules[mi].dependencies.len() {
        let d = undeclared_error(
            module,
            old_dependency,
            &program.modules[mi].dependencies,
            path,
            "Replace only an existing module dependency declaration.",
        );
        return rejection(summary, d);
    }
    if str_eq(old_dependency, new_dependency) {
        return (summary, None);
    }
    let k2 = find_dependency(&program.modules[mi].dependencies, new_dependency);
    if k2 < program.modules[mi].dependencies.len() {
        let mut m = owned("Module `");
        m.append(module);
        m.append("` already declares `use ");
        m.append(new_dependency);
        m.append("`.");
        let d = Diagnostic::error("PatchConflict", m.as_str(), Some(owned(path)))
            .with_repair("Choose a dependency that is not already declared, or remove the old dependency.");
        assert(data_texts(d) =~= Seq::<(Seq<char>, Seq<char>)>::empty());
        return rejection(summary, d);
    }
    let mut deps = copy_dependencies(&program.modules[mi].dependencies);
    let old_dep = &program.modules[mi].dependencies[k];
    let nd = crate::model::ModuleDependency {
        module: owned(new_dependency),
        source_path: old_dep.source_path.clone(),
        line: old_dep.line,
    };
    deps.set(k, nd);
    replace_dependencies(&mut program, mi, deps);
    written_result(summary, &program)
}

// ---------------------------------------------------------------------------
// Removing a function
// ---------------------------------------------------------------------------
/// The functions of the modules, module by module.
pub open spec fn all_functions(ms: Seq<Module>) -> Seq<Function>
    decreases ms.len(),
{
    if ms.len() == 0 {
        seq![]
    } else {
        all_functions(ms.drop_last()) + ms.last().functions@
    }
}

/// The program's function index is its modules' functions, in order.
pub open spec fn indexed(q: Program) -> bool {
    let a = all_functions(q.modules@);
    &&& q.functions@.len() == a.len()
    &&& forall|k: int| 0 <= k < a.len() ==> crate::model::same_function(#[trigger] q.functions@[k], a[k])
}

/// Rebuilds the function index from the modules.
fn rebuild_function_index(program: &mut Program)
    ensures
        final(program).modules == old(program).modules,
        final(program).types == old(program).types,
        indexed(*final(program)),
{
    let mut out: Vec<Function> = Vec::new();
    let ms = &program.modules;
    let mut a: usize = 0;
    assert(ms@.take(0) =~= Seq::<Module>::empty());
    while a < ms.len()
        invariant
            a <= ms@.len(),
            out@.len() == all_functions(ms@.take(a as int)).len(),
            forall|k: int| 0 <= k < out@.len() ==> crate::model::same_function(#[trigger] out@[k], all_functions(ms@.take(a as int))[k]),
        decreases ms@.len() - a,
    {
        proof {
            assert(ms@.take(a + 1).drop_last() =~= ms@.take(a as int));
        }
        let fs = &ms[a].functions;
        let ghost base = all_functions(ms@.take(a as int));
        let ghost start = out@.len();
        let mut b: usize = 0;
        while b < fs.len()
            invariant
                b <= fs@.len(),
                *fs == ms@[a as int].functions,
                start == base.len(),
                out@.len() == base.len() + b,
                forall|k: int| 0 <= k < base.len() ==> crate::model::same_function(#[trigger] out@[k], base[k]),
                forall|k: int| 0 <= k < b ==> crate::model::same_function(#[trigger] out@[base.len() + k], fs@[k]),
            decreases fs@.len() - b,
        {
            out.push(fs[b].copy());
            b += 1;
        }
        proof {
            let next = all_functions(ms@.take(a + 1));
            assert(next == base + fs@);
            assert forall|k: int| 0 <= k < out@.len() implies crate::model::same_function(#[trigger] out@[k], next[k]) by {
                if k >= base.len() {
                    assert(out@[base.len() + (k - base.len())] == out@[k]);
                }
            }
        }
        a += 1;
    }
    assert(ms@.take(ms@.len() as int) =~= ms@);
    program.functions = out;
}

/// Removes the function that `target` names from the parsed source at `path`.
pub fn remove_function(
    program: Program,
    parse_diagnostics: Vec<Diagnostic>,
    path: &str,
    target: &str,
) -> (res: (PatchSummary, Option<String>))
    ensures
        if any_error(parse_diagnostics@) {
            kept(res, parse_diagnostics@)
        } else {
            match crate::patch::target_resolution(program.functions@, target@) {
                Err((code, message)) => rejected(
                    res,
                    parse_diagnostics@,
                    code,
                    message,
                    path@,
                    crate::patch::target_error_data(program.functions@, target@),
                    crate::patch::target_error_repairs(program.functions@, target@),
                ),
                Ok(sym) => if crate::patch::nowhere(program.modules@, sym) {
                    rejected(
                        res,
                        parse_diagnostics@,
                        "PatchTargetNotFound"@,
                        quote("Function `"@, target@, "` was not found."@),
                        path@,
                        seq![],
                        no_repairs(),
                    )
                } else {
                    exists|mi: int, fi: int, q: Program|
                        {
                            &&& crate::patch::first_position(program.modules@, sym, mi, fi)
                            &&& written(res, parse_diagnostics@, q)
                            &&& q.types == program.types
                            &&& module_replaced(
                                program,
                                q,
                                mi,
                                Module { functions: q.modules@[mi].functions, ..program.modules@[mi] },
                            )
                            &&& q.modules@[mi].functions@ == program.modules@[mi].functions@.remove(fi)
                            &&& indexed(q)
                        }
                },
            }
        },
{
    let ghost p = program;
    let mut program = program;
    let summary = PatchSummary { changed: 0, diagnostics: parse_diagnostics };
    if has_errors(&summary.diagnostics) {
        return (summary, None);
    }
    let symbol = match crate::patch::resolve_patch_target(&program, target, path) {
        Ok(s) => s,
        Err(d) => {
            return rejection(summary, d);
        },
    };
    let (mi, fi) = match crate::patch::find_module_function(&program, &symbol) {
        Some(pos) => pos,
        None => {
            let m = quoted("Function `", target, "` was not found.");
            let d = Diagnostic::error("PatchTargetNotFound", m.as_str(), Some(owned(path)));
            assert(data_texts(d) =~= Seq::<(Seq<char>, Seq<char>)>::empty());
            return rejection(summary, d);
        },
    };
    let ghost before = program.modules@;
    let mut m = program.modules.remove(mi);
    m.functions.remove(fi);
    program.modules.insert(mi, m);
    proof {
        assert forall|k: int| 0 <= k < before.len() && k != mi implies #[trigger] program.modules@[k] == before[k] by {
            assert(program.modules@[k] == before[k]);
        }
    }
    rebuild_function_index(&mut program);
    let r = written_result(summary, &program);
    proof {
        let q = program;
        assert(module_replaced(p, q, mi as int, Module { functions: q.modules@[mi as int].functions, ..p.modules@[mi as int] }));
        assert(written(r, summary.diagnostics@, q));
    }
    r
}

// ---------------------------------------------------------------------------
// Record type declarations
// ---------------------------------------------------------------------------
/// Field names appear once each.
pub open spec fn distinct_names(ps: Seq<(Seq<char>, Seq<char>)>) -> bool {
    forall|i: int, j: int| 0 <= i < j < ps.len() ==> #[trigger] ps[i].0 != #[trigger] ps[j].0
}

/// `Name = { field: Type, ... }`, optionally after `type `: the name and the fields.
pub open spec fn type_decl_of(declaration: Seq<char>) -> Option<(Seq<char>, Seq<(Seq<char>, Seq<char>)>)> {
    let t = trim(declaration);
    let d = if crate::text::starts_with(t, "type "@) { t.skip(5) } else { t };
    let e = crate::text::find_from(d, '=', 0);
    let name = trim(d.take(e));
    let body = trim(d.skip(e + 1));
    if e >= d.len() || !crate::types::is_ident(name) || body.len() < 2 || body[0] != '{' || body.last() != '}' {
        None
    } else {
        match crate::patch::signature_params(body.subrange(1, body.len() - 1)) {
            Some(ps) => if distinct_names(ps) {
                Some((name, ps))
            } else {
                None
            },
            None => None,
        }
    }
}

pub open spec fn field_views(fs: Seq<crate::model::RecordField>) -> Seq<(Seq<char>, Seq<char>)> {
    fs.map_values(|f: crate::model::RecordField| (f.name@, f.type_text@))
}

fn parse_type_declaration(declaration: &str) -> (res: Option<(String, Vec<crate::model::RecordField>)>)
    ensures
        match (res, type_decl_of(declaration@)) {
            (Some((n, fs)), Some((sn, sfs))) => n@ == sn && field_views(fs@) == sfs,
            (None, None) => true,
            _ => false,
        },
{
    let t = trim_str(declaration);
    let tc = chars_of(t.as_str());
    proof {
        reveal_strlit("type ");
    }
    let d = if crate::text::has_prefix_str(&tc, "type ") {
        let x = crate::text::slice_chars(&tc, 5, tc.len());
        assert(x@ =~= tc@.skip(5));
        x
    } else {
        tc
    };
    assert(d@ == (if crate::text::starts_with(trim(declaration@), "type "@) {
        trim(declaration@).skip(5)
    } else {
        trim(declaration@)
    }));
    let e = crate::text::find_char(&d, '=', 0);
    if e >= d.len() {
        return None;
    }
    let name = crate::text::trim_chars(&crate::text::slice_chars(&d, 0, e));
    assert(d@.subrange(0, e as int) =~= d@.take(e as int));
    let body = crate::text::trim_chars(&crate::text::slice_chars(&d, e + 1, d.len()));
    assert(d@.subrange(e + 1, d@.len() as int) =~= d@.skip(e + 1));
    if !crate::types::is_valid_ident(&name) || body.len() < 2 || body[0] != '{' || body[body.len() - 1] != '}' {
        return None;
    }
    let inner = crate::text::slice_chars(&body, 1, body.len() - 1);
    proof {
        assert(name@ == trim(d@.take(e as int)));
        assert(body@ == trim(d@.skip(e + 1)));
        assert(inner@ == body@.subrange(1, body@.len() - 1));
    }
    let ps = match crate::patch::parse_signature_params(&inner) {
        Some(ps) => ps,
        None => {
            assert(crate::patch::signature_params(inner@) is None);
            assert(type_decl_of(declaration@) is None);
            return None;
        },
    };
    let ghost pv = param_views(ps@);
    assert(type_decl_of(declaration@) == (if distinct_names(pv) { Some((name@, pv)) } else { None }));
    let mut fields: Vec<crate::model::RecordField> = Vec::new();
    let mut i: usize = 0;
    while i < ps.len()
        invariant
            i <= ps@.len(),
            pv == param_views(ps@),
            type_decl_of(declaration@) == (if distinct_names(pv) { Some((name@, pv)) } else { None }),
            fields@.len() == i,
            forall|k: int| 0 <= k < i ==> (#[trigger] fields@[k]).name@ == pv[k].0 && fields@[k].type_text@ == pv[k].1,
            forall|a: int, b: int| 0 <= a < b < i ==> #[trigger] pv[a].0 != #[trigger] pv[b].0,
        decreases ps@.len() - i,
    {
        let mut j: usize = 0;
        while j < i
            invariant
                j <= i < ps@.len(),
                pv == param_views(ps@),
                type_decl_of(declaration@) == (if distinct_names(pv) { Some((name@, pv)) } else { None }),
                forall|a: int| 0 <= a < j ==> #[trigger] pv[a].0 != pv[i as int].0,
            decreases i - j,
        {
            if str_eq(ps[j].name.as_str(), ps[i].name.as_str()) {
                proof {
                    assert(pv[j as int].0 == pv[i as int].0);
                    assert(!distinct_names(pv));
                }
                return None;
            }
            j += 1;
        }
        fields.push(crate::model::RecordField { name: ps[i].name.clone(), type_text: ps[i].type_text.clone() });
        i += 1;
    }
    assert(field_views(fields@) =~= pv);
    Some((string_of_str(&name), fields))
}

fn string_of_str(cs: &Vec<char>) -> (res: String)
    ensures
        res@ == cs@,
{
    crate::text::string_of(cs)
}

/// The index of the first type called `name`, or the length.
pub open spec fn first_type(ts: Seq<crate::model::TypeDecl>, name: Seq<char>, i: int) -> int
    decreases ts.len() - i,
{
    if i < 0 || i >= ts.len() {
        ts.len() as int
    } else if ts[i].name@ == name {
        i
    } else {
        first_type(ts, name, i + 1)
    }
}

fn find_type(ts: &Vec<crate::model::TypeDecl>, name: &String) -> (res: usize)
    ensures
        res == first_type(ts@, name@, 0),
        res <= ts@.len(),
        res < ts@.len() ==> ts@[res as int].name@ == name@,
{
    let mut i: usize = 0;
    while i < ts.len()
        invariant
            i <= ts@.len(),
            first_type(ts@, name@, i as int) == first_type(ts@, name@, 0),
        decreases ts@.len() - i,
    {
        if str_eq(ts[i].name.as_str(), name.as_str()) {
            return i;
        }
        i += 1;
    }
    i
}

/// Every type line of the program can be followed by another line.
pub open spec fn type_lines_bounded(p: Program) -> bool {
    forall|i: int, j: int|
        0 <= i < p.modules@.len() && 0 <= j < p.modules@[i].types@.len() ==> #[trigger] p.modules@[i].types@[j].line
            < usize::MAX
}

/// The line after the module's last type declaration, or 1.
pub open spec fn next_type_line(m: Module) -> int {
    if m.types@.len() == 0 {
        1
    } else {
        m.types@.last().line + 1
    }
}

/// `t` is the new record type.
pub open spec fn added_type(
    t: crate::model::TypeDecl,
    module: Seq<char>,
    path: Seq<char>,
    name: Seq<char>,
    fields: Seq<(Seq<char>, Seq<char>)>,
    line: int,
) -> bool {
    &&& t.name@ == name
    &&& t.module@ == module
    &&& t.source_path@ == path
    &&& t.line == line
    &&& field_views(t.fields@) == fields
    &&& t.variants@.len() == 0
}

/// Adds a record type declaration to a module of the parsed source at `path`, unless a
/// type of that name exists anywhere in the program.
pub fn add_type(
    program: Program,
    parse_diagnostics: Vec<Diagnostic>,
    path: &str,
    module: &str,
    declaration: &str,
) -> (res: (PatchSummary, Option<String>))
    requires
        type_lines_bounded(program),
    ensures
        if !valid_module(module@) {
            refused(res, "InvalidPatchTarget"@, quote("Invalid module name `"@, module@, "`."@), path@)
        } else {
            match type_decl_of(declaration@) {
                None => refused_with(
                    res,
                    "InvalidPatchTarget"@,
                    quote("Invalid type declaration `"@, declaration@, "`."@),
                    path@,
                    prose("Use a record declaration like `Player = { hp: Int, gold: Int }`."@),
                ),
                Some((name, fields)) => if any_error(parse_diagnostics@) {
                    kept(res, parse_diagnostics@)
                } else if !has_module(program, module@) {
                    rejected(res, parse_diagnostics@, "PatchTargetNotFound"@, quote("Module `"@, module@, "` was not found."@), path@, seq![], no_repairs())
                } else if first_type(program.types@, name, 0) < program.types@.len() {
                    let t = program.types@[first_type(program.types@, name, 0)];
                    rejected(
                        res,
                        parse_diagnostics@,
                        "PatchConflict"@,
                        quote("Type declaration `"@, name, "` already exists."@),
                        crate::model::target_text(t.source_path@, t.line as nat, t.name@),
                        seq![("type"@, crate::model::type_symbol_text(t))],
                        prose("Choose a different type name or reuse the existing declaration."@),
                    )
                } else {
                    let mi = first_module_index(program.modules@, module@);
                    exists|q: Program|
                        {
                            &&& written(res, parse_diagnostics@, q)
                            &&& q.functions == program.functions
                            &&& module_replaced(program, q, mi, q.modules@[mi])
                            &&& q.modules@[mi].name == program.modules@[mi].name
                            &&& q.modules@[mi].source_path == program.modules@[mi].source_path
                            &&& q.modules@[mi].dependencies == program.modules@[mi].dependencies
                            &&& q.modules@[mi].functions == program.modules@[mi].functions
                            &&& q.modules@[mi].types@.len() == program.modules@[mi].types@.len() + 1
                            &&& q.modules@[mi].types@.drop_last() == program.modules@[mi].types@
                            &&& q.types@.len() == program.types@.len() + 1
                            &&& q.types@.drop_last() == program.types@
                            &&& added_type(q.types@.last(), module@, path@, name, fields, next_type_line(program.modules@[mi]))
                            &&& added_type(q.modules@[mi].types@.last(), module@, path@, name, fields, next_type_line(program.modules@[mi]))
                        }
                },
            }
        },
{
    let ghost p = program;
    if !is_valid_module(&chars_of(module)) {
        let m = quoted("Invalid module name `", module, "`.");
        return crate::patch::refuse("InvalidPatchTarget", m.as_str(), path);
    }
    let (name, fields) = match parse_type_declaration(declaration) {
        Some(x) => x,
        None => {
            let m = quoted("Invalid type declaration `", declaration, "`.");
            return crate::patch::refuse_with_repair(
                "InvalidPatchTarget",
                m.as_str(),
                path,
                "Use a record declaration like `Player = { hp: Int, gold: Int }`.",
            );
        },
    };
    let mut program = program;
    let summary = PatchSummary { changed: 0, diagnostics: parse_diagnostics };
    if has_errors(&summary.diagnostics) {
        return (summary, None);
    }
    let mi = find_module(&program, module);
    if mi >= program.modules.len() {
        return rejection(summary, module_not_found(module, path));
    }
    let e = find_type(&program.types, &name);
    if e < program.types.len() {
        let t = &program.types[e];
        let m = quoted("Type declaration `", name.as_str(), "` already exists.");
        let tsym = t.symbol();
        let d = Diagnostic::error("PatchConflict", m.as_str(), Some(t.target()))
            .with_data("type", tsym.as_str())
            .with_repair("Choose a different type name or reuse the existing declaration.");
        assert(data_texts(d) =~= seq![("type"@, crate::model::type_symbol_text(*t))]);
        return rejection(summary, d);
    }
    let n = program.modules[mi].types.len();
    let line: usize = if n == 0 {
        1
    } else {
        assert(program.modules@[mi as int].types@[n - 1].line < usize::MAX);
        program.modules[mi].types[n - 1].line + 1
    };
    let t = crate::model::TypeDecl {
        name,
        module: owned(module),
        source_path: owned(path),
        line,
        fields,
        variants: Vec::new(),
    };
    let ghost before = program.modules@;
    let mut m = program.modules.remove(mi);
    let ghost m0 = m;
    m.types.push(t.copy());
    program.modules.insert(mi, m);
    program.types.push(t);
    proof {
        assert(m.types@.drop_last() =~= m0.types@);
        assert(program.types@.drop_last() =~= p.types@);
        assert forall|k: int| 0 <= k < p.modules@.len() && k != mi implies #[trigger] program.modules@[k] == p.modules@[k] by {
            assert(program.modules@[k] == before[k]);
        }
    }
    let r = written_result(summary, &program);
    proof {
        assert(module_replaced(p, program, mi as int, program.modules@[mi as int]));
        assert(written(r, summary.diagnostics@, program));
    }
    r
}

/// The types that do not have symbol `sym`, in order.
pub open spec fn types_without(ts: Seq<crate::model::TypeDecl>, sym: Seq<char>) -> Seq<crate::model::TypeDecl>
    decreases ts.len(),
{
    if ts.len() == 0 {
        seq![]
    } else if crate::model::type_symbol_text(ts.last()) == sym {
        types_without(ts.drop_last(), sym)
    } else {
        types_without(ts.drop_last(), sym).push(ts.last())
    }
}

pub open spec fn type_names(ts: Seq<crate::model::TypeDecl>) -> Seq<char> {
    crate::text::join_spec(ts.map_values(|t: crate::model::TypeDecl| t.name@), ", "@)
}

fn remove_types_with(ts: &mut Vec<crate::model::TypeDecl>, sym: &String)
    ensures
        final(ts)@ == types_without(old(ts)@, sym@),
{
    let ghost orig = ts@;
    let mut out: Vec<crate::model::TypeDecl> = Vec::new();
    let mut rest: Vec<crate::model::TypeDecl> = Vec::new();
    std::mem::swap(&mut rest, ts);
    let ghost all = rest@;
    let n0 = rest.len();
    let mut i: usize = 0;
    assert(all.take(0) =~= Seq::<crate::model::TypeDecl>::empty());
    while rest.len() > 0
        invariant
            all == orig,
            all.len() <= usize::MAX,
            i <= all.len(),
            rest@ == all.skip(i as int),
            out@ == types_without(all.take(i as int), sym@),
        decreases rest@.len(),
    {
        let t = rest.remove(0);
        proof {
            assert(all.take(i + 1).drop_last() =~= all.take(i as int));
            assert(all.take(i + 1).last() == t);
            assert(rest@ =~= all.skip(i + 1));
        }
        let ts_sym = t.symbol();
        if !str_eq(ts_sym.as_str(), sym.as_str()) {
            out.push(t);
        }
        i += 1;
    }
    assert(all.take(i as int) =~= all);
    *ts = out;
}

fn type_names_text(ts: &Vec<crate::model::TypeDecl>) -> (res: String)
    ensures
        res@ == type_names(ts@),
{
    let mut names: Vec<String> = Vec::new();
    let mut i: usize = 0;
    while i < ts.len()
        invariant
            i <= ts@.len(),
            names@.len() == i,
            forall|k: int| 0 <= k < i ==> #[trigger] names@[k]@ == ts@[k].name@,
        decreases ts@.len() - i,
    {
        names.push(ts[i].name.clone());
        i += 1;
    }
    assert(names@.map_values(|s: String| s@) =~= ts@.map_values(|t: crate::model::TypeDecl| t.name@));
    crate::text::join_strings(&names, ", ")
}

/// Removes a type declaration of a module of the parsed source at `path`, and every
/// indexed type with its symbol.
pub fn remove_type(
    program: Program,
    parse_diagnostics: Vec<Diagnostic>,
    path: &str,
    module: &str,
    name: &str,
) -> (res: (PatchSummary, Option<String>))
    ensures
        if !valid_module(module@) {
            refused(res, "InvalidPatchTarget"@, quote("Invalid module name `"@, module@, "`."@), path@)
        } else if !crate::types::is_ident(name@) {
            refused(res, "InvalidPatchTarget"@, quote("Invalid type name `"@, name@, "`."@), path@)
        } else if any_error(parse_diagnostics@) {
            kept(res, parse_diagnostics@)
        } else if !has_module(program, module@) {
            rejected(res, parse_diagnostics@, "PatchTargetNotFound"@, quote("Module `"@, module@, "` was not found."@), path@, seq![], no_repairs())
        } else {
            let mi = first_module_index(program.modules@, module@);
            let ts = program.modules@[mi].types@;
            let k = first_type(ts, name@, 0);
            if k >= ts.len() {
                rejected(
                    res,
                    parse_diagnostics@,
                    "PatchConflict"@,
                    "Module `"@ + module@ + "` does not declare type `"@ + name@ + "`."@,
                    path@,
                    seq![("types"@, type_names(ts))],
                    prose("Remove only an existing record type declaration."@),
                )
            } else {
                exists|q: Program|
                    {
                        &&& written(res, parse_diagnostics@, q)
                        &&& q.functions == program.functions
                        &&& module_replaced(program, q, mi, Module { types: q.modules@[mi].types, ..program.modules@[mi] })
                        &&& q.modules@[mi].types@ == ts.remove(k)
                        &&& q.types@ == types_without(program.types@, crate::model::type_symbol_text(ts[k]))
                    }
            }
        },
{
    let ghost p = program;
    if !is_valid_module(&chars_of(module)) {
        let m = quoted("Invalid module name `", module, "`.");
        return crate::patch::refuse("InvalidPatchTarget", m.as_str(), path);
    }
    if !crate::types::is_valid_ident(&chars_of(name)) {
        let m = quoted("Invalid type name `", name, "`.");
        return crate::patch::refuse("InvalidPatchTarget", m.as_str(), path);
    }
    let mut program = program;
    let summary = PatchSummary { changed: 0, diagnostics: parse_diagnostics };
    if has_errors(&summary.diagnostics) {
        return (summary, None);
    }
    let mi = find_module(&program, module);
    if mi >= program.modules.len() {
        return rejection(summary, module_not_found(module, path));
    }
    let nm = owned(name);
    let k = find_type(&program.modules[mi].types, &nm);
    if k >= program.modules[mi].types.len() {
        let mut m = owned("Module `");
        m.append(module);
        m.append("` does not declare type `");
        m.append(name);
        m.append("`.");
        let names = type_names_text(&program.modules[mi].types);
        let d = Diagnostic::error("PatchConflict", m.as_str(), Some(owned(path)))
            .with_data("types", names.as_str())
            .with_repair("Remove only an existing record type declaration.");
        assert(data_texts(d) =~= seq![("types"@, type_names(p.modules@[mi as int].types@))]);
        return rejection(summary, d);
    }
    let sym = program.modules[mi].types[k].symbol();
    let ghost before = program.modules@;
    let mut m = program.modules.remove(mi);
    m.types.remove(k);
    program.modules.insert(mi, m);
    proof {
        assert forall|j: int| 0 <= j < p.modules@.len() && j != mi implies #[trigger] program.modules@[j] == p.modules@[j] by {
            assert(program.modules@[j] == before[j]);
        }
    }
    remove_types_with(&mut program.types, &sym);
    let r = written_result(summary, &program);
    proof {
        assert(module_replaced(p, program, mi as int, Module { types: program.modules@[mi as int].types, ..p.modules@[mi as int] }));
        assert(written(r, summary.diagnostics@, program));
    }
    r
}

// ---------------------------------------------------------------------------
// Renaming a function
// ---------------------------------------------------------------------------
/// `g` is `g0` after renaming function `f` to `n`: its call references rewritten, and its
/// own name changed when it is `f`.
pub open spec fn renamed_in(g0: Function, g: Function, fs: Seq<Function>, ins: Seq<Function>, f: Function, n: Seq<char>) -> bool {
    &&& crate::renames::rewritten_function(
        g0,
        Function { name: g0.name, ..g },
        fs,
        ins,
        crate::renames::RenameSpec::Function(f, n),
    )
    &&& if symbol_text(g0) == symbol_text(f) {
        g.name@ == n
    } else {
        g.name == g0.name
    }
}

/// Every function of every module is renamed as `renamed_in` says; nothing else changes
/// but the function index, which lists the modules' functions.
pub open spec fn functions_renamed(p: Program, q: Program, fs: Seq<Function>, ins: Seq<Function>, f: Function, n: Seq<char>) -> bool {
    &&& q.types == p.types
    &&& q.modules@.len() == p.modules@.len()
    &&& forall|k: int|
        0 <= k < p.modules@.len() ==> {
            let a = #[trigger] p.modules@[k];
            let b = q.modules@[k];
            &&& b.name == a.name
            &&& b.source_path == a.source_path
            &&& b.dependencies == a.dependencies
            &&& b.types == a.types
            &&& b.functions@.len() == a.functions@.len()
            &&& forall|j: int|
                0 <= j < a.functions@.len() ==> renamed_in(
                    #[trigger] a.functions@[j],
                    b.functions@[j],
                    fs,
                    ins,
                    f,
                    n,
                )
        }
    &&& indexed(q)
}

/// The symbol `f` would have under the name `n`.
pub open spec fn renamed_symbol(f: Function, n: Seq<char>) -> Seq<char> {
    "@"@ + f.module@ + "."@ + n + "."@ + f.version@
}

fn rename_all(program: &mut Program, fs: &Vec<Function>, ins: &Vec<Function>, r: &crate::renames::Rename, f: &Function, n: &String)
    requires
        crate::renames::rename_view(*r) == crate::renames::RenameSpec::Function(*f, n@),
    ensures
        functions_renamed(*old(program), *final(program), fs@, ins@, *f, n@),
{
    let ghost p = *program;
    let fsym = f.symbol();
    let nm = program.modules.len();
    let mut k: usize = 0;
    while k < nm
        invariant
            k <= nm,
            nm == p.modules@.len(),
            program.modules@.len() == nm,
            program.types == p.types,
            program.functions == p.functions,
            fsym@ == symbol_text(*f),
            crate::renames::rename_view(*r) == crate::renames::RenameSpec::Function(*f, n@),
            forall|x: int| k <= x < nm ==> #[trigger] program.modules@[x] == p.modules@[x],
            forall|x: int|
                0 <= x < k ==> {
                    let a = #[trigger] p.modules@[x];
                    let b = program.modules@[x];
                    &&& b.name == a.name
                    &&& b.source_path == a.source_path
                    &&& b.dependencies == a.dependencies
                    &&& b.types == a.types
                    &&& b.functions@.len() == a.functions@.len()
                    &&& forall|j: int|
                        0 <= j < a.functions@.len() ==> renamed_in(
                            #[trigger] a.functions@[j],
                            b.functions@[j],
                            fs@,
                            ins@,
                            *f,
                            n@,
                        )
                },
        decreases nm - k,
    {
        let ghost before = program.modules@;
        let mut m = program.modules.remove(k);
        let ghost m0 = m;
        let nf = m.functions.len();
        let mut j: usize = 0;
        while j < nf
            invariant
                j <= nf,
                nf == m0.functions@.len(),
                m.functions@.len() == nf,
                m.name == m0.name,
                m.source_path == m0.source_path,
                m.dependencies == m0.dependencies,
                m.types == m0.types,
                fsym@ == symbol_text(*f),
                crate::renames::rename_view(*r) == crate::renames::RenameSpec::Function(*f, n@),
                forall|x: int| j <= x < nf ==> #[trigger] m.functions@[x] == m0.functions@[x],
                forall|x: int| 0 <= x < j ==> renamed_in(#[trigger] m0.functions@[x], m.functions@[x], fs@, ins@, *f, n@),
            decreases nf - j,
        {
            let g0 = m.functions[j].copy();
            let mut g = m.functions[j].copy();
            crate::renames::rewrite_function(&mut g, fs.as_slice(), ins.as_slice(), r);
            let gsym = g0.symbol();
            if str_eq(gsym.as_str(), fsym.as_str()) {
                g.name = n.clone();
            }
            m.functions.set(j, g);
            j += 1;
        }
        program.modules.insert(k, m);
        proof {
            assert forall|x: int| k < x < nm implies #[trigger] program.modules@[x] == p.modules@[x] by {
                assert(program.modules@[x] == before[x]);
            }
            assert forall|x: int| 0 <= x < k implies #[trigger] program.modules@[x] == before[x] by {}
        }
        k += 1;
    }
    rebuild_function_index(program);
}


/// `fs` holds the same functions as `gs`, one for one.
pub open spec fn same_functions(fs: Seq<Function>, gs: Seq<Function>) -> bool {
    fs.len() == gs.len() && forall|x: int| 0 <= x < fs.len() ==> crate::model::same_function(#[trigger] fs[x], gs[x])
}

/// The outcome of renaming the function `f`, found by the target, to `n`.
pub open spec fn rename_outcome(
    res: (PatchSummary, Option<String>),
    p: Program,
    diags: Seq<Diagnostic>,
    f: Function,
    n: Seq<char>,
) -> bool {
    let req = renamed_symbol(f, n);
    let e = first_symbol(p.functions@, req, 0);
    if f.name@ == n {
        kept(res, diags)
    } else if e < p.functions@.len() {
        rejected(
            res,
            diags,
            "PatchConflict"@,
            quote("Public symbol `"@, req, "` already exists."@),
            target_of(p.functions@[e]),
            seq![("symbol"@, req)],
            prose("Choose a different name or version the existing public symbol."@),
        )
    } else {
        exists|fs: Seq<Function>, ins: Seq<Function>, fc: Function, q: Program|
            {
                &&& crate::intrinsics::is_intrinsic_list(ins)
                &&& same_functions(fs, p.functions@)
                &&& crate::model::same_function(fc, f)
                &&& written(res, diags, q)
                &&& functions_renamed(p, q, fs, ins, fc, n)
            }
    }
}

/// Renames the function that `target` names to `new_name`, and rewrites every call that
/// reaches it, unless the name is no identifier or the new symbol is taken.
pub fn rename_function(
    program: Program,
    parse_diagnostics: Vec<Diagnostic>,
    path: &str,
    target: &str,
    new_name: &str,
) -> (res: (PatchSummary, Option<String>))
    ensures
        if !crate::types::is_ident(trim(new_name@)) {
            refused_with(
                res,
                "InvalidPatchTarget"@,
                quote("Invalid function name `"@, trim(new_name@), "`."@),
                path@,
                prose("Use an identifier like `new_name`."@),
            )
        } else if any_error(parse_diagnostics@) {
            kept(res, parse_diagnostics@)
        } else {
            match crate::patch::target_resolution(program.functions@, target@) {
                Err((code, message)) => rejected(
                    res,
                    parse_diagnostics@,
                    code,
                    message,
                    path@,
                    crate::patch::target_error_data(program.functions@, target@),
                    crate::patch::target_error_repairs(program.functions@, target@),
                ),
                Ok(sym) => if crate::patch::nowhere(program.modules@, sym) {
                    rejected(
                        res,
                        parse_diagnostics@,
                        "PatchTargetNotFound"@,
                        quote("Function `"@, target@, "` was not found."@),
                        path@,
                        seq![],
                        no_repairs(),
                    )
                } else {
                    exists|mi: int, fi: int|
                        {
                            &&& crate::patch::first_position(program.modules@, sym, mi, fi)
                            &&& rename_outcome(
                                res,
                                program,
                                parse_diagnostics@,
                                program.modules@[mi].functions@[fi],
                                trim(new_name@),
                            )
                        }
                },
            }
        },
{
    let n = trim_str(new_name);
    let nc = chars_of(n.as_str());
    if !crate::types::is_valid_ident(&nc) {
        let m = quoted("Invalid function name `", n.as_str(), "`.");
        return crate::patch::refuse_with_repair("InvalidPatchTarget", m.as_str(), path, "Use an identifier like `new_name`.");
    }
    let ghost p = program;
    let mut program = program;
    let summary = PatchSummary { changed: 0, diagnostics: parse_diagnostics };
    if has_errors(&summary.diagnostics) {
        return (summary, None);
    }
    let symbol = match crate::patch::resolve_patch_target(&program, target, path) {
        Ok(s) => s,
        Err(d) => {
            return rejection(summary, d);
        },
    };
    let (mi, fi) = match crate::patch::find_module_function(&program, &symbol) {
        Some(pos) => pos,
        None => {
            let m = quoted("Function `", target, "` was not found.");
            let d = Diagnostic::error("PatchTargetNotFound", m.as_str(), Some(owned(path)));
            assert(data_texts(d) =~= Seq::<(Seq<char>, Seq<char>)>::empty());
            return rejection(summary, d);
        },
    };
    let ghost f0 = p.modules@[mi as int].functions@[fi as int];
    let f = program.modules[mi].functions[fi].copy();
    if str_eq(f.name.as_str(), n.as_str()) {
        assert(rename_outcome((summary, None), p, summary.diagnostics@, f0, n@));
        return (summary, None);
    }
    let mut req = quoted("@", f.module.as_str(), ".");
    req.append(n.as_str());
    req.append(".");
    req.append(f.version.as_str());
    proof {
        reveal_strlit("@");
        reveal_strlit(".");
        assert(req@ =~= renamed_symbol(f0, n@));
    }
    let e = find_symbol(&program.functions, &req);
    if e < program.functions.len() {
        let ex = &program.functions[e];
        let m = quoted("Public symbol `", req.as_str(), "` already exists.");
        let d = Diagnostic::error("PatchConflict", m.as_str(), Some(ex.target()))
            .with_data("symbol", req.as_str())
            .with_repair("Choose a different name or version the existing public symbol.");
        assert(data_texts(d) =~= seq![("symbol"@, req@)]);
        let r = rejection(summary, d);
        assert(rename_outcome(r, p, summary.diagnostics@, f0, n@));
        return r;
    }
    let fs = crate::model::copy_functions(&program.functions);
    let ins = crate::intrinsics::intrinsic_functions();
    let rn = crate::renames::Rename::Function(f, n.clone());
    match &rn {
        crate::renames::Rename::Function(fc, nn) => {
            rename_all(&mut program, &fs, &ins, &rn, fc, nn);
        },
        crate::renames::Rename::Module(_, _) => {},
    }
    let r = written_result(summary, &program);
    proof {
        match rn {
            crate::renames::Rename::Function(fc, nn) => {
                assert(same_functions(fs@, p.functions@));
                assert(written(r, summary.diagnostics@, program));
                assert(functions_renamed(p, program, fs@, ins@, fc, n@));
            },
            crate::renames::Rename::Module(_, _) => {},
        }
        assert(rename_outcome(r, p, summary.diagnostics@, f0, n@));
    }
    r
}


// ---------------------------------------------------------------------------
// Renaming a module
// ---------------------------------------------------------------------------
/// The declarations of all modules' types, in order.
pub open spec fn all_types(ms: Seq<Module>) -> Seq<crate::model::TypeDecl>
    decreases ms.len(),
{
    if ms.len() == 0 {
        seq![]
    } else {
        all_types(ms.drop_last()) + ms.last().types@
    }
}

/// The program's type index is its modules' types, in order.
pub open spec fn types_indexed(q: Program) -> bool {
    let a = all_types(q.modules@);
    &&& q.types@.len() == a.len()
    &&& forall|k: int| 0 <= k < a.len() ==> crate::model::same_type(#[trigger] q.types@[k], a[k])
}

fn rebuild_type_index(program: &mut Program)
    ensures
        final(program).modules == old(program).modules,
        final(program).functions == old(program).functions,
        types_indexed(*final(program)),
{
    let mut out: Vec<crate::model::TypeDecl> = Vec::new();
    let ms = &program.modules;
    let mut a: usize = 0;
    assert(ms@.take(0) =~= Seq::<Module>::empty());
    while a < ms.len()
        invariant
            a <= ms@.len(),
            out@.len() == all_types(ms@.take(a as int)).len(),
            forall|k: int| 0 <= k < out@.len() ==> crate::model::same_type(#[trigger] out@[k], all_types(ms@.take(a as int))[k]),
        decreases ms@.len() - a,
    {
        proof {
            assert(ms@.take(a + 1).drop_last() =~= ms@.take(a as int));
        }
        let ts = &ms[a].types;
        let ghost base = all_types(ms@.take(a as int));
        let mut b: usize = 0;
        while b < ts.len()
            invariant
                b <= ts@.len(),
                *ts == ms@[a as int].types,
                out@.len() == base.len() + b,
                forall|k: int| 0 <= k < base.len() ==> crate::model::same_type(#[trigger] out@[k], base[k]),
                forall|k: int| 0 <= k < b ==> crate::model::same_type(#[trigger] out@[base.len() + k], ts@[k]),
            decreases ts@.len() - b,
        {
            out.push(ts[b].copy());
            b += 1;
        }
        proof {
            let next = all_types(ms@.take(a + 1));
            assert(next == base + ts@);
            assert forall|k: int| 0 <= k < out@.len() implies crate::model::same_type(#[trigger] out@[k], next[k]) by {
                if k >= base.len() {
                    assert(out@[base.len() + (k - base.len())] == out@[k]);
                }
            }
        }
        a += 1;
    }
    assert(ms@.take(ms@.len() as int) =~= ms@);
    program.types = out;
}

/// `b` is the dependency `a` with a use of module `old` turned into `new`.
pub open spec fn dep_renamed(a: crate::model::ModuleDependency, b: crate::model::ModuleDependency, old: Seq<char>, new: Seq<char>) -> bool {
    &&& b == (crate::model::ModuleDependency { module: b.module, ..a })
    &&& if a.module@ == old {
        b.module@ == new
    } else {
        b.module == a.module
    }
}

/// `g` is `g0` moved to module `new` when it is in the renamed module, with its references
/// to functions of module `old` rewritten.
pub open spec fn fn_moved(g0: Function, g: Function, fs: Seq<Function>, ins: Seq<Function>, old: Seq<char>, new: Seq<char>, target: bool) -> bool {
    &&& crate::renames::rewritten_function(
        Function { module: g.module, ..g0 },
        g,
        fs,
        ins,
        crate::renames::RenameSpec::Module(old, new),
    )
    &&& if target {
        g.module@ == new
    } else {
        g.module == g0.module
    }
}

/// Module `b` is module `a` after renaming module `old` to `new`; `target` says `a` is
/// the renamed module.
pub open spec fn module_moved(a: Module, b: Module, fs: Seq<Function>, ins: Seq<Function>, old: Seq<char>, new: Seq<char>, target: bool) -> bool {
    &&& if target {
        b.name@ == new
    } else {
        b.name == a.name
    }
    &&& b.source_path == a.source_path
    &&& b.dependencies@.len() == a.dependencies@.len()
    &&& forall|j: int| 0 <= j < a.dependencies@.len() ==> dep_renamed(#[trigger] a.dependencies@[j], b.dependencies@[j], old, new)
    &&& b.types@.len() == a.types@.len()
    &&& forall|j: int|
        0 <= j < a.types@.len() ==> if target {
            &&& b.types@[j] == (crate::model::TypeDecl { module: b.types@[j].module, ..a.types@[j] })
            &&& b.types@[j].module@ == new
        } else {
            b.types@[j] == a.types@[j]
        }
    &&& b.functions@.len() == a.functions@.len()
    &&& forall|j: int| 0 <= j < a.functions@.len() ==> fn_moved(#[trigger] a.functions@[j], b.functions@[j], fs, ins, old, new, target)
}

fn move_module(m: Module, fs: &Vec<Function>, ins: &Vec<Function>, r: &crate::renames::Rename, old: &String, new: &String, target: bool) -> (res: Module)
    requires
        crate::renames::rename_view(*r) == crate::renames::RenameSpec::Module(old@, new@),
    ensures
        module_moved(m, res, fs@, ins@, old@, new@, target),
{
    let ghost m0 = m;
    let mut m = m;
    if target {
        m.name = new.clone();
    }
    let nd = m.dependencies.len();
    let mut j: usize = 0;
    while j < nd
        invariant
            j <= nd,
            nd == m0.dependencies@.len(),
            m.dependencies@.len() == nd,
            forall|x: int| j <= x < nd ==> #[trigger] m.dependencies@[x] == m0.dependencies@[x],
            forall|x: int| 0 <= x < j ==> dep_renamed(#[trigger] m0.dependencies@[x], m.dependencies@[x], old@, new@),
            m.types == m0.types,
            m.functions == m0.functions,
            m.source_path == m0.source_path,
            if target { m.name@ == new@ } else { m.name == m0.name },
        decreases nd - j,
    {
        let mut d = m.dependencies.remove(j);
        if crate::text::str_eq(d.module.as_str(), old.as_str()) {
            d.module = new.clone();
        }
        m.dependencies.insert(j, d);
        j += 1;
    }
    assert(m.types == m0.types);
    if target {
        let nt = m.types.len();
        let mut j: usize = 0;
        while j < nt
            invariant
                j <= nt,
                nt == m0.types@.len(),
                m.types@.len() == nt,
                forall|x: int| j <= x < nt ==> #[trigger] m.types@[x] == m0.types@[x],
                forall|x: int|
                    0 <= x < j ==> #[trigger] m.types@[x] == (crate::model::TypeDecl { module: m.types@[x].module, ..m0.types@[x] })
                        && m.types@[x].module@ == new@,
                m.functions == m0.functions,
                target,
                forall|x: int| 0 <= x < m0.dependencies@.len() ==> dep_renamed(#[trigger] m0.dependencies@[x], m.dependencies@[x], old@, new@),
                m.dependencies@.len() == m0.dependencies@.len(),
                m.source_path == m0.source_path,
                if target { m.name@ == new@ } else { m.name == m0.name },
            decreases nt - j,
        {
            let mut t = m.types.remove(j);
            t.module = new.clone();
            m.types.insert(j, t);
            j += 1;
        }
    }
    let nf = m.functions.len();
    let mut j: usize = 0;
    while j < nf
        invariant
            j <= nf,
            nf == m0.functions@.len(),
            m.functions@.len() == nf,
            crate::renames::rename_view(*r) == crate::renames::RenameSpec::Module(old@, new@),
            forall|x: int| j <= x < nf ==> #[trigger] m.functions@[x] == m0.functions@[x],
            forall|x: int| 0 <= x < j ==> fn_moved(#[trigger] m0.functions@[x], m.functions@[x], fs@, ins@, old@, new@, target),
            m.types@.len() == m0.types@.len(),
            forall|x: int|
                0 <= x < m0.types@.len() ==> if target {
                    &&& m.types@[x] == (crate::model::TypeDecl { module: m.types@[x].module, ..m0.types@[x] })
                    &&& m.types@[x].module@ == new@
                } else {
                    m.types@[x] == m0.types@[x]
                },
            forall|x: int| 0 <= x < m0.dependencies@.len() ==> dep_renamed(#[trigger] m0.dependencies@[x], m.dependencies@[x], old@, new@),
            m.dependencies@.len() == m0.dependencies@.len(),
            m.source_path == m0.source_path,
            if target { m.name@ == new@ } else { m.name == m0.name },
        decreases nf - j,
    {
        let mut g = m.functions.remove(j);
        if target {
            g.module = new.clone();
        }
        crate::renames::rewrite_function(&mut g, fs.as_slice(), ins.as_slice(), r);
        m.functions.insert(j, g);
        j += 1;
    }
    m
}

/// Every module moved as `module_moved` says, the one at `mi` being the renamed one.
pub open spec fn modules_renamed(p: Program, q: Program, fs: Seq<Function>, ins: Seq<Function>, old: Seq<char>, new: Seq<char>, mi: int) -> bool {
    &&& q.modules@.len() == p.modules@.len()
    &&& forall|k: int| 0 <= k < p.modules@.len() ==> module_moved(#[trigger] p.modules@[k], q.modules@[k], fs, ins, old, new, k == mi)
    &&& indexed(q)
    &&& types_indexed(q)
}

/// Renames module `module` to `new_module`: its name, the uses of it, the module of its
/// functions and types, and every call reference into it.
pub fn rename_module(
    program: Program,
    parse_diagnostics: Vec<Diagnostic>,
    path: &str,
    module: &str,
    new_module: &str,
) -> (res: (PatchSummary, Option<String>))
    ensures
        if !valid_module(trim(module@)) {
            refused(res, "InvalidPatchTarget"@, quote("Invalid module name `"@, trim(module@), "`."@), path@)
        } else if !valid_module(trim(new_module@)) {
            refused(res, "InvalidPatchTarget"@, quote("Invalid new module name `"@, trim(new_module@), "`."@), path@)
        } else if trim(module@) == trim(new_module@) {
            res.0.diagnostics@.len() == 0 && res.0.changed == 0 && res.1 is None
        } else if any_error(parse_diagnostics@) {
            kept(res, parse_diagnostics@)
        } else {
            let old = trim(module@);
            let new = trim(new_module@);
            let mi = first_module_index(program.modules@, old);
            let ni = first_module_index(program.modules@, new);
            if mi >= program.modules@.len() {
                rejected(res, parse_diagnostics@, "PatchTargetNotFound"@, quote("Module `"@, old, "` was not found."@), path@, seq![], no_repairs())
            } else if ni < program.modules@.len() {
                rejected(
                    res,
                    parse_diagnostics@,
                    "PatchConflict"@,
                    quote("Module `"@, new, "` already exists."@),
                    program.modules@[ni].source_path@,
                    seq![],
                    prose("Choose a new module name that is not already declared in this patch input."@),
                )
            } else {
                exists|fs: Seq<Function>, ins: Seq<Function>, q: Program|
                    {
                        &&& crate::intrinsics::is_intrinsic_list(ins)
                        &&& same_functions(fs, program.functions@)
                        &&& written(res, parse_diagnostics@, q)
                        &&& modules_renamed(program, q, fs, ins, old, new, mi)
                    }
            }
        },
{
    let old = trim_str(module);
    let new = trim_str(new_module);
    let oc = chars_of(old.as_str());
    let nc = chars_of(new.as_str());
    if !is_valid_module(&oc) {
        let m = quoted("Invalid module name `", old.as_str(), "`.");
        return crate::patch::refuse("InvalidPatchTarget", m.as_str(), path);
    }
    if !is_valid_module(&nc) {
        let m = quoted("Invalid new module name `", new.as_str(), "`.");
        return crate::patch::refuse("InvalidPatchTarget", m.as_str(), path);
    }
    if str_eq(old.as_str(), new.as_str()) {
        return (PatchSummary { changed: 0, diagnostics: Vec::new() }, None);
    }
    let ghost p = program;
    let mut program = program;
    let summary = PatchSummary { changed: 0, diagnostics: parse_diagnostics };
    if has_errors(&summary.diagnostics) {
        return (summary, None);
    }
    let mi = find_module(&program, old.as_str());
    if mi >= program.modules.len() {
        let m = quoted("Module `", old.as_str(), "` was not found.");
        let d = Diagnostic::error("PatchTargetNotFound", m.as_str(), Some(owned(path)));
        assert(data_texts(d) =~= Seq::<(Seq<char>, Seq<char>)>::empty());
        return rejection(summary, d);
    }
    let ni = find_module(&program, new.as_str());
    if ni < program.modules.len() {
        let m = quoted("Module `", new.as_str(), "` already exists.");
        let d = Diagnostic::error("PatchConflict", m.as_str(), Some(program.modules[ni].source_path.clone()))
            .with_repair("Choose a new module name that is not already declared in this patch input.");
        assert(data_texts(d) =~= Seq::<(Seq<char>, Seq<char>)>::empty());
        return rejection(summary, d);
    }
    let fs = crate::model::copy_functions(&program.functions);
    let ins = crate::intrinsics::intrinsic_functions();
    let r = crate::renames::Rename::Module(old.clone(), new.clone());
    let nm = program.modules.len();
    let mut k: usize = 0;
    while k < nm
        invariant
            k <= nm,
            nm == p.modules@.len(),
            program.modules@.len() == nm,
            crate::renames::rename_view(r) == crate::renames::RenameSpec::Module(old@, new@),
            forall|x: int| k <= x < nm ==> #[trigger] program.modules@[x] == p.modules@[x],
            forall|x: int| 0 <= x < k ==> module_moved(#[trigger] p.modules@[x], program.modules@[x], fs@, ins@, old@, new@, x == mi),
        decreases nm - k,
    {
        let ghost before = program.modules@;
        let m = program.modules.remove(k);
        let moved = move_module(m, &fs, &ins, &r, &old, &new, k == mi);
        program.modules.insert(k, moved);
        proof {
            assert forall|x: int| k < x < nm implies #[trigger] program.modules@[x] == p.modules@[x] by {
                assert(program.modules@[x] == before[x]);
            }
            assert forall|x: int| 0 <= x < k implies #[trigger] program.modules@[x] == before[x] by {}
        }
        k += 1;
    }
    rebuild_function_index(&mut program);
    rebuild_type_index(&mut program);
    let res = written_result(summary, &program);
    proof {
        assert(same_functions(fs@, p.functions@));
        assert(written(res, summary.diagnostics@, program));
        assert(modules_renamed(p, program, fs@, ins@, old@, new@, mi as int));
    }
    res
}

} // verus!
