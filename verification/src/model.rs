//! The program model: modules, type declarations and spec-first functions.
use vstd::prelude::*;
use vstd::string::*;

use crate::text::{decimal, join_spec, join_strings, owned, push_char, usize_text};

verus! {

#[derive(Clone, Debug, PartialEq, Eq)]
pub struct Param {
    pub name: String,
    pub type_text: String,
}

#[derive(Clone, Debug, PartialEq, Eq)]
pub struct RecordField {
    pub name: String,
    pub type_text: String,
}

#[derive(Clone, Debug, PartialEq, Eq)]
pub struct TypeDecl {
    pub name: String,
    pub module: String,
    pub source_path: String,
    pub line: usize,
    pub fields: Vec<RecordField>,
    pub variants: Vec<String>,
}

#[derive(Clone, Debug, PartialEq, Eq)]
pub struct Function {
    pub name: String,
    pub module: String,
    pub public: bool,
    pub version: String,
    pub version_explicit: bool,
    pub params: Vec<Param>,
    pub return_type: String,
    pub source_path: String,
    pub line: usize,
    pub intent: Option<String>,
    pub requires: Vec<String>,
    pub contracts: Vec<String>,
    pub examples: Vec<String>,
    pub example_lines: Vec<usize>,
    pub properties: Vec<String>,
    pub property_lines: Vec<usize>,
    pub migrations: Vec<MigrationRecord>,
    pub effects: Vec<String>,
    pub implementation: Option<String>,
}

#[derive(Clone, Debug, PartialEq, Eq)]
pub struct MigrationRecord {
    pub kind: String,
    pub note: String,
}

#[derive(Clone, Debug, PartialEq, Eq)]
pub struct ModuleDependency {
    pub module: String,
    pub source_path: String,
    pub line: usize,
}

#[derive(Clone, Debug, PartialEq, Eq)]
pub struct Module {
    pub name: String,
    pub source_path: String,
    pub dependencies: Vec<ModuleDependency>,
    pub types: Vec<TypeDecl>,
    pub functions: Vec<Function>,
}

#[derive(Clone, Debug, PartialEq, Eq)]
pub struct Program {
    pub modules: Vec<Module>,
    pub types: Vec<TypeDecl>,
    pub functions: Vec<Function>,
}

// ---------------------------------------------------------------------------
// Texts derived from declarations
// ---------------------------------------------------------------------------
/// `a` and `b` joined by one character.
pub open spec fn join2(a: Seq<char>, sep: char, b: Seq<char>) -> Seq<char> {
    a + seq![sep] + b
}

/// `@module.name`
pub open spec fn type_symbol_text(t: TypeDecl) -> Seq<char> {
    seq!['@'] + join2(t.module@, '.', t.name@)
}

/// `path:line:name`
pub open spec fn target_text(path: Seq<char>, line: nat, name: Seq<char>) -> Seq<char> {
    join2(join2(path, ':', decimal(line)), ':', name)
}

/// `@module.name.version`
pub open spec fn symbol_text(f: Function) -> Seq<char> {
    seq!['@'] + join2(join2(f.module@, '.', f.name@), '.', f.version@)
}

/// `name: Type`
pub open spec fn param_text(p: Param) -> Seq<char> {
    p.name@ + ": "@ + p.type_text@
}

/// `name(a: A, b: B) -> R`
pub open spec fn signature_text(f: Function) -> Seq<char> {
    f.name@ + seq!['('] + join_spec(f.params@.map_values(|p: Param| param_text(p)), ", "@)
        + ") -> "@ + f.return_type@
}

fn push_sep(out: &mut String, c: char, s: &String)
    ensures
        final(out)@ == old(out)@ + seq![c] + s@,
{
    push_char(out, c);
    out.append(s.as_str());
}

impl TypeDecl {
    pub fn symbol(&self) -> (res: String)
        ensures
            res@ == type_symbol_text(*self),
    {
        let mut out = String::new();
        push_char(&mut out, '@');
        out.append(self.module.as_str());
        push_sep(&mut out, '.', &self.name);
        assert(out@ =~= type_symbol_text(*self));
        out
    }

    pub fn target(&self) -> (res: String)
        ensures
            res@ == target_text(self.source_path@, self.line as nat, self.name@),
    {
        target_string(&self.source_path, self.line, &self.name)
    }

    pub open spec fn spec_is_record(&self) -> bool {
        self.variants@.len() == 0
    }

    /// A record type declares no variants.
    pub fn is_record(&self) -> (b: bool)
        ensures
            b == self.spec_is_record(),
    {
        self.variants.len() == 0
    }

    /// An enum type declares at least one variant.
    pub fn is_enum(&self) -> (b: bool)
        ensures
            b == !self.spec_is_record(),
    {
        self.variants.len() > 0
    }
}

/// `path:line:name`
pub fn target_string(path: &String, line: usize, name: &String) -> (res: String)
    ensures
        res@ == target_text(path@, line as nat, name@),
{
    let mut out = path.clone();
    let n = usize_text(line);
    push_sep(&mut out, ':', &n);
    push_sep(&mut out, ':', name);
    out
}

impl Function {
    pub fn version(&self) -> (res: &str)
        ensures
            res@ == self.version@,
    {
        self.version.as_str()
    }

    pub fn symbol(&self) -> (res: String)
        ensures
            res@ == symbol_text(*self),
    {
        let mut out = String::new();
        push_char(&mut out, '@');
        out.append(self.module.as_str());
        push_sep(&mut out, '.', &self.name);
        push_sep(&mut out, '.', &self.version);
        assert(out@ =~= symbol_text(*self));
        out
    }

    pub fn signature(&self) -> (res: String)
        ensures
            res@ == signature_text(*self),
    {
        let joined = self.signature_params();
        let mut out = self.name.clone();
        push_char(&mut out, '(');
        out.append(joined.as_str());
        out.append(") -> ");
        out.append(self.return_type.as_str());
        assert(out@ =~= signature_text(*self));
        out
    }

    /// The parameters as written in a signature: `a: A, b: B`.
    pub fn signature_params(&self) -> (res: String)
        ensures
            res@ == join_spec(self.params@.map_values(|p: Param| param_text(p)), ", "@),
    {
        let mut texts: Vec<String> = Vec::new();
        let mut i: usize = 0;
        while i < self.params.len()
            invariant
                i <= self.params@.len(),
                texts@.len() == i,
                forall|k: int| 0 <= k < i ==> #[trigger] texts@[k]@ == param_text(self.params@[k]),
            decreases self.params@.len() - i,
        {
            let p = &self.params[i];
            let mut t = p.name.clone();
            t.append(": ");
            t.append(p.type_text.as_str());
            texts.push(t);
            i += 1;
        }
        assert(texts@.map_values(|p: String| p@) =~= self.params@.map_values(
            |p: Param| param_text(p),
        ));
        join_strings(&texts, ", ")
    }

    pub fn target(&self) -> (res: String)
        ensures
            res@ == target_text(self.source_path@, self.line as nat, self.name@),
    {
        target_string(&self.source_path, self.line, &self.name)
    }
}

impl ModuleDependency {
    pub fn target(&self) -> (res: String)
        ensures
            res@ == join2(self.source_path@, ':', decimal(self.line as nat)),
    {
        let mut out = self.source_path.clone();
        let n = usize_text(self.line);
        push_sep(&mut out, ':', &n);
        out
    }
}

// ---------------------------------------------------------------------------
// Field-wise copies: the copy of a value is equal to it.
// ---------------------------------------------------------------------------
pub fn copy_strings(v: &Vec<String>) -> (res: Vec<String>)
    ensures
        res@ == v@,
{
    let mut res: Vec<String> = Vec::new();
    let mut i: usize = 0;
    while i < v.len()
        invariant
            i <= v@.len(),
            res@ == v@.take(i as int),
        decreases v@.len() - i,
    {
        res.push(v[i].clone());
        assert(v@.take(i + 1) == v@.take(i as int).push(v@[i as int]));
        i += 1;
    }
    assert(v@.take(v@.len() as int) == v@);
    res
}

pub fn copy_usizes(v: &Vec<usize>) -> (res: Vec<usize>)
    ensures
        res@ == v@,
{
    let mut res: Vec<usize> = Vec::new();
    let mut i: usize = 0;
    while i < v.len()
        invariant
            i <= v@.len(),
            res@ == v@.take(i as int),
        decreases v@.len() - i,
    {
        res.push(v[i]);
        assert(v@.take(i + 1) == v@.take(i as int).push(v@[i as int]));
        i += 1;
    }
    assert(v@.take(v@.len() as int) == v@);
    res
}

pub fn copy_opt_string(o: &Option<String>) -> (res: Option<String>)
    ensures
        res == *o,
{
    match o {
        Some(s) => Some(s.clone()),
        None => None,
    }
}

impl Param {
    pub fn copy(&self) -> (res: Param)
        ensures
            res == *self,
    {
        Param { name: self.name.clone(), type_text: self.type_text.clone() }
    }
}

impl RecordField {
    pub fn copy(&self) -> (res: RecordField)
        ensures
            res == *self,
    {
        RecordField { name: self.name.clone(), type_text: self.type_text.clone() }
    }
}

impl MigrationRecord {
    pub fn copy(&self) -> (res: MigrationRecord)
        ensures
            res == *self,
    {
        MigrationRecord { kind: self.kind.clone(), note: self.note.clone() }
    }
}

impl ModuleDependency {
    pub fn copy(&self) -> (res: ModuleDependency)
        ensures
            res == *self,
    {
        ModuleDependency {
            module: self.module.clone(),
            source_path: self.source_path.clone(),
            line: self.line,
        }
    }
}

pub fn copy_params(v: &Vec<Param>) -> (res: Vec<Param>)
    ensures
        res@ == v@,
{
    let mut res: Vec<Param> = Vec::new();
    let mut i: usize = 0;
    while i < v.len()
        invariant
            i <= v@.len(),
            res@ == v@.take(i as int),
        decreases v@.len() - i,
    {
        res.push(v[i].copy());
        assert(v@.take(i + 1) == v@.take(i as int).push(v@[i as int]));
        i += 1;
    }
    assert(v@.take(v@.len() as int) == v@);
    res
}

pub fn copy_fields(v: &Vec<RecordField>) -> (res: Vec<RecordField>)
    ensures
        res@ == v@,
{
    let mut res: Vec<RecordField> = Vec::new();
    let mut i: usize = 0;
    while i < v.len()
        invariant
            i <= v@.len(),
            res@ == v@.take(i as int),
        decreases v@.len() - i,
    {
        res.push(v[i].copy());
        assert(v@.take(i + 1) == v@.take(i as int).push(v@[i as int]));
        i += 1;
    }
    assert(v@.take(v@.len() as int) == v@);
    res
}

pub fn copy_migrations(v: &Vec<MigrationRecord>) -> (res: Vec<MigrationRecord>)
    ensures
        res@ == v@,
{
    let mut res: Vec<MigrationRecord> = Vec::new();
    let mut i: usize = 0;
    while i < v.len()
        invariant
            i <= v@.len(),
            res@ == v@.take(i as int),
        decreases v@.len() - i,
    {
        res.push(v[i].copy());
        assert(v@.take(i + 1) == v@.take(i as int).push(v@[i as int]));
        i += 1;
    }
    assert(v@.take(v@.len() as int) == v@);
    res
}

/// Two type declarations hold the same data.
pub open spec fn same_type(a: TypeDecl, b: TypeDecl) -> bool {
    &&& a.name == b.name
    &&& a.module == b.module
    &&& a.source_path == b.source_path
    &&& a.line == b.line
    &&& a.fields@ == b.fields@
    &&& a.variants@ == b.variants@
}

/// Two functions hold the same data.
pub open spec fn same_function(a: Function, b: Function) -> bool {
    &&& a.name == b.name
    &&& a.module == b.module
    &&& a.public == b.public
    &&& a.version == b.version
    &&& a.version_explicit == b.version_explicit
    &&& a.params@ == b.params@
    &&& a.return_type == b.return_type
    &&& a.source_path == b.source_path
    &&& a.line == b.line
    &&& a.intent == b.intent
    &&& a.requires@ == b.requires@
    &&& a.contracts@ == b.contracts@
    &&& a.examples@ == b.examples@
    &&& a.example_lines@ == b.example_lines@
    &&& a.properties@ == b.properties@
    &&& a.property_lines@ == b.property_lines@
    &&& a.migrations@ == b.migrations@
    &&& a.effects@ == b.effects@
    &&& a.implementation == b.implementation
}

impl TypeDecl {
    pub fn copy(&self) -> (res: TypeDecl)
        ensures
            same_type(res, *self),
    {
        TypeDecl {
            name: self.name.clone(),
            module: self.module.clone(),
            source_path: self.source_path.clone(),
            line: self.line,
            fields: copy_fields(&self.fields),
            variants: copy_strings(&self.variants),
        }
    }
}

impl Function {
    pub fn copy(&self) -> (res: Function)
        ensures
            same_function(res, *self),
    {
        Function {
            name: self.name.clone(),
            module: self.module.clone(),
            public: self.public,
            version: self.version.clone(),
            version_explicit: self.version_explicit,
            params: copy_params(&self.params),
            return_type: self.return_type.clone(),
            source_path: self.source_path.clone(),
            line: self.line,
            intent: copy_opt_string(&self.intent),
            requires: copy_strings(&self.requires),
            contracts: copy_strings(&self.contracts),
            examples: copy_strings(&self.examples),
            example_lines: copy_usizes(&self.example_lines),
            properties: copy_strings(&self.properties),
            property_lines: copy_usizes(&self.property_lines),
            migrations: copy_migrations(&self.migrations),
            effects: copy_strings(&self.effects),
            implementation: copy_opt_string(&self.implementation),
        }
    }
}

pub fn copy_functions(v: &Vec<Function>) -> (res: Vec<Function>)
    ensures
        res@.len() == v@.len(),
        forall|k: int| 0 <= k < v@.len() ==> same_function(#[trigger] res@[k], v@[k]),
{
    let mut res: Vec<Function> = Vec::new();
    let mut i: usize = 0;
    while i < v.len()
        invariant
            i <= v@.len(),
            res@.len() == i,
            forall|k: int| 0 <= k < i ==> same_function(#[trigger] res@[k], v@[k]),
        decreases v@.len() - i,
    {
        res.push(v[i].copy());
        i += 1;
    }
    res
}

pub fn copy_types(v: &Vec<TypeDecl>) -> (res: Vec<TypeDecl>)
    ensures
        res@.len() == v@.len(),
        forall|k: int| 0 <= k < v@.len() ==> same_type(#[trigger] res@[k], v@[k]),
{
    let mut res: Vec<TypeDecl> = Vec::new();
    let mut i: usize = 0;
    while i < v.len()
        invariant
            i <= v@.len(),
            res@.len() == i,
            forall|k: int| 0 <= k < i ==> same_type(#[trigger] res@[k], v@[k]),
        decreases v@.len() - i,
    {
        res.push(v[i].copy());
        i += 1;
    }
    res
}

// ---------------------------------------------------------------------------
// Building a program
// ---------------------------------------------------------------------------
/// Index of the first module called `name`, or the number of modules.
pub open spec fn first_module_index(modules: Seq<Module>, name: Seq<char>) -> int {
    first_index_from(modules, name, 0)
}

pub open spec fn first_index_from(modules: Seq<Module>, name: Seq<char>, i: int) -> int
    decreases modules.len() - i,
{
    if i < 0 || i >= modules.len() {
        modules.len() as int
    } else if modules[i].name@ == name {
        i
    } else {
        first_index_from(modules, name, i + 1)
    }
}

pub proof fn lemma_first_index_from(modules: Seq<Module>, name: Seq<char>, i: int)
    requires
        0 <= i <= modules.len(),
    ensures
        i <= first_index_from(modules, name, i) <= modules.len(),
        forall|j: int| i <= j < first_index_from(modules, name, i) ==> modules[j].name@ != name,
        first_index_from(modules, name, i) < modules.len() ==> modules[first_index_from(
            modules,
            name,
            i,
        )].name@ == name,
    decreases modules.len() - i,
{
    if i < modules.len() && modules[i].name@ != name {
        lemma_first_index_from(modules, name, i + 1);
    }
}

/// A module with no dependencies, types or functions yet.
pub open spec fn fresh_module(m: Module, name: Seq<char>, path: Seq<char>) -> bool {
    &&& m.name@ == name
    &&& m.source_path@ == path
    &&& m.dependencies@.len() == 0
    &&& m.types@.len() == 0
    &&& m.functions@.len() == 0
}

/// The modules after making sure one called `name` exists: unchanged when it does, else
/// with a fresh module appended.
pub open spec fn ensured_modules(
    old_modules: Seq<Module>,
    new_modules: Seq<Module>,
    name: Seq<char>,
    path: Seq<char>,
) -> bool {
    let i = first_module_index(old_modules, name);
    if i < old_modules.len() {
        new_modules == old_modules
    } else {
        &&& new_modules.len() == old_modules.len() + 1
        &&& new_modules.take(old_modules.len() as int) == old_modules
        &&& fresh_module(new_modules.last(), name, path)
    }
}

/// The same modules, except that module `i` is `m`.
pub open spec fn modules_except(a: Seq<Module>, b: Seq<Module>, i: int) -> bool {
    &&& a.len() == b.len()
    &&& forall|k: int| 0 <= k < a.len() && k != i ==> a[k] == b[k]
}

/// `m` is `base` with one more function.
pub open spec fn with_function(base: Module, m: Module, f: Function) -> bool {
    &&& m.name == base.name
    &&& m.source_path == base.source_path
    &&& m.dependencies == base.dependencies
    &&& m.types == base.types
    &&& m.functions@.len() == base.functions@.len() + 1
    &&& m.functions@.take(base.functions@.len() as int) == base.functions@
    &&& same_function(m.functions@.last(), f)
}

/// `m` is `base` with one more type.
pub open spec fn with_type(base: Module, m: Module, t: TypeDecl) -> bool {
    &&& m.name == base.name
    &&& m.source_path == base.source_path
    &&& m.dependencies == base.dependencies
    &&& m.functions == base.functions
    &&& m.types@.len() == base.types@.len() + 1
    &&& m.types@.take(base.types@.len() as int) == base.types@
    &&& same_type(m.types@.last(), t)
}

/// Whether any dependency names module `name`.
pub open spec fn has_dependency(deps: Seq<ModuleDependency>, name: Seq<char>) -> bool {
    exists|k: int| 0 <= k < deps.len() && #[trigger] deps[k].module@ == name
}

/// `q` is `p` after recording that module `name` uses `dep`: the module is made when it
/// is missing, and `dep` is added to its dependencies unless one for the same module is
/// already there; nothing else changes.
pub open spec fn dependency_added(p: Program, q: Program, name: Seq<char>, dep: ModuleDependency) -> bool {
    &&& exists|mid: Seq<Module>|
        {
            &&& ensured_modules(p.modules@, mid, name, dep.source_path@)
            &&& {
                let i = first_module_index(mid, name);
                &&& 0 <= i < mid.len()
                &&& modules_except(mid, q.modules@, i)
                &&& q.modules@[i].name == mid[i].name
                &&& q.modules@[i].source_path == mid[i].source_path
                &&& q.modules@[i].types == mid[i].types
                &&& q.modules@[i].functions == mid[i].functions
                &&& if has_dependency(mid[i].dependencies@, dep.module@) {
                    q.modules@[i].dependencies == mid[i].dependencies
                } else {
                    q.modules@[i].dependencies@ == mid[i].dependencies@.push(dep)
                }
            }
        }
    &&& q.types == p.types
    &&& q.functions == p.functions
}

proof fn lemma_same_names_index(a: Seq<Module>, b: Seq<Module>, name: Seq<char>, i: int)
    requires
        a.len() == b.len(),
        forall|k: int| 0 <= k < a.len() ==> #[trigger] b[k].name == a[k].name,
    ensures
        first_index_from(a, name, i) == first_index_from(b, name, i),
    decreases a.len() - i,
{
    if 0 <= i < a.len() {
        lemma_same_names_index(a, b, name, i + 1);
    }
}

/// Recording the same module dependency twice records it once: the second call changes
/// nothing.
pub proof fn law_add_dependency_idempotent(p: Program, q: Program, r: Program, name: Seq<char>, dep: ModuleDependency)
    requires
        dependency_added(p, q, name, dep),
        dependency_added(q, r, name, dep),
    ensures
        r.modules@ == q.modules@,
        r.types == q.types,
        r.functions == q.functions,
{
    let mid = choose|mid: Seq<Module>|
        {
            &&& ensured_modules(p.modules@, mid, name, dep.source_path@)
            &&& {
                let i = first_module_index(mid, name);
                &&& 0 <= i < mid.len()
                &&& modules_except(mid, q.modules@, i)
                &&& q.modules@[i].name == mid[i].name
                &&& q.modules@[i].source_path == mid[i].source_path
                &&& q.modules@[i].types == mid[i].types
                &&& q.modules@[i].functions == mid[i].functions
                &&& if has_dependency(mid[i].dependencies@, dep.module@) {
                    q.modules@[i].dependencies == mid[i].dependencies
                } else {
                    q.modules@[i].dependencies@ == mid[i].dependencies@.push(dep)
                }
            }
        };
    let i = first_module_index(mid, name);
    assert forall|k: int| 0 <= k < mid.len() implies #[trigger] q.modules@[k].name == mid[k].name by {
        if k != i {
            assert(q.modules@[k] == mid[k]);
        }
    }
    lemma_same_names_index(mid, q.modules@, name, 0);
    assert(first_module_index(q.modules@, name) == i);
    let deps = q.modules@[i].dependencies@;
    if has_dependency(mid[i].dependencies@, dep.module@) {
        let j = choose|j: int| 0 <= j < mid[i].dependencies@.len() && #[trigger] mid[i].dependencies@[j].module@ == dep.module@;
        assert(deps[j].module@ == dep.module@);
    } else {
        assert(deps[deps.len() - 1] == dep);
        assert(deps[deps.len() - 1].module@ == dep.module@);
    }
    assert(has_dependency(deps, dep.module@));
    let mid2 = choose|mid2: Seq<Module>|
        {
            &&& ensured_modules(q.modules@, mid2, name, dep.source_path@)
            &&& {
                let i2 = first_module_index(mid2, name);
                &&& 0 <= i2 < mid2.len()
                &&& modules_except(mid2, r.modules@, i2)
                &&& r.modules@[i2].name == mid2[i2].name
                &&& r.modules@[i2].source_path == mid2[i2].source_path
                &&& r.modules@[i2].types == mid2[i2].types
                &&& r.modules@[i2].functions == mid2[i2].functions
                &&& if has_dependency(mid2[i2].dependencies@, dep.module@) {
                    r.modules@[i2].dependencies == mid2[i2].dependencies
                } else {
                    r.modules@[i2].dependencies@ == mid2[i2].dependencies@.push(dep)
                }
            }
        };
    assert(mid2 == q.modules@);
    assert(r.modules@[i] == q.modules@[i]);
    assert(r.modules@ =~= q.modules@);
}

impl Program {
    pub fn new() -> (res: Program)
        ensures
            res.modules@.len() == 0,
            res.types@.len() == 0,
            res.functions@.len() == 0,
    {
        Program { modules: Vec::new(), types: Vec::new(), functions: Vec::new() }
    }

    /// Makes sure a module called `name` exists and returns its index.
    fn ensure_module(&mut self, name: &String, source_path: &String) -> (index: usize)
        ensures
            ensured_modules(old(self).modules@, final(self).modules@, name@, source_path@),
            index == first_module_index(final(self).modules@, name@),
            index < final(self).modules@.len(),
            final(self).types == old(self).types,
            final(self).functions == old(self).functions,
    {
        proof {
            lemma_first_index_from(self.modules@, name@, 0);
        }
        let mut i: usize = 0;
        while i < self.modules.len()
            invariant
                i <= self.modules@.len(),
                first_index_from(self.modules@, name@, i as int) == first_module_index(
                    self.modules@,
                    name@,
                ),
            decreases self.modules@.len() - i,
        {
            if self.modules[i].name == *name {
                return i;
            }
            i += 1;
        }
        let ghost before = self.modules@;
        self.modules.push(
            Module {
                name: name.clone(),
                source_path: source_path.clone(),
                dependencies: Vec::new(),
                types: Vec::new(),
                functions: Vec::new(),
            },
        );
        proof {
            assert(self.modules@.take(before.len() as int) =~= before);
            lemma_first_index_from(self.modules@, name@, 0);
            assert forall|j: int| 0 <= j < before.len() implies self.modules@[j].name@
                != name@ by {
                assert(self.modules@[j] == before[j]);
            }
            lemma_first_index_ext(before, self.modules@, name@, 0);
        }
        i
    }

    /// Adds an empty module unless one with that name exists.
    pub fn add_module(&mut self, name: &str, source_path: &str)
        ensures
            ensured_modules(old(self).modules@, final(self).modules@, name@, source_path@),
            final(self).types == old(self).types,
            final(self).functions == old(self).functions,
    {
        let n = owned(name);
        let p = owned(source_path);
        self.ensure_module(&n, &p);
    }

    /// Records that module `module_name` uses another module, once per used module.
    pub fn add_module_dependency(&mut self, module_name: &str, dependency: ModuleDependency)
        ensures
            dependency_added(*old(self), *final(self), module_name@, dependency),
    {
        let n = owned(module_name);
        let i = self.ensure_module(&n, &dependency.source_path);
        let ghost mid = self.modules@;
        let mut m = self.modules.remove(i);
        let mut found = false;
        let mut k: usize = 0;
        while k < m.dependencies.len()
            invariant
                k <= m.dependencies@.len(),
                found == exists|j: int|
                    0 <= j < k && #[trigger] m.dependencies@[j].module@ == dependency.module@,
            decreases m.dependencies@.len() - k,
        {
            if m.dependencies[k].module == dependency.module {
                found = true;
            }
            k += 1;
        }
        let ghost orig = m;
        if !found {
            m.dependencies.push(dependency);
        }
        self.modules.insert(i, m);
        proof {
            assert(orig == mid[i as int]);
            assert(modules_except(mid, self.modules@, i as int));
            assert(found == has_dependency(mid[i as int].dependencies@, dependency.module@));
        }
    }

    /// Adds a function to its module (created if needed) and to the program index.
    pub fn add_function(&mut self, function: Function)
        ensures
            exists|mid: Seq<Module>|
                {
                    &&& ensured_modules(
                        old(self).modules@,
                        mid,
                        function.module@,
                        function.source_path@,
                    )
                    &&& {
                        let i = first_module_index(mid, function.module@);
                        &&& 0 <= i < mid.len()
                        &&& modules_except(mid, final(self).modules@, i)
                        &&& with_function(mid[i], final(self).modules@[i], function)
                    }
                },
            final(self).functions@ == old(self).functions@.push(function),
            final(self).types == old(self).types,
    {
        let i = self.ensure_module(&function.module, &function.source_path);
        let ghost mid = self.modules@;
        let mut m = self.modules.remove(i);
        m.functions.push(function.copy());
        self.modules.insert(i, m);
        self.functions.push(function);
        assert(modules_except(mid, self.modules@, i as int));
        assert(self.modules@[i as int].functions@.take(mid[i as int].functions@.len() as int)
            =~= mid[i as int].functions@);
    }

    /// Adds a type declaration to its module (created if needed) and to the program index.
    pub fn add_type(&mut self, type_decl: TypeDecl)
        ensures
            exists|mid: Seq<Module>|
                {
                    &&& ensured_modules(
                        old(self).modules@,
                        mid,
                        type_decl.module@,
                        type_decl.source_path@,
                    )
                    &&& {
                        let i = first_module_index(mid, type_decl.module@);
                        &&& 0 <= i < mid.len()
                        &&& modules_except(mid, final(self).modules@, i)
                        &&& with_type(mid[i], final(self).modules@[i], type_decl)
                    }
                },
            final(self).types@ == old(self).types@.push(type_decl),
            final(self).functions == old(self).functions,
    {
        let i = self.ensure_module(&type_decl.module, &type_decl.source_path);
        let ghost mid = self.modules@;
        let mut m = self.modules.remove(i);
        m.types.push(type_decl.copy());
        self.modules.insert(i, m);
        self.types.push(type_decl);
        assert(modules_except(mid, self.modules@, i as int));
        assert(self.modules@[i as int].types@.take(mid[i as int].types@.len() as int)
            =~= mid[i as int].types@);
    }
}

proof fn lemma_first_index_ext(a: Seq<Module>, b: Seq<Module>, name: Seq<char>, i: int)
    requires
        0 <= i <= a.len(),
        a.len() < b.len(),
        forall|j: int| 0 <= j < a.len() ==> a[j] == b[j],
        forall|j: int| i <= j < a.len() ==> a[j].name@ != name,
    ensures
        first_index_from(b, name, i) == first_index_from(b, name, a.len() as int),
    decreases a.len() - i,
{
    if i < a.len() {
        lemma_first_index_ext(a, b, name, i + 1);
    }
}

} // verus!
