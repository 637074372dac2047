//! Built-in functions every Serow program can call.
use vstd::prelude::*;
use vstd::string::*;

use crate::model::{Function, Param};
use crate::text::{owned, str_eq};

verus! {

pub const PRINT_SYMBOL: &'static str = "@serow.intrinsic.print.v1";

pub const READ_LINE_SYMBOL: &'static str = "@serow.intrinsic.read_line.v1";

pub const LEN_SYMBOL: &'static str = "@serow.intrinsic.len.v1";

pub const CONTAINS_SYMBOL: &'static str = "@serow.intrinsic.contains.v1";

pub const PUSH_SYMBOL: &'static str = "@serow.intrinsic.push.v1";

/// The symbols of the intrinsic functions.
pub open spec fn intrinsic_symbols() -> Seq<Seq<char>> {
    seq![
        "@serow.intrinsic.print.v1"@,
        "@serow.intrinsic.read_line.v1"@,
        "@serow.intrinsic.len.v1"@,
        "@serow.intrinsic.contains.v1"@,
        "@serow.intrinsic.push.v1"@,
    ]
}

/// `f` is the intrinsic declaration `name(params) -> ret` with the given intent and effect.
pub open spec fn intrinsic_decl(
    f: Function,
    name: Seq<char>,
    params: Seq<(Seq<char>, Seq<char>)>,
    ret: Seq<char>,
    intent: Seq<char>,
    effect: Seq<char>,
) -> bool {
    &&& f.name@ == name
    &&& f.module@ == "serow.intrinsic"@
    &&& f.public
    &&& f.version@ == "v1"@
    &&& f.version_explicit
    &&& f.params@.len() == params.len()
    &&& forall|k: int|
        0 <= k < params.len() ==> (#[trigger] f.params@[k]).name@ == params[k].0
            && f.params@[k].type_text@ == params[k].1
    &&& f.return_type@ == ret
    &&& f.source_path@ == "<intrinsic>"@
    &&& f.line == 0
    &&& f.intent.is_some() && f.intent.unwrap()@ == intent
    &&& f.requires@.len() == 0
    &&& f.contracts@.len() == 0
    &&& f.examples@.len() == 0
    &&& f.example_lines@.len() == 0
    &&& f.properties@.len() == 0
    &&& f.property_lines@.len() == 0
    &&& f.migrations@.len() == 0
    &&& f.effects@.len() == 1
    &&& f.effects@[0]@ == effect
    &&& f.implementation.is_none()
}

fn param(name: &str, type_text: &str) -> (p: Param)
    ensures
        p.name@ == name@,
        p.type_text@ == type_text@,
{
    Param { name: owned(name), type_text: owned(type_text) }
}

fn intrinsic(name: &str, params: Vec<Param>, ret: &str, intent: &str, effect: &str) -> (f: Function)
    ensures
        f.name@ == name@,
        f.module@ == "serow.intrinsic"@,
        f.public,
        f.version@ == "v1"@,
        f.version_explicit,
        f.params == params,
        f.return_type@ == ret@,
        f.source_path@ == "<intrinsic>"@,
        f.line == 0,
        f.intent.is_some() && f.intent.unwrap()@ == intent@,
        f.requires@.len() == 0,
        f.contracts@.len() == 0,
        f.examples@.len() == 0,
        f.example_lines@.len() == 0,
        f.properties@.len() == 0,
        f.property_lines@.len() == 0,
        f.migrations@.len() == 0,
        f.effects@.len() == 1,
        f.effects@[0]@ == effect@,
        f.implementation.is_none(),
{
    let mut effects: Vec<String> = Vec::new();
    effects.push(owned(effect));
    Function {
        name: owned(name),
        module: owned("serow.intrinsic"),
        public: true,
        version: owned("v1"),
        version_explicit: true,
        params,
        return_type: owned(ret),
        source_path: owned("<intrinsic>"),
        line: 0,
        intent: Some(owned(intent)),
        requires: Vec::new(),
        contracts: Vec::new(),
        examples: Vec::new(),
        example_lines: Vec::new(),
        properties: Vec::new(),
        property_lines: Vec::new(),
        migrations: Vec::new(),
        effects,
        implementation: None,
    }
}

/// The five intrinsic declarations, in order.
pub open spec fn is_intrinsic_list(res: Seq<Function>) -> bool {
    &&& res.len() == 5
    &&& intrinsic_decl(
        res[0],
        "print"@,
        seq![("text"@, "Text"@)],
        "Unit"@,
        "Print text to the terminal followed by a newline."@,
        "io"@,
    )
    &&& intrinsic_decl(
        res[1],
        "read_line"@,
        seq![],
        "Text"@,
        "Read one line of text from the terminal."@,
        "io"@,
    )
    &&& intrinsic_decl(
        res[2],
        "len"@,
        seq![("list"@, "List<T>"@)],
        "Int"@,
        "Return the number of elements in a homogeneous list."@,
        "pure"@,
    )
    &&& intrinsic_decl(
        res[3],
        "contains"@,
        seq![("list"@, "List<T>"@), ("value"@, "T"@)],
        "Bool"@,
        "Return whether a homogeneous list contains a comparable value."@,
        "pure"@,
    )
    &&& intrinsic_decl(
        res[4],
        "push"@,
        seq![("list"@, "List<T>"@), ("value"@, "T"@)],
        "List<T>"@,
        "Return a homogeneous list with one value appended."@,
        "pure"@,
    )
}

/// The intrinsic functions: `print`, `read_line`, `len`, `contains` and `push`.
pub fn intrinsic_functions() -> (res: Vec<Function>)
    ensures
        is_intrinsic_list(res@),
{
    let mut res: Vec<Function> = Vec::new();
    let mut p: Vec<Param> = Vec::new();
    p.push(param("text", "Text"));
    res.push(
        intrinsic("print", p, "Unit", "Print text to the terminal followed by a newline.", "io"),
    );
    res.push(
        intrinsic(
            "read_line",
            Vec::new(),
            "Text",
            "Read one line of text from the terminal.",
            "io",
        ),
    );
    let mut p: Vec<Param> = Vec::new();
    p.push(param("list", "List<T>"));
    res.push(
        intrinsic(
            "len",
            p,
            "Int",
            "Return the number of elements in a homogeneous list.",
            "pure",
        ),
    );
    let mut p: Vec<Param> = Vec::new();
    p.push(param("list", "List<T>"));
    p.push(param("value", "T"));
    res.push(
        intrinsic(
            "contains",
            p,
            "Bool",
            "Return whether a homogeneous list contains a comparable value.",
            "pure",
        ),
    );
    let mut p: Vec<Param> = Vec::new();
    p.push(param("list", "List<T>"));
    p.push(param("value", "T"));
    res.push(
        intrinsic(
            "push",
            p,
            "List<T>",
            "Return a homogeneous list with one value appended.",
            "pure",
        ),
    );
    res
}

/// Whether a symbol names one of the intrinsic functions.
pub fn is_intrinsic_symbol(symbol: &str) -> (res: bool)
    ensures
        res == intrinsic_symbols().contains(symbol@),
{
    let r = str_eq(symbol, PRINT_SYMBOL) || str_eq(symbol, READ_LINE_SYMBOL) || str_eq(
        symbol,
        LEN_SYMBOL,
    ) || str_eq(symbol, CONTAINS_SYMBOL) || str_eq(symbol, PUSH_SYMBOL);
    proof {
        let l = intrinsic_symbols();
        if l.contains(symbol@) {
            let k = choose|k: int| 0 <= k < l.len() && l[k] == symbol@;
            assert(k == 0 || k == 1 || k == 2 || k == 3 || k == 4);
        }
        if r {
            if symbol@ == l[0] { assert(l.contains(l[0])); }
            if symbol@ == l[1] { assert(l.contains(l[1])); }
            if symbol@ == l[2] { assert(l.contains(l[2])); }
            if symbol@ == l[3] { assert(l.contains(l[3])); }
            if symbol@ == l[4] { assert(l.contains(l[4])); }
        }
    }
    r
}

} // verus!
