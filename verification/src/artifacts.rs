//! The files of a generated Rust crate that describe it: `Cargo.toml`, `README.md` and
//! `serow-metadata.json`, and the fingerprints of the sources they were made from.
use vstd::prelude::*;
use vstd::string::*;

use crate::checks::{finding_of, reports_findings, target_of, Finding};
use crate::diagnostic::{add_command, add_prose, no_repairs, repairs_of, strs, Diagnostic, Severity};
use crate::json::{hex_digit, json_str, json_string};
use crate::model::{symbol_text, Function, Program};
use crate::patch::data_texts;
use crate::text::{join_spec, join_strings, owned, push_char, usize_text, decimal};

verus! {

/// A generated Rust item (a type or a function) and where its source lies.
pub struct GeneratedRustItem {
    pub symbol: String,
    pub rust_name: String,
    pub source_path: String,
    pub line: usize,
}

/// A generated evidence test.
pub struct GeneratedRustTest {
    pub symbol: String,
    pub kind: String,
    pub rust_name: String,
    pub source_path: String,
    pub line: usize,
    pub example_index: Option<usize>,
    pub property_index: Option<usize>,
    pub sample_index: Option<usize>,
}

/// What the Rust backend generated from a checked program.
pub struct GeneratedRustProgram {
    pub backend: String,
    pub ir_version: String,
    pub source_fingerprint: String,
    pub source: String,
    pub types: Vec<GeneratedRustItem>,
    pub functions: Vec<GeneratedRustItem>,
    pub tests: Vec<GeneratedRustTest>,
}

/// One source file the crate was generated from.
pub struct SourceInput {
    pub path: String,
    pub fingerprint: String,
    pub bytes: usize,
}

/// The function a generated binary runs.
pub struct BinaryEntrypoint {
    pub symbol: String,
    pub rust_name: String,
    pub return_type: String,
    pub source_path: String,
    pub line: usize,
}

// ---------------------------------------------------------------------------
// Fingerprints
// ---------------------------------------------------------------------------
/// The FNV-1a offset basis.
pub open spec fn fnv_offset() -> u64 {
    0xcbf29ce484222325u64
}

/// One FNV-1a step: xor the byte in, then multiply by the FNV prime, wrapping.
pub open spec fn fnv_step(h: u64, b: u8) -> u64 {
    vstd::wrapping::u64_specs::wrapping_mul(h ^ (b as u64), 0x100000001b3u64)
}

/// The hash after feeding `bytes` into `h`.
pub open spec fn fnv_feed(h: u64, bytes: Seq<u8>) -> u64
    decreases bytes.len(),
{
    if bytes.len() == 0 {
        h
    } else {
        fnv_step(fnv_feed(h, bytes.drop_last()), bytes.last())
    }
}

/// The last `k` lower-case hexadecimal digits of `n`, zero-padded.
pub open spec fn hex_fixed(n: nat, k: nat) -> Seq<char>
    decreases k,
{
    if k == 0 {
        seq![]
    } else {
        hex_fixed(n / 16, (k - 1) as nat) + seq![hex_digit(n % 16)]
    }
}

/// `fnv1a64:` and the hash as sixteen hexadecimal digits.
pub open spec fn fingerprint_text(h: u64) -> Seq<char> {
    "fnv1a64:"@ + hex_fixed(h as nat, 16)
}

fn feed(h: u64, bytes: &Vec<u8>) -> (res: u64)
    ensures
        res == fnv_feed(h, bytes@),
{
    let mut x = h;
    let mut i: usize = 0;
    while i < bytes.len()
        invariant
            i <= bytes@.len(),
            x == fnv_feed(h, bytes@.take(i as int)),
        decreases bytes@.len() - i,
    {
        proof {
            assert(bytes@.take(i + 1).drop_last() =~= bytes@.take(i as int));
            assert(bytes@.take(i + 1).last() == bytes@[i as int]);
        }
        x = (x ^ (bytes[i] as u64)).wrapping_mul(0x100000001b3u64);
        i += 1;
    }
    assert(bytes@.take(bytes@.len() as int) =~= bytes@);
    x
}

fn hex_char(d: u64) -> (c: char)
    requires
        d < 16,
    ensures
        c == hex_digit(d as nat),
{
    if d < 10 {
        let b: u8 = (d + 48) as u8;
        b as char
    } else {
        let b: u8 = (d + 87) as u8;
        b as char
    }
}

fn fingerprint(h: u64) -> (res: String)
    ensures
        res@ == fingerprint_text(h),
{
    let mut digits: Vec<char> = Vec::new();
    let mut m = h;
    let mut k: usize = 0;
    while k < 16
        invariant
            k <= 16,
            hex_fixed(m as nat, (16 - k) as nat) + digits@ == hex_fixed(h as nat, 16),
        decreases 16 - k,
    {
        let c = hex_char(m % 16);
        proof {
            assert(hex_fixed(m as nat, (16 - k) as nat) == hex_fixed((m / 16) as nat, (16 - k - 1) as nat)
                + seq![hex_digit((m % 16) as nat)]);
        }
        let ghost before = digits@;
        digits.insert(0, c);
        assert(digits@ =~= seq![c] + before);
        assert(hex_fixed((m / 16) as nat, (16 - k - 1) as nat) + digits@ =~= hex_fixed(m as nat, (16 - k) as nat) + before);
        m = m / 16;
        k += 1;
    }
    assert(hex_fixed(m as nat, 0) =~= Seq::<char>::empty());
    assert(digits@ =~= hex_fixed(h as nat, 16));
    let mut out = owned("fnv1a64:");
    out.append(crate::text::string_of(&digits).as_str());
    out
}

/// The fingerprint of one file's bytes.
pub fn source_bytes_fingerprint(bytes: &Vec<u8>) -> (res: String)
    ensures
        res@ == fingerprint_text(fnv_feed(fnv_offset(), bytes@)),
{
    fingerprint(feed(0xcbf29ce484222325u64, bytes))
}

/// Each file's path and bytes, each followed by a zero byte, in order.
pub open spec fn inputs_stream(files: Seq<(Vec<u8>, Vec<u8>)>) -> Seq<u8>
    decreases files.len(),
{
    if files.len() == 0 {
        seq![]
    } else {
        inputs_stream(files.drop_last()) + files.last().0@ + seq![0u8] + files.last().1@ + seq![0u8]
    }
}

proof fn lemma_feed_append(h: u64, a: Seq<u8>, b: Seq<u8>)
    ensures
        fnv_feed(h, a + b) == fnv_feed(fnv_feed(h, a), b),
    decreases b.len(),
{
    if b.len() == 0 {
        assert(a + b =~= a);
    } else {
        lemma_feed_append(h, a, b.drop_last());
        assert((a + b).drop_last() =~= a + b.drop_last());
        assert((a + b).last() == b.last());
    }
}

/// The fingerprint of a set of source files, given as (path bytes, file bytes) pairs.
pub fn source_inputs_fingerprint(files: &Vec<(Vec<u8>, Vec<u8>)>) -> (res: String)
    ensures
        res@ == fingerprint_text(fnv_feed(fnv_offset(), inputs_stream(files@))),
{
    let zero: Vec<u8> = vec![0u8];
    let mut h: u64 = 0xcbf29ce484222325u64;
    let mut i: usize = 0;
    while i < files.len()
        invariant
            i <= files@.len(),
            zero@ == seq![0u8],
            h == fnv_feed(fnv_offset(), inputs_stream(files@.take(i as int))),
        decreases files@.len() - i,
    {
        let ghost s0 = inputs_stream(files@.take(i as int));
        let (p, b) = (&files[i].0, &files[i].1);
        h = feed(h, p);
        h = feed(h, &zero);
        h = feed(h, b);
        h = feed(h, &zero);
        proof {
            assert(files@.take(i + 1).drop_last() =~= files@.take(i as int));
            assert(files@.take(i + 1).last() == files@[i as int]);
            lemma_feed_append(fnv_offset(), s0, p@);
            lemma_feed_append(fnv_offset(), s0 + p@, seq![0u8]);
            lemma_feed_append(fnv_offset(), s0 + p@ + seq![0u8], b@);
            lemma_feed_append(fnv_offset(), s0 + p@ + seq![0u8] + b@, seq![0u8]);
        }
        i += 1;
    }
    assert(files@.take(files@.len() as int) =~= files@);
    fingerprint(h)
}

// ---------------------------------------------------------------------------
// Inline code in Markdown
// ---------------------------------------------------------------------------
/// The longest run of backticks in `s` from `i` on, given the current run `cur` and the
/// longest one so far.
pub open spec fn backtick_run(s: Seq<char>, i: int, cur: nat, best: nat) -> nat
    decreases s.len() - i,
{
    if i < 0 || i >= s.len() {
        best
    } else if s[i] == '`' {
        backtick_run(s, i + 1, cur + 1, if cur + 1 > best { cur + 1 } else { best })
    } else {
        backtick_run(s, i + 1, 0, best)
    }
}

/// `n` backticks.
pub open spec fn ticks(n: nat) -> Seq<char> {
    Seq::new(n, |i: int| '`')
}

/// `value` as inline code: fenced by one more backtick than its longest run, with spaces
/// inside the fence when it starts or ends with a backtick.
pub open spec fn inline_code(value: Seq<char>) -> Seq<char> {
    let d = ticks(backtick_run(value, 0, 0, 0) + 1);
    if value.len() > 0 && (value[0] == '`' || value.last() == '`') {
        d + " "@ + value + " "@ + d
    } else {
        d + value + d
    }
}

/// Writes `value` as Markdown inline code.
pub fn markdown_inline_code(value: &str) -> (res: String)
    ensures
        res@ == inline_code(value@),
{
    let cs = crate::text::chars_of(value);
    let mut longest: usize = 0;
    let mut current: usize = 0;
    let mut i: usize = 0;
    while i < cs.len()
        invariant
            i <= cs@.len(),
            cs@ == value@,
            current <= i,
            longest <= i,
            backtick_run(cs@, i as int, current as nat, longest as nat) == backtick_run(cs@, 0, 0, 0),
        decreases cs@.len() - i,
    {
        if cs[i] == '`' {
            current += 1;
            if current > longest {
                longest = current;
            }
        } else {
            current = 0;
        }
        i += 1;
    }
    let mut d = String::new();
    push_char(&mut d, '`');
    assert(d@ =~= ticks(1));
    let mut k: usize = 0;
    while k < longest
        invariant
            k <= longest,
            d@ == ticks((k + 1) as nat),
        decreases longest - k,
    {
        push_char(&mut d, '`');
        assert(d@ =~= ticks((k + 2) as nat));
        k += 1;
    }
    let fenced_with_space = cs.len() > 0 && (cs[0] == '`' || cs[cs.len() - 1] == '`');
    let mut out = d.clone();
    if fenced_with_space {
        out.append(" ");
        out.append(value);
        out.append(" ");
    } else {
        out.append(value);
    }
    out.append(d.as_str());
    out
}

// ---------------------------------------------------------------------------
// Cargo.toml
// ---------------------------------------------------------------------------
/// The text of an optional value, or `unknown`.
pub open spec fn or_unknown(o: Option<&str>) -> Seq<char> {
    match o {
        Some(s) => s@,
        None => "unknown"@,
    }
}

fn or_unknown_str<'a>(o: Option<&'a str>) -> (res: &'a str)
    ensures
        res@ == or_unknown(o),
{
    match o {
        Some(s) => s,
        None => "unknown",
    }
}

/// The package table of the generated crate.
pub open spec fn toml_package(crate_name: Seq<char>) -> Seq<char> {
    "# Generated by `serow compile rust --out-dir`.\n"@ + "# The .serow source remains the source of truth.\n"@
        + "\n"@ + "[package]\n"@ + "name = "@ + json_str(crate_name) + "\n"@ + "version = \"0.1.0\"\n"@
        + "edition = \"2021\"\n"@ + "publish = false\n"@ + "autobins = false\n"@
        + "autoexamples = false\n"@ + "autotests = false\n"@ + "autobenches = false\n"@ + "\n"@
        + "[lib]\n"@ + "path = \"src/lib.rs\"\n"@
}

/// The binary target, when there is an entrypoint.
pub open spec fn toml_bin(crate_name: Seq<char>, entry: bool) -> Seq<char> {
    if entry {
        "\n[[bin]]\nname = "@ + json_str(crate_name) + "\npath = \"src/main.rs\"\n"@
    } else {
        seq![]
    }
}

/// The backend metadata table.
pub open spec fn toml_metadata(
    rust: GeneratedRustProgram,
    input_fingerprint: Option<&str>,
    project_version: Option<&str>,
) -> Seq<char> {
    "\n"@ + "[package.metadata.serow]\n"@ + "backend = "@ + json_str(rust.backend@) + "\n"@
        + "ir_version = "@ + json_str(rust.ir_version@) + "\n"@ + "project_version = "@ + json_str(
        or_unknown(project_version),
    ) + "\n"@ + "input_fingerprint = "@ + json_str(or_unknown(input_fingerprint)) + "\n"@
        + "source_fingerprint = "@ + json_str(rust.source_fingerprint@) + "\n"@
        + "generated_types = "@ + decimal(rust.types@.len()) + "\n"@ + "generated_functions = "@
        + decimal(rust.functions@.len()) + "\n"@ + "generated_tests = "@ + decimal(
        rust.tests@.len(),
    ) + "\n"@
}

/// The entrypoint's keys in the metadata table.
pub open spec fn toml_entrypoint(e: BinaryEntrypoint) -> Seq<char> {
    "binary_entrypoint_symbol = "@ + json_str(e.symbol@) + "\n"@ + "binary_entrypoint_rust_name = "@
        + json_str(e.rust_name@) + "\n"@ + "binary_entrypoint_return_type = "@ + json_str(
        e.return_type@,
    ) + "\n"@ + "binary_entrypoint_source_path = "@ + json_str(e.source_path@) + "\n"@
        + "binary_entrypoint_line = "@ + decimal(e.line as nat) + "\n"@
}

/// One source input as an array-of-tables entry.
pub open spec fn toml_input(i: SourceInput) -> Seq<char> {
    "\n[[package.metadata.serow.inputs]]\n"@ + "path = "@ + json_str(i.path@) + "\nfingerprint = "@
        + json_str(i.fingerprint@) + "\nbytes = "@ + decimal(i.bytes as nat) + "\n"@
}

/// One generated type or function as an array-of-tables entry of `table`.
pub open spec fn toml_item(header: Seq<char>, it: GeneratedRustItem) -> Seq<char> {
    header + "symbol = "@ + json_str(it.symbol@) + "\nrust_name = "@ + json_str(it.rust_name@)
        + "\nsource_path = "@ + json_str(it.source_path@) + "\nline = "@ + decimal(it.line as nat)
        + "\n"@
}

/// `key = n` and a newline, when there is an index.
pub open spec fn toml_index(key: Seq<char>, o: Option<usize>) -> Seq<char> {
    match o {
        Some(n) => key + " = "@ + decimal(n as nat) + "\n"@,
        None => seq![],
    }
}

/// One generated test as an array-of-tables entry.
pub open spec fn toml_test(t: GeneratedRustTest) -> Seq<char> {
    "\n[[package.metadata.serow.tests]]\n"@ + "symbol = "@ + json_str(t.symbol@) + "\nkind = "@
        + json_str(t.kind@) + "\nrust_name = "@ + json_str(t.rust_name@) + "\nsource_path = "@
        + json_str(t.source_path@) + "\nline = "@ + decimal(t.line as nat) + "\n"@ + toml_index(
        "example_index"@,
        t.example_index,
    ) + toml_index("property_index"@, t.property_index) + toml_index("sample_index"@, t.sample_index)
}

/// Texts run together.
pub open spec fn concat(parts: Seq<Seq<char>>) -> Seq<char> {
    join_spec(parts, ""@)
}

/// The generated crate's `Cargo.toml`: the package, the library target, the binary target
/// when there is an entrypoint, and the backend metadata with one entry for each input,
/// type, function and test.
pub open spec fn cargo_toml_text(
    crate_name: Seq<char>,
    rust: GeneratedRustProgram,
    input_fingerprint: Option<&str>,
    inputs: Seq<SourceInput>,
    project_version: Option<&str>,
    entry: Option<BinaryEntrypoint>,
) -> Seq<char> {
    toml_package(crate_name) + toml_bin(crate_name, entry is Some) + toml_metadata(
        rust,
        input_fingerprint,
        project_version,
    ) + (match entry {
        Some(e) => toml_entrypoint(e),
        None => seq![],
    }) + concat(inputs.map_values(|i: SourceInput| toml_input(i))) + concat(
        rust.types@.map_values(|t: GeneratedRustItem| toml_item("\n[[package.metadata.serow.types]]\n"@, t)),
    ) + concat(
        rust.functions@.map_values(
            |f: GeneratedRustItem| toml_item("\n[[package.metadata.serow.functions]]\n"@, f),
        ),
    ) + concat(rust.tests@.map_values(|t: GeneratedRustTest| toml_test(t)))
}

fn push_json(out: &mut String, value: &str)
    ensures
        final(out)@ == old(out)@ + json_str(value@),
{
    let j = json_string(value);
    out.append(j.as_str());
}

fn push_decimal(out: &mut String, n: usize)
    ensures
        final(out)@ == old(out)@ + decimal(n as nat),
{
    let t = usize_text(n);
    out.append(t.as_str());
}

fn toml_item_exec(header: &str, it: &GeneratedRustItem) -> (res: String)
    ensures
        res@ == toml_item(header@, *it),
{
    let mut s = owned(header);
    s.append("symbol = ");
    push_json(&mut s, it.symbol.as_str());
    s.append("\nrust_name = ");
    push_json(&mut s, it.rust_name.as_str());
    s.append("\nsource_path = ");
    push_json(&mut s, it.source_path.as_str());
    s.append("\nline = ");
    push_decimal(&mut s, it.line);
    s.append("\n");
    s
}

fn toml_items(header: &str, items: &Vec<GeneratedRustItem>) -> (res: String)
    ensures
        res@ == concat(items@.map_values(|t: GeneratedRustItem| toml_item(header@, t))),
{
    let mut parts: Vec<String> = Vec::new();
    let mut i: usize = 0;
    while i < items.len()
        invariant
            i <= items@.len(),
            parts@.len() == i,
            forall|j: int| 0 <= j < i ==> #[trigger] parts@[j]@ == toml_item(header@, items@[j]),
        decreases items@.len() - i,
    {
        parts.push(toml_item_exec(header, &items[i]));
        i += 1;
    }
    assert(parts@.map_values(|p: String| p@) =~= items@.map_values(|t: GeneratedRustItem| toml_item(header@, t)));
    join_strings(&parts, "")
}

fn push_index(out: &mut String, key: &str, o: Option<usize>)
    ensures
        final(out)@ == old(out)@ + toml_index(key@, o),
{
    match o {
        Some(n) => {
            out.append(key);
            out.append(" = ");
            push_decimal(out, n);
            out.append("\n");
        },
        None => {},
    }
}

fn toml_test_exec(t: &GeneratedRustTest) -> (res: String)
    ensures
        res@ == toml_test(*t),
{
    let mut s = owned("\n[[package.metadata.serow.tests]]\n");
    s.append("symbol = ");
    push_json(&mut s, t.symbol.as_str());
    s.append("\nkind = ");
    push_json(&mut s, t.kind.as_str());
    s.append("\nrust_name = ");
    push_json(&mut s, t.rust_name.as_str());
    s.append("\nsource_path = ");
    push_json(&mut s, t.source_path.as_str());
    s.append("\nline = ");
    push_decimal(&mut s, t.line);
    s.append("\n");
    push_index(&mut s, "example_index", t.example_index);
    push_index(&mut s, "property_index", t.property_index);
    push_index(&mut s, "sample_index", t.sample_index);
    s
}

fn toml_tests(tests: &Vec<GeneratedRustTest>) -> (res: String)
    ensures
        res@ == concat(tests@.map_values(|t: GeneratedRustTest| toml_test(t))),
{
    let mut parts: Vec<String> = Vec::new();
    let mut i: usize = 0;
    while i < tests.len()
        invariant
            i <= tests@.len(),
            parts@.len() == i,
            forall|j: int| 0 <= j < i ==> #[trigger] parts@[j]@ == toml_test(tests@[j]),
        decreases tests@.len() - i,
    {
        parts.push(toml_test_exec(&tests[i]));
        i += 1;
    }
    assert(parts@.map_values(|p: String| p@) =~= tests@.map_values(|t: GeneratedRustTest| toml_test(t)));
    join_strings(&parts, "")
}

fn toml_inputs(inputs: &[SourceInput]) -> (res: String)
    ensures
        res@ == concat(inputs@.map_values(|i: SourceInput| toml_input(i))),
{
    let mut parts: Vec<String> = Vec::new();
    let mut i: usize = 0;
    while i < inputs.len()
        invariant
            i <= inputs@.len(),
            parts@.len() == i,
            forall|j: int| 0 <= j < i ==> #[trigger] parts@[j]@ == toml_input(inputs@[j]),
        decreases inputs@.len() - i,
    {
        let it = &inputs[i];
        let mut s = owned("\n[[package.metadata.serow.inputs]]\n");
        s.append("path = ");
        push_json(&mut s, it.path.as_str());
        s.append("\nfingerprint = ");
        push_json(&mut s, it.fingerprint.as_str());
        s.append("\nbytes = ");
        push_decimal(&mut s, it.bytes);
        s.append("\n");
        parts.push(s);
        i += 1;
    }
    assert(parts@.map_values(|p: String| p@) =~= inputs@.map_values(|i: SourceInput| toml_input(i)));
    join_strings(&parts, "")
}

fn toml_package_exec(crate_name: &str) -> (res: String)
    ensures
        res@ == toml_package(crate_name@),
{
    let mut s = owned("# Generated by `serow compile rust --out-dir`.\n");
    s.append("# The .serow source remains the source of truth.\n");
    s.append("\n");
    s.append("[package]\n");
    s.append("name = ");
    push_json(&mut s, crate_name);
    s.append("\n");
    s.append("version = \"0.1.0\"\n");
    s.append("edition = \"2021\"\n");
    s.append("publish = false\n");
    s.append("autobins = false\n");
    s.append("autoexamples = false\n");
    s.append("autotests = false\n");
    s.append("autobenches = false\n");
    s.append("\n");
    s.append("[lib]\n");
    s.append("path = \"src/lib.rs\"\n");
    s
}

fn toml_metadata_exec(
    rust: &GeneratedRustProgram,
    input_fingerprint: Option<&str>,
    project_version: Option<&str>,
) -> (res: String)
    ensures
        res@ == toml_metadata(*rust, input_fingerprint, project_version),
{
    let mut s = owned("\n");
    s.append("[package.metadata.serow]\n");
    s.append("backend = ");
    push_json(&mut s, rust.backend.as_str());
    s.append("\n");
    s.append("ir_version = ");
    push_json(&mut s, rust.ir_version.as_str());
    s.append("\n");
    s.append("project_version = ");
    push_json(&mut s, or_unknown_str(project_version));
    s.append("\n");
    s.append("input_fingerprint = ");
    push_json(&mut s, or_unknown_str(input_fingerprint));
    s.append("\n");
    s.append("source_fingerprint = ");
    push_json(&mut s, rust.source_fingerprint.as_str());
    s.append("\n");
    s.append("generated_types = ");
    push_decimal(&mut s, rust.types.len());
    s.append("\n");
    s.append("generated_functions = ");
    push_decimal(&mut s, rust.functions.len());
    s.append("\n");
    s.append("generated_tests = ");
    push_decimal(&mut s, rust.tests.len());
    s.append("\n");
    s
}

fn toml_entrypoint_exec(e: &BinaryEntrypoint) -> (res: String)
    ensures
        res@ == toml_entrypoint(*e),
{
    let mut s = owned("binary_entrypoint_symbol = ");
    push_json(&mut s, e.symbol.as_str());
    s.append("\n");
    s.append("binary_entrypoint_rust_name = ");
    push_json(&mut s, e.rust_name.as_str());
    s.append("\n");
    s.append("binary_entrypoint_return_type = ");
    push_json(&mut s, e.return_type.as_str());
    s.append("\n");
    s.append("binary_entrypoint_source_path = ");
    push_json(&mut s, e.source_path.as_str());
    s.append("\n");
    s.append("binary_entrypoint_line = ");
    push_decimal(&mut s, e.line);
    s.append("\n");
    s
}

fn toml_bin_exec(crate_name: &str, entry: bool) -> (res: String)
    ensures
        res@ == toml_bin(crate_name@, entry),
{
    if entry {
        let mut s = owned("\n[[bin]]\nname = ");
        push_json(&mut s, crate_name);
        s.append("\npath = \"src/main.rs\"\n");
        s
    } else {
        String::new()
    }
}

/// Writes the generated crate's `Cargo.toml`.
#[verifier::spinoff_prover]
pub fn render_generated_cargo_toml(
    crate_name: &str,
    rust: &GeneratedRustProgram,
    input_fingerprint: Option<&str>,
    source_inputs: &[SourceInput],
    project_version: Option<&str>,
    binary_entrypoint: Option<&BinaryEntrypoint>,
) -> (res: String)
    ensures
        res@ == cargo_toml_text(
            crate_name@,
            *rust,
            input_fingerprint,
            source_inputs@,
            project_version,
            match binary_entrypoint {
                Some(e) => Some(*e),
                None => None,
            },
        ),
{
    let ghost entry = match binary_entrypoint {
        Some(e) => Some(*e),
        None => None::<BinaryEntrypoint>,
    };
    let a = toml_package_exec(crate_name);
    let b = toml_bin_exec(crate_name, binary_entrypoint.is_some());
    let c = toml_metadata_exec(rust, input_fingerprint, project_version);
    let d = match binary_entrypoint {
        Some(e) => toml_entrypoint_exec(e),
        None => String::new(),
    };
    assert(d@ == match entry {
        Some(e) => toml_entrypoint(e),
        None => Seq::<char>::empty(),
    });
    let e = toml_inputs(source_inputs);
    let f = toml_items("\n[[package.metadata.serow.types]]\n", &rust.types);
    let g = toml_items("\n[[package.metadata.serow.functions]]\n", &rust.functions);
    let h = toml_tests(&rust.tests);
    let mut s = a;
    s.append(b.as_str());
    s.append(c.as_str());
    s.append(d.as_str());
    s.append(e.as_str());
    s.append(f.as_str());
    s.append(g.as_str());
    s.append(h.as_str());
    s
}

// ---------------------------------------------------------------------------
// README.md
// ---------------------------------------------------------------------------
/// The title, provenance and counts of the generated crate's README.
pub open spec fn readme_head(
    crate_name: Seq<char>,
    rust: GeneratedRustProgram,
    input_fingerprint: Option<&str>,
    project_version: Option<&str>,
) -> Seq<char> {
    "# "@ + crate_name + "\n"@ + "\n"@
        + "Generated by `serow compile rust --out-dir` from checked Serow sources.\n"@
        + "The `.serow` files remain the source of truth; regenerate this crate instead of editing generated artifacts directly.\n"@
        + "\n"@ + "## Provenance\n"@ + "\n"@ + "- Backend: "@ + inline_code(rust.backend@) + "\n"@
        + "- IR version: "@ + inline_code(rust.ir_version@) + "\n"@ + "- Serow project version: "@
        + inline_code(or_unknown(project_version)) + "\n"@ + "- Input fingerprint: "@ + inline_code(
        or_unknown(input_fingerprint),
    ) + "\n"@ + "- Generated source fingerprint: "@ + inline_code(rust.source_fingerprint@) + "\n"@
        + "\n"@ + "## Generated Counts\n"@ + "\n"@ + "- Types: "@ + decimal(rust.types@.len())
        + "\n"@ + "- Functions: "@ + decimal(rust.functions@.len()) + "\n"@ + "- Evidence tests: "@
        + decimal(rust.tests@.len()) + "\n"@
}

/// The README section on the binary entrypoint.
pub open spec fn readme_entrypoint(e: BinaryEntrypoint) -> Seq<char> {
    "\n"@ + "## Binary Entrypoint\n"@ + "\n"@ + "- Serow symbol: "@ + inline_code(e.symbol@) + "\n"@
        + "- Rust function: "@ + inline_code(e.rust_name@) + "\n"@ + "- Return type: "@
        + inline_code(e.return_type@) + "\n"@ + "- Source: "@ + inline_code(e.source_path@)
        + " line "@ + decimal(e.line as nat) + "\n"@
}

/// One source input in the README.
pub open spec fn readme_input(i: SourceInput) -> Seq<char> {
    "- "@ + inline_code(i.path@) + ": "@ + decimal(i.bytes as nat) + " bytes, "@ + inline_code(
        i.fingerprint@,
    ) + "\n"@
}

/// The README section on the artifacts.
pub open spec fn readme_artifacts(entry: bool) -> Seq<char> {
    "\n"@ + "## Artifacts\n"@ + "\n"@
        + "- `Cargo.toml` records machine-readable Cargo package metadata and disables Cargo automatic target discovery.\n"@
        + "- `serow-metadata.json` mirrors backend metadata for tools that should not parse TOML.\n"@
        + "- `src/lib.rs` contains the generated Rust implementation and pure evidence tests.\n"@
        + if entry {
        "- `src/main.rs` contains the generated binary entrypoint.\n"@
    } else {
        seq![]
    }
}

/// The generated crate's README: title, provenance, counts, the entrypoint when there is
/// one, the source inputs (or `Unknown`), and the artifacts.
pub open spec fn readme_text(
    crate_name: Seq<char>,
    rust: GeneratedRustProgram,
    input_fingerprint: Option<&str>,
    inputs: Seq<SourceInput>,
    project_version: Option<&str>,
    entry: Option<BinaryEntrypoint>,
) -> Seq<char> {
    readme_head(crate_name, rust, input_fingerprint, project_version) + (match entry {
        Some(e) => readme_entrypoint(e),
        None => seq![],
    }) + "\n## Source Inputs\n\n"@ + (if inputs.len() == 0 {
        "- Unknown\n"@
    } else {
        concat(inputs.map_values(|i: SourceInput| readme_input(i)))
    }) + readme_artifacts(entry is Some)
}

fn push_code(out: &mut String, value: &str)
    ensures
        final(out)@ == old(out)@ + inline_code(value@),
{
    let c = markdown_inline_code(value);
    out.append(c.as_str());
}

fn readme_head_exec(
    crate_name: &str,
    rust: &GeneratedRustProgram,
    input_fingerprint: Option<&str>,
    project_version: Option<&str>,
) -> (res: String)
    ensures
        res@ == readme_head(crate_name@, *rust, input_fingerprint, project_version),
{
    let mut s = owned("# ");
    s.append(crate_name);
    s.append("\n");
    s.append("\n");
    s.append("Generated by `serow compile rust --out-dir` from checked Serow sources.\n");
    s.append(
        "The `.serow` files remain the source of truth; regenerate this crate instead of editing generated artifacts directly.\n",
    );
    s.append("\n");
    s.append("## Provenance\n");
    s.append("\n");
    s.append("- Backend: ");
    push_code(&mut s, rust.backend.as_str());
    s.append("\n");
    s.append("- IR version: ");
    push_code(&mut s, rust.ir_version.as_str());
    s.append("\n");
    s.append("- Serow project version: ");
    push_code(&mut s, or_unknown_str(project_version));
    s.append("\n");
    s.append("- Input fingerprint: ");
    push_code(&mut s, or_unknown_str(input_fingerprint));
    s.append("\n");
    s.append("- Generated source fingerprint: ");
    push_code(&mut s, rust.source_fingerprint.as_str());
    s.append("\n");
    s.append("\n");
    s.append("## Generated Counts\n");
    s.append("\n");
    s.append("- Types: ");
    push_decimal(&mut s, rust.types.len());
    s.append("\n");
    s.append("- Functions: ");
    push_decimal(&mut s, rust.functions.len());
    s.append("\n");
    s.append("- Evidence tests: ");
    push_decimal(&mut s, rust.tests.len());
    s.append("\n");
    s
}

fn readme_entrypoint_exec(e: &BinaryEntrypoint) -> (res: String)
    ensures
        res@ == readme_entrypoint(*e),
{
    let mut s = owned("\n");
    s.append("## Binary Entrypoint\n");
    s.append("\n");
    s.append("- Serow symbol: ");
    push_code(&mut s, e.symbol.as_str());
    s.append("\n");
    s.append("- Rust function: ");
    push_code(&mut s, e.rust_name.as_str());
    s.append("\n");
    s.append("- Return type: ");
    push_code(&mut s, e.return_type.as_str());
    s.append("\n");
    s.append("- Source: ");
    push_code(&mut s, e.source_path.as_str());
    s.append(" line ");
    push_decimal(&mut s, e.line);
    s.append("\n");
    s
}

fn readme_inputs(inputs: &[SourceInput]) -> (res: String)
    ensures
        res@ == concat(inputs@.map_values(|i: SourceInput| readme_input(i))),
{
    let mut parts: Vec<String> = Vec::new();
    let mut i: usize = 0;
    while i < inputs.len()
        invariant
            i <= inputs@.len(),
            parts@.len() == i,
            forall|j: int| 0 <= j < i ==> #[trigger] parts@[j]@ == readme_input(inputs@[j]),
        decreases inputs@.len() - i,
    {
        let it = &inputs[i];
        let mut s = owned("- ");
        push_code(&mut s, it.path.as_str());
        s.append(": ");
        push_decimal(&mut s, it.bytes);
        s.append(" bytes, ");
        push_code(&mut s, it.fingerprint.as_str());
        s.append("\n");
        parts.push(s);
        i += 1;
    }
    assert(parts@.map_values(|p: String| p@) =~= inputs@.map_values(|i: SourceInput| readme_input(i)));
    join_strings(&parts, "")
}

/// Writes the generated crate's `README.md`.
pub fn render_generated_readme_md(
    crate_name: &str,
    rust: &GeneratedRustProgram,
    input_fingerprint: Option<&str>,
    source_inputs: &[SourceInput],
    project_version: Option<&str>,
    binary_entrypoint: Option<&BinaryEntrypoint>,
) -> (res: String)
    ensures
        res@ == readme_text(
            crate_name@,
            *rust,
            input_fingerprint,
            source_inputs@,
            project_version,
            match binary_entrypoint {
                Some(e) => Some(*e),
                None => None,
            },
        ),
{
    let mut s = readme_head_exec(crate_name, rust, input_fingerprint, project_version);
    match binary_entrypoint {
        Some(e) => {
            s.append(readme_entrypoint_exec(e).as_str());
        },
        None => {},
    }
    s.append("\n## Source Inputs\n\n");
    if source_inputs.len() == 0 {
        s.append("- Unknown\n");
    } else {
        s.append(readme_inputs(source_inputs).as_str());
    }
    let mut a = owned("\n");
    a.append("## Artifacts\n");
    a.append("\n");
    a.append(
        "- `Cargo.toml` records machine-readable Cargo package metadata and disables Cargo automatic target discovery.\n",
    );
    a.append("- `serow-metadata.json` mirrors backend metadata for tools that should not parse TOML.\n");
    a.append("- `src/lib.rs` contains the generated Rust implementation and pure evidence tests.\n");
    if binary_entrypoint.is_some() {
        a.append("- `src/main.rs` contains the generated binary entrypoint.\n");
    }
    s.append(a.as_str());
    s
}

// ---------------------------------------------------------------------------
// serow-metadata.json
// ---------------------------------------------------------------------------
/// The entrypoint as a JSON object.
pub open spec fn entrypoint_json(e: BinaryEntrypoint) -> Seq<char> {
    "{"@ + "\"line\": "@ + decimal(e.line as nat) + ", "@ + "\"return_type\": "@ + json_str(
        e.return_type@,
    ) + ", "@ + "\"rust_name\": "@ + json_str(e.rust_name@) + ", "@ + "\"source_path\": "@
        + json_str(e.source_path@) + ", "@ + "\"symbol\": "@ + json_str(e.symbol@) + "}"@
}

/// One source input as an indented JSON object.
pub open spec fn input_json(i: SourceInput) -> Seq<char> {
    "    {\"bytes\": "@ + decimal(i.bytes as nat) + ", \"fingerprint\": "@ + json_str(i.fingerprint@)
        + ", \"path\": "@ + json_str(i.path@) + "}"@
}

/// One generated type or function as an indented JSON object.
pub open spec fn item_json(it: GeneratedRustItem) -> Seq<char> {
    "    {\"line\": "@ + decimal(it.line as nat) + ", \"rust_name\": "@ + json_str(it.rust_name@)
        + ", \"source_path\": "@ + json_str(it.source_path@) + ", \"symbol\": "@ + json_str(
        it.symbol@,
    ) + "}"@
}

/// `"key": n`, when there is an index.
pub open spec fn index_field(key: Seq<char>, o: Option<usize>) -> Seq<Seq<char>> {
    match o {
        Some(n) => seq!["\""@ + key + "\": "@ + decimal(n as nat)],
        None => seq![],
    }
}

/// The fields of a generated test's JSON object.
pub open spec fn test_fields(t: GeneratedRustTest) -> Seq<Seq<char>> {
    seq![
        "\"kind\": "@ + json_str(t.kind@),
        "\"line\": "@ + decimal(t.line as nat),
        "\"rust_name\": "@ + json_str(t.rust_name@),
        "\"source_path\": "@ + json_str(t.source_path@),
        "\"symbol\": "@ + json_str(t.symbol@),
    ] + index_field("example_index"@, t.example_index) + index_field("property_index"@, t.property_index)
        + index_field("sample_index"@, t.sample_index)
}

/// One generated test as an indented JSON object.
pub open spec fn test_json(t: GeneratedRustTest) -> Seq<char> {
    "    {"@ + join_spec(test_fields(t), ", "@) + "}"@
}

/// The first lines of the metadata object: backend, entrypoint, crate name, counts and
/// input fingerprint.
pub open spec fn metadata_head(
    crate_name: Seq<char>,
    rust: GeneratedRustProgram,
    input_fingerprint: Option<&str>,
    entry: Option<BinaryEntrypoint>,
) -> Seq<char> {
    "{\n"@ + "  \"backend\": "@ + json_str(rust.backend@) + ",\n"@ + "  \"binary_entrypoint\": "@
        + (match entry {
        Some(e) => entrypoint_json(e),
        None => "null"@,
    }) + ",\n"@ + "  \"crate_name\": "@ + json_str(crate_name) + ",\n"@
        + "  \"generated_counts\": {\"functions\": "@ + decimal(rust.functions@.len())
        + ", \"tests\": "@ + decimal(rust.tests@.len()) + ", \"types\": "@ + decimal(
        rust.types@.len(),
    ) + "},\n"@ + "  \"input_fingerprint\": "@ + json_str(or_unknown(input_fingerprint)) + ",\n"@
}

/// The generated crate's `serow-metadata.json`: the same provenance as `Cargo.toml`, as
/// one JSON object with one entry for each input, type, function and test.
pub open spec fn metadata_json_text(
    crate_name: Seq<char>,
    rust: GeneratedRustProgram,
    input_fingerprint: Option<&str>,
    inputs: Seq<SourceInput>,
    project_version: Option<&str>,
    entry: Option<BinaryEntrypoint>,
) -> Seq<char> {
    metadata_head(crate_name, rust, input_fingerprint, entry) + "  \"inputs\": [\n"@ + join_spec(
        inputs.map_values(|i: SourceInput| input_json(i)),
        ",\n"@,
    ) + "\n  ],\n"@ + "  \"ir_version\": "@ + json_str(rust.ir_version@) + ",\n"@
        + "  \"project_version\": "@ + json_str(or_unknown(project_version)) + ",\n"@
        + "  \"schema\": \"serow.rust.metadata.v0\",\n"@ + "  \"source_fingerprint\": "@ + json_str(
        rust.source_fingerprint@,
    ) + ",\n"@ + "  \"types\": [\n"@ + join_spec(
        rust.types@.map_values(|t: GeneratedRustItem| item_json(t)),
        ",\n"@,
    ) + "\n  ],\n"@ + "  \"functions\": [\n"@ + join_spec(
        rust.functions@.map_values(|f: GeneratedRustItem| item_json(f)),
        ",\n"@,
    ) + "\n  ],\n"@ + "  \"tests\": [\n"@ + join_spec(
        rust.tests@.map_values(|t: GeneratedRustTest| test_json(t)),
        ",\n"@,
    ) + "\n  ]\n"@ + "}\n"@
}

/// Writes the entrypoint as a JSON object.
pub fn binary_entrypoint_json(e: &BinaryEntrypoint) -> (res: String)
    ensures
        res@ == entrypoint_json(*e),
{
    let mut s = owned("{");
    s.append("\"line\": ");
    push_decimal(&mut s, e.line);
    s.append(", ");
    s.append("\"return_type\": ");
    push_json(&mut s, e.return_type.as_str());
    s.append(", ");
    s.append("\"rust_name\": ");
    push_json(&mut s, e.rust_name.as_str());
    s.append(", ");
    s.append("\"source_path\": ");
    push_json(&mut s, e.source_path.as_str());
    s.append(", ");
    s.append("\"symbol\": ");
    push_json(&mut s, e.symbol.as_str());
    s.append("}");
    s
}

fn field_text(key: &str, value: String) -> (res: String)
    ensures
        res@ == key@ + value@,
{
    let mut s = owned(key);
    s.append(value.as_str());
    s
}

fn push_index_field(fields: &mut Vec<String>, key: &str, o: Option<usize>)
    ensures
        final(fields)@.map_values(|p: String| p@) == old(fields)@.map_values(|p: String| p@)
            + index_field(key@, o),
{
    let ghost before = fields@.map_values(|p: String| p@);
    match o {
        Some(n) => {
            let mut f = owned("\"");
            f.append(key);
            f.append("\": ");
            push_decimal(&mut f, n);
            fields.push(f);
            assert(fields@.map_values(|p: String| p@) =~= before + index_field(key@, o));
        },
        None => {
            assert(fields@.map_values(|p: String| p@) =~= before + index_field(key@, o));
        },
    }
}

/// Writes one generated test as an indented JSON object.
pub fn generated_test_metadata_json(t: &GeneratedRustTest) -> (res: String)
    ensures
        res@ == test_json(*t),
{
    let mut fields: Vec<String> = Vec::new();
    fields.push(field_text("\"kind\": ", json_string(t.kind.as_str())));
    fields.push(field_text("\"line\": ", usize_text(t.line)));
    fields.push(field_text("\"rust_name\": ", json_string(t.rust_name.as_str())));
    fields.push(field_text("\"source_path\": ", json_string(t.source_path.as_str())));
    fields.push(field_text("\"symbol\": ", json_string(t.symbol.as_str())));
    assert(fields@.map_values(|p: String| p@) =~= seq![
        "\"kind\": "@ + json_str(t.kind@),
        "\"line\": "@ + decimal(t.line as nat),
        "\"rust_name\": "@ + json_str(t.rust_name@),
        "\"source_path\": "@ + json_str(t.source_path@),
        "\"symbol\": "@ + json_str(t.symbol@),
    ]);
    push_index_field(&mut fields, "example_index", t.example_index);
    push_index_field(&mut fields, "property_index", t.property_index);
    push_index_field(&mut fields, "sample_index", t.sample_index);
    let mut s = owned("    {");
    s.append(join_strings(&fields, ", ").as_str());
    s.append("}");
    s
}

fn items_json(items: &Vec<GeneratedRustItem>) -> (res: String)
    ensures
        res@ == join_spec(items@.map_values(|t: GeneratedRustItem| item_json(t)), ",\n"@),
{
    let mut parts: Vec<String> = Vec::new();
    let mut i: usize = 0;
    while i < items.len()
        invariant
            i <= items@.len(),
            parts@.len() == i,
            forall|j: int| 0 <= j < i ==> #[trigger] parts@[j]@ == item_json(items@[j]),
        decreases items@.len() - i,
    {
        let it = &items[i];
        let mut s = owned("    {\"line\": ");
        push_decimal(&mut s, it.line);
        s.append(", \"rust_name\": ");
        push_json(&mut s, it.rust_name.as_str());
        s.append(", \"source_path\": ");
        push_json(&mut s, it.source_path.as_str());
        s.append(", \"symbol\": ");
        push_json(&mut s, it.symbol.as_str());
        s.append("}");
        parts.push(s);
        i += 1;
    }
    assert(parts@.map_values(|p: String| p@) =~= items@.map_values(|t: GeneratedRustItem| item_json(t)));
    join_strings(&parts, ",\n")
}

fn tests_json(tests: &Vec<GeneratedRustTest>) -> (res: String)
    ensures
        res@ == join_spec(tests@.map_values(|t: GeneratedRustTest| test_json(t)), ",\n"@),
{
    let mut parts: Vec<String> = Vec::new();
    let mut i: usize = 0;
    while i < tests.len()
        invariant
            i <= tests@.len(),
            parts@.len() == i,
            forall|j: int| 0 <= j < i ==> #[trigger] parts@[j]@ == test_json(tests@[j]),
        decreases tests@.len() - i,
    {
        parts.push(generated_test_metadata_json(&tests[i]));
        i += 1;
    }
    assert(parts@.map_values(|p: String| p@) =~= tests@.map_values(|t: GeneratedRustTest| test_json(t)));
    join_strings(&parts, ",\n")
}

fn inputs_json(inputs: &[SourceInput]) -> (res: String)
    ensures
        res@ == join_spec(inputs@.map_values(|i: SourceInput| input_json(i)), ",\n"@),
{
    let mut parts: Vec<String> = Vec::new();
    let mut i: usize = 0;
    while i < inputs.len()
        invariant
            i <= inputs@.len(),
            parts@.len() == i,
            forall|j: int| 0 <= j < i ==> #[trigger] parts@[j]@ == input_json(inputs@[j]),
        decreases inputs@.len() - i,
    {
        let it = &inputs[i];
        let mut s = owned("    {\"bytes\": ");
        push_decimal(&mut s, it.bytes);
        s.append(", \"fingerprint\": ");
        push_json(&mut s, it.fingerprint.as_str());
        s.append(", \"path\": ");
        push_json(&mut s, it.path.as_str());
        s.append("}");
        parts.push(s);
        i += 1;
    }
    assert(parts@.map_values(|p: String| p@) =~= inputs@.map_values(|i: SourceInput| input_json(i)));
    join_strings(&parts, ",\n")
}

fn metadata_head_exec(
    crate_name: &str,
    rust: &GeneratedRustProgram,
    input_fingerprint: Option<&str>,
    binary_entrypoint: Option<&BinaryEntrypoint>,
) -> (res: String)
    ensures
        res@ == metadata_head(
            crate_name@,
            *rust,
            input_fingerprint,
            match binary_entrypoint {
                Some(e) => Some(*e),
                None => None,
            },
        ),
{
    let mut s = owned("{\n");
    s.append("  \"backend\": ");
    push_json(&mut s, rust.backend.as_str());
    s.append(",\n");
    s.append("  \"binary_entrypoint\": ");
    match binary_entrypoint {
        Some(e) => {
            s.append(binary_entrypoint_json(e).as_str());
        },
        None => {
            s.append("null");
        },
    }
    s.append(",\n");
    s.append("  \"crate_name\": ");
    push_json(&mut s, crate_name);
    s.append(",\n");
    s.append("  \"generated_counts\": {\"functions\": ");
    push_decimal(&mut s, rust.functions.len());
    s.append(", \"tests\": ");
    push_decimal(&mut s, rust.tests.len());
    s.append(", \"types\": ");
    push_decimal(&mut s, rust.types.len());
    s.append("},\n");
    s.append("  \"input_fingerprint\": ");
    push_json(&mut s, or_unknown_str(input_fingerprint));
    s.append(",\n");
    s
}

/// Writes the generated crate's `serow-metadata.json`.
pub fn render_generated_metadata_json(
    crate_name: &str,
    rust: &GeneratedRustProgram,
    input_fingerprint: Option<&str>,
    source_inputs: &[SourceInput],
    project_version: Option<&str>,
    binary_entrypoint: Option<&BinaryEntrypoint>,
) -> (res: String)
    ensures
        res@ == metadata_json_text(
            crate_name@,
            *rust,
            input_fingerprint,
            source_inputs@,
            project_version,
            match binary_entrypoint {
                Some(e) => Some(*e),
                None => None,
            },
        ),
{
    let mut s = metadata_head_exec(crate_name, rust, input_fingerprint, binary_entrypoint);
    s.append("  \"inputs\": [\n");
    s.append(inputs_json(source_inputs).as_str());
    s.append("\n  ],\n");
    s.append("  \"ir_version\": ");
    push_json(&mut s, rust.ir_version.as_str());
    s.append(",\n");
    s.append("  \"project_version\": ");
    push_json(&mut s, or_unknown_str(project_version));
    s.append(",\n");
    s.append("  \"schema\": \"serow.rust.metadata.v0\",\n");
    s.append("  \"source_fingerprint\": ");
    push_json(&mut s, rust.source_fingerprint.as_str());
    s.append(",\n");
    s.append("  \"types\": [\n");
    s.append(items_json(&rust.types).as_str());
    s.append("\n  ],\n");
    s.append("  \"functions\": [\n");
    s.append(items_json(&rust.functions).as_str());
    s.append("\n  ],\n");
    s.append("  \"tests\": [\n");
    s.append(tests_json(&rust.tests).as_str());
    s.append("\n  ]\n");
    s.append("}\n");
    s
}

// ---------------------------------------------------------------------------
// The binary entrypoint
// ---------------------------------------------------------------------------
/// The symbol and return type of a valid binary entrypoint.
pub struct BinaryEntrypointShape {
    pub symbol: String,
    pub return_type: String,
}

/// The public functions named `main`, in order.
pub open spec fn mains(fs: Seq<Function>) -> Seq<Function>
    decreases fs.len(),
{
    if fs.len() == 0 {
        seq![]
    } else if fs.last().public && fs.last().name@ == "main"@ {
        mains(fs.drop_last()).push(fs.last())
    } else {
        mains(fs.drop_last())
    }
}

/// A binary may return a primitive or a declared type.
pub open spec fn supported_return(rt: Seq<char>, p: Program) -> bool {
    ||| rt == "Text"@
    ||| rt == "Int"@
    ||| rt == "Float"@
    ||| rt == "Bool"@
    ||| rt == "Unit"@
    ||| exists|k: int| 0 <= k < p.types@.len() && (#[trigger] p.types@[k]).name@ == rt
}

/// What is wrong with the one `main`: arguments, and an unsupported return type.
pub open spec fn shape_findings(p: Program, f: Function) -> Seq<Finding> {
    (if f.params@.len() > 0 {
        seq![
            (
                Severity::Error,
                "RustBinaryEntrypointArity"@,
                "Rust binary entrypoint `"@ + symbol_text(f) + "` must take no arguments, but it declares "@
                    + decimal(f.params@.len()) + "."@,
                target_of(f),
                seq![("symbol"@, symbol_text(f)), ("arity"@, decimal(f.params@.len()))],
                no_repairs(),
            ),
        ]
    } else {
        seq![]
    }) + (if !supported_return(f.return_type@, p) {
        seq![
            (
                Severity::Error,
                "RustBinaryUnsupportedEntrypointReturn"@,
                "Rust binary entrypoint `"@ + symbol_text(f) + "` returns unsupported type `"@
                    + f.return_type@
                    + "`; expected Text, Int, Float, Bool, Unit, or a declared record/enum type."@,
                target_of(f),
                seq![
                    ("symbol"@, symbol_text(f)),
                    ("return_type"@, f.return_type@),
                    ("supported_return_types"@, "Text, Int, Float, Bool, Unit, declared records, declared enums"@),
                ],
                no_repairs(),
            ),
        ]
    } else {
        seq![]
    })
}

/// The outcome of checking a program for a binary entrypoint: the one public `main`,
/// taking no arguments and returning a supported type, or what is wrong.
pub open spec fn entrypoint_checked(p: Program, res: Result<BinaryEntrypointShape, Vec<Diagnostic>>) -> bool {
    let m = mains(p.functions@);
    if m.len() == 0 {
        &&& res is Err
        &&& res->Err_0@.len() == 1
        &&& res->Err_0@[0].severity == Severity::Error
        &&& res->Err_0@[0].code@ == "RustBinaryMissingEntrypoint"@
        &&& res->Err_0@[0].message@
            == "Rust binary emission requires exactly one public zero-argument `main` function."@
        &&& res->Err_0@[0].target is None
        &&& data_texts(res->Err_0@[0]) == seq![
            ("expected"@, "pub fn main() -> Text | Int | Float | Bool | Unit | <declared record or enum>"@),
        ]
        &&& repairs_of(res->Err_0@[0]) == no_repairs()
    } else if m.len() > 1 {
        &&& res is Err
        &&& reports_findings(
            res->Err_0@,
            seq![
                (
                    Severity::Error,
                    "RustBinaryAmbiguousEntrypoint"@,
                    "Rust binary emission found more than one public `main` function."@,
                    target_of(m[0]),
                    seq![("symbols"@, join_spec(m.map_values(|f: Function| symbol_text(f)), ", "@))],
                    no_repairs(),
                ),
            ],
        )
    } else if shape_findings(p, m[0]).len() > 0 {
        res is Err && reports_findings(res->Err_0@, shape_findings(p, m[0]))
    } else {
        &&& res is Ok
        &&& res->Ok_0.symbol@ == symbol_text(m[0])
        &&& res->Ok_0.return_type@ == m[0].return_type@
    }
}

fn is_supported_binary_entrypoint_return(type_text: &str, program: &Program) -> (res: bool)
    ensures
        res == supported_return(type_text@, *program),
{
    proof {
        reveal_strlit("Text");
        reveal_strlit("Int");
        reveal_strlit("Float");
        reveal_strlit("Bool");
        reveal_strlit("Unit");
    }
    if crate::text::str_eq(type_text, "Text") || crate::text::str_eq(type_text, "Int")
        || crate::text::str_eq(type_text, "Float") || crate::text::str_eq(type_text, "Bool")
        || crate::text::str_eq(type_text, "Unit") {
        return true;
    }
    let mut k: usize = 0;
    while k < program.types.len()
        invariant
            k <= program.types@.len(),
            forall|j: int| 0 <= j < k ==> (#[trigger] program.types@[j]).name@ != type_text@,
        decreases program.types@.len() - k,
    {
        if crate::text::str_eq(program.types[k].name.as_str(), type_text) {
            return true;
        }
        k += 1;
    }
    false
}

/// Checks that the program has exactly one public `main` that a binary can run.
pub fn validate_binary_entrypoint_shape(program: &Program) -> (res: Result<
    BinaryEntrypointShape,
    Vec<Diagnostic>,
>)
    ensures
        entrypoint_checked(*program, res),
{
    let fs = &program.functions;
    let mut idx: Vec<usize> = Vec::new();
    let mut i: usize = 0;
    proof {
        reveal_strlit("main");
    }
    while i < fs.len()
        invariant
            i <= fs@.len(),
            idx@.len() == mains(fs@.take(i as int)).len(),
            forall|k: int|
                0 <= k < idx@.len() ==> idx@[k] < i && fs@[#[trigger] idx@[k] as int] == mains(fs@.take(i as int))[k],
        decreases fs@.len() - i,
    {
        proof {
            assert(fs@.take(i + 1).drop_last() =~= fs@.take(i as int));
            assert(fs@.take(i + 1).last() == fs@[i as int]);
        }
        if fs[i].public && crate::text::str_eq(fs[i].name.as_str(), "main") {
            idx.push(i);
        }
        i += 1;
    }
    assert(fs@.take(fs@.len() as int) =~= fs@);
    let ghost m = mains(fs@);
    if idx.len() == 0 {
        let d = Diagnostic::error(
            "RustBinaryMissingEntrypoint",
            "Rust binary emission requires exactly one public zero-argument `main` function.",
            None,
        ).with_data("expected", "pub fn main() -> Text | Int | Float | Bool | Unit | <declared record or enum>");
        assert(data_texts(d) =~= seq![
            ("expected"@, "pub fn main() -> Text | Int | Float | Bool | Unit | <declared record or enum>"@),
        ]);
        let mut v: Vec<Diagnostic> = Vec::new();
        v.push(d);
        return Err(v);
    }
    let f = &fs[idx[0]];
    if idx.len() > 1 {
        let mut syms: Vec<String> = Vec::new();
        let mut k: usize = 0;
        while k < idx.len()
            invariant
                k <= idx@.len(),
                idx@.len() == m.len(),
                forall|j: int| 0 <= j < idx@.len() ==> idx@[j] < fs@.len() && fs@[#[trigger] idx@[j] as int] == m[j],
                syms@.len() == k,
                forall|j: int| 0 <= j < k ==> #[trigger] syms@[j]@ == symbol_text(m[j]),
            decreases idx@.len() - k,
        {
            syms.push(fs[idx[k]].symbol());
            k += 1;
        }
        assert(syms@.map_values(|p: String| p@) =~= m.map_values(|f: Function| symbol_text(f)));
        let joined = join_strings(&syms, ", ");
        let d = Diagnostic::error(
            "RustBinaryAmbiguousEntrypoint",
            "Rust binary emission found more than one public `main` function.",
            Some(f.target()),
        ).with_data("symbols", joined.as_str());
        let mut v: Vec<Diagnostic> = Vec::new();
        v.push(d);
        assert(data_texts(d) =~= seq![("symbols"@, join_spec(m.map_values(|f: Function| symbol_text(f)), ", "@))]);
        assert(finding_of(v@[0]) == (
            Severity::Error,
            "RustBinaryAmbiguousEntrypoint"@,
            "Rust binary emission found more than one public `main` function."@,
            target_of(m[0]),
            seq![("symbols"@, join_spec(m.map_values(|f: Function| symbol_text(f)), ", "@))],
            no_repairs(),
        ));
        return Err(v);
    }
    let sym = f.symbol();
    let mut diagnostics: Vec<Diagnostic> = Vec::new();
    let ghost sf = shape_findings(*program, *f);
    if f.params.len() > 0 {
        let n = usize_text(f.params.len());
        let mut msg = owned("Rust binary entrypoint `");
        msg.append(sym.as_str());
        msg.append("` must take no arguments, but it declares ");
        msg.append(n.as_str());
        msg.append(".");
        let d = Diagnostic::error("RustBinaryEntrypointArity", msg.as_str(), Some(f.target()))
            .with_data("symbol", sym.as_str())
            .with_data("arity", n.as_str());
        assert(data_texts(d) =~= seq![("symbol"@, symbol_text(*f)), ("arity"@, decimal(f.params@.len()))]);
        diagnostics.push(d);
    }
    let ghost first = diagnostics@;
    if !is_supported_binary_entrypoint_return(f.return_type.as_str(), program) {
        let mut msg = owned("Rust binary entrypoint `");
        msg.append(sym.as_str());
        msg.append("` returns unsupported type `");
        msg.append(f.return_type.as_str());
        msg.append("`; expected Text, Int, Float, Bool, Unit, or a declared record/enum type.");
        let d = Diagnostic::error("RustBinaryUnsupportedEntrypointReturn", msg.as_str(), Some(f.target()))
            .with_data("symbol", sym.as_str())
            .with_data("return_type", f.return_type.as_str())
            .with_data("supported_return_types", "Text, Int, Float, Bool, Unit, declared records, declared enums");
        assert(data_texts(d) =~= seq![
            ("symbol"@, symbol_text(*f)),
            ("return_type"@, f.return_type@),
            ("supported_return_types"@, "Text, Int, Float, Bool, Unit, declared records, declared enums"@),
        ]);
        diagnostics.push(d);
    }
    if diagnostics.len() == 0 {
        return Ok(BinaryEntrypointShape { symbol: sym, return_type: f.return_type.clone() });
    }
    assert(reports_findings(diagnostics@, sf));
    Err(diagnostics)
}

/// The entrypoint that a valid shape names, found among the generated functions.
pub open spec fn first_generated(fs: Seq<GeneratedRustItem>, sym: Seq<char>, i: int) -> int
    decreases fs.len() - i,
{
    if i < 0 || i >= fs.len() {
        fs.len() as int
    } else if fs[i].symbol@ == sym {
        i
    } else {
        first_generated(fs, sym, i + 1)
    }
}

/// Finds the generated function of a valid entrypoint shape: its Rust name and where its
/// source lies, or an error when the backend did not generate it.
pub fn resolve_binary_entrypoint(shape: &BinaryEntrypointShape, rust: &GeneratedRustProgram) -> (res: Result<
    BinaryEntrypoint,
    Diagnostic,
>)
    ensures
        ({
            let i = first_generated(rust.functions@, shape.symbol@, 0);
            if i < rust.functions@.len() {
                let g = rust.functions@[i];
                res is Ok && res->Ok_0.symbol@ == shape.symbol@ && res->Ok_0.rust_name@ == g.rust_name@
                    && res->Ok_0.return_type@ == shape.return_type@ && res->Ok_0.source_path@
                    == g.source_path@ && res->Ok_0.line == g.line
            } else {
                &&& res is Err
                &&& res->Err_0.severity == Severity::Error
                &&& res->Err_0.code@ == "RustBinaryEntrypointNotGenerated"@
                &&& res->Err_0.message@ == "Rust binary entrypoint `"@ + shape.symbol@
                    + "` was valid in source but was not present in generated Rust output."@
                &&& res->Err_0.target is Some && res->Err_0.target->0@ == shape.symbol@
                &&& data_texts(res->Err_0) == seq![("symbol"@, shape.symbol@)]
                &&& repairs_of(res->Err_0) == no_repairs()
            }
        }),
{
    let mut i: usize = 0;
    while i < rust.functions.len()
        invariant
            i <= rust.functions@.len(),
            first_generated(rust.functions@, shape.symbol@, i as int) == first_generated(
                rust.functions@,
                shape.symbol@,
                0,
            ),
        decreases rust.functions@.len() - i,
    {
        let g = &rust.functions[i];
        if crate::text::str_eq(g.symbol.as_str(), shape.symbol.as_str()) {
            return Ok(BinaryEntrypoint {
                symbol: shape.symbol.clone(),
                rust_name: g.rust_name.clone(),
                return_type: shape.return_type.clone(),
                source_path: g.source_path.clone(),
                line: g.line,
            });
        }
        i += 1;
    }
    let mut msg = owned("Rust binary entrypoint `");
    msg.append(shape.symbol.as_str());
    msg.append("` was valid in source but was not present in generated Rust output.");
    let d = Diagnostic::error("RustBinaryEntrypointNotGenerated", msg.as_str(), Some(shape.symbol.clone()))
        .with_data("symbol", shape.symbol.as_str());
    assert(data_texts(d) =~= seq![("symbol"@, shape.symbol@)]);
    Err(d)
}

// ---------------------------------------------------------------------------
// Crate names
// ---------------------------------------------------------------------------
/// A character of a generated crate's name: a lower-case ASCII letter, a digit, `_` or `-`.
pub open spec fn crate_name_char(c: char) -> bool {
    ('a' <= c && c <= 'z') || ('0' <= c && c <= '9') || c == '_' || c == '-'
}

/// What is wrong with a crate name, if anything.
pub open spec fn crate_name_error(n: Seq<char>) -> Option<Seq<char>> {
    if n.len() == 0 {
        Some("`--crate-name` cannot be empty."@)
    } else if !('a' <= n[0] && n[0] <= 'z') {
        Some("`--crate-name` must start with a lowercase ASCII letter."@)
    } else if !(forall|i: int| 0 <= i < n.len() ==> crate_name_char(#[trigger] n[i])) {
        Some("`--crate-name` may only contain lowercase ASCII letters, digits, `_`, or `-`."@)
    } else {
        None
    }
}

/// Checks a name for the generated crate.
pub fn validate_rust_crate_name(crate_name: &str) -> (res: Result<(), String>)
    ensures
        match crate_name_error(crate_name@) {
            Some(m) => res is Err && res->Err_0@ == m,
            None => res is Ok,
        },
{
    let cs = crate::text::chars_of(crate_name);
    if cs.len() == 0 {
        return Err(owned("`--crate-name` cannot be empty."));
    }
    if !('a' <= cs[0] && cs[0] <= 'z') {
        return Err(owned("`--crate-name` must start with a lowercase ASCII letter."));
    }
    let mut i: usize = 0;
    while i < cs.len()
        invariant
            i <= cs@.len(),
            cs@ == crate_name@,
            cs@.len() > 0,
            'a' <= cs@[0] && cs@[0] <= 'z',
            forall|j: int| 0 <= j < i ==> crate_name_char(#[trigger] cs@[j]),
        decreases cs@.len() - i,
    {
        let c = cs[i];
        if !(('a' <= c && c <= 'z') || ('0' <= c && c <= '9') || c == '_' || c == '-') {
            assert(!crate_name_char(cs@[i as int]));
            return Err(owned("`--crate-name` may only contain lowercase ASCII letters, digits, `_`, or `-`."));
        }
        i += 1;
    }
    Ok(())
}

} // verus!
