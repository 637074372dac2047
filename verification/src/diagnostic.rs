//! Structured diagnostics with machine-readable repair actions.
use vstd::prelude::*;
use vstd::string::*;

use crate::text::{
    append_chars, chars_of, is_alnum, join_spec, join_strings, owned, push_char, str_eq, trim,
    trim_chars,
};

verus! {

#[derive(Clone, Copy, Debug, PartialEq, Eq, Structural)]
pub enum Severity {
    Error,
    Warning,
}

impl Severity {
    pub fn as_str(&self) -> (res: &'static str)
        ensures
            res@ == (match self {
                Severity::Error => "error"@,
                Severity::Warning => "warning"@,
            }),
    {
        match self {
            Severity::Error => "error",
            Severity::Warning => "warning",
        }
    }
}

#[derive(Clone, Debug, PartialEq, Eq)]
pub struct Diagnostic {
    pub severity: Severity,
    pub code: String,
    pub message: String,
    pub target: Option<String>,
    pub data: Vec<(String, String)>,
    pub repairs: Vec<String>,
    pub repair_actions: Vec<RepairAction>,
}

#[derive(Clone, Debug, PartialEq, Eq)]
pub struct RepairAction {
    pub kind: String,
    pub label: String,
    pub command: Vec<String>,
}

/// A fresh diagnostic: the given severity, code, message and target, nothing else.
pub open spec fn fresh(
    d: Diagnostic,
    severity: Severity,
    code: Seq<char>,
    message: Seq<char>,
    target: Option<String>,
) -> bool {
    &&& d.severity == severity
    &&& d.code@ == code
    &&& d.message@ == message
    &&& d.target == target
    &&& d.data@.len() == 0
    &&& d.repairs@.len() == 0
    &&& d.repair_actions@.len() == 0
}

/// `b` is `a` with only its data extended by one entry.
pub open spec fn with_entry(a: Diagnostic, b: Diagnostic, key: Seq<char>, value: Seq<char>) -> bool {
    &&& b.severity == a.severity
    &&& b.code == a.code
    &&& b.message == a.message
    &&& b.target == a.target
    &&& b.data@.len() == a.data@.len() + 1
    &&& b.data@.take(a.data@.len() as int) == a.data@
    &&& b.data@.last().0@ == key
    &&& b.data@.last().1@ == value
    &&& b.repairs == a.repairs
    &&& b.repair_actions == a.repair_actions
}

/// `p` needs no quoting in a shell command line.
pub open spec fn plain_word(p: Seq<char>) -> bool {
    forall|i: int|
        0 <= i < p.len() ==> is_alnum(#[trigger] p[i]) || p[i] == '-' || p[i] == '_' || p[i]
            == '.' || p[i] == '/' || p[i] == ':' || p[i] == '@'
}

/// `p` with each backslash and double quote escaped by a backslash.
pub open spec fn escape_quoted(p: Seq<char>) -> Seq<char>
    decreases p.len(),
{
    if p.len() == 0 {
        seq![]
    } else {
        let c = p.last();
        let e = if c == '\\' {
            seq!['\\', '\\']
        } else if c == '"' {
            seq!['\\', '"']
        } else {
            seq![c]
        };
        escape_quoted(p.drop_last()) + e
    }
}

/// One argument as a shell reads it back: bare when plain, else double-quoted.
pub open spec fn shell_word(p: Seq<char>) -> Seq<char> {
    if plain_word(p) {
        p
    } else {
        seq!['"'] + escape_quoted(p) + seq!['"']
    }
}

/// A command line with every argument shell-quoted and joined by spaces.
pub open spec fn shell_text(command: Seq<String>) -> Seq<char> {
    join_spec(command.map_values(|p: String| shell_word(p@)), " "@)
}

/// A repair action as plain values: its kind, label and argv.
pub type ActionView = (Seq<char>, Seq<char>, Seq<Seq<char>>);

/// The prose repairs and the structured repair actions of a diagnostic.
pub type Repairs = (Seq<Seq<char>>, Seq<ActionView>);

pub open spec fn strs(v: Seq<String>) -> Seq<Seq<char>> {
    v.map_values(|s: String| s@)
}

pub open spec fn action_view(a: RepairAction) -> ActionView {
    (a.kind@, a.label@, strs(a.command@))
}

pub open spec fn repairs_of(d: Diagnostic) -> Repairs {
    (strs(d.repairs@), d.repair_actions@.map_values(|a: RepairAction| action_view(a)))
}

pub open spec fn no_repairs() -> Repairs {
    (seq![], seq![])
}

/// `r` with one more prose repair.
pub open spec fn add_prose(r: Repairs, line: Seq<char>) -> Repairs {
    (r.0.push(line), r.1)
}

/// An argv as one shell line.
pub open spec fn shell_line(cmd: Seq<Seq<char>>) -> Seq<char> {
    join_spec(cmd.map_values(|p: Seq<char>| shell_word(p)), " "@)
}

/// `r` with one more runnable repair: the prose line `label: `argv`.` and the action.
pub open spec fn add_command(r: Repairs, label: Seq<char>, cmd: Seq<Seq<char>>) -> Repairs {
    (r.0.push(label + ": `"@ + shell_line(cmd) + "`."@), r.1.push(("command"@, label, cmd)))
}

/// Appends one argument to an argv.
pub fn push_arg(v: &mut Vec<String>, s: String)
    ensures
        strs(final(v)@) == strs(old(v)@).push(s@),
{
    let ghost before = v@;
    v.push(s);
    assert(strs(v@) =~= strs(before).push(s@));
}

fn is_plain_char(c: char) -> (b: bool)
    ensures
        b == (is_alnum(c) || c == '-' || c == '_' || c == '.' || c == '/' || c == ':' || c
            == '@'),
{
    crate::text::ascii_alnum(c) || c == '-' || c == '_' || c == '.' || c == '/' || c == ':' || c
        == '@'
}

fn shell_word_of(part: &String) -> (res: String)
    ensures
        res@ == shell_word(part@),
{
    let cs = chars_of(part.as_str());
    let mut plain = true;
    let mut i: usize = 0;
    while i < cs.len()
        invariant
            i <= cs@.len(),
            cs@ == part@,
            plain == (forall|j: int|
                0 <= j < i ==> is_alnum(#[trigger] cs@[j]) || cs@[j] == '-' || cs@[j] == '_'
                    || cs@[j] == '.' || cs@[j] == '/' || cs@[j] == ':' || cs@[j] == '@'),
        decreases cs@.len() - i,
    {
        if !is_plain_char(cs[i]) {
            plain = false;
        }
        i += 1;
    }
    if plain {
        return part.clone();
    }
    let mut out = String::new();
    push_char(&mut out, '"');
    let mut k: usize = 0;
    while k < cs.len()
        invariant
            k <= cs@.len(),
            out@ == seq!['"'] + escape_quoted(cs@.take(k as int)),
        decreases cs@.len() - k,
    {
        let c = cs[k];
        proof {
            assert(cs@.take(k + 1).drop_last() =~= cs@.take(k as int));
        }
        if c == '\\' {
            push_char(&mut out, '\\');
            push_char(&mut out, '\\');
        } else if c == '"' {
            push_char(&mut out, '\\');
            push_char(&mut out, '"');
        } else {
            push_char(&mut out, c);
        }
        assert(out@ =~= seq!['"'] + escape_quoted(cs@.take(k + 1)));
        k += 1;
    }
    push_char(&mut out, '"');
    assert(cs@.take(cs@.len() as int) =~= cs@);
    out
}

/// The command written as a shell line, with arguments quoted where needed.
pub fn shell_command_text(command: &Vec<String>) -> (res: String)
    ensures
        res@ == shell_text(command@),
{
    let mut words: Vec<String> = Vec::new();
    let mut i: usize = 0;
    while i < command.len()
        invariant
            i <= command@.len(),
            words@.len() == i,
            forall|k: int| 0 <= k < i ==> #[trigger] words@[k]@ == shell_word(command@[k]@),
        decreases command@.len() - i,
    {
        words.push(shell_word_of(&command[i]));
        i += 1;
    }
    assert(words@.map_values(|p: String| p@) =~= command@.map_values(
        |p: String| shell_word(p@),
    ));
    join_strings(&words, " ")
}

impl Diagnostic {
    pub fn error(code: &str, message: &str, target: Option<String>) -> (res: Self)
        ensures
            fresh(res, Severity::Error, code@, message@, target),
            repairs_of(res) == no_repairs(),
    {
        Diagnostic {
            severity: Severity::Error,
            code: owned(code),
            message: owned(message),
            target,
            data: Vec::new(),
            repairs: Vec::new(),
            repair_actions: Vec::new(),
        }
    }

    pub fn warning(code: &str, message: &str, target: Option<String>) -> (res: Self)
        ensures
            fresh(res, Severity::Warning, code@, message@, target),
            repairs_of(res) == no_repairs(),
    {
        Diagnostic {
            severity: Severity::Warning,
            code: owned(code),
            message: owned(message),
            target,
            data: Vec::new(),
            repairs: Vec::new(),
            repair_actions: Vec::new(),
        }
    }

    pub fn with_data(self, key: &str, value: &str) -> (res: Self)
        ensures
            with_entry(self, res, key@, value@),
            repairs_of(res) == repairs_of(self),
    {
        let mut d = self;
        d.data.push((owned(key), owned(value)));
        assert(d.data@.take(self.data@.len() as int) =~= self.data@);
        d
    }

    pub fn with_repair(self, repair: &str) -> (res: Self)
        ensures
            res.severity == self.severity,
            res.code == self.code,
            res.message == self.message,
            res.target == self.target,
            res.data == self.data,
            res.repairs@.len() == self.repairs@.len() + 1,
            res.repairs@.take(self.repairs@.len() as int) == self.repairs@,
            res.repairs@.last()@ == repair@,
            res.repair_actions == self.repair_actions,
            repairs_of(res) == add_prose(repairs_of(self), repair@),
    {
        let mut d = self;
        d.repairs.push(owned(repair));
        assert(d.repairs@.take(self.repairs@.len() as int) =~= self.repairs@);
        assert(strs(d.repairs@) =~= strs(self.repairs@).push(repair@));
        d
    }

    /// Adds a runnable repair: a prose line `label: `command`.` and the structured action.
    pub fn with_command_repair(self, label: &str, command: Vec<String>) -> (res: Self)
        ensures
            res.severity == self.severity,
            res.code == self.code,
            res.message == self.message,
            res.target == self.target,
            res.data == self.data,
            res.repairs@.len() == self.repairs@.len() + 1,
            res.repairs@.take(self.repairs@.len() as int) == self.repairs@,
            res.repairs@.last()@ == label@ + ": `"@ + shell_text(command@) + "`."@,
            res.repair_actions@.len() == self.repair_actions@.len() + 1,
            res.repair_actions@.take(self.repair_actions@.len() as int) == self.repair_actions@,
            res.repair_actions@.last().kind@ == "command"@,
            res.repair_actions@.last().label@ == label@,
            res.repair_actions@.last().command == command,
            repairs_of(res) == add_command(repairs_of(self), label@, strs(command@)),
    {
        let mut d = self;
        let mut line = owned(label);
        line.append(": `");
        let text = shell_command_text(&command);
        line.append(text.as_str());
        line.append("`.");
        d.repairs.push(line);
        d.repair_actions.push(
            RepairAction { kind: owned("command"), label: owned(label), command },
        );
        assert(d.repairs@.take(self.repairs@.len() as int) =~= self.repairs@);
        assert(d.repair_actions@.take(self.repair_actions@.len() as int) =~= self.repair_actions@);
        proof {
            let cv = strs(d.repair_actions@.last().command@);
            assert(cv.map_values(|p: Seq<char>| shell_word(p)) =~= d.repair_actions@.last().command@.map_values(
                |p: String| shell_word(p@),
            ));
            assert(strs(d.repairs@) =~= strs(self.repairs@).push(d.repairs@.last()@));
            assert(d.repair_actions@.map_values(|a: RepairAction| action_view(a)) =~= self.repair_actions@.map_values(
                |a: RepairAction| action_view(a),
            ).push(action_view(d.repair_actions@.last())));
        }
        d
    }
}


/// A copy of a list of key/value pairs.
pub fn copy_pairs(v: &Vec<(String, String)>) -> (res: Vec<(String, String)>)
    ensures
        res@ == v@,
{
    let mut res: Vec<(String, String)> = Vec::new();
    let mut i: usize = 0;
    while i < v.len()
        invariant
            i <= v@.len(),
            res@ == v@.take(i as int),
        decreases v@.len() - i,
    {
        res.push((v[i].0.clone(), v[i].1.clone()));
        assert(res@ =~= v@.take(i + 1));
        i += 1;
    }
    assert(v@.take(v@.len() as int) =~= v@);
    res
}

/// Two repair actions with the same kind, label and command.
pub open spec fn same_action(a: RepairAction, b: RepairAction) -> bool {
    a.kind == b.kind && a.label == b.label && a.command@ == b.command@
}

/// Two diagnostics that agree field by field.
pub open spec fn same_diagnostic(a: Diagnostic, b: Diagnostic) -> bool {
    &&& a.severity == b.severity
    &&& a.code == b.code
    &&& a.message == b.message
    &&& a.target == b.target
    &&& a.data@ == b.data@
    &&& a.repairs@ == b.repairs@
    &&& a.repair_actions@.len() == b.repair_actions@.len()
    &&& forall|k: int| 0 <= k < a.repair_actions@.len() ==> same_action(#[trigger] a.repair_actions@[k], b.repair_actions@[k])
}

impl RepairAction {
    pub fn copy(&self) -> (res: RepairAction)
        ensures
            same_action(res, *self),
    {
        RepairAction {
            kind: self.kind.clone(),
            label: self.label.clone(),
            command: crate::model::copy_strings(&self.command),
        }
    }
}

impl Diagnostic {
    /// A field-for-field copy.
    pub fn copy(&self) -> (res: Diagnostic)
        ensures
            same_diagnostic(res, *self),
    {
        let mut actions: Vec<RepairAction> = Vec::new();
        let mut i: usize = 0;
        while i < self.repair_actions.len()
            invariant
                i <= self.repair_actions@.len(),
                actions@.len() == i,
                forall|k: int| 0 <= k < i ==> same_action(#[trigger] actions@[k], self.repair_actions@[k]),
            decreases self.repair_actions@.len() - i,
        {
            actions.push(self.repair_actions[i].copy());
            i += 1;
        }
        let target = match &self.target {
            Some(t) => Some(t.clone()),
            None => None,
        };
        let res = Diagnostic {
            severity: self.severity,
            code: self.code.clone(),
            message: self.message.clone(),
            target,
            data: copy_pairs(&self.data),
            repairs: crate::model::copy_strings(&self.repairs),
            repair_actions: actions,
        };
        res
    }
}

/// A copy of a list of diagnostics.
pub fn copy_diagnostics(v: &Vec<Diagnostic>) -> (res: Vec<Diagnostic>)
    ensures
        res@.len() == v@.len(),
        forall|k: int| 0 <= k < v@.len() ==> same_diagnostic(#[trigger] res@[k], v@[k]),
{
    let mut res: Vec<Diagnostic> = Vec::new();
    let mut i: usize = 0;
    while i < v.len()
        invariant
            i <= v@.len(),
            res@.len() == i,
            forall|k: int| 0 <= k < i ==> same_diagnostic(#[trigger] res@[k], v@[k]),
        decreases v@.len() - i,
    {
        res.push(v[i].copy());
        i += 1;
    }
    res
}

pub open spec fn any_error(ds: Seq<Diagnostic>) -> bool {
    exists|i: int| 0 <= i < ds.len() && #[trigger] ds[i].severity == Severity::Error
}

/// Whether any diagnostic is an error.
pub fn has_errors(diagnostics: &[Diagnostic]) -> (res: bool)
    ensures
        res == any_error(diagnostics@),
{
    let mut i: usize = 0;
    while i < diagnostics.len()
        invariant
            i <= diagnostics@.len(),
            forall|j: int| 0 <= j < i ==> #[trigger] diagnostics@[j].severity != Severity::Error,
        decreases diagnostics@.len() - i,
    {
        if diagnostics[i].severity == Severity::Error {
            return true;
        }
        i += 1;
    }
    false
}

// ---------------------------------------------------------------------------
// Repair-action contracts
// ---------------------------------------------------------------------------
pub open spec fn top_level_subcommands() -> Seq<Seq<char>> {
    seq!["agent"@, "certify"@, "check"@, "fmt"@, "plan"@]
}

pub open spec fn patch_subcommands() -> Seq<Seq<char>> {
    seq![
        "add-contract"@,
        "add-example"@,
        "add-function"@,
        "add-migration"@,
        "add-property"@,
        "add-use"@,
        "fill-hole"@,
        "remove-contract"@,
        "remove-example"@,
        "remove-migration"@,
        "remove-property"@,
        "rename-function"@,
        "set-contract"@,
        "set-effects"@,
        "set-example"@,
        "set-impl"@,
        "set-intent"@,
        "set-property"@,
        "set-signature"@,
        "set-version"@,
    ]
}

pub open spec fn query_subcommands() -> Seq<Seq<char>> {
    seq!["callees"@, "dependents"@, "impact"@, "intent"@, "symbol"@, "symbols"@]
}

pub open spec fn replay_subcommands() -> Seq<Seq<char>> {
    seq!["property"@]
}

pub open spec fn listed(list: Seq<Seq<char>>, x: Seq<char>) -> bool {
    exists|k: int| 0 <= k < list.len() && #[trigger] list[k] == x
}

/// What is wrong with a nested subcommand, if anything.
pub open spec fn nested_issue(command: Seq<String>, allowed: Seq<Seq<char>>) -> Option<
    Seq<char>,
> {
    if command.len() < 3 {
        Some("missing `"@ + command[1]@ + "` subcommand"@)
    } else if listed(allowed, command[2]@) {
        None
    } else {
        Some("unknown `"@ + command[1]@ + "` subcommand `"@ + command[2]@ + "`"@)
    }
}

/// What is wrong with a structured repair action, if anything.
pub open spec fn repair_issue(a: RepairAction) -> Option<Seq<char>> {
    let c = a.command@;
    if a.kind@ != "command"@ {
        Some("unsupported repair action kind `"@ + a.kind@ + "`"@)
    } else if trim(a.label@).len() == 0 {
        Some("missing repair action label"@)
    } else if c.len() == 0 {
        Some("missing command argv"@)
    } else if exists|k: int| 0 <= k < c.len() && trim(#[trigger] c[k]@).len() == 0 {
        Some("command argv contains an empty argument"@)
    } else if c[0]@ != "bin/serow"@ {
        Some("command must start with `bin/serow`"@)
    } else if c.len() < 2 {
        Some("missing Serow subcommand"@)
    } else if listed(top_level_subcommands(), c[1]@) {
        None
    } else if c[1]@ == "patch"@ {
        nested_issue(c, patch_subcommands())
    } else if c[1]@ == "query"@ {
        nested_issue(c, query_subcommands())
    } else if c[1]@ == "replay"@ {
        nested_issue(c, replay_subcommands())
    } else {
        Some("unknown Serow subcommand `"@ + c[1]@ + "`"@)
    }
}

fn in_list(x: &String, list: &[&str]) -> (res: bool)
    ensures
        res == listed(list@.map_values(|s: &str| s@), x@),
{
    let ghost lv = list@.map_values(|s: &str| s@);
    let mut i: usize = 0;
    while i < list.len()
        invariant
            i <= list@.len(),
            lv == list@.map_values(|s: &str| s@),
            forall|k: int| 0 <= k < i ==> lv[k] != x@,
        decreases list@.len() - i,
    {
        if str_eq(x.as_str(), list[i]) {
            assert(lv[i as int] == x@);
            return true;
        }
        i += 1;
    }
    false
}

fn nested_command_issue(command: &Vec<String>, allowed: &[&str]) -> (res: Option<String>)
    requires
        command@.len() >= 2,
    ensures
        match (res, nested_issue(command@, allowed@.map_values(|s: &str| s@))) {
            (Some(r), Some(m)) => r@ == m,
            (None, None) => true,
            _ => false,
        },
{
    if command.len() < 3 {
        let mut m = owned("missing `");
        m.append(command[1].as_str());
        m.append("` subcommand");
        return Some(m);
    }
    if in_list(&command[2], allowed) {
        None
    } else {
        let mut m = owned("unknown `");
        m.append(command[1].as_str());
        m.append("` subcommand `");
        m.append(command[2].as_str());
        m.append("`");
        Some(m)
    }
}

fn is_blank(s: &String) -> (res: bool)
    ensures
        res == (trim(s@).len() == 0),
{
    let cs = chars_of(s.as_str());
    let t = trim_chars(&cs);
    t.len() == 0
}

/// What is wrong with a structured repair action, if anything.
pub fn repair_action_issue(action: &RepairAction) -> (res: Option<String>)
    ensures
        match (res, repair_issue(*action)) {
            (Some(r), Some(m)) => r@ == m,
            (None, None) => true,
            _ => false,
        },
{
    let c = &action.command;
    if !str_eq(action.kind.as_str(), "command") {
        let mut m = owned("unsupported repair action kind `");
        m.append(action.kind.as_str());
        m.append("`");
        return Some(m);
    }
    if is_blank(&action.label) {
        return Some(owned("missing repair action label"));
    }
    if c.len() == 0 {
        return Some(owned("missing command argv"));
    }
    let mut i: usize = 0;
    while i < c.len()
        invariant
            i <= c@.len(),
            c@.len() > 0,
            *c == action.command,
            action.kind@ == "command"@,
            trim(action.label@).len() != 0,
            forall|k: int| 0 <= k < i ==> trim(#[trigger] c@[k]@).len() != 0,
        decreases c@.len() - i,
    {
        if is_blank(&c[i]) {
            assert(trim(c@[i as int]@).len() == 0);
            return Some(owned("command argv contains an empty argument"));
        }
        i += 1;
    }
    if !str_eq(c[0].as_str(), "bin/serow") {
        return Some(owned("command must start with `bin/serow`"));
    }
    if c.len() < 2 {
        return Some(owned("missing Serow subcommand"));
    }
    let top: [&str; 5] = ["agent", "certify", "check", "fmt", "plan"];
    assert(top@.map_values(|s: &str| s@) =~= top_level_subcommands());
    if in_list(&c[1], &top) {
        return None;
    }
    if str_eq(c[1].as_str(), "patch") {
        let allowed: [&str; 20] = [
            "add-contract",
            "add-example",
            "add-function",
            "add-migration",
            "add-property",
            "add-use",
            "fill-hole",
            "remove-contract",
            "remove-example",
            "remove-migration",
            "remove-property",
            "rename-function",
            "set-contract",
            "set-effects",
            "set-example",
            "set-impl",
            "set-intent",
            "set-property",
            "set-signature",
            "set-version",
        ];
        assert(allowed@.map_values(|s: &str| s@) =~= patch_subcommands());
        return nested_command_issue(c, &allowed);
    }
    if str_eq(c[1].as_str(), "query") {
        let allowed: [&str; 6] = ["callees", "dependents", "impact", "intent", "symbol", "symbols"];
        assert(allowed@.map_values(|s: &str| s@) =~= query_subcommands());
        return nested_command_issue(c, &allowed);
    }
    if str_eq(c[1].as_str(), "replay") {
        let allowed: [&str; 1] = ["property"];
        assert(allowed@.map_values(|s: &str| s@) =~= replay_subcommands());
        return nested_command_issue(c, &allowed);
    }
    let mut m = owned("unknown Serow subcommand `");
    m.append(c[1].as_str());
    m.append("`");
    Some(m)
}

/// The (diagnostic index, action index, issue) of every broken repair action of one
/// diagnostic, in order.
pub open spec fn action_issues(d: int, actions: Seq<RepairAction>) -> Seq<(int, int, Seq<char>)>
    decreases actions.len(),
{
    if actions.len() == 0 {
        seq![]
    } else {
        let prev = action_issues(d, actions.drop_last());
        match repair_issue(actions.last()) {
            Some(m) => prev.push((d, actions.len() - 1, m)),
            None => prev,
        }
    }
}

/// Every broken repair action across a list of diagnostics, in order.
pub open spec fn all_action_issues(ds: Seq<Diagnostic>) -> Seq<(int, int, Seq<char>)>
    decreases ds.len(),
{
    if ds.len() == 0 {
        seq![]
    } else {
        all_action_issues(ds.drop_last()) + action_issues(
            ds.len() - 1,
            ds.last().repair_actions@,
        )
    }
}

/// `r` is the contract-violation error reported for action `a` of diagnostic `d`.
pub open spec fn violation_report(r: Diagnostic, d: Diagnostic, a: RepairAction, issue: Seq<char>) -> bool {
    &&& r.severity == Severity::Error
    &&& r.code@ == "RepairActionContractViolation"@
    &&& r.message@ == "Diagnostic `"@ + d.code@ + "` has an invalid structured repair action: "@
        + issue + "."@
    &&& r.target == d.target
    &&& r.data@.len() == 3
    &&& r.data@[0].0@ == "diagnostic_code"@
    &&& r.data@[0].1@ == d.code@
    &&& r.data@[1].0@ == "action_label"@
    &&& r.data@[1].1@ == a.label@
    &&& r.data@[2].0@ == "command"@
    &&& r.data@[2].1@ == join_spec(a.command@.map_values(|p: String| p@), " "@)
    &&& r.repairs@.len() == 0
    &&& r.repair_actions@.len() == 0
}

pub open spec fn reports_issues(
    res: Seq<Diagnostic>,
    ds: Seq<Diagnostic>,
    issues: Seq<(int, int, Seq<char>)>,
) -> bool {
    &&& res.len() == issues.len()
    &&& forall|k: int|
        0 <= k < issues.len() ==> {
            let (d, a, m) = #[trigger] issues[k];
            &&& 0 <= d < ds.len()
            &&& 0 <= a < ds[d].repair_actions@.len()
            &&& violation_report(res[k], ds[d], ds[d].repair_actions@[a], m)
        }
}

proof fn lemma_action_issues_bounds(d: int, actions: Seq<RepairAction>)
    ensures
        forall|k: int|
            0 <= k < action_issues(d, actions).len() ==> {
                let (x, a, m) = #[trigger] action_issues(d, actions)[k];
                &&& x == d
                &&& 0 <= a < actions.len()
                &&& repair_issue(actions[a]) == Some(m)
            },
    decreases actions.len(),
{
    if actions.len() > 0 {
        lemma_action_issues_bounds(d, actions.drop_last());
    }
}

/// One error per structured repair action that breaks the repair-action contract.
pub fn validate_repair_actions(diagnostics: &[Diagnostic]) -> (res: Vec<Diagnostic>)
    ensures
        reports_issues(res@, diagnostics@, all_action_issues(diagnostics@)),
{
    let mut out: Vec<Diagnostic> = Vec::new();
    let mut i: usize = 0;
    while i < diagnostics.len()
        invariant
            i <= diagnostics@.len(),
            reports_issues(out@, diagnostics@, all_action_issues(diagnostics@.take(i as int))),
        decreases diagnostics@.len() - i,
    {
        let d = &diagnostics[i];
        proof {
            assert(diagnostics@.take(i + 1).drop_last() =~= diagnostics@.take(i as int));
        }
        let ghost base = out@;
        let ghost prefix = all_action_issues(diagnostics@.take(i as int));
        let mut j: usize = 0;
        while j < d.repair_actions.len()
            invariant
                i < diagnostics@.len(),
                *d == diagnostics@[i as int],
                j <= d.repair_actions@.len(),
                prefix == all_action_issues(diagnostics@.take(i as int)),
                out@.len() == prefix.len() + action_issues(i as int, d.repair_actions@.take(j as int)).len(),
                out@.take(prefix.len() as int) == base,
                reports_issues(base, diagnostics@, prefix),
                reports_issues(
                    out@.skip(prefix.len() as int),
                    diagnostics@,
                    action_issues(i as int, d.repair_actions@.take(j as int)),
                ),
            decreases d.repair_actions@.len() - j,
        {
            let action = &d.repair_actions[j];
            proof {
                assert(d.repair_actions@.take(j + 1).drop_last() =~= d.repair_actions@.take(j as int));
            }
            if let Some(issue) = repair_action_issue(action) {
                let mut message = owned("Diagnostic `");
                message.append(d.code.as_str());
                message.append("` has an invalid structured repair action: ");
                message.append(issue.as_str());
                message.append(".");
                let joined = join_strings(&action.command, " ");
                let target = crate::model::copy_opt_string(&d.target);
                let report = Diagnostic::error(
                    "RepairActionContractViolation",
                    message.as_str(),
                    target,
                ).with_data("diagnostic_code", d.code.as_str()).with_data(
                    "action_label",
                    action.label.as_str(),
                ).with_data("command", joined.as_str());
                let ghost before = out@;
                out.push(report);
                proof {
                    assert(report.data@[0] == report.data@.take(2).take(1)[0]);
                    assert(report.data@[1] == report.data@.take(2)[1]);
                    let s_old = before.skip(prefix.len() as int);
                    let s_new = out@.skip(prefix.len() as int);
                    assert(s_new =~= s_old.push(report));
                    assert(out@.take(prefix.len() as int) =~= before.take(prefix.len() as int));
                }
            }
            j += 1;
        }
        proof {
            assert(d.repair_actions@.take(d.repair_actions@.len() as int) =~= d.repair_actions@);
            let acts = action_issues(i as int, d.repair_actions@);
            lemma_action_issues_bounds(i as int, d.repair_actions@);
            let all = all_action_issues(diagnostics@.take(i + 1));
            assert(all == prefix + acts);
            assert(out@ =~= base + out@.skip(prefix.len() as int));
            assert forall|k: int| 0 <= k < all.len() implies {
                let (dd, a, m) = #[trigger] all[k];
                &&& 0 <= dd < diagnostics@.len()
                &&& 0 <= a < diagnostics@[dd].repair_actions@.len()
                &&& violation_report(out@[k], diagnostics@[dd], diagnostics@[dd].repair_actions@[a], m)
            } by {
                if k < prefix.len() {
                    assert(all[k] == prefix[k]);
                    assert(out@[k] == base[k]);
                } else {
                    assert(all[k] == acts[k - prefix.len()]);
                    assert(out@[k] == out@.skip(prefix.len() as int)[k - prefix.len()]);
                }
            }
        }
        i += 1;
    }
    proof {
        assert(diagnostics@.take(diagnostics@.len() as int) =~= diagnostics@);
    }
    out
}

} // verus!
