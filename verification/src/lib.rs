pub mod text;
pub mod model;
pub mod diagnostic;
pub mod intrinsics;
pub mod eval;
pub mod types;
pub mod parser;
pub mod formatter;
pub mod checker;
pub mod ledger;
pub mod ir;
pub mod json;
pub mod lowering;
pub mod patch;
pub mod pinning;
pub mod qualify;
pub mod artifacts;
pub mod plan;
pub mod impact;
pub mod calls;
pub mod project;
pub mod checks;
pub mod edits;
pub mod lookup;
pub mod planning;
pub mod renames;
pub mod values;
pub mod evaluator;
pub mod evidence;
pub mod duplicates;
pub mod changes;
pub mod symbols;
pub mod coverage;
pub mod changeset;
