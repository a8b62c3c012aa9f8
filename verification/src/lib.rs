use vstd::prelude::*;

pub mod graph;
pub mod text;
pub mod yaml;
pub mod yaml_text;
pub mod metadata;
pub mod recipe;
pub mod manifest;
pub mod ids;
pub mod markdown;
pub mod description;
pub mod create;
pub mod placement;
pub mod paths;
pub mod run;
pub mod lock_owner;
pub mod halt;
pub mod program;
pub mod ledger;
pub mod machine;
pub mod release;
pub mod gitcheck;
pub mod options;
pub mod notices;
pub mod frontmatter;
pub mod exit;
pub mod prompt;
pub mod conditions;
pub mod ready;
pub mod waiting;
pub mod advance;
pub mod diagnose;
pub mod order;
pub mod reset;
pub mod mode;
pub mod install;
pub mod pool;
pub mod next_output;
pub mod claim;
pub mod pass;

verus! {

} // verus!
