//! The verified core of `stepci`, a native debugger for GitHub Actions
//! workflows.

pub mod artifact;
pub mod cache;
pub mod diff;
pub mod digest;
pub mod double;
pub mod envfile;
pub mod exec;
pub mod expr;
pub mod fetch;
pub mod json;
pub mod members;
pub mod model;
pub mod numeral;
pub mod numtext;
pub mod order;
pub mod parse;
pub mod paths;
pub mod record;
pub mod relpath;
pub mod report;
pub mod results;
pub mod scan;
pub mod secrets;
pub mod strmap;
pub mod table;
pub mod tables;
pub mod text;
pub mod value;
pub mod wfcmd;
