pub mod strings;
pub mod text;
pub mod render;
pub mod output;
pub mod model;
pub mod documentation;
pub mod targets;
pub mod decimal;
pub mod formula;
pub mod semantic;
pub mod validate;
pub mod corpus_report;
pub mod specs;
pub mod verification;
pub mod decision;
pub mod tree_validation;
pub mod compile;
pub mod definitions;
pub mod references;
pub mod adapters;
pub mod report_text;
pub mod json_text;
pub mod loader;
