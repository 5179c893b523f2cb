//! Portable appliance test (PAT) jobs: importing tester exports through one
//! shared labelled-text pipeline, the job model and its edits, and what the
//! reports and the desktop views show.
pub mod text;
pub mod tokens;
pub mod path;
pub mod date;
pub mod date_format;
pub mod model;
pub mod model_view;
pub mod results;
pub mod identifier_order;
pub mod dates;
pub mod import;
pub mod digest;
pub mod value;
pub mod labelled;
pub mod record;
pub mod parser;
pub mod fluke;
pub mod seaward;
pub mod kewtech;
pub mod importers;
pub mod appliance_order;
pub mod session;
pub mod selection;
pub mod file_types;
pub mod report;
pub mod about;
