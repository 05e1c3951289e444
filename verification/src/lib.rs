//! SysML v2 model library: qualified names, model types, validation checks,
//! code generation, configuration parsing and diagram construction.
#![allow(unused_imports)]

pub mod text;
pub mod qualified_name;
pub mod model;
pub mod cache;
pub mod diagnostic;
pub mod checks;
pub mod codegen;
pub mod diagram;
pub mod config;
pub mod index;
pub mod query;
pub mod sim;
pub mod record;
pub mod record_toml;
pub mod envelope;
pub mod export;
pub mod resolver;
pub mod interactive;
pub mod project;
