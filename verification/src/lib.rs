//! Shared server kit for reverse-engineering engines.

pub mod access;
pub mod access_laws;
pub mod address;
pub mod address_laws;
pub mod ambient;
pub mod archive;
pub mod archive_laws;
pub mod args;
pub mod args_laws;
pub mod bearer;
pub mod calendar;
pub mod calendar_laws;
pub mod cli;
pub mod cli_laws;
pub mod command;
pub mod contract;
pub mod contract_laws;
pub mod flow_laws;
pub mod folding_laws;
pub mod json;
pub mod listing;
pub mod message_laws;
pub mod names;
pub mod outcome;
pub mod outcome_laws;
pub mod output;
pub mod output_laws;
pub mod page;
pub mod page_laws;
pub mod paths;
pub mod paths_laws;
pub mod policy;
pub mod policy_laws;
pub mod render;
pub mod render_laws;
pub mod router;
pub mod router_laws;
pub mod schema;
pub mod schema_laws;
pub mod session;
pub mod session_laws;
pub mod shape;
pub mod shape_laws;
pub mod skills;
pub mod skills_laws;
pub mod skills_cli;
pub mod task_laws;
pub mod tasks;
pub mod text;
pub mod text_laws;
pub mod token;
pub mod token_laws;
pub mod tool;
pub mod toy;
pub mod toy_laws;
pub mod transport;
pub mod transport_laws;
pub mod tree_laws;
mod weight;
