//! Verified core of the coding-agent tools: file reading, searching and editing, shell
//! management, tool schemas, and the terminal views that show them.
pub mod agent_laws;
pub mod agent_summary;
pub mod agents;
pub mod apply;
pub mod background_shell_notification;
pub mod backtrack;
pub mod backtrack_laws;
pub mod change;
pub mod edit;
pub mod edit_laws;
pub mod error;
pub mod exec_cell;
pub mod exec_flow;
pub mod exec_laws;
pub mod file_flow;
pub mod file_handler;
pub mod file_laws;
pub mod footer;
pub mod glob_laws;
pub mod grep;
pub mod grep_laws;
pub mod held_laws;
pub mod line_range;
pub mod live_table;
pub mod local_tool;
pub mod models_endpoint;
pub mod occurrence;
pub mod order;
pub mod outside;
pub mod paths;
pub mod picker;
pub mod plan;
pub mod plan_laws;
pub mod reach;
pub mod read;
pub mod request;
pub mod schema;
pub mod search_flow;
pub mod search_laws;
pub mod shell_flow;
pub mod shell_laws;
pub mod shell_tools;
pub mod shown_laws;
pub mod split;
pub mod streaming;
pub mod streaming_laws;
pub mod table_laws;
pub mod table_layout;
pub mod text;
pub mod text_laws;
pub mod tool_parts;
pub mod transcript;
pub mod utility_tool;
pub mod walk;
pub mod width;
