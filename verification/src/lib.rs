pub mod text;
pub mod paths;
pub mod tool_error;
pub mod file_tool;
pub mod shell_tool;
pub mod git_tool;
pub mod core_agent;
pub mod indexer;
pub mod llm_provider;
pub mod desktop;
