//! Assembly of behavioural-mode system prompts from preset, axis and modifier
//! fragments, with the configuration and daemon-protocol logic around it.

pub mod text;
pub mod presets;
pub mod name_map;
pub mod config;
pub mod resolve;
pub mod external;
pub mod assemble;
pub mod config_edit;
pub mod numbers;
pub mod api;
pub mod daemon;
