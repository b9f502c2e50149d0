pub mod cli;
pub mod config;
pub mod edit;
pub mod groups;
pub mod headers;
pub mod html;
pub mod inject;
pub mod json;
pub mod log;
pub mod logging;
pub mod modify;
pub mod panel;
pub mod proxy;
pub mod scripts;
pub mod standalone;
pub mod text;
