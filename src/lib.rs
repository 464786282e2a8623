pub mod cli;
pub mod conf;
pub mod error;
pub mod kernel;
pub mod layouts;
pub mod paths;
pub mod text;
pub mod update;
pub mod version;
