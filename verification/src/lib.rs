pub mod text;
pub mod command;
pub mod shell;
pub mod config;
pub mod supervisor;
pub mod bidirmsg;
pub mod logfile;
pub mod laws;
pub mod request_laws;
