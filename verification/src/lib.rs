pub mod cli;
pub mod counts;
pub mod error;
pub mod model;
pub mod text;
pub mod libraries;
pub mod engine;
pub mod http;
pub mod select;
pub mod xml;
pub mod html;
