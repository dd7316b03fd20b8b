//! # peisar
//!
//! A Markdown parser supporting CommonMark, GitHub Flavored Markdown (GFM),
//! Kramdown-style block attributes, a plugin system, and configurable HTML
//! output (full document or fragment).

pub mod text;

pub mod ast;
pub mod config;
pub mod parser;
pub mod html;
pub mod plugin_factory;
pub mod plugins;
pub mod visitor;
