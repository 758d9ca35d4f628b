//! Session host core: settings, wire protocol and session registry logic.
pub mod approval;
pub mod assembly;
pub mod attachments;
pub mod billing;
pub mod codec;
pub mod commands;
pub mod demo;
pub mod driver;
pub mod edits;
pub mod events;
pub mod export;
pub mod feedback;
pub mod fork;
pub mod frames;
pub mod goals;
pub mod host;
pub mod ids;
pub mod interact;
pub mod json;
pub mod lineage;
pub mod logs;
pub mod mcp;
pub mod models;
pub mod pages;
pub mod paths;
pub mod plan;
pub mod ports;
pub mod prompts;
pub mod proto;
pub mod providers;
pub mod pump;
pub mod questions;
pub mod queue;
pub mod repair;
pub mod service;
pub mod sessions;
pub mod settings;
pub mod store;
pub mod strmap;
pub mod text;
pub mod time;
pub mod titles;
pub mod workspaces;
