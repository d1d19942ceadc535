//! The rules of a voxel sandbox played in the browser.
pub mod block;
pub mod chunk;
pub mod field;
pub mod surface;
pub mod object;
pub mod text;
pub mod protocol;
pub mod storage;
pub mod world_records;
pub mod transport;
pub mod room;
pub mod maps;
pub mod relay;
pub mod json;
pub mod signaling;
pub mod ice;
pub mod peer;
pub mod host;
pub mod remote;
pub mod chunk_assembler;
pub mod mesh_jobs;
pub mod chunk_loader;
pub mod prediction;
pub mod hotbar;
pub mod chat;
pub mod input;
pub mod app_state;
pub mod lobby;
pub mod menus;
pub mod shell;
pub mod persistence;
pub mod interp;
pub mod events;
pub mod hud;
pub mod game;
pub mod actions;
pub mod raycast;
