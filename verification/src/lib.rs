//! Core of a chunked voxel world server. The heart is the chunk store:
//! it partitions an unbounded block grid into 16 x 16 x 256 chunks,
//! synthesizes chunk content on demand from a terrain collaborator,
//! caches chunks under a bounded budget with staleness eviction, tracks
//! unsaved mutations for a persistence sink, and serves block reads and
//! writes by absolute world coordinates. Around it stand the crafting,
//! inventory, chat and world-catalogue subsystems of the same server.

pub mod chat;
pub mod chunk;
pub mod chunk_manager;
pub mod config;
pub mod coords;
pub mod crafting;
pub mod inventory;
pub mod jsonval;
pub mod persistence;
pub mod terrain;
pub mod world;
