//! A multi-version block-game server core: the wire codec and frame pipeline,
//! the per-version packet tables, the chunk store with its light engine, and
//! the per-player tick that streams chunks and encodes movement.
//!
//! Real-valued quantities (positions, angles) are held in fixed point, in
//! units of 1/4096, so that every rule of the protocol is exact integer
//! arithmetic.

pub mod math;
pub mod varint;
pub mod wire;
pub mod ieee;
pub mod zlib;
pub mod cipher;
pub mod ring;
pub mod stream;
pub mod conn;
pub mod packed;
pub mod section;
pub mod chunk;
pub mod mesh;
pub mod light;
pub mod version;
pub mod packet;
pub mod chat;
pub mod session;
pub mod player;
pub mod entity;
pub mod world;
pub mod wire_chunk;
pub mod server;
pub mod changes;
pub mod manager;
pub mod codegen;
pub mod protocol;
pub mod fields;
pub mod writer;
pub mod translate;
pub mod conv;
pub mod ids;
pub mod idgen;
pub mod block;
pub mod nbt;
pub mod item;
pub mod behavior;
pub mod plugin;
pub mod bindings;
pub mod sl;
pub mod command;
