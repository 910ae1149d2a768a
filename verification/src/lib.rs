//! Decoder for the binary replay format of Supreme Commander: Forged Alliance.
//!
//! A replay is a header (versions, map, mods, scenario, players, armies, seed)
//! followed by a stream of framed simulation commands. Every decoder in this
//! crate is stated against a mathematical description of the wire format over
//! `Seq<u8>` and proved to follow it.

pub mod error;
pub mod reader;
pub mod lua;
pub mod replay;
pub mod constants;
pub mod command;
pub mod header;
pub mod body;
pub mod parser;
pub mod laws;
pub mod truncation;
pub mod encoding;

pub use crate::body::body_ticks;
pub use crate::constants::command_name;
pub use crate::error::{Malformation, ReplayReadError};
pub use crate::header::body_offset;
pub use crate::lua::{LuaObject, LuaTable};
pub use crate::parser::ParserWrap;
pub use crate::reader::{FloatBits, Reader};
pub use crate::replay::{
    Army, Formation, GameCommand, Player, Position, Replay, ReplayBody, ReplayCommand,
    ReplayHeader, SimData, Target,
};
