//! The values that decoding a replay produces, each with its mathematical
//! value.

use std::collections::HashMap;
use vstd::prelude::*;
use crate::lua::{LuaObject, LuaValue};
use crate::reader::FloatBits;

verus! {

/// A point of the map.
#[derive(Clone, Copy, Debug, PartialEq, Eq, Structural)]
pub struct Position {
    pub x: FloatBits,
    pub y: FloatBits,
    pub z: FloatBits,
}

/// The formation that units keep while they carry out an order.
#[derive(Clone, Copy, Debug, PartialEq, Eq, Structural)]
pub struct Formation {
    pub a: i32,
    pub b: FloatBits,
    pub c: FloatBits,
    pub d: FloatBits,
    pub scale: FloatBits,
}

/// What an order aims at.
#[derive(Clone, Copy, Debug, PartialEq, Eq, Structural)]
pub enum Target {
    NoTarget,
    Entity { id: u32 },
    Position(Position),
}

impl View for Position {
    type V = Position;

    open spec fn view(&self) -> Position {
        *self
    }
}

impl View for Formation {
    type V = Formation;

    open spec fn view(&self) -> Formation {
        *self
    }
}

impl View for Target {
    type V = Target;

    open spec fn view(&self) -> Target {
        *self
    }
}

/// The payload of an order given to units or to a factory.
#[derive(Debug, PartialEq, Eq)]
pub struct GameCommand {
    pub entity_ids: Vec<u32>,
    pub id: i32,
    pub coordinated_attack_cmd_id: i32,
    pub type_: u8,
    pub arg2: u8,
    pub target: Target,
    pub arg3: FloatBits,
    pub formation: Option<Formation>,
    pub blueprint: String,
    pub arg4: i32,
    pub arg5: i32,
    pub arg6: i32,
    pub upgrades: LuaObject,
    pub clear_queue: bool,
}

/// Mathematical value of a [`GameCommand`].
pub struct GameCommandValue {
    pub entity_ids: Seq<u32>,
    pub id: i32,
    pub coordinated_attack_cmd_id: i32,
    pub type_: u8,
    pub arg2: u8,
    pub target: Target,
    pub arg3: FloatBits,
    pub formation: Option<Formation>,
    pub blueprint: Seq<char>,
    pub arg4: i32,
    pub arg5: i32,
    pub arg6: i32,
    pub upgrades: LuaValue,
    pub clear_queue: bool,
}

impl View for GameCommand {
    type V = GameCommandValue;

    open spec fn view(&self) -> GameCommandValue {
        GameCommandValue {
            entity_ids: self.entity_ids@,
            id: self.id,
            coordinated_attack_cmd_id: self.coordinated_attack_cmd_id,
            type_: self.type_,
            arg2: self.arg2,
            target: self.target,
            arg3: self.arg3,
            formation: self.formation,
            blueprint: self.blueprint@,
            arg4: self.arg4,
            arg5: self.arg5,
            arg6: self.arg6,
            upgrades: self.upgrades@,
            clear_queue: self.clear_queue,
        }
    }
}

/// One command of a replay body.
#[allow(inconsistent_fields)]
#[derive(Debug, PartialEq, Eq)]
pub enum ReplayCommand {
    Advance { ticks: u32 },
    SetCommandSource { id: u8 },
    CommandSourceTerminated,
    VerifyChecksum { digest: [u8; 16], tick: u32 },
    RequestPause,
    Resume,
    SingleStep,
    CreateUnit { army: u8, blueprint: String, x: FloatBits, z: FloatBits, heading: FloatBits },
    CreateProp { blueprint: String, position: Position },
    DestroyEntity { unit: u32 },
    WarpEntity { unit: u32, x: FloatBits, y: FloatBits, z: FloatBits },
    ProcessInfoPair { unit: u32, arg1: String, arg2: String },
    IssueCommand(GameCommand),
    IssueFactoryCommand(GameCommand),
    IncreaseCommandCount { id: i32, delta: i32 },
    DecreaseCommandCount { id: i32, delta: i32 },
    SetCommandTarget { id: i32, target: Target },
    SetCommandType { id: i32, type_: i32 },
    SetCommandCells { id: i32, cells: LuaObject, position: Position },
    RemoveCommandFromQueue { id: i32, unit: u32 },
    DebugCommand { command: u8, position: Position, focus_army: u8, selection: Vec<u32> },
    ExecuteLuaInSim { code: String },
    LuaSimCallback { func: String, args: LuaObject, selection: Vec<u32> },
    EndGame,
}

/// Mathematical value of a [`ReplayCommand`].
#[allow(inconsistent_fields)]
pub enum CommandValue {
    Advance { ticks: u32 },
    SetCommandSource { id: u8 },
    CommandSourceTerminated,
    VerifyChecksum { digest: Seq<u8>, tick: u32 },
    RequestPause,
    Resume,
    SingleStep,
    CreateUnit { army: u8, blueprint: Seq<char>, x: FloatBits, z: FloatBits, heading: FloatBits },
    CreateProp { blueprint: Seq<char>, position: Position },
    DestroyEntity { unit: u32 },
    WarpEntity { unit: u32, x: FloatBits, y: FloatBits, z: FloatBits },
    ProcessInfoPair { unit: u32, arg1: Seq<char>, arg2: Seq<char> },
    IssueCommand(GameCommandValue),
    IssueFactoryCommand(GameCommandValue),
    IncreaseCommandCount { id: i32, delta: i32 },
    DecreaseCommandCount { id: i32, delta: i32 },
    SetCommandTarget { id: i32, target: Target },
    SetCommandType { id: i32, type_: i32 },
    SetCommandCells { id: i32, cells: LuaValue, position: Position },
    RemoveCommandFromQueue { id: i32, unit: u32 },
    DebugCommand { command: u8, position: Position, focus_army: u8, selection: Seq<u32> },
    ExecuteLuaInSim { code: Seq<char> },
    LuaSimCallback { func: Seq<char>, args: LuaValue, selection: Seq<u32> },
    EndGame,
}

impl View for ReplayCommand {
    type V = CommandValue;

    open spec fn view(&self) -> CommandValue {
        match self {
            ReplayCommand::Advance { ticks } => CommandValue::Advance { ticks: *ticks },
            ReplayCommand::SetCommandSource { id } => CommandValue::SetCommandSource { id: *id },
            ReplayCommand::CommandSourceTerminated => CommandValue::CommandSourceTerminated,
            ReplayCommand::VerifyChecksum { digest, tick } => {
                CommandValue::VerifyChecksum { digest: digest@, tick: *tick }
            },
            ReplayCommand::RequestPause => CommandValue::RequestPause,
            ReplayCommand::Resume => CommandValue::Resume,
            ReplayCommand::SingleStep => CommandValue::SingleStep,
            ReplayCommand::CreateUnit { army, blueprint, x, z, heading } => {
                CommandValue::CreateUnit {
                    army: *army,
                    blueprint: blueprint@,
                    x: *x,
                    z: *z,
                    heading: *heading,
                }
            },
            ReplayCommand::CreateProp { blueprint, position } => {
                CommandValue::CreateProp { blueprint: blueprint@, position: *position }
            },
            ReplayCommand::DestroyEntity { unit } => CommandValue::DestroyEntity { unit: *unit },
            ReplayCommand::WarpEntity { unit, x, y, z } => {
                CommandValue::WarpEntity { unit: *unit, x: *x, y: *y, z: *z }
            },
            ReplayCommand::ProcessInfoPair { unit, arg1, arg2 } => {
                CommandValue::ProcessInfoPair { unit: *unit, arg1: arg1@, arg2: arg2@ }
            },
            ReplayCommand::IssueCommand(c) => CommandValue::IssueCommand(c@),
            ReplayCommand::IssueFactoryCommand(c) => CommandValue::IssueFactoryCommand(c@),
            ReplayCommand::IncreaseCommandCount { id, delta } => {
                CommandValue::IncreaseCommandCount { id: *id, delta: *delta }
            },
            ReplayCommand::DecreaseCommandCount { id, delta } => {
                CommandValue::DecreaseCommandCount { id: *id, delta: *delta }
            },
            ReplayCommand::SetCommandTarget { id, target } => {
                CommandValue::SetCommandTarget { id: *id, target: *target }
            },
            ReplayCommand::SetCommandType { id, type_ } => {
                CommandValue::SetCommandType { id: *id, type_: *type_ }
            },
            ReplayCommand::SetCommandCells { id, cells, position } => {
                CommandValue::SetCommandCells { id: *id, cells: cells@, position: *position }
            },
            ReplayCommand::RemoveCommandFromQueue { id, unit } => {
                CommandValue::RemoveCommandFromQueue { id: *id, unit: *unit }
            },
            ReplayCommand::DebugCommand { command, position, focus_army, selection } => {
                CommandValue::DebugCommand {
                    command: *command,
                    position: *position,
                    focus_army: *focus_army,
                    selection: selection@,
                }
            },
            ReplayCommand::ExecuteLuaInSim { code } => {
                CommandValue::ExecuteLuaInSim { code: code@ }
            },
            ReplayCommand::LuaSimCallback { func, args, selection } => {
                CommandValue::LuaSimCallback { func: func@, args: args@, selection: selection@ }
            },
            ReplayCommand::EndGame => CommandValue::EndGame,
        }
    }
}

impl CommandValue {
    /// The tag under which the command travels.
    pub open spec fn tag(self) -> u8 {
        match self {
            CommandValue::Advance { .. } => 0,
            CommandValue::SetCommandSource { .. } => 1,
            CommandValue::CommandSourceTerminated => 2,
            CommandValue::VerifyChecksum { .. } => 3,
            CommandValue::RequestPause => 4,
            CommandValue::Resume => 5,
            CommandValue::SingleStep => 6,
            CommandValue::CreateUnit { .. } => 7,
            CommandValue::CreateProp { .. } => 8,
            CommandValue::DestroyEntity { .. } => 9,
            CommandValue::WarpEntity { .. } => 10,
            CommandValue::ProcessInfoPair { .. } => 11,
            CommandValue::IssueCommand(_) => 12,
            CommandValue::IssueFactoryCommand(_) => 13,
            CommandValue::IncreaseCommandCount { .. } => 14,
            CommandValue::DecreaseCommandCount { .. } => 15,
            CommandValue::SetCommandTarget { .. } => 16,
            CommandValue::SetCommandType { .. } => 17,
            CommandValue::SetCommandCells { .. } => 18,
            CommandValue::RemoveCommandFromQueue { .. } => 19,
            CommandValue::DebugCommand { .. } => 20,
            CommandValue::ExecuteLuaInSim { .. } => 21,
            CommandValue::LuaSimCallback { .. } => 22,
            CommandValue::EndGame => 23,
        }
    }
}

impl ReplayCommand {
    /// The tag under which the command travels.
    pub fn tag(&self) -> (t: u8)
        ensures
            t == self@.tag(),
            t < 24,
    {
        match self {
            ReplayCommand::Advance { .. } => 0,
            ReplayCommand::SetCommandSource { .. } => 1,
            ReplayCommand::CommandSourceTerminated => 2,
            ReplayCommand::VerifyChecksum { .. } => 3,
            ReplayCommand::RequestPause => 4,
            ReplayCommand::Resume => 5,
            ReplayCommand::SingleStep => 6,
            ReplayCommand::CreateUnit { .. } => 7,
            ReplayCommand::CreateProp { .. } => 8,
            ReplayCommand::DestroyEntity { .. } => 9,
            ReplayCommand::WarpEntity { .. } => 10,
            ReplayCommand::ProcessInfoPair { .. } => 11,
            ReplayCommand::IssueCommand(_) => 12,
            ReplayCommand::IssueFactoryCommand(_) => 13,
            ReplayCommand::IncreaseCommandCount { .. } => 14,
            ReplayCommand::DecreaseCommandCount { .. } => 15,
            ReplayCommand::SetCommandTarget { .. } => 16,
            ReplayCommand::SetCommandType { .. } => 17,
            ReplayCommand::SetCommandCells { .. } => 18,
            ReplayCommand::RemoveCommandFromQueue { .. } => 19,
            ReplayCommand::DebugCommand { .. } => 20,
            ReplayCommand::ExecuteLuaInSim { .. } => 21,
            ReplayCommand::LuaSimCallback { .. } => 22,
            ReplayCommand::EndGame => 23,
        }
    }
}

/// The values of a list of commands.
pub open spec fn commands_value(commands: Seq<ReplayCommand>) -> Seq<CommandValue> {
    Seq::new(commands.len(), |i: int| commands[i]@)
}

/// State of the simulation as far as the commands read so far determine it.
#[derive(Debug, PartialEq, Eq)]
pub struct SimData {
    /// Ticks that the simulation has advanced.
    pub tick: u32,
    /// The command source that is active; -1 for none. An id above 127 is
    /// kept as the negative number with the same eight bits.
    pub command_source: i8,
    /// For each command source that was ever active, the tick at which it
    /// last became so.
    pub players_last_tick: HashMap<u8, u32>,
    /// Whether a checksum command has been read, and so a digest is stored.
    pub checksum_stored: bool,
    /// The digest of the latest checksum command; zeroes while none is stored.
    pub checksum: [u8; 16],
    /// The tick that the stored digest belongs to; zero while none is stored.
    pub checksum_tick: u32,
    /// The first tick at which two digests differed.
    pub desync_tick: Option<u32>,
    /// Every tick at which two digests differed, in the order of the commands.
    pub desync_ticks: Vec<u32>,
}

/// Mathematical value of a [`SimData`].
pub struct SimValue {
    pub tick: u32,
    pub command_source: i8,
    pub players_last_tick: Map<u8, u32>,
    pub checksum_stored: bool,
    pub checksum: Seq<u8>,
    pub checksum_tick: u32,
    pub desync_tick: Option<u32>,
    pub desync_ticks: Seq<u32>,
}

impl View for SimData {
    type V = SimValue;

    open spec fn view(&self) -> SimValue {
        SimValue {
            tick: self.tick,
            command_source: self.command_source,
            players_last_tick: self.players_last_tick@,
            checksum_stored: self.checksum_stored,
            checksum: self.checksum@,
            checksum_tick: self.checksum_tick,
            desync_tick: self.desync_tick,
            desync_ticks: self.desync_ticks@,
        }
    }
}

impl SimValue {
    /// The digest has 16 bytes; while none is stored it is all zeroes and
    /// its tick is zero; and the first desync is the head of the list of
    /// desyncs.
    pub open spec fn wf(self) -> bool {
        &&& self.checksum.len() == 16
        &&& !self.checksum_stored ==> self.checksum_tick == 0 && forall|i: int|
            0 <= i < 16 ==> self.checksum[i] == 0
        &&& self.desync_tick == if self.desync_ticks.len() == 0 {
            None
        } else {
            Some(self.desync_ticks[0])
        }
    }
}

/// The body of a replay: what the commands did to the simulation, and the
/// commands that were kept.
#[derive(Debug, PartialEq, Eq)]
pub struct ReplayBody {
    pub sim: SimData,
    pub commands: Vec<ReplayCommand>,
}

/// Mathematical value of a [`ReplayBody`].
pub struct BodyValue {
    pub sim: SimValue,
    pub commands: Seq<CommandValue>,
}

impl View for ReplayBody {
    type V = BodyValue;

    open spec fn view(&self) -> BodyValue {
        BodyValue { sim: self.sim@, commands: commands_value(self.commands@) }
    }
}

/// A participant of the match.
#[derive(Debug, PartialEq, Eq)]
pub struct Player {
    pub name: String,
    pub id: u32,
}

/// Mathematical value of a [`Player`].
pub struct PlayerValue {
    pub name: Seq<char>,
    pub id: u32,
}

impl View for Player {
    type V = PlayerValue;

    open spec fn view(&self) -> PlayerValue {
        PlayerValue { name: self.name@, id: self.id }
    }
}

/// An army of the match: its description, and the player that commands it
/// if one does.
#[derive(Debug, PartialEq, Eq)]
pub struct Army {
    pub data: LuaObject,
    pub source: Option<i8>,
}

/// Mathematical value of an [`Army`].
pub struct ArmyValue {
    pub data: LuaValue,
    pub source: Option<i8>,
}

impl View for Army {
    type V = ArmyValue;

    open spec fn view(&self) -> ArmyValue {
        ArmyValue { data: self.data@, source: self.source }
    }
}

/// The values of a list of players.
pub open spec fn players_value(players: Seq<Player>) -> Seq<PlayerValue> {
    Seq::new(players.len(), |i: int| players[i]@)
}

/// The values of a list of armies.
pub open spec fn armies_value(armies: Seq<Army>) -> Seq<ArmyValue> {
    Seq::new(armies.len(), |i: int| armies[i]@)
}

/// The header of a replay. The army with index `i` stands at `armies[i]`.
#[derive(Debug, PartialEq, Eq)]
pub struct ReplayHeader {
    pub scfa_version: String,
    pub replay_version: String,
    pub map_file: String,
    pub mods: LuaObject,
    pub scenario: LuaObject,
    pub players: Vec<Player>,
    pub cheats_enabled: bool,
    pub army_count: u8,
    pub armies: Vec<Army>,
    pub seed: u32,
}

/// Mathematical value of a [`ReplayHeader`].
pub struct HeaderValue {
    pub scfa_version: Seq<char>,
    pub replay_version: Seq<char>,
    pub map_file: Seq<char>,
    pub mods: LuaValue,
    pub scenario: LuaValue,
    pub players: Seq<PlayerValue>,
    pub cheats_enabled: bool,
    pub army_count: u8,
    pub armies: Seq<ArmyValue>,
    pub seed: u32,
}

impl View for ReplayHeader {
    type V = HeaderValue;

    open spec fn view(&self) -> HeaderValue {
        HeaderValue {
            scfa_version: self.scfa_version@,
            replay_version: self.replay_version@,
            map_file: self.map_file@,
            mods: self.mods@,
            scenario: self.scenario@,
            players: players_value(self.players@),
            cheats_enabled: self.cheats_enabled,
            army_count: self.army_count,
            armies: armies_value(self.armies@),
            seed: self.seed,
        }
    }
}

impl HeaderValue {
    /// There are as many armies as the count says.
    pub open spec fn wf(self) -> bool {
        self.armies.len() == self.army_count
    }
}

/// A whole replay.
#[derive(Debug, PartialEq, Eq)]
pub struct Replay {
    pub header: ReplayHeader,
    pub body: ReplayBody,
}

/// Mathematical value of a [`Replay`].
pub struct ReplayValue {
    pub header: HeaderValue,
    pub body: BodyValue,
}

impl View for Replay {
    type V = ReplayValue;

    open spec fn view(&self) -> ReplayValue {
        ReplayValue { header: self.header@, body: self.body@ }
    }
}

} // verus!
