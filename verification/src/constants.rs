//! The command tags of the wire format and their names.

use vstd::prelude::*;

verus! {

pub const ADVANCE: u8 = 0;

pub const SET_COMMAND_SOURCE: u8 = 1;

pub const COMMAND_SOURCE_TERMINATED: u8 = 2;

pub const VERIFY_CHECKSUM: u8 = 3;

pub const REQUEST_PAUSE: u8 = 4;

pub const RESUME: u8 = 5;

pub const SINGLE_STEP: u8 = 6;

pub const CREATE_UNIT: u8 = 7;

pub const CREATE_PROP: u8 = 8;

pub const DESTROY_ENTITY: u8 = 9;

pub const WARP_ENTITY: u8 = 10;

pub const PROCESS_INFO_PAIR: u8 = 11;

pub const ISSUE_COMMAND: u8 = 12;

pub const ISSUE_FACTORY_COMMAND: u8 = 13;

pub const INCREASE_COMMAND_COUNT: u8 = 14;

pub const DECREASE_COMMAND_COUNT: u8 = 15;

pub const SET_COMMAND_TARGET: u8 = 16;

pub const SET_COMMAND_TYPE: u8 = 17;

pub const SET_COMMAND_CELLS: u8 = 18;

pub const REMOVE_COMMAND_FROM_QUEUE: u8 = 19;

pub const DEBUG_COMMAND: u8 = 20;

pub const EXECUTE_LUA_IN_SIM: u8 = 21;

pub const LUA_SIM_CALLBACK: u8 = 22;

pub const END_GAME: u8 = 23;

/// One more than the largest command tag.
pub const MAX: u8 = 24;

/// The name of the command with tag `tag`.
pub open spec fn name_of(tag: u8) -> Seq<char> {
    if tag == ADVANCE {
        "Advance"@
    } else if tag == SET_COMMAND_SOURCE {
        "SetCommandSource"@
    } else if tag == COMMAND_SOURCE_TERMINATED {
        "CommandSourceTerminated"@
    } else if tag == VERIFY_CHECKSUM {
        "VerifyChecksum"@
    } else if tag == REQUEST_PAUSE {
        "RequestPause"@
    } else if tag == RESUME {
        "Resume"@
    } else if tag == SINGLE_STEP {
        "SingleStep"@
    } else if tag == CREATE_UNIT {
        "CreateUnit"@
    } else if tag == CREATE_PROP {
        "CreateProp"@
    } else if tag == DESTROY_ENTITY {
        "DestroyEntity"@
    } else if tag == WARP_ENTITY {
        "WarpEntity"@
    } else if tag == PROCESS_INFO_PAIR {
        "ProcessInfoPair"@
    } else if tag == ISSUE_COMMAND {
        "IssueCommand"@
    } else if tag == ISSUE_FACTORY_COMMAND {
        "IssueFactoryCommand"@
    } else if tag == INCREASE_COMMAND_COUNT {
        "IncreaseCommandCount"@
    } else if tag == DECREASE_COMMAND_COUNT {
        "DecreaseCommandCount"@
    } else if tag == SET_COMMAND_TARGET {
        "SetCommandTarget"@
    } else if tag == SET_COMMAND_TYPE {
        "SetCommandType"@
    } else if tag == SET_COMMAND_CELLS {
        "SetCommandCells"@
    } else if tag == REMOVE_COMMAND_FROM_QUEUE {
        "RemoveCommandFromQueue"@
    } else if tag == DEBUG_COMMAND {
        "DebugCommand"@
    } else if tag == EXECUTE_LUA_IN_SIM {
        "ExecuteLuaInSim"@
    } else if tag == LUA_SIM_CALLBACK {
        "LuaSimCallback"@
    } else {
        "EndGame"@
    }
}

/// The name of the command with tag `tag`; `None` for a value that is no
/// command tag.
pub fn command_name(tag: u8) -> (name: Option<&'static str>)
    ensures
        name is Some <==> tag < MAX,
        tag < MAX ==> name->Some_0@ == name_of(tag),
{
    if tag == ADVANCE {
        Some("Advance")
    } else if tag == SET_COMMAND_SOURCE {
        Some("SetCommandSource")
    } else if tag == COMMAND_SOURCE_TERMINATED {
        Some("CommandSourceTerminated")
    } else if tag == VERIFY_CHECKSUM {
        Some("VerifyChecksum")
    } else if tag == REQUEST_PAUSE {
        Some("RequestPause")
    } else if tag == RESUME {
        Some("Resume")
    } else if tag == SINGLE_STEP {
        Some("SingleStep")
    } else if tag == CREATE_UNIT {
        Some("CreateUnit")
    } else if tag == CREATE_PROP {
        Some("CreateProp")
    } else if tag == DESTROY_ENTITY {
        Some("DestroyEntity")
    } else if tag == WARP_ENTITY {
        Some("WarpEntity")
    } else if tag == PROCESS_INFO_PAIR {
        Some("ProcessInfoPair")
    } else if tag == ISSUE_COMMAND {
        Some("IssueCommand")
    } else if tag == ISSUE_FACTORY_COMMAND {
        Some("IssueFactoryCommand")
    } else if tag == INCREASE_COMMAND_COUNT {
        Some("IncreaseCommandCount")
    } else if tag == DECREASE_COMMAND_COUNT {
        Some("DecreaseCommandCount")
    } else if tag == SET_COMMAND_TARGET {
        Some("SetCommandTarget")
    } else if tag == SET_COMMAND_TYPE {
        Some("SetCommandType")
    } else if tag == SET_COMMAND_CELLS {
        Some("SetCommandCells")
    } else if tag == REMOVE_COMMAND_FROM_QUEUE {
        Some("RemoveCommandFromQueue")
    } else if tag == DEBUG_COMMAND {
        Some("DebugCommand")
    } else if tag == EXECUTE_LUA_IN_SIM {
        Some("ExecuteLuaInSim")
    } else if tag == LUA_SIM_CALLBACK {
        Some("LuaSimCallback")
    } else if tag == END_GAME {
        Some("EndGame")
    } else {
        None
    }
}

} // verus!
