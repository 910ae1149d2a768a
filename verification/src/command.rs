//! Decoding of one command of the replay body.
//!
//! A command travels as a frame: a tag byte, a little-endian `u16` that
//! counts the whole frame, and the payload. The payload is decoded on its
//! own: it has to hold exactly the fields that the tag calls for.

use vstd::prelude::*;
use crate::constants::{
    ADVANCE, COMMAND_SOURCE_TERMINATED, CREATE_PROP, CREATE_UNIT, DEBUG_COMMAND,
    DECREASE_COMMAND_COUNT, DESTROY_ENTITY, END_GAME, EXECUTE_LUA_IN_SIM, INCREASE_COMMAND_COUNT,
    ISSUE_COMMAND, ISSUE_FACTORY_COMMAND, LUA_SIM_CALLBACK, MAX, PROCESS_INFO_PAIR,
    REMOVE_COMMAND_FROM_QUEUE, REQUEST_PAUSE, RESUME, SET_COMMAND_CELLS, SET_COMMAND_SOURCE,
    SET_COMMAND_TARGET, SET_COMMAND_TYPE, SINGLE_STEP, VERIFY_CHECKSUM, WARP_ENTITY,
};
use crate::error::{Failure, Malformation, ReplayReadError};
use crate::lua::{lua_at, read_lua_object, LuaObject, LuaValue};
use crate::reader::{
    bool_at, bytes_at, float_at, has_bytes, i32_at, le32, text_at, u16_at, u32_at, u8_at, yields,
    Decoded, Reader,
};
use crate::replay::{
    CommandValue, Formation, GameCommand, GameCommandValue, Position, ReplayCommand, Target,
};

verus! {

/// Discriminator of a target that is absent.
pub const TARGET_NONE: u8 = 0;

/// Discriminator of a target that is an entity.
pub const TARGET_ENTITY: u8 = 1;

/// Discriminator of a target that is a position.
pub const TARGET_POSITION: u8 = 2;

/// The position at `pos`: three floats.
pub open spec fn position_at(s: Seq<u8>, pos: int) -> Decoded<Position> {
    match float_at(s, pos) {
        Err(e) => Err(e),
        Ok((x, e1)) => match float_at(s, e1) {
            Err(e) => Err(e),
            Ok((y, e2)) => match float_at(s, e2) {
                Err(e) => Err(e),
                Ok((z, e3)) => Ok((Position { x, y, z }, e3)),
            },
        },
    }
}

/// The target at `pos`: a discriminator byte, then the entity's id or the
/// position.
pub open spec fn target_at(s: Seq<u8>, pos: int) -> Decoded<Target> {
    match u8_at(s, pos) {
        Err(e) => Err(e),
        Ok((kind, e1)) => if kind == TARGET_NONE {
            Ok((Target::NoTarget, e1))
        } else if kind == TARGET_ENTITY {
            match u32_at(s, e1) {
                Err(e) => Err(e),
                Ok((id, e2)) => Ok((Target::Entity { id }, e2)),
            }
        } else if kind == TARGET_POSITION {
            match position_at(s, e1) {
                Err(e) => Err(e),
                Ok((position, e2)) => Ok((Target::Position(position), e2)),
            }
        } else {
            Err(Failure::Malformed(Malformation::UnknownTargetKind))
        },
    }
}

/// The formation at `pos`: an `i32` that is -1 where there is none, and
/// otherwise is followed by the formation's fields.
pub open spec fn formation_at(s: Seq<u8>, pos: int) -> Decoded<Option<Formation>> {
    match i32_at(s, pos) {
        Err(e) => Err(e),
        Ok((marker, e0)) => if marker == -1 {
            Ok((None, e0))
        } else {
            match i32_at(s, e0) {
                Err(e) => Err(e),
                Ok((a, e1)) => match float_at(s, e1) {
                    Err(e) => Err(e),
                    Ok((b, e2)) => match float_at(s, e2) {
                        Err(e) => Err(e),
                        Ok((c, e3)) => match float_at(s, e3) {
                            Err(e) => Err(e),
                            Ok((d, e4)) => match float_at(s, e4) {
                                Err(e) => Err(e),
                                Ok((scale, e5)) => Ok(
                                    (Some(Formation { a, b, c, d, scale }), e5),
                                ),
                            },
                        },
                    },
                },
            }
        },
    }
}

/// The `n` little-endian `u32` that start at `pos`.
pub open spec fn words_at(s: Seq<u8>, pos: int, n: int) -> Seq<u32> {
    Seq::new(
        n as nat,
        |i: int| le32(s[pos + 4 * i], s[pos + 4 * i + 1], s[pos + 4 * i + 2], s[pos + 4 * i + 3]),
    )
}

/// The list of ids at `pos`: a `u32` count, then that many `u32`.
pub open spec fn ids_at(s: Seq<u8>, pos: int) -> Decoded<Seq<u32>> {
    match u32_at(s, pos) {
        Err(e) => Err(e),
        Ok((n, e1)) => if has_bytes(s, e1, 4 * n) {
            Ok((words_at(s, e1, n as int), e1 + 4 * n))
        } else {
            Err(Failure::UnexpectedEof)
        },
    }
}

/// The order at `pos`, field by field.
pub open spec fn game_command_at(s: Seq<u8>, pos: int) -> Decoded<GameCommandValue> {
    match ids_at(s, pos) {
        Err(e) => Err(e),
        Ok((entity_ids, e1)) => match i32_at(s, e1) {
            Err(e) => Err(e),
            Ok((id, e2)) => match i32_at(s, e2) {
                Err(e) => Err(e),
                Ok((coordinated_attack_cmd_id, e3)) => match u8_at(s, e3) {
                    Err(e) => Err(e),
                    Ok((type_, e4)) => match u8_at(s, e4) {
                        Err(e) => Err(e),
                        Ok((arg2, e5)) => match target_at(s, e5) {
                            Err(e) => Err(e),
                            Ok((target, e6)) => match float_at(s, e6) {
                                Err(e) => Err(e),
                                Ok((arg3, e7)) => match formation_at(s, e7) {
                                    Err(e) => Err(e),
                                    Ok((formation, e8)) => match text_at(s, e8) {
                                        Err(e) => Err(e),
                                        Ok((blueprint, e9)) => match order_tail_at(s, e9) {
                                            Err(e) => Err(e),
                                            Ok((tail, e10)) => Ok(
                                                (
                                                    GameCommandValue {
                                                        entity_ids,
                                                        id,
                                                        coordinated_attack_cmd_id,
                                                        type_,
                                                        arg2,
                                                        target,
                                                        arg3,
                                                        formation,
                                                        blueprint,
                                                        arg4: tail.0,
                                                        arg5: tail.1,
                                                        arg6: tail.2,
                                                        upgrades: tail.3,
                                                        clear_queue: tail.4,
                                                    },
                                                    e10,
                                                ),
                                            ),
                                        },
                                    },
                                },
                            },
                        },
                    },
                },
            },
        },
    }
}

/// The last five fields of an order: three `i32`, the upgrades and the flag
/// that clears the queue.
pub open spec fn order_tail_at(s: Seq<u8>, pos: int) -> Decoded<(i32, i32, i32, LuaValue, bool)> {
    match i32_at(s, pos) {
        Err(e) => Err(e),
        Ok((arg4, e1)) => match i32_at(s, e1) {
            Err(e) => Err(e),
            Ok((arg5, e2)) => match i32_at(s, e2) {
                Err(e) => Err(e),
                Ok((arg6, e3)) => match lua_at(s, e3) {
                    Err(e) => Err(e),
                    Ok((upgrades, e4)) => match bool_at(s, e4) {
                        Err(e) => Err(e),
                        Ok((clear_queue, e5)) => Ok(
                            ((arg4, arg5, arg6, upgrades, clear_queue), e5),
                        ),
                    },
                },
            },
        },
    }
}

/// A pair of `i32`.
pub open spec fn i32_pair_at(s: Seq<u8>, pos: int) -> Decoded<(i32, i32)> {
    match i32_at(s, pos) {
        Err(e) => Err(e),
        Ok((a, e1)) => match i32_at(s, e1) {
            Err(e) => Err(e),
            Ok((b, e2)) => Ok(((a, b), e2)),
        },
    }
}

/// The fields of a checksum command: 16 bytes of digest, then the tick.
pub open spec fn verify_checksum_at(s: Seq<u8>, pos: int) -> Decoded<CommandValue> {
    match bytes_at(s, pos, 16) {
        Err(e) => Err(e),
        Ok((digest, e1)) => match u32_at(s, e1) {
            Err(e) => Err(e),
            Ok((tick, e2)) => Ok((CommandValue::VerifyChecksum { digest, tick }, e2)),
        },
    }
}

/// The fields of a command that creates a unit.
pub open spec fn create_unit_at(s: Seq<u8>, pos: int) -> Decoded<CommandValue> {
    match u8_at(s, pos) {
        Err(e) => Err(e),
        Ok((army, e1)) => match text_at(s, e1) {
            Err(e) => Err(e),
            Ok((blueprint, e2)) => match float_at(s, e2) {
                Err(e) => Err(e),
                Ok((x, e3)) => match float_at(s, e3) {
                    Err(e) => Err(e),
                    Ok((z, e4)) => match float_at(s, e4) {
                        Err(e) => Err(e),
                        Ok((heading, e5)) => Ok(
                            (CommandValue::CreateUnit { army, blueprint, x, z, heading }, e5),
                        ),
                    },
                },
            },
        },
    }
}

/// The fields of a command that creates a prop.
pub open spec fn create_prop_at(s: Seq<u8>, pos: int) -> Decoded<CommandValue> {
    match text_at(s, pos) {
        Err(e) => Err(e),
        Ok((blueprint, e1)) => match position_at(s, e1) {
            Err(e) => Err(e),
            Ok((position, e2)) => Ok((CommandValue::CreateProp { blueprint, position }, e2)),
        },
    }
}

/// The fields of a command that moves an entity at once.
pub open spec fn warp_entity_at(s: Seq<u8>, pos: int) -> Decoded<CommandValue> {
    match u32_at(s, pos) {
        Err(e) => Err(e),
        Ok((unit, e1)) => match float_at(s, e1) {
            Err(e) => Err(e),
            Ok((x, e2)) => match float_at(s, e2) {
                Err(e) => Err(e),
                Ok((y, e3)) => match float_at(s, e3) {
                    Err(e) => Err(e),
                    Ok((z, e4)) => Ok((CommandValue::WarpEntity { unit, x, y, z }, e4)),
                },
            },
        },
    }
}

/// The fields of a command that hands a pair of texts to a unit.
pub open spec fn process_info_pair_at(s: Seq<u8>, pos: int) -> Decoded<CommandValue> {
    match u32_at(s, pos) {
        Err(e) => Err(e),
        Ok((unit, e1)) => match text_at(s, e1) {
            Err(e) => Err(e),
            Ok((arg1, e2)) => match text_at(s, e2) {
                Err(e) => Err(e),
                Ok((arg2, e3)) => Ok((CommandValue::ProcessInfoPair { unit, arg1, arg2 }, e3)),
            },
        },
    }
}

/// The fields of a command that gives an order a new target.
pub open spec fn set_command_target_at(s: Seq<u8>, pos: int) -> Decoded<CommandValue> {
    match i32_at(s, pos) {
        Err(e) => Err(e),
        Ok((id, e1)) => match target_at(s, e1) {
            Err(e) => Err(e),
            Ok((target, e2)) => Ok((CommandValue::SetCommandTarget { id, target }, e2)),
        },
    }
}

/// The fields of a command that gives an order new cells.
pub open spec fn set_command_cells_at(s: Seq<u8>, pos: int) -> Decoded<CommandValue> {
    match i32_at(s, pos) {
        Err(e) => Err(e),
        Ok((id, e1)) => match lua_at(s, e1) {
            Err(e) => Err(e),
            Ok((cells, e2)) => match position_at(s, e2) {
                Err(e) => Err(e),
                Ok((position, e3)) => Ok(
                    (CommandValue::SetCommandCells { id, cells, position }, e3),
                ),
            },
        },
    }
}

/// The fields of a command that takes an order out of a unit's queue.
pub open spec fn remove_from_queue_at(s: Seq<u8>, pos: int) -> Decoded<CommandValue> {
    match i32_at(s, pos) {
        Err(e) => Err(e),
        Ok((id, e1)) => match u32_at(s, e1) {
            Err(e) => Err(e),
            Ok((unit, e2)) => Ok((CommandValue::RemoveCommandFromQueue { id, unit }, e2)),
        },
    }
}

/// The fields of a debug command.
pub open spec fn debug_command_at(s: Seq<u8>, pos: int) -> Decoded<CommandValue> {
    match u8_at(s, pos) {
        Err(e) => Err(e),
        Ok((command, e1)) => match position_at(s, e1) {
            Err(e) => Err(e),
            Ok((position, e2)) => match u8_at(s, e2) {
                Err(e) => Err(e),
                Ok((focus_army, e3)) => match ids_at(s, e3) {
                    Err(e) => Err(e),
                    Ok((selection, e4)) => Ok(
                        (
                            CommandValue::DebugCommand { command, position, focus_army, selection },
                            e4,
                        ),
                    ),
                },
            },
        },
    }
}

/// The fields of a callback into the simulation's scripts.
pub open spec fn lua_sim_callback_at(s: Seq<u8>, pos: int) -> Decoded<CommandValue> {
    match text_at(s, pos) {
        Err(e) => Err(e),
        Ok((func, e1)) => match lua_at(s, e1) {
            Err(e) => Err(e),
            Ok((args, e2)) => match ids_at(s, e2) {
                Err(e) => Err(e),
                Ok((selection, e3)) => Ok(
                    (CommandValue::LuaSimCallback { func, args, selection }, e3),
                ),
            },
        },
    }
}

/// The fields of the command with tag `tag` at `pos`.
pub open spec fn payload_at(tag: u8, s: Seq<u8>, pos: int) -> Decoded<CommandValue> {
    if tag == ADVANCE {
        match u32_at(s, pos) {
            Err(e) => Err(e),
            Ok((ticks, e1)) => Ok((CommandValue::Advance { ticks }, e1)),
        }
    } else if tag == SET_COMMAND_SOURCE {
        match u8_at(s, pos) {
            Err(e) => Err(e),
            Ok((id, e1)) => Ok((CommandValue::SetCommandSource { id }, e1)),
        }
    } else if tag == COMMAND_SOURCE_TERMINATED {
        Ok((CommandValue::CommandSourceTerminated, pos))
    } else if tag == VERIFY_CHECKSUM {
        verify_checksum_at(s, pos)
    } else if tag == REQUEST_PAUSE {
        Ok((CommandValue::RequestPause, pos))
    } else if tag == RESUME {
        Ok((CommandValue::Resume, pos))
    } else if tag == SINGLE_STEP {
        Ok((CommandValue::SingleStep, pos))
    } else if tag == CREATE_UNIT {
        create_unit_at(s, pos)
    } else if tag == CREATE_PROP {
        create_prop_at(s, pos)
    } else if tag == DESTROY_ENTITY {
        match u32_at(s, pos) {
            Err(e) => Err(e),
            Ok((unit, e1)) => Ok((CommandValue::DestroyEntity { unit }, e1)),
        }
    } else if tag == WARP_ENTITY {
        warp_entity_at(s, pos)
    } else if tag == PROCESS_INFO_PAIR {
        process_info_pair_at(s, pos)
    } else if tag == ISSUE_COMMAND {
        match game_command_at(s, pos) {
            Err(e) => Err(e),
            Ok((order, e1)) => Ok((CommandValue::IssueCommand(order), e1)),
        }
    } else if tag == ISSUE_FACTORY_COMMAND {
        match game_command_at(s, pos) {
            Err(e) => Err(e),
            Ok((order, e1)) => Ok((CommandValue::IssueFactoryCommand(order), e1)),
        }
    } else if tag == INCREASE_COMMAND_COUNT {
        match i32_pair_at(s, pos) {
            Err(e) => Err(e),
            Ok((v, e1)) => Ok((CommandValue::IncreaseCommandCount { id: v.0, delta: v.1 }, e1)),
        }
    } else if tag == DECREASE_COMMAND_COUNT {
        match i32_pair_at(s, pos) {
            Err(e) => Err(e),
            Ok((v, e1)) => Ok((CommandValue::DecreaseCommandCount { id: v.0, delta: v.1 }, e1)),
        }
    } else if tag == SET_COMMAND_TARGET {
        set_command_target_at(s, pos)
    } else if tag == SET_COMMAND_TYPE {
        match i32_pair_at(s, pos) {
            Err(e) => Err(e),
            Ok((v, e1)) => Ok((CommandValue::SetCommandType { id: v.0, type_: v.1 }, e1)),
        }
    } else if tag == SET_COMMAND_CELLS {
        set_command_cells_at(s, pos)
    } else if tag == REMOVE_COMMAND_FROM_QUEUE {
        remove_from_queue_at(s, pos)
    } else if tag == DEBUG_COMMAND {
        debug_command_at(s, pos)
    } else if tag == EXECUTE_LUA_IN_SIM {
        match text_at(s, pos) {
            Err(e) => Err(e),
            Ok((code, e1)) => Ok((CommandValue::ExecuteLuaInSim { code }, e1)),
        }
    } else if tag == LUA_SIM_CALLBACK {
        lua_sim_callback_at(s, pos)
    } else if tag == END_GAME {
        Ok((CommandValue::EndGame, pos))
    } else {
        Err(Failure::Malformed(Malformation::UnknownCommandTag))
    }
}

/// The command that a frame with tag `tag` and payload `payload` holds. The
/// fields have to fill the payload exactly: a payload that ends inside a
/// field, or goes on behind the last one, contradicts the frame's size.
pub open spec fn command_of(tag: u8, payload: Seq<u8>) -> Result<CommandValue, Failure> {
    match payload_at(tag, payload, 0) {
        Ok((command, end)) => if end == payload.len() {
            Ok(command)
        } else {
            Err(Failure::Malformed(Malformation::SizeMismatch))
        },
        Err(Failure::UnexpectedEof) => Err(Failure::Malformed(Malformation::SizeMismatch)),
        Err(e) => Err(e),
    }
}

/// The frame at `pos`: its tag and its payload. The tag is judged before
/// the size is read; the size counts the three bytes of tag and size.
pub open spec fn frame_at(s: Seq<u8>, pos: int) -> Decoded<(u8, Seq<u8>)> {
    match u8_at(s, pos) {
        Err(e) => Err(e),
        Ok((tag, e1)) => if tag >= MAX {
            Err(Failure::Malformed(Malformation::UnknownCommandTag))
        } else {
            match u16_at(s, e1) {
                Err(e) => Err(e),
                Ok((size, e2)) => if size < 3 {
                    Err(Failure::Malformed(Malformation::SizeMismatch))
                } else {
                    match bytes_at(s, e2, size - 3) {
                        Err(e) => Err(e),
                        Ok((payload, next)) => Ok(((tag, payload), next)),
                    }
                },
            }
        },
    }
}

/// The command at `pos`.
pub open spec fn command_at(s: Seq<u8>, pos: int) -> Decoded<CommandValue> {
    match frame_at(s, pos) {
        Err(e) => Err(e),
        Ok((frame, next)) => match command_of(frame.0, frame.1) {
            Err(e) => Err(e),
            Ok(command) => Ok((command, next)),
        },
    }
}

/// A frame takes up at least its three bytes of tag and size, and ends
/// inside the input.
pub proof fn lemma_frame_advances(s: Seq<u8>, pos: int)
    ensures
        frame_at(s, pos) matches Ok((_, next)) ==> 0 <= pos && pos + 3 <= next <= s.len(),
        command_at(s, pos) matches Ok((_, next)) ==> 0 <= pos && pos + 3 <= next <= s.len(),
{
}

/// Decodes a position.
pub fn read_position(r: &mut Reader) -> (res: Result<Position, ReplayReadError>)
    ensures
        final(r).input() == old(r).input(),
        yields(
            res,
            final(r).offset(),
            position_at(old(r).input(), old(r).offset()),
            old(r).offset(),
        ),
{
    let mut probe = *r;
    let x = probe.read_f32()?;
    let y = probe.read_f32()?;
    let z = probe.read_f32()?;
    *r = probe;
    Ok(Position { x, y, z })
}

/// Decodes a target.
pub fn read_target(r: &mut Reader) -> (res: Result<Target, ReplayReadError>)
    ensures
        final(r).input() == old(r).input(),
        yields(
            res,
            final(r).offset(),
            target_at(old(r).input(), old(r).offset()),
            old(r).offset(),
        ),
{
    let mut probe = *r;
    let kind = probe.read_u8()?;
    let target = if kind == TARGET_NONE {
        Target::NoTarget
    } else if kind == TARGET_ENTITY {
        Target::Entity { id: probe.read_u32()? }
    } else if kind == TARGET_POSITION {
        Target::Position(read_position(&mut probe)?)
    } else {
        return Err(ReplayReadError::Malformed(Malformation::UnknownTargetKind));
    };
    *r = probe;
    Ok(target)
}

/// Decodes a formation, or its absence.
pub fn read_formation(r: &mut Reader) -> (res: Result<Option<Formation>, ReplayReadError>)
    ensures
        final(r).input() == old(r).input(),
        yields(
            res,
            final(r).offset(),
            formation_at(old(r).input(), old(r).offset()),
            old(r).offset(),
        ),
{
    let mut probe = *r;
    let marker = probe.read_i32()?;
    if marker == -1 {
        *r = probe;
        return Ok(None);
    }
    let a = probe.read_i32()?;
    let b = probe.read_f32()?;
    let c = probe.read_f32()?;
    let d = probe.read_f32()?;
    let scale = probe.read_f32()?;
    *r = probe;
    Ok(Some(Formation { a, b, c, d, scale }))
}

/// Decodes a list of ids.
pub fn read_ids(r: &mut Reader) -> (res: Result<Vec<u32>, ReplayReadError>)
    ensures
        final(r).input() == old(r).input(),
        yields(res, final(r).offset(), ids_at(old(r).input(), old(r).offset()), old(r).offset()),
{
    let mut probe = *r;
    let n = probe.read_u32()?;
    let count = n as usize;
    if count > probe.remaining() / 4 {
        return Err(ReplayReadError::UnexpectedEof);
    }
    let ghost s = probe.input();
    let ghost base = probe.offset();
    let mut ids: Vec<u32> = Vec::new();
    let mut i: usize = 0;
    while i < count
        invariant
            probe.input() == s,
            probe.offset() == base + 4 * i,
            0 <= base,
            i <= count,
            base + 4 * count <= s.len(),
            ids@ =~= words_at(s, base, i as int),
        decreases count - i,
    {
        let word = probe.read_u32()?;
        ids.push(word);
        i = i + 1;
    }
    *r = probe;
    Ok(ids)
}

/// Decodes the last five fields of an order.
fn read_order_tail(r: &mut Reader) -> (res: Result<
    (i32, i32, i32, LuaObject, bool),
    ReplayReadError,
>)
    ensures
        final(r).input() == old(r).input(),
        yields(
            res,
            final(r).offset(),
            order_tail_at(old(r).input(), old(r).offset()),
            old(r).offset(),
        ),
{
    let mut probe = *r;
    let arg4 = probe.read_i32()?;
    let arg5 = probe.read_i32()?;
    let arg6 = probe.read_i32()?;
    let upgrades = read_lua_object(&mut probe)?;
    let clear_queue = probe.read_bool()?;
    *r = probe;
    Ok((arg4, arg5, arg6, upgrades, clear_queue))
}

/// Decodes an order.
pub fn read_game_command(r: &mut Reader) -> (res: Result<GameCommand, ReplayReadError>)
    ensures
        final(r).input() == old(r).input(),
        yields(
            res,
            final(r).offset(),
            game_command_at(old(r).input(), old(r).offset()),
            old(r).offset(),
        ),
{
    let mut probe = *r;
    let entity_ids = read_ids(&mut probe)?;
    let id = probe.read_i32()?;
    let coordinated_attack_cmd_id = probe.read_i32()?;
    let type_ = probe.read_u8()?;
    let arg2 = probe.read_u8()?;
    let target = read_target(&mut probe)?;
    let arg3 = probe.read_f32()?;
    let formation = read_formation(&mut probe)?;
    let blueprint = probe.read_cstring()?;
    let tail = read_order_tail(&mut probe)?;
    *r = probe;
    Ok(
        GameCommand {
            entity_ids,
            id,
            coordinated_attack_cmd_id,
            type_,
            arg2,
            target,
            arg3,
            formation,
            blueprint,
            arg4: tail.0,
            arg5: tail.1,
            arg6: tail.2,
            upgrades: tail.3,
            clear_queue: tail.4,
        },
    )
}

/// Decodes a pair of `i32`.
fn read_i32_pair(r: &mut Reader) -> (res: Result<(i32, i32), ReplayReadError>)
    ensures
        final(r).input() == old(r).input(),
        yields(
            res,
            final(r).offset(),
            i32_pair_at(old(r).input(), old(r).offset()),
            old(r).offset(),
        ),
{
    let mut probe = *r;
    let a = probe.read_i32()?;
    let b = probe.read_i32()?;
    *r = probe;
    Ok((a, b))
}

/// Decodes the fields of a checksum command.
fn read_verify_checksum(r: &mut Reader) -> (res: Result<ReplayCommand, ReplayReadError>)
    ensures
        final(r).input() == old(r).input(),
        yields(
            res,
            final(r).offset(),
            verify_checksum_at(old(r).input(), old(r).offset()),
            old(r).offset(),
        ),
{
    let mut probe = *r;
    let b = probe.take(16)?;
    let digest: [u8; 16] = [
        b[0],
        b[1],
        b[2],
        b[3],
        b[4],
        b[5],
        b[6],
        b[7],
        b[8],
        b[9],
        b[10],
        b[11],
        b[12],
        b[13],
        b[14],
        b[15],
    ];
    assert(digest@ =~= b@);
    let tick = probe.read_u32()?;
    let command = ReplayCommand::VerifyChecksum { digest, tick };
    *r = probe;
    Ok(command)
}

/// Decodes the fields of a command that creates a unit.
fn read_create_unit(r: &mut Reader) -> (res: Result<ReplayCommand, ReplayReadError>)
    ensures
        final(r).input() == old(r).input(),
        yields(
            res,
            final(r).offset(),
            create_unit_at(old(r).input(), old(r).offset()),
            old(r).offset(),
        ),
{
    let mut probe = *r;
    let army = probe.read_u8()?;
    let blueprint = probe.read_cstring()?;
    let x = probe.read_f32()?;
    let z = probe.read_f32()?;
    let heading = probe.read_f32()?;
    let command = ReplayCommand::CreateUnit { army, blueprint, x, z, heading };
    *r = probe;
    Ok(command)
}

/// Decodes the fields of a command that creates a prop.
fn read_create_prop(r: &mut Reader) -> (res: Result<ReplayCommand, ReplayReadError>)
    ensures
        final(r).input() == old(r).input(),
        yields(
            res,
            final(r).offset(),
            create_prop_at(old(r).input(), old(r).offset()),
            old(r).offset(),
        ),
{
    let mut probe = *r;
    let blueprint = probe.read_cstring()?;
    let position = read_position(&mut probe)?;
    let command = ReplayCommand::CreateProp { blueprint, position };
    *r = probe;
    Ok(command)
}

/// Decodes the fields of a command that moves an entity at once.
fn read_warp_entity(r: &mut Reader) -> (res: Result<ReplayCommand, ReplayReadError>)
    ensures
        final(r).input() == old(r).input(),
        yields(
            res,
            final(r).offset(),
            warp_entity_at(old(r).input(), old(r).offset()),
            old(r).offset(),
        ),
{
    let mut probe = *r;
    let unit = probe.read_u32()?;
    let x = probe.read_f32()?;
    let y = probe.read_f32()?;
    let z = probe.read_f32()?;
    let command = ReplayCommand::WarpEntity { unit, x, y, z };
    *r = probe;
    Ok(command)
}

/// Decodes the fields of a command that hands a pair of texts to a unit.
fn read_process_info_pair(r: &mut Reader) -> (res: Result<ReplayCommand, ReplayReadError>)
    ensures
        final(r).input() == old(r).input(),
        yields(
            res,
            final(r).offset(),
            process_info_pair_at(old(r).input(), old(r).offset()),
            old(r).offset(),
        ),
{
    let mut probe = *r;
    let unit = probe.read_u32()?;
    let arg1 = probe.read_cstring()?;
    let arg2 = probe.read_cstring()?;
    let command = ReplayCommand::ProcessInfoPair { unit, arg1, arg2 };
    *r = probe;
    Ok(command)
}

/// Decodes the fields of a command that gives an order a new target.
fn read_set_command_target(r: &mut Reader) -> (res: Result<ReplayCommand, ReplayReadError>)
    ensures
        final(r).input() == old(r).input(),
        yields(
            res,
            final(r).offset(),
            set_command_target_at(old(r).input(), old(r).offset()),
            old(r).offset(),
        ),
{
    let mut probe = *r;
    let id = probe.read_i32()?;
    let target = read_target(&mut probe)?;
    let command = ReplayCommand::SetCommandTarget { id, target };
    *r = probe;
    Ok(command)
}

/// Decodes the fields of a command that gives an order new cells.
fn read_set_command_cells(r: &mut Reader) -> (res: Result<ReplayCommand, ReplayReadError>)
    ensures
        final(r).input() == old(r).input(),
        yields(
            res,
            final(r).offset(),
            set_command_cells_at(old(r).input(), old(r).offset()),
            old(r).offset(),
        ),
{
    let mut probe = *r;
    let id = probe.read_i32()?;
    let cells = read_lua_object(&mut probe)?;
    let position = read_position(&mut probe)?;
    let command = ReplayCommand::SetCommandCells { id, cells, position };
    *r = probe;
    Ok(command)
}

/// Decodes the fields of a command that takes an order out of a unit's queue.
fn read_remove_from_queue(r: &mut Reader) -> (res: Result<ReplayCommand, ReplayReadError>)
    ensures
        final(r).input() == old(r).input(),
        yields(
            res,
            final(r).offset(),
            remove_from_queue_at(old(r).input(), old(r).offset()),
            old(r).offset(),
        ),
{
    let mut probe = *r;
    let id = probe.read_i32()?;
    let unit = probe.read_u32()?;
    let command = ReplayCommand::RemoveCommandFromQueue { id, unit };
    *r = probe;
    Ok(command)
}

/// Decodes the fields of a debug command.
fn read_debug_command(r: &mut Reader) -> (res: Result<ReplayCommand, ReplayReadError>)
    ensures
        final(r).input() == old(r).input(),
        yields(
            res,
            final(r).offset(),
            debug_command_at(old(r).input(), old(r).offset()),
            old(r).offset(),
        ),
{
    let mut probe = *r;
    let command = probe.read_u8()?;
    let position = read_position(&mut probe)?;
    let focus_army = probe.read_u8()?;
    let selection = read_ids(&mut probe)?;
    let command = ReplayCommand::DebugCommand { command, position, focus_army, selection };
    *r = probe;
    Ok(command)
}

/// Decodes the fields of a callback into the simulation's scripts.
fn read_lua_sim_callback(r: &mut Reader) -> (res: Result<ReplayCommand, ReplayReadError>)
    ensures
        final(r).input() == old(r).input(),
        yields(
            res,
            final(r).offset(),
            lua_sim_callback_at(old(r).input(), old(r).offset()),
            old(r).offset(),
        ),
{
    let mut probe = *r;
    let func = probe.read_cstring()?;
    let args = read_lua_object(&mut probe)?;
    let selection = read_ids(&mut probe)?;
    let command = ReplayCommand::LuaSimCallback { func, args, selection };
    *r = probe;
    Ok(command)
}

/// Decodes the fields of the command with tag `tag`.
pub fn read_payload(tag: u8, r: &mut Reader) -> (res: Result<ReplayCommand, ReplayReadError>)
    ensures
        final(r).input() == old(r).input(),
        yields(
            res,
            final(r).offset(),
            payload_at(tag, old(r).input(), old(r).offset()),
            old(r).offset(),
        ),
{
    if tag == ADVANCE {
        Ok(ReplayCommand::Advance { ticks: r.read_u32()? })
    } else if tag == SET_COMMAND_SOURCE {
        Ok(ReplayCommand::SetCommandSource { id: r.read_u8()? })
    } else if tag == COMMAND_SOURCE_TERMINATED {
        Ok(ReplayCommand::CommandSourceTerminated)
    } else if tag == VERIFY_CHECKSUM {
        read_verify_checksum(r)
    } else if tag == REQUEST_PAUSE {
        Ok(ReplayCommand::RequestPause)
    } else if tag == RESUME {
        Ok(ReplayCommand::Resume)
    } else if tag == SINGLE_STEP {
        Ok(ReplayCommand::SingleStep)
    } else if tag == CREATE_UNIT {
        read_create_unit(r)
    } else if tag == CREATE_PROP {
        read_create_prop(r)
    } else if tag == DESTROY_ENTITY {
        Ok(ReplayCommand::DestroyEntity { unit: r.read_u32()? })
    } else if tag == WARP_ENTITY {
        read_warp_entity(r)
    } else if tag == PROCESS_INFO_PAIR {
        read_process_info_pair(r)
    } else if tag == ISSUE_COMMAND {
        Ok(ReplayCommand::IssueCommand(read_game_command(r)?))
    } else if tag == ISSUE_FACTORY_COMMAND {
        Ok(ReplayCommand::IssueFactoryCommand(read_game_command(r)?))
    } else if tag == INCREASE_COMMAND_COUNT {
        let v = read_i32_pair(r)?;
        Ok(ReplayCommand::IncreaseCommandCount { id: v.0, delta: v.1 })
    } else if tag == DECREASE_COMMAND_COUNT {
        let v = read_i32_pair(r)?;
        Ok(ReplayCommand::DecreaseCommandCount { id: v.0, delta: v.1 })
    } else if tag == SET_COMMAND_TARGET {
        read_set_command_target(r)
    } else if tag == SET_COMMAND_TYPE {
        let v = read_i32_pair(r)?;
        Ok(ReplayCommand::SetCommandType { id: v.0, type_: v.1 })
    } else if tag == SET_COMMAND_CELLS {
        read_set_command_cells(r)
    } else if tag == REMOVE_COMMAND_FROM_QUEUE {
        read_remove_from_queue(r)
    } else if tag == DEBUG_COMMAND {
        read_debug_command(r)
    } else if tag == EXECUTE_LUA_IN_SIM {
        Ok(ReplayCommand::ExecuteLuaInSim { code: r.read_cstring()? })
    } else if tag == LUA_SIM_CALLBACK {
        read_lua_sim_callback(r)
    } else if tag == END_GAME {
        Ok(ReplayCommand::EndGame)
    } else {
        Err(ReplayReadError::Malformed(Malformation::UnknownCommandTag))
    }
}

/// Decodes the command that a frame with tag `tag` and payload `payload`
/// holds.
pub fn decode_command(tag: u8, payload: &[u8]) -> (res: Result<ReplayCommand, ReplayReadError>)
    ensures
        match command_of(tag, payload@) {
            Ok(command) => res is Ok && res->Ok_0@ == command,
            Err(e) => res is Err && res->Err_0@ == e,
        },
{
    let mut r = Reader::new(payload);
    match read_payload(tag, &mut r) {
        Ok(command) => if r.remaining() == 0 {
            Ok(command)
        } else {
            Err(ReplayReadError::Malformed(Malformation::SizeMismatch))
        },
        Err(ReplayReadError::UnexpectedEof) => Err(
            ReplayReadError::Malformed(Malformation::SizeMismatch),
        ),
        Err(e) => Err(e),
    }
}

/// Reads the frame at the cursor: its tag and its payload, borrowed.
pub fn read_frame<'a>(r: &mut Reader<'a>) -> (res: Result<(u8, &'a [u8]), ReplayReadError>)
    ensures
        final(r).input() == old(r).input(),
        yields(res, final(r).offset(), frame_at(old(r).input(), old(r).offset()), old(r).offset()),
{
    let mut probe = *r;
    let tag = probe.read_u8()?;
    if tag >= MAX {
        return Err(ReplayReadError::Malformed(Malformation::UnknownCommandTag));
    }
    let size = probe.read_u16()?;
    if size < 3 {
        return Err(ReplayReadError::Malformed(Malformation::SizeMismatch));
    }
    let payload = probe.take((size - 3) as usize)?;
    *r = probe;
    Ok((tag, payload))
}

/// Decodes the command at the cursor.
pub fn read_command(r: &mut Reader) -> (res: Result<ReplayCommand, ReplayReadError>)
    ensures
        final(r).input() == old(r).input(),
        yields(
            res,
            final(r).offset(),
            command_at(old(r).input(), old(r).offset()),
            old(r).offset(),
        ),
{
    let mut probe = *r;
    let frame = read_frame(&mut probe)?;
    let command = decode_command(frame.0, frame.1)?;
    *r = probe;
    Ok(command)
}

} // verus!
