use fafreplay::command::{decode_command, read_command, read_frame};
use fafreplay::lua::{LuaObject, LuaTable};
use fafreplay::reader::{FloatBits, Reader};
use fafreplay::replay::{Formation, GameCommand, Position, ReplayCommand, Target};
use fafreplay::{command_name, constants, Malformation, ReplayReadError};

fn fl(v: f32) -> FloatBits {
    FloatBits { bits: v.to_bits() }
}

fn frame(tag: u8, payload: &[u8]) -> Vec<u8> {
    let size = (payload.len() + 3) as u16;
    let mut out = vec![tag];
    out.extend_from_slice(&size.to_le_bytes());
    out.extend_from_slice(payload);
    out
}

fn one(tag: u8, payload: &[u8]) -> Result<ReplayCommand, ReplayReadError> {
    let bytes = frame(tag, payload);
    let mut r = Reader::new(&bytes);
    let c = read_command(&mut r)?;
    assert_eq!(r.position(), bytes.len());
    assert_eq!(c.tag(), tag);
    Ok(c)
}

fn position_bytes(x: f32, y: f32, z: f32) -> Vec<u8> {
    let mut out = vec![];
    out.extend_from_slice(&x.to_le_bytes());
    out.extend_from_slice(&y.to_le_bytes());
    out.extend_from_slice(&z.to_le_bytes());
    out
}

fn game_command_bytes() -> Vec<u8> {
    let mut p = vec![];
    p.extend_from_slice(&2u32.to_le_bytes());
    p.extend_from_slice(&7u32.to_le_bytes());
    p.extend_from_slice(&0xffff_fffeu32.to_le_bytes());
    p.extend_from_slice(&(-5i32).to_le_bytes());
    p.extend_from_slice(&(-1i32).to_le_bytes());
    p.push(10);
    p.push(3);
    p.push(2);
    p.extend_from_slice(&position_bytes(1.0, 2.0, 3.0));
    p.extend_from_slice(&0.5f32.to_le_bytes());
    p.extend_from_slice(&4i32.to_le_bytes());
    p.extend_from_slice(&9i32.to_le_bytes());
    p.extend_from_slice(&1.5f32.to_le_bytes());
    p.extend_from_slice(&2.5f32.to_le_bytes());
    p.extend_from_slice(&3.5f32.to_le_bytes());
    p.extend_from_slice(&4.5f32.to_le_bytes());
    p.extend_from_slice(b"uel0001\0");
    p.extend_from_slice(&0i32.to_le_bytes());
    p.extend_from_slice(&1i32.to_le_bytes());
    p.extend_from_slice(&(-1i32).to_le_bytes());
    p.extend_from_slice(&[5, 2, b'k', 0, 4, 1, 6]);
    p.push(1);
    p
}

fn game_command() -> GameCommand {
    let mut upgrades = LuaTable::new();
    upgrades.insert(LuaObject::Text("k".to_string()), LuaObject::Bool(true));
    GameCommand {
        entity_ids: vec![7, 0xffff_fffe],
        id: -5,
        coordinated_attack_cmd_id: -1,
        type_: 10,
        arg2: 3,
        target: Target::Position(Position { x: fl(1.0), y: fl(2.0), z: fl(3.0) }),
        arg3: fl(0.5),
        formation: Some(Formation { a: 9, b: fl(1.5), c: fl(2.5), d: fl(3.5), scale: fl(4.5) }),
        blueprint: "uel0001".to_string(),
        arg4: 0,
        arg5: 1,
        arg6: -1,
        upgrades: LuaObject::Table(upgrades),
        clear_queue: true,
    }
}

#[test]
fn command_advance() {
    assert_eq!(one(0, &[5, 0, 0, 0]), Ok(ReplayCommand::Advance { ticks: 5 }));
    assert_eq!(
        one(0, &[0xff, 0xff, 0xff, 0xff]),
        Ok(ReplayCommand::Advance { ticks: u32::MAX })
    );
}

#[test]
fn command_set_command_source() {
    assert_eq!(one(1, &[200]), Ok(ReplayCommand::SetCommandSource { id: 200 }));
}

#[test]
fn commands_without_payload() {
    assert_eq!(one(2, &[]), Ok(ReplayCommand::CommandSourceTerminated));
    assert_eq!(one(4, &[]), Ok(ReplayCommand::RequestPause));
    assert_eq!(one(5, &[]), Ok(ReplayCommand::Resume));
    assert_eq!(one(6, &[]), Ok(ReplayCommand::SingleStep));
    assert_eq!(one(23, &[]), Ok(ReplayCommand::EndGame));
}

#[test]
fn command_verify_checksum() {
    let mut p: Vec<u8> = (1..=16).collect();
    p.extend_from_slice(&1000u32.to_le_bytes());
    assert_eq!(
        one(3, &p),
        Ok(ReplayCommand::VerifyChecksum {
            digest: [1, 2, 3, 4, 5, 6, 7, 8, 9, 10, 11, 12, 13, 14, 15, 16],
            tick: 1000
        })
    );
}

#[test]
fn command_create_unit() {
    let mut p = vec![3];
    p.extend_from_slice(b"url0107\0");
    p.extend_from_slice(&position_bytes(10.0, -20.0, 0.25));
    assert_eq!(
        one(7, &p),
        Ok(ReplayCommand::CreateUnit {
            army: 3,
            blueprint: "url0107".to_string(),
            x: fl(10.0),
            z: fl(-20.0),
            heading: fl(0.25),
        })
    );
}

#[test]
fn command_create_prop() {
    let mut p = b"/env/rock.bp\0".to_vec();
    p.extend_from_slice(&position_bytes(1.0, 2.0, 3.0));
    assert_eq!(
        one(8, &p),
        Ok(ReplayCommand::CreateProp {
            blueprint: "/env/rock.bp".to_string(),
            position: Position { x: fl(1.0), y: fl(2.0), z: fl(3.0) },
        })
    );
}

#[test]
fn command_destroy_entity() {
    assert_eq!(one(9, &[1, 1, 0, 0]), Ok(ReplayCommand::DestroyEntity { unit: 257 }));
}

#[test]
fn command_warp_entity() {
    let mut p = 9u32.to_le_bytes().to_vec();
    p.extend_from_slice(&position_bytes(1.0, 2.0, 3.0));
    assert_eq!(
        one(10, &p),
        Ok(ReplayCommand::WarpEntity { unit: 9, x: fl(1.0), y: fl(2.0), z: fl(3.0) })
    );
}

#[test]
fn command_process_info_pair() {
    let mut p = 4u32.to_le_bytes().to_vec();
    p.extend_from_slice(b"SetName\0Bob\0");
    assert_eq!(
        one(11, &p),
        Ok(ReplayCommand::ProcessInfoPair {
            unit: 4,
            arg1: "SetName".to_string(),
            arg2: "Bob".to_string(),
        })
    );
}

#[test]
fn command_issue_command() {
    assert_eq!(
        one(12, &game_command_bytes()),
        Ok(ReplayCommand::IssueCommand(game_command()))
    );
}

#[test]
fn command_issue_factory_command() {
    assert_eq!(
        one(13, &game_command_bytes()),
        Ok(ReplayCommand::IssueFactoryCommand(game_command()))
    );
}

#[test]
fn command_issue_command_without_formation_and_target() {
    let mut p = vec![];
    p.extend_from_slice(&0u32.to_le_bytes());
    p.extend_from_slice(&1i32.to_le_bytes());
    p.extend_from_slice(&2i32.to_le_bytes());
    p.push(1);
    p.push(2);
    p.push(0);
    p.extend_from_slice(&0f32.to_le_bytes());
    p.extend_from_slice(&(-1i32).to_le_bytes());
    p.push(0);
    p.extend_from_slice(&3i32.to_le_bytes());
    p.extend_from_slice(&4i32.to_le_bytes());
    p.extend_from_slice(&5i32.to_le_bytes());
    p.push(3);
    p.push(0);
    assert_eq!(
        one(12, &p),
        Ok(ReplayCommand::IssueCommand(GameCommand {
            entity_ids: vec![],
            id: 1,
            coordinated_attack_cmd_id: 2,
            type_: 1,
            arg2: 2,
            target: Target::NoTarget,
            arg3: fl(0.0),
            formation: None,
            blueprint: String::new(),
            arg4: 3,
            arg5: 4,
            arg6: 5,
            upgrades: LuaObject::Nil,
            clear_queue: false,
        }))
    );
}

#[test]
fn command_counts() {
    let mut p = 3i32.to_le_bytes().to_vec();
    p.extend_from_slice(&(-2i32).to_le_bytes());
    assert_eq!(one(14, &p), Ok(ReplayCommand::IncreaseCommandCount { id: 3, delta: -2 }));
    assert_eq!(one(15, &p), Ok(ReplayCommand::DecreaseCommandCount { id: 3, delta: -2 }));
    assert_eq!(one(17, &p), Ok(ReplayCommand::SetCommandType { id: 3, type_: -2 }));
}

#[test]
fn command_set_command_target() {
    let mut p = 3i32.to_le_bytes().to_vec();
    p.push(1);
    p.extend_from_slice(&77u32.to_le_bytes());
    assert_eq!(
        one(16, &p),
        Ok(ReplayCommand::SetCommandTarget { id: 3, target: Target::Entity { id: 77 } })
    );
    let p = [3, 0, 0, 0, 0];
    assert_eq!(
        one(16, &p),
        Ok(ReplayCommand::SetCommandTarget { id: 3, target: Target::NoTarget })
    );
    let p = [3, 0, 0, 0, 3];
    assert_eq!(
        one(16, &p),
        Err(ReplayReadError::Malformed(Malformation::UnknownTargetKind))
    );
}

#[test]
fn command_set_command_cells() {
    let mut p = 3i32.to_le_bytes().to_vec();
    p.extend_from_slice(&[5, 6]);
    p.extend_from_slice(&position_bytes(1.0, 2.0, 3.0));
    assert_eq!(
        one(18, &p),
        Ok(ReplayCommand::SetCommandCells {
            id: 3,
            cells: LuaObject::Table(LuaTable::new()),
            position: Position { x: fl(1.0), y: fl(2.0), z: fl(3.0) },
        })
    );
}

#[test]
fn command_remove_command_from_queue() {
    let mut p = (-3i32).to_le_bytes().to_vec();
    p.extend_from_slice(&8u32.to_le_bytes());
    assert_eq!(one(19, &p), Ok(ReplayCommand::RemoveCommandFromQueue { id: -3, unit: 8 }));
}

#[test]
fn command_debug_command() {
    let mut p = vec![2];
    p.extend_from_slice(&position_bytes(1.0, 2.0, 3.0));
    p.push(4);
    p.extend_from_slice(&3u32.to_le_bytes());
    p.extend_from_slice(&10u32.to_le_bytes());
    p.extend_from_slice(&20u32.to_le_bytes());
    p.extend_from_slice(&30u32.to_le_bytes());
    assert_eq!(
        one(20, &p),
        Ok(ReplayCommand::DebugCommand {
            command: 2,
            position: Position { x: fl(1.0), y: fl(2.0), z: fl(3.0) },
            focus_army: 4,
            selection: vec![10, 20, 30],
        })
    );
}

#[test]
fn command_execute_lua_in_sim() {
    assert_eq!(
        one(21, b"print('x')\0"),
        Ok(ReplayCommand::ExecuteLuaInSim { code: "print('x')".to_string() })
    );
}

#[test]
fn command_lua_sim_callback() {
    let mut p = b"GiveResources\0".to_vec();
    p.extend_from_slice(&[2, b'a', 0]);
    p.extend_from_slice(&1u32.to_le_bytes());
    p.extend_from_slice(&42u32.to_le_bytes());
    assert_eq!(
        one(22, &p),
        Ok(ReplayCommand::LuaSimCallback {
            func: "GiveResources".to_string(),
            args: LuaObject::Text("a".to_string()),
            selection: vec![42],
        })
    );
}

#[test]
fn unknown_command_tag() {
    let mut r = Reader::new(&[24]);
    assert_eq!(
        read_command(&mut r),
        Err(ReplayReadError::Malformed(Malformation::UnknownCommandTag))
    );
    assert_eq!(r.position(), 0);
    assert_eq!(
        one(255, &[]),
        Err(ReplayReadError::Malformed(Malformation::UnknownCommandTag))
    );
    assert_eq!(
        decode_command(24, &[]),
        Err(ReplayReadError::Malformed(Malformation::UnknownCommandTag))
    );
}

#[test]
fn frame_size_below_three() {
    for size in 0u8..3 {
        let bytes = [2, size, 0, 0, 0];
        let mut r = Reader::new(&bytes);
        assert_eq!(
            read_frame(&mut r),
            Err(ReplayReadError::Malformed(Malformation::SizeMismatch))
        );
        assert_eq!(r.position(), 0);
    }
}

#[test]
fn payload_longer_than_the_fields() {
    assert_eq!(
        one(0, &[5, 0, 0, 0, 0]),
        Err(ReplayReadError::Malformed(Malformation::SizeMismatch))
    );
    assert_eq!(
        one(2, &[0]),
        Err(ReplayReadError::Malformed(Malformation::SizeMismatch))
    );
}

#[test]
fn payload_shorter_than_the_fields() {
    assert_eq!(
        one(0, &[5, 0, 0]),
        Err(ReplayReadError::Malformed(Malformation::SizeMismatch))
    );
    assert_eq!(
        one(21, b"no terminator"),
        Err(ReplayReadError::Malformed(Malformation::SizeMismatch))
    );
    // The bytes of the next frame do not make up for a payload that is short.
    let mut bytes = frame(0, &[5, 0]);
    bytes.extend_from_slice(&frame(23, &[]));
    let mut r = Reader::new(&bytes);
    assert_eq!(
        read_command(&mut r),
        Err(ReplayReadError::Malformed(Malformation::SizeMismatch))
    );
}

#[test]
fn frame_that_the_input_cuts_off() {
    let bytes = [0x00, 0x07, 0x00, 0x05, 0x00];
    let mut r = Reader::new(&bytes);
    assert_eq!(read_command(&mut r), Err(ReplayReadError::UnexpectedEof));
    assert_eq!(r.position(), 0);
    let mut r = Reader::new(&[0, 7]);
    assert_eq!(read_command(&mut r), Err(ReplayReadError::UnexpectedEof));
    let mut r = Reader::new(&[]);
    assert_eq!(read_command(&mut r), Err(ReplayReadError::UnexpectedEof));
}

#[test]
fn text_field_with_bad_utf8() {
    assert_eq!(
        one(21, &[0xff, 0]),
        Err(ReplayReadError::MalformedUtf8(vec![0xff], 0))
    );
}

#[test]
fn ids_longer_than_the_payload() {
    let mut p = vec![2];
    p.extend_from_slice(&position_bytes(1.0, 2.0, 3.0));
    p.push(4);
    p.extend_from_slice(&0xffff_ffffu32.to_le_bytes());
    p.extend_from_slice(&10u32.to_le_bytes());
    assert_eq!(
        one(20, &p),
        Err(ReplayReadError::Malformed(Malformation::SizeMismatch))
    );
}

#[test]
fn frames_follow_one_another() {
    let mut bytes = frame(0, &[1, 0, 0, 0]);
    bytes.extend_from_slice(&frame(1, &[2]));
    bytes.extend_from_slice(&frame(23, &[]));
    let mut r = Reader::new(&bytes);
    assert_eq!(read_frame(&mut r), Ok((0, &[1u8, 0, 0, 0][..])));
    assert_eq!(r.position(), 7);
    assert_eq!(read_command(&mut r), Ok(ReplayCommand::SetCommandSource { id: 2 }));
    assert_eq!(r.position(), 11);
    assert_eq!(read_command(&mut r), Ok(ReplayCommand::EndGame));
    assert_eq!(r.remaining(), 0);
}

#[test]
fn command_names_and_tags() {
    let names = [
        "Advance",
        "SetCommandSource",
        "CommandSourceTerminated",
        "VerifyChecksum",
        "RequestPause",
        "Resume",
        "SingleStep",
        "CreateUnit",
        "CreateProp",
        "DestroyEntity",
        "WarpEntity",
        "ProcessInfoPair",
        "IssueCommand",
        "IssueFactoryCommand",
        "IncreaseCommandCount",
        "DecreaseCommandCount",
        "SetCommandTarget",
        "SetCommandType",
        "SetCommandCells",
        "RemoveCommandFromQueue",
        "DebugCommand",
        "ExecuteLuaInSim",
        "LuaSimCallback",
        "EndGame",
    ];
    assert_eq!(constants::MAX, 24);
    for (tag, name) in names.iter().enumerate() {
        assert_eq!(command_name(tag as u8), Some(*name));
    }
    for tag in 24..=255u8 {
        assert_eq!(command_name(tag), None);
    }
    assert_eq!(constants::ADVANCE, 0);
    assert_eq!(constants::VERIFY_CHECKSUM, 3);
    assert_eq!(constants::ISSUE_COMMAND, 12);
    assert_eq!(constants::LUA_SIM_CALLBACK, 22);
    assert_eq!(constants::END_GAME, 23);
}
