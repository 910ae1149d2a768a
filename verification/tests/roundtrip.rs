use fafreplay::lua::{LuaObject, LuaTable};
use fafreplay::reader::FloatBits;
use fafreplay::replay::{
    Army, Formation, GameCommand, Player, Position, Replay, ReplayBody, ReplayCommand,
    ReplayHeader, SimData, Target,
};
use fafreplay::{body_offset, body_ticks, ParserWrap};

fn fl(v: f32) -> FloatBits {
    FloatBits { bits: v.to_bits() }
}

fn put_text(out: &mut Vec<u8>, s: &str) {
    out.extend_from_slice(s.as_bytes());
    out.push(0);
}

fn put_float(out: &mut Vec<u8>, v: FloatBits) {
    out.extend_from_slice(&v.bits.to_le_bytes());
}

fn put_lua(out: &mut Vec<u8>, v: &LuaObject) {
    match v {
        LuaObject::Float(f) => {
            out.push(0);
            put_float(out, *f);
        }
        LuaObject::ByteString(b) => {
            out.push(1);
            out.extend_from_slice(b);
            out.push(0);
        }
        LuaObject::Text(t) => {
            out.push(2);
            put_text(out, t);
        }
        LuaObject::Nil => out.push(3),
        LuaObject::Bool(b) => {
            out.push(4);
            out.push(*b as u8);
        }
        LuaObject::Table(t) => {
            out.push(5);
            for i in 0..t.len() {
                let (k, v) = t.entry(i);
                put_lua(out, k);
                put_lua(out, v);
            }
            out.push(6);
        }
    }
}

fn put_block(out: &mut Vec<u8>, v: &LuaObject) {
    let mut inner = vec![];
    put_lua(&mut inner, v);
    out.extend_from_slice(&(inner.len() as u32).to_le_bytes());
    out.extend_from_slice(&inner);
}

fn put_position(out: &mut Vec<u8>, p: &Position) {
    put_float(out, p.x);
    put_float(out, p.y);
    put_float(out, p.z);
}

fn put_target(out: &mut Vec<u8>, t: &Target) {
    match t {
        Target::NoTarget => out.push(0),
        Target::Entity { id } => {
            out.push(1);
            out.extend_from_slice(&id.to_le_bytes());
        }
        Target::Position(p) => {
            out.push(2);
            put_position(out, p);
        }
    }
}

fn put_ids(out: &mut Vec<u8>, ids: &[u32]) {
    out.extend_from_slice(&(ids.len() as u32).to_le_bytes());
    for id in ids {
        out.extend_from_slice(&id.to_le_bytes());
    }
}

fn put_order(out: &mut Vec<u8>, g: &GameCommand) {
    put_ids(out, &g.entity_ids);
    out.extend_from_slice(&g.id.to_le_bytes());
    out.extend_from_slice(&g.coordinated_attack_cmd_id.to_le_bytes());
    out.push(g.type_);
    out.push(g.arg2);
    put_target(out, &g.target);
    put_float(out, g.arg3);
    match &g.formation {
        None => out.extend_from_slice(&(-1i32).to_le_bytes()),
        Some(f) => {
            out.extend_from_slice(&0i32.to_le_bytes());
            out.extend_from_slice(&f.a.to_le_bytes());
            put_float(out, f.b);
            put_float(out, f.c);
            put_float(out, f.d);
            put_float(out, f.scale);
        }
    }
    put_text(out, &g.blueprint);
    out.extend_from_slice(&g.arg4.to_le_bytes());
    out.extend_from_slice(&g.arg5.to_le_bytes());
    out.extend_from_slice(&g.arg6.to_le_bytes());
    put_lua(out, &g.upgrades);
    out.push(g.clear_queue as u8);
}

fn put_command(out: &mut Vec<u8>, c: &ReplayCommand) {
    let mut p = vec![];
    match c {
        ReplayCommand::Advance { ticks } => p.extend_from_slice(&ticks.to_le_bytes()),
        ReplayCommand::SetCommandSource { id } => p.push(*id),
        ReplayCommand::CommandSourceTerminated
        | ReplayCommand::RequestPause
        | ReplayCommand::Resume
        | ReplayCommand::SingleStep
        | ReplayCommand::EndGame => {}
        ReplayCommand::VerifyChecksum { digest, tick } => {
            p.extend_from_slice(digest);
            p.extend_from_slice(&tick.to_le_bytes());
        }
        ReplayCommand::CreateUnit { army, blueprint, x, z, heading } => {
            p.push(*army);
            put_text(&mut p, blueprint);
            put_float(&mut p, *x);
            put_float(&mut p, *z);
            put_float(&mut p, *heading);
        }
        ReplayCommand::CreateProp { blueprint, position } => {
            put_text(&mut p, blueprint);
            put_position(&mut p, position);
        }
        ReplayCommand::DestroyEntity { unit } => p.extend_from_slice(&unit.to_le_bytes()),
        ReplayCommand::WarpEntity { unit, x, y, z } => {
            p.extend_from_slice(&unit.to_le_bytes());
            put_float(&mut p, *x);
            put_float(&mut p, *y);
            put_float(&mut p, *z);
        }
        ReplayCommand::ProcessInfoPair { unit, arg1, arg2 } => {
            p.extend_from_slice(&unit.to_le_bytes());
            put_text(&mut p, arg1);
            put_text(&mut p, arg2);
        }
        ReplayCommand::IssueCommand(g) | ReplayCommand::IssueFactoryCommand(g) => {
            put_order(&mut p, g)
        }
        ReplayCommand::IncreaseCommandCount { id, delta }
        | ReplayCommand::DecreaseCommandCount { id, delta } => {
            p.extend_from_slice(&id.to_le_bytes());
            p.extend_from_slice(&delta.to_le_bytes());
        }
        ReplayCommand::SetCommandTarget { id, target } => {
            p.extend_from_slice(&id.to_le_bytes());
            put_target(&mut p, target);
        }
        ReplayCommand::SetCommandType { id, type_ } => {
            p.extend_from_slice(&id.to_le_bytes());
            p.extend_from_slice(&type_.to_le_bytes());
        }
        ReplayCommand::SetCommandCells { id, cells, position } => {
            p.extend_from_slice(&id.to_le_bytes());
            put_lua(&mut p, cells);
            put_position(&mut p, position);
        }
        ReplayCommand::RemoveCommandFromQueue { id, unit } => {
            p.extend_from_slice(&id.to_le_bytes());
            p.extend_from_slice(&unit.to_le_bytes());
        }
        ReplayCommand::DebugCommand { command, position, focus_army, selection } => {
            p.push(*command);
            put_position(&mut p, position);
            p.push(*focus_army);
            put_ids(&mut p, selection);
        }
        ReplayCommand::ExecuteLuaInSim { code } => put_text(&mut p, code),
        ReplayCommand::LuaSimCallback { func, args, selection } => {
            put_text(&mut p, func);
            put_lua(&mut p, args);
            put_ids(&mut p, selection);
        }
    }
    out.push(c.tag());
    out.extend_from_slice(&((p.len() + 3) as u16).to_le_bytes());
    out.extend_from_slice(&p);
}

fn put_header(out: &mut Vec<u8>, h: &ReplayHeader) {
    put_text(out, &h.scfa_version);
    out.push(0);
    out.push(0x0d);
    put_text(out, &h.replay_version);
    put_text(out, &h.map_file);
    put_block(out, &h.mods);
    put_block(out, &h.scenario);
    out.push(h.players.len() as u8);
    for p in &h.players {
        put_text(out, &p.name);
        out.extend_from_slice(&p.id.to_le_bytes());
    }
    out.push(h.cheats_enabled as u8);
    out.push(h.army_count);
    for a in &h.armies {
        put_block(out, &a.data);
        out.push(a.source.unwrap_or(-1) as u8);
    }
    out.extend_from_slice(&h.seed.to_le_bytes());
}

fn serialize(r: &Replay) -> Vec<u8> {
    let mut out = vec![];
    put_header(&mut out, &r.header);
    for c in &r.body.commands {
        put_command(&mut out, c);
    }
    out
}

fn table(entries: Vec<(LuaObject, LuaObject)>) -> LuaObject {
    let mut t = LuaTable::new();
    for (k, v) in entries {
        t.insert(k, v);
    }
    LuaObject::Table(t)
}

fn text(s: &str) -> LuaObject {
    LuaObject::Text(s.to_string())
}

fn order(n: u32) -> GameCommand {
    GameCommand {
        entity_ids: (0..n).map(|i| i * 1000 + 7).collect(),
        id: n as i32 - 2,
        coordinated_attack_cmd_id: -1,
        type_: (n % 40) as u8,
        arg2: 255,
        target: match n % 3 {
            0 => Target::NoTarget,
            1 => Target::Entity { id: u32::MAX },
            _ => Target::Position(Position { x: fl(1.0), y: fl(-2.0), z: fl(f32::MAX) }),
        },
        arg3: fl(0.125),
        formation: if n % 2 == 0 {
            None
        } else {
            Some(Formation { a: -7, b: fl(1.0), c: fl(2.0), d: fl(3.0), scale: fl(0.5) })
        },
        blueprint: format!("uel{:04}", n),
        arg4: i32::MIN,
        arg5: i32::MAX,
        arg6: 0,
        upgrades: table(vec![
            (text("Upgrade"), text("ResourceAllocation")),
            (LuaObject::Float(fl(1.0)), table(vec![(LuaObject::Bool(true), LuaObject::Nil)])),
        ]),
        clear_queue: n % 2 == 1,
    }
}

fn replay() -> Replay {
    let header = ReplayHeader {
        scfa_version: "Supreme Commander v1.50.3701".to_string(),
        replay_version: "Replay v1.9".to_string(),
        map_file: "/maps/SCMP_019/SCMP_019.scmap".to_string(),
        mods: table(vec![(
            text("9e8ea941-c306-4751-b367-a11000000502"),
            table(vec![
                (text("name"), text("Common Mod Tools")),
                (text("version"), LuaObject::Float(fl(1.0))),
                (text("ui_only"), LuaObject::Bool(true)),
            ]),
        )]),
        scenario: table(vec![
            (text("type"), text("skirmish")),
            (text("size"), table(vec![
                (LuaObject::Float(fl(1.0)), LuaObject::Float(fl(512.0))),
                (LuaObject::Float(fl(2.0)), LuaObject::Float(fl(512.0))),
            ])),
            (LuaObject::ByteString(vec![0xff, 0xfe]), LuaObject::Nil),
        ]),
        players: vec![
            Player { name: "Zo\u{eb}".to_string(), id: 1 },
            Player { name: "\u{4e16}\u{754c}".to_string(), id: 4_000_000_000 },
            Player { name: String::new(), id: 0 },
        ],
        cheats_enabled: true,
        army_count: 2,
        armies: vec![
            Army {
                data: table(vec![(text("Faction"), LuaObject::Float(fl(2.0)))]),
                source: Some(0),
            },
            Army { data: text("civilian"), source: None },
        ],
        seed: 0x1234_5678,
    };
    let commands = vec![
        ReplayCommand::SetCommandSource { id: 0 },
        ReplayCommand::Advance { ticks: 1 },
        ReplayCommand::VerifyChecksum { digest: [7; 16], tick: 1 },
        ReplayCommand::SetCommandSource { id: 1 },
        ReplayCommand::VerifyChecksum { digest: [7; 16], tick: 1 },
        ReplayCommand::RequestPause,
        ReplayCommand::Resume,
        ReplayCommand::SingleStep,
        ReplayCommand::CreateUnit {
            army: 1,
            blueprint: "url0001".to_string(),
            x: fl(10.5),
            z: fl(20.5),
            heading: fl(-0.0),
        },
        ReplayCommand::CreateProp {
            blueprint: "/env/tree.bp".to_string(),
            position: Position { x: fl(1.0), y: fl(2.0), z: fl(3.0) },
        },
        ReplayCommand::DestroyEntity { unit: 77 },
        ReplayCommand::WarpEntity { unit: 78, x: fl(0.0), y: fl(1.0), z: fl(2.0) },
        ReplayCommand::ProcessInfoPair {
            unit: 79,
            arg1: "SetAutoMode".to_string(),
            arg2: "true".to_string(),
        },
        ReplayCommand::IssueCommand(order(0)),
        ReplayCommand::IssueCommand(order(1)),
        ReplayCommand::IssueFactoryCommand(order(2)),
        ReplayCommand::IncreaseCommandCount { id: 5, delta: 1 },
        ReplayCommand::DecreaseCommandCount { id: 5, delta: -1 },
        ReplayCommand::SetCommandTarget { id: 5, target: Target::Entity { id: 9 } },
        ReplayCommand::SetCommandType { id: 5, type_: 3 },
        ReplayCommand::SetCommandCells {
            id: 5,
            cells: table(vec![]),
            position: Position { x: fl(4.0), y: fl(5.0), z: fl(6.0) },
        },
        ReplayCommand::RemoveCommandFromQueue { id: 5, unit: 80 },
        ReplayCommand::DebugCommand {
            command: 1,
            position: Position { x: fl(7.0), y: fl(8.0), z: fl(9.0) },
            focus_army: 2,
            selection: vec![1, 2, 3],
        },
        ReplayCommand::ExecuteLuaInSim { code: "LOG('hi')".to_string() },
        ReplayCommand::LuaSimCallback {
            func: "GiveResourcesToPlayer".to_string(),
            args: table(vec![(text("From"), LuaObject::Float(fl(1.0)))]),
            selection: vec![],
        },
        ReplayCommand::Advance { ticks: 49 },
        ReplayCommand::CommandSourceTerminated,
        ReplayCommand::EndGame,
    ];
    let mut sim = SimData::new();
    for c in &commands {
        sim.process(c, true).unwrap();
    }
    Replay { header, body: ReplayBody { sim, commands } }
}

#[test]
fn written_replay_decodes_to_what_was_written() {
    let r = replay();
    let bytes = serialize(&r);
    let parsed = ParserWrap::new(None, None, Some(true), None).parse(&bytes).unwrap();
    assert_eq!(parsed, r);
    assert_eq!(parsed.body.sim.tick, 50);
    assert_eq!(parsed.body.sim.command_source, -1);
    assert_eq!(parsed.body.commands.len(), 28);
}

#[test]
fn written_replay_has_every_kind_of_command() {
    let r = replay();
    let mut seen = [false; 24];
    for c in &r.body.commands {
        seen[c.tag() as usize] = true;
    }
    assert!(seen.iter().all(|s| *s));
}

#[test]
fn written_replay_agrees_with_the_fast_paths() {
    let r = replay();
    let bytes = serialize(&r);
    let mut header = vec![];
    put_header(&mut header, &r.header);
    assert_eq!(body_offset(&bytes), Ok(header.len()));
    assert_eq!(body_ticks(&bytes[header.len()..]), Ok(50));
    let parser = ParserWrap::new(None, None, Some(true), None);
    assert_eq!(parser.parse_header(&bytes).as_ref(), Ok(&r.header));
    assert_eq!(parser.parse_body(&bytes[header.len()..]).as_ref(), Ok(&r.body));
}

#[test]
fn written_commands_decode_one_by_one() {
    let r = replay();
    for c in &r.body.commands {
        let mut bytes = vec![];
        put_command(&mut bytes, c);
        let parsed = ParserWrap::new(None, None, Some(true), Some(false))
            .parse_body(&bytes)
            .unwrap();
        assert_eq!(parsed.commands.len(), 1);
        assert_eq!(&parsed.commands[0], c);
    }
}
