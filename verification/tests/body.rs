use fafreplay::replay::{ReplayBody, ReplayCommand, SimData};
use fafreplay::{body_ticks, Malformation, ParserWrap, ReplayReadError};
use std::collections::HashMap;

fn frame(tag: u8, payload: &[u8]) -> Vec<u8> {
    let size = (payload.len() + 3) as u16;
    let mut out = vec![tag];
    out.extend_from_slice(&size.to_le_bytes());
    out.extend_from_slice(payload);
    out
}

fn advance(ticks: u32) -> Vec<u8> {
    frame(0, &ticks.to_le_bytes())
}

fn source(id: u8) -> Vec<u8> {
    frame(1, &[id])
}

fn checksum(byte: u8, tick: u32) -> Vec<u8> {
    let mut p = vec![byte; 16];
    p.extend_from_slice(&tick.to_le_bytes());
    frame(3, &p)
}

fn body(frames: &[Vec<u8>]) -> Vec<u8> {
    frames.concat()
}

fn keep_all(stop_on_desync: bool) -> ParserWrap {
    ParserWrap::new(None, None, Some(true), Some(stop_on_desync))
}

fn fresh() -> SimData {
    SimData {
        tick: 0,
        command_source: -1,
        players_last_tick: HashMap::new(),
        checksum_stored: false,
        checksum: [0; 16],
        checksum_tick: 0,
        desync_tick: None,
        desync_ticks: vec![],
    }
}

fn sample() -> Vec<u8> {
    body(&[
        source(0),
        advance(3),
        checksum(0xaa, 3),
        source(1),
        checksum(0xaa, 3),
        advance(4),
        frame(2, &[]),
        frame(21, b"x=1\0"),
        advance(1),
        frame(23, &[]),
    ])
}

#[test]
fn empty_body() {
    let parsed = ParserWrap::new(None, None, None, None).parse_body(&[]).unwrap();
    assert_eq!(parsed, ReplayBody { sim: fresh(), commands: vec![] });
    assert_eq!(SimData::new(), fresh());
    assert_eq!(body_ticks(&[]), Ok(0));
}

#[test]
fn single_advance() {
    let bytes = [0x00, 0x07, 0x00, 0x05, 0x00, 0x00, 0x00];
    let parsed = keep_all(true).parse_body(&bytes).unwrap();
    assert_eq!(parsed.sim.tick, 5);
    assert_eq!(parsed.commands, vec![ReplayCommand::Advance { ticks: 5 }]);
    assert_eq!(parsed.sim, SimData { tick: 5, ..fresh() });
    assert_eq!(body_ticks(&bytes), Ok(5));
}

#[test]
fn checksum_mismatch_stops_the_parser() {
    let bytes = body(&[checksum(0xaa, 10), checksum(0xbb, 10)]);
    assert_eq!(
        ParserWrap::new(None, None, None, Some(true)).parse_body(&bytes),
        Err(ReplayReadError::Desynced(10))
    );
    assert_eq!(
        ParserWrap::new(None, None, None, None).parse_body(&bytes),
        Err(ReplayReadError::Desynced(10))
    );
}

#[test]
fn checksum_mismatch_is_recorded() {
    let bytes = body(&[checksum(0xaa, 10), checksum(0xbb, 10)]);
    let parsed = keep_all(false).parse_body(&bytes).unwrap();
    assert_eq!(parsed.sim.desync_tick, Some(10));
    assert_eq!(parsed.sim.desync_ticks, vec![10]);
    assert_eq!(parsed.sim.checksum, [0xbb; 16]);
    assert_eq!(parsed.sim.checksum_tick, 10);
    assert_eq!(parsed.commands.len(), 2);
}

#[test]
fn equal_checksums_are_no_desync() {
    let bytes = body(&[checksum(0xaa, 10), checksum(0xaa, 10), checksum(0xbb, 11)]);
    let parsed = keep_all(true).parse_body(&bytes).unwrap();
    assert_eq!(parsed.sim.desync_tick, None);
    assert_eq!(parsed.sim.desync_ticks, Vec::<u32>::new());
    assert_eq!(parsed.sim.checksum, [0xbb; 16]);
    assert_eq!(parsed.sim.checksum_tick, 11);
}

#[test]
fn first_checksum_at_tick_zero_is_no_desync() {
    let bytes = body(&[checksum(0xaa, 0), checksum(0xaa, 0)]);
    let parsed = keep_all(true).parse_body(&bytes).unwrap();
    assert_eq!(parsed.sim.desync_tick, None);
    assert_eq!(parsed.sim.checksum, [0xaa; 16]);
}

#[test]
fn digest_of_zeroes_is_a_digest_like_any_other() {
    let bytes = body(&[checksum(0, 7), checksum(0xaa, 7), checksum(0xbb, 7)]);
    let parsed = keep_all(false).parse_body(&bytes).unwrap();
    assert_eq!(parsed.sim.desync_ticks, vec![7, 7]);
    assert_eq!(parsed.sim.desync_tick, Some(7));
    assert_eq!(parsed.sim.checksum, [0xbb; 16]);
    assert_eq!(keep_all(true).parse_body(&bytes), Err(ReplayReadError::Desynced(7)));

    let bytes = body(&[checksum(0, 0), checksum(1, 0)]);
    assert_eq!(keep_all(true).parse_body(&bytes), Err(ReplayReadError::Desynced(0)));
    let parsed = keep_all(false).parse_body(&bytes).unwrap();
    assert_eq!(parsed.sim.desync_ticks, vec![0]);

    let bytes = body(&[checksum(1, 0), checksum(0, 0)]);
    assert_eq!(keep_all(true).parse_body(&bytes), Err(ReplayReadError::Desynced(0)));
}

#[test]
fn first_checksum_is_never_a_desync() {
    for digest in [0u8, 1, 0xff] {
        for tick in [0u32, 1, u32::MAX] {
            let parsed = keep_all(true).parse_body(&checksum(digest, tick)).unwrap();
            assert!(parsed.sim.checksum_stored);
            assert_eq!(parsed.sim.checksum, [digest; 16]);
            assert_eq!(parsed.sim.checksum_tick, tick);
            assert_eq!(parsed.sim.desync_tick, None);
        }
    }
    let parsed = keep_all(true).parse_body(&advance(3)).unwrap();
    assert!(!parsed.sim.checksum_stored);
    assert_eq!(parsed.sim.checksum, [0; 16]);
    assert_eq!(parsed.sim.checksum_tick, 0);
}

#[test]
fn desyncs_are_the_ticks_at_which_successive_checksums_differ() {
    let sums: Vec<(u8, u32)> = vec![
        (0, 5),
        (0, 5),
        (1, 5),
        (1, 6),
        (2, 6),
        (0, 6),
        (0, 0),
        (3, 0),
        (3, 9),
    ];
    let frames: Vec<Vec<u8>> = sums.iter().map(|(d, t)| checksum(*d, *t)).collect();
    let mut expected = vec![];
    for i in 1..sums.len() {
        if sums[i].1 == sums[i - 1].1 && sums[i].0 != sums[i - 1].0 {
            expected.push(sums[i].1);
        }
    }
    assert_eq!(expected, vec![5, 6, 6, 0]);
    let parsed = keep_all(false).parse_body(&body(&frames)).unwrap();
    assert_eq!(parsed.sim.desync_ticks, expected);
    assert_eq!(parsed.sim.desync_tick, Some(5));
    assert_eq!(parsed.sim.checksum, [3; 16]);
    assert_eq!(parsed.sim.checksum_tick, 9);
    assert_eq!(keep_all(true).parse_body(&body(&frames)), Err(ReplayReadError::Desynced(5)));
    // Up to the first pair that differs there is no failure.
    assert!(keep_all(true).parse_body(&body(&frames[..2])).is_ok());
}

#[test]
fn every_desync_is_listed_and_the_first_is_kept() {
    let bytes = body(&[
        checksum(1, 10),
        checksum(2, 10),
        checksum(3, 10),
        checksum(1, 20),
        checksum(1, 20),
        checksum(2, 20),
    ]);
    let parsed = keep_all(false).parse_body(&bytes).unwrap();
    assert_eq!(parsed.sim.desync_tick, Some(10));
    assert_eq!(parsed.sim.desync_ticks, vec![10, 10, 20]);
}

#[test]
fn first_desync_is_the_head_even_when_ticks_go_down() {
    let bytes = body(&[checksum(1, 10), checksum(2, 10), checksum(3, 5), checksum(4, 5)]);
    let parsed = keep_all(false).parse_body(&bytes).unwrap();
    assert_eq!(parsed.sim.desync_tick, Some(10));
    assert_eq!(parsed.sim.desync_ticks, vec![10, 5]);
}

#[test]
fn unknown_tag_in_the_body() {
    assert_eq!(
        keep_all(true).parse_body(&[24]),
        Err(ReplayReadError::Malformed(Malformation::UnknownCommandTag))
    );
    let err = keep_all(true).parse_body(&[24]).unwrap_err();
    match err {
        ReplayReadError::Malformed(what) => assert_eq!(what.message(), "unknown command tag"),
        _ => panic!("not malformed"),
    }
    assert_eq!(
        body_ticks(&[24]),
        Err(ReplayReadError::Malformed(Malformation::UnknownCommandTag))
    );
    let bytes = body(&[advance(1), frame(24, &[])]);
    assert_eq!(
        keep_all(true).parse_body(&bytes),
        Err(ReplayReadError::Malformed(Malformation::UnknownCommandTag))
    );
}

#[test]
fn truncated_advance() {
    let bytes = [0x00, 0x07, 0x00, 0x05, 0x00];
    assert_eq!(keep_all(true).parse_body(&bytes), Err(ReplayReadError::UnexpectedEof));
    assert_eq!(body_ticks(&bytes), Err(ReplayReadError::UnexpectedEof));
}

#[test]
fn only_selected_commands_are_kept() {
    let bytes = sample();
    let all = keep_all(true).parse_body(&bytes).unwrap();
    let parsed = ParserWrap::new(None, Some(vec![0]), Some(true), None)
        .parse_body(&bytes)
        .unwrap();
    assert_eq!(
        parsed.commands,
        vec![
            ReplayCommand::Advance { ticks: 3 },
            ReplayCommand::Advance { ticks: 4 },
            ReplayCommand::Advance { ticks: 1 },
        ]
    );
    assert_eq!(parsed.sim, all.sim);
    assert_eq!(parsed.sim.tick, 8);
    assert_eq!(parsed.sim.checksum, [0xaa; 16]);
}

#[test]
fn selection_keeps_desync_tracking() {
    let bytes = body(&[advance(2), checksum(0xaa, 10), checksum(0xbb, 10), advance(1)]);
    let parsed = ParserWrap::new(None, Some(vec![0]), Some(true), Some(false))
        .parse_body(&bytes)
        .unwrap();
    assert_eq!(parsed.commands.len(), 2);
    assert_eq!(parsed.sim.desync_tick, Some(10));
    assert_eq!(parsed.sim.desync_ticks, vec![10]);
    assert_eq!(parsed.sim.tick, 3);
}

#[test]
fn selection_of_tags_that_are_no_commands() {
    let parsed = ParserWrap::new(None, Some(vec![24, 200]), Some(true), None)
        .parse_body(&sample())
        .unwrap();
    assert_eq!(parsed.commands, vec![]);
    assert_eq!(parsed.sim.tick, 8);
    let parsed = ParserWrap::new(None, Some(vec![]), Some(true), None)
        .parse_body(&sample())
        .unwrap();
    assert_eq!(parsed.commands, vec![]);
}

#[test]
fn commands_are_dropped_unless_saving_is_asked_for() {
    let bytes = sample();
    let saved = keep_all(true).parse_body(&bytes).unwrap();
    let dropped = ParserWrap::new(None, None, Some(false), None).parse_body(&bytes).unwrap();
    let default = ParserWrap::new(None, None, None, None).parse_body(&bytes).unwrap();
    assert_eq!(saved.commands.len(), 10);
    assert_eq!(dropped.commands, vec![]);
    assert_eq!(default.commands, vec![]);
    assert_eq!(saved.sim, dropped.sim);
    assert_eq!(saved.sim, default.sim);
}

#[test]
fn sim_of_the_sample_body() {
    let parsed = keep_all(true).parse_body(&sample()).unwrap();
    let mut last = HashMap::new();
    last.insert(0u8, 0u32);
    last.insert(1u8, 3u32);
    assert_eq!(
        parsed.sim,
        SimData {
            tick: 8,
            command_source: -1,
            players_last_tick: last,
            checksum_stored: true,
            checksum: [0xaa; 16],
            checksum_tick: 3,
            desync_tick: None,
            desync_ticks: vec![],
        }
    );
    assert_eq!(parsed.commands[0], ReplayCommand::SetCommandSource { id: 0 });
    assert_eq!(parsed.commands[6], ReplayCommand::CommandSourceTerminated);
    assert_eq!(
        parsed.commands[7],
        ReplayCommand::ExecuteLuaInSim { code: "x=1".to_string() }
    );
    assert_eq!(parsed.commands[9], ReplayCommand::EndGame);
}

#[test]
fn command_source_follows_the_commands() {
    let parsed = keep_all(true).parse_body(&body(&[source(5)])).unwrap();
    assert_eq!(parsed.sim.command_source, 5);
    let parsed = keep_all(true)
        .parse_body(&body(&[source(5), advance(2), source(6), source(5)]))
        .unwrap();
    assert_eq!(parsed.sim.command_source, 5);
    assert_eq!(parsed.sim.players_last_tick.get(&5), Some(&2));
    assert_eq!(parsed.sim.players_last_tick.get(&6), Some(&2));
    assert_eq!(parsed.sim.players_last_tick.len(), 2);
    let parsed = keep_all(true).parse_body(&body(&[source(5), frame(2, &[])])).unwrap();
    assert_eq!(parsed.sim.command_source, -1);
    let parsed = keep_all(true).parse_body(&body(&[source(127)])).unwrap();
    assert_eq!(parsed.sim.command_source, 127);
    let parsed = keep_all(true).parse_body(&body(&[source(128)])).unwrap();
    assert_eq!(parsed.sim.command_source, -128);
    let parsed = keep_all(true).parse_body(&body(&[source(255)])).unwrap();
    assert_eq!(parsed.sim.command_source, -1);
    assert_eq!(parsed.sim.players_last_tick.get(&255), Some(&0));
}

#[test]
fn end_game_does_not_end_the_body() {
    let bytes = body(&[advance(1), frame(23, &[]), advance(2)]);
    let parsed = keep_all(true).parse_body(&bytes).unwrap();
    assert_eq!(parsed.sim.tick, 3);
    assert_eq!(parsed.commands.len(), 3);
}

#[test]
fn limit_cuts_the_body() {
    let bytes = sample();
    for n in 0..=12usize {
        let parsed = ParserWrap::new(Some(n), None, Some(true), None)
            .parse_body(&bytes)
            .unwrap();
        assert_eq!(parsed.commands.len(), n.min(10));
        let ticks: u32 = parsed
            .commands
            .iter()
            .map(|c| match c {
                ReplayCommand::Advance { ticks } => *ticks,
                _ => 0,
            })
            .sum();
        assert_eq!(parsed.sim.tick, ticks);
    }
    let parsed = ParserWrap::new(Some(2), None, Some(true), None).parse_body(&bytes).unwrap();
    assert_eq!(
        parsed.commands,
        vec![
            ReplayCommand::SetCommandSource { id: 0 },
            ReplayCommand::Advance { ticks: 3 }
        ]
    );
    assert_eq!(parsed.sim.tick, 3);
    assert_eq!(parsed.sim.checksum_tick, 0);
}

#[test]
fn limit_counts_commands_that_are_not_kept() {
    let parsed = ParserWrap::new(Some(6), Some(vec![0]), Some(true), None)
        .parse_body(&sample())
        .unwrap();
    assert_eq!(
        parsed.commands,
        vec![ReplayCommand::Advance { ticks: 3 }, ReplayCommand::Advance { ticks: 4 }]
    );
    assert_eq!(parsed.sim.tick, 7);
}

#[test]
fn limit_stops_before_what_is_broken() {
    let bytes = body(&[advance(1), advance(2), vec![24]]);
    assert_eq!(
        ParserWrap::new(Some(2), None, None, None).parse_body(&bytes).map(|b| b.sim.tick),
        Ok(3)
    );
    assert_eq!(
        ParserWrap::new(Some(3), None, None, None).parse_body(&bytes),
        Err(ReplayReadError::Malformed(Malformation::UnknownCommandTag))
    );
}

#[test]
fn tick_counter_overflow() {
    let bytes = body(&[advance(u32::MAX), advance(1)]);
    assert_eq!(
        keep_all(true).parse_body(&bytes),
        Err(ReplayReadError::Malformed(Malformation::TickOverflow))
    );
    assert_eq!(
        body_ticks(&bytes),
        Err(ReplayReadError::Malformed(Malformation::TickOverflow))
    );
    let bytes = body(&[advance(u32::MAX - 1), advance(1)]);
    assert_eq!(keep_all(true).parse_body(&bytes).map(|b| b.sim.tick), Ok(u32::MAX));
    assert_eq!(body_ticks(&bytes), Ok(u32::MAX));
}

#[test]
fn body_ticks_counts_advances() {
    assert_eq!(body_ticks(&sample()), Ok(8));
    assert_eq!(
        keep_all(true).parse_body(&sample()).map(|b| b.sim.tick),
        body_ticks(&sample())
    );
}

#[test]
fn body_ticks_skips_payloads_it_does_not_need() {
    // An order whose payload is not one: only the frame is followed.
    let bytes = body(&[advance(1), frame(12, &[1, 2, 3]), advance(2)]);
    assert_eq!(body_ticks(&bytes), Ok(3));
    assert_eq!(
        keep_all(true).parse_body(&bytes),
        Err(ReplayReadError::Malformed(Malformation::SizeMismatch))
    );
}

#[test]
fn body_ticks_checks_advance_frames() {
    assert_eq!(
        body_ticks(&frame(0, &[1, 0, 0])),
        Err(ReplayReadError::Malformed(Malformation::SizeMismatch))
    );
    assert_eq!(
        body_ticks(&frame(0, &[1, 0, 0, 0, 0])),
        Err(ReplayReadError::Malformed(Malformation::SizeMismatch))
    );
    assert_eq!(
        body_ticks(&[1, 2, 0]),
        Err(ReplayReadError::Malformed(Malformation::SizeMismatch))
    );
    assert_eq!(body_ticks(&[1, 4]), Err(ReplayReadError::UnexpectedEof));
}

#[test]
fn body_ticks_agrees_with_faf_replay_parser() {
    let bytes = sample();
    assert_eq!(body_ticks(&bytes).ok(), faf_replay_parser::body_ticks(&bytes).ok());
    let bytes = body(&[advance(1), advance(1), advance(40), frame(23, &[])]);
    assert_eq!(faf_replay_parser::body_ticks(&bytes).ok(), Some(42));
    assert_eq!(body_ticks(&bytes), Ok(42));
}

#[test]
fn ticks_agree_with_the_faf_replay_parser_on_plain_bodies() {
    let bytes = body(&[
        source(0),
        advance(3),
        advance(4),
        frame(2, &[]),
        advance(1),
        frame(23, &[]),
    ]);
    let mut rest: &[u8] = &bytes;
    let theirs = faf_replay_parser::Parser::<faf_replay_parser::SCFA>::new()
        .parse_body(&mut rest)
        .unwrap();
    let ours = keep_all(true).parse_body(&bytes).unwrap();
    assert_eq!(ours.sim.tick, theirs.sim.tick);
    assert_eq!(ours.sim.tick, 8);
}

#[test]
fn truncated_body_fails_inside_a_command() {
    let bytes = sample();
    let mut starts = vec![];
    let mut at = 0usize;
    while at < bytes.len() {
        starts.push(at);
        at += u16::from_le_bytes([bytes[at + 1], bytes[at + 2]]) as usize;
    }
    for k in 0..bytes.len() {
        let res = keep_all(true).parse_body(&bytes[..k]);
        if starts.contains(&k) {
            assert!(res.is_ok());
        } else {
            assert_eq!(res, Err(ReplayReadError::UnexpectedEof));
        }
    }
}

#[test]
fn truncated_body_is_not_counted_inside_a_command() {
    let bytes = sample();
    let mut starts = vec![];
    let mut at = 0usize;
    while at < bytes.len() {
        starts.push(at);
        at += u16::from_le_bytes([bytes[at + 1], bytes[at + 2]]) as usize;
    }
    for k in 0..bytes.len() {
        let res = body_ticks(&bytes[..k]);
        if starts.contains(&k) {
            assert!(res.is_ok());
        } else {
            assert_eq!(res, Err(ReplayReadError::UnexpectedEof));
        }
    }
}

#[test]
fn process_one_command_at_a_time() {
    let mut sim = SimData::new();
    assert_eq!(sim.process(&ReplayCommand::Advance { ticks: 9 }, true), Ok(()));
    assert_eq!(sim.tick, 9);
    assert_eq!(sim.process(&ReplayCommand::SetCommandSource { id: 2 }, true), Ok(()));
    assert_eq!(sim.command_source, 2);
    assert_eq!(sim.players_last_tick.get(&2), Some(&9));
    let a = ReplayCommand::VerifyChecksum { digest: [1; 16], tick: 9 };
    let b = ReplayCommand::VerifyChecksum { digest: [2; 16], tick: 9 };
    assert_eq!(sim.process(&a, true), Ok(()));
    let before = SimData {
        tick: sim.tick,
        command_source: sim.command_source,
        players_last_tick: sim.players_last_tick.clone(),
        checksum_stored: sim.checksum_stored,
        checksum: sim.checksum,
        checksum_tick: sim.checksum_tick,
        desync_tick: sim.desync_tick,
        desync_ticks: sim.desync_ticks.clone(),
    };
    assert_eq!(sim.process(&b, true), Err(ReplayReadError::Desynced(9)));
    assert_eq!(sim, before);
    assert_eq!(sim.process(&b, false), Ok(()));
    assert_eq!(sim.desync_tick, Some(9));
    assert_eq!(sim.checksum, [2; 16]);
    assert_eq!(sim.process(&ReplayCommand::EndGame, true), Ok(()));
    assert_eq!(sim.process(&ReplayCommand::CommandSourceTerminated, true), Ok(()));
    assert_eq!(sim.command_source, -1);
    assert_eq!(
        sim.process(&ReplayCommand::Advance { ticks: u32::MAX }, true),
        Err(ReplayReadError::Malformed(Malformation::TickOverflow))
    );
    assert_eq!(sim.tick, 9);
}

#[test]
fn parser_configuration() {
    let p = ParserWrap::new(None, None, None, None);
    assert_eq!(p.limit(), None);
    assert!(!p.save_commands());
    assert!(p.stop_on_desync());
    for tag in 0..24u8 {
        assert!(p.selects(tag));
    }
    for tag in 24..=255u8 {
        assert!(!p.selects(tag));
    }
    let p = ParserWrap::new(Some(7), Some(vec![3, 0, 3]), Some(true), Some(false));
    assert_eq!(p.limit(), Some(7));
    assert!(p.save_commands());
    assert!(!p.stop_on_desync());
    assert!(p.selects(0) && p.selects(3));
    assert!(!p.selects(1) && !p.selects(23));
}
