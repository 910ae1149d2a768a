//! The body of a replay: the commands one after another, and what they do to
//! the state of the simulation.

use std::collections::HashMap;
use vstd::prelude::*;
use crate::command::{
    command_at, command_of, decode_command, frame_at, lemma_frame_advances, read_command,
    read_frame,
};
use crate::constants::ADVANCE;
use crate::error::{Failure, Malformation, ReplayReadError};
use crate::parser::ParserWrap;
use crate::reader::{signed8, Reader};
use crate::replay::{
    commands_value, BodyValue, CommandValue, ReplayBody, ReplayCommand, SimData, SimValue,
};

verus! {

/// Mathematical value of a parser's configuration.
pub struct Options {
    /// The largest number of commands to decode.
    pub limit: Option<usize>,
    /// The tags of the commands to keep.
    pub commands: Set<u8>,
    /// Whether commands are kept at all.
    pub save_commands: bool,
    /// Whether the first desync ends decoding with a failure.
    pub stop_on_desync: bool,
}

impl Options {
    /// Whether `done` commands are as many as may be decoded.
    pub open spec fn exhausted(self, done: nat) -> bool {
        self.limit is Some && done >= self.limit->Some_0
    }

    /// Whether a decoded command goes into the list of commands.
    pub open spec fn keeps(self, command: CommandValue) -> bool {
        self.save_commands && self.commands.contains(command.tag())
    }
}

/// The state before the first command.
pub open spec fn initial_sim() -> SimValue {
    SimValue {
        tick: 0,
        command_source: -1i8,
        players_last_tick: Map::empty(),
        checksum_stored: false,
        checksum: Seq::new(16, |i: int| 0u8),
        checksum_tick: 0,
        desync_tick: None,
        desync_ticks: Seq::empty(),
    }
}

/// The tick at which `command` shows a desync in the state `sim`: a digest
/// is stored, `command` brings a digest for the same tick, and the two
/// differ.
pub open spec fn desync_of(sim: SimValue, command: CommandValue) -> Option<u32> {
    match command {
        CommandValue::VerifyChecksum { digest, tick } => if sim.checksum_stored
            && sim.checksum_tick == tick && sim.checksum != digest {
            Some(tick)
        } else {
            None
        },
        _ => None,
    }
}

/// The state after `command`. The only failure is a tick counter that would
/// leave the range of `u32`.
pub open spec fn sim_step(sim: SimValue, command: CommandValue) -> Result<SimValue, Failure> {
    match command {
        CommandValue::Advance { ticks } => if sim.tick + ticks > u32::MAX {
            Err(Failure::Malformed(Malformation::TickOverflow))
        } else {
            Ok(SimValue { tick: (sim.tick + ticks) as u32, ..sim })
        },
        CommandValue::SetCommandSource { id } => Ok(
            SimValue {
                command_source: signed8(id),
                players_last_tick: sim.players_last_tick.insert(id, sim.tick),
                ..sim
            },
        ),
        CommandValue::CommandSourceTerminated => Ok(SimValue { command_source: -1i8, ..sim }),
        CommandValue::VerifyChecksum { digest, tick } => Ok(
            SimValue {
                checksum_stored: true,
                checksum: digest,
                checksum_tick: tick,
                desync_tick: if desync_of(sim, command) is Some && sim.desync_tick is None {
                    Some(tick)
                } else {
                    sim.desync_tick
                },
                desync_ticks: if desync_of(sim, command) is Some {
                    sim.desync_ticks.push(tick)
                } else {
                    sim.desync_ticks
                },
                ..sim
            },
        ),
        _ => Ok(sim),
    }
}

/// The state after `command` for a parser that stops at a desync or not.
pub open spec fn sim_after(sim: SimValue, command: CommandValue, stop_on_desync: bool) -> Result<
    SimValue,
    Failure,
> {
    if stop_on_desync && desync_of(sim, command) is Some {
        Err(Failure::Desynced(desync_of(sim, command)->Some_0))
    } else {
        sim_step(sim, command)
    }
}

/// The body that the bytes from `pos` on complete, where `done` commands
/// have been decoded, `sim` is the state behind them and `kept` are those
/// that were kept. The end of the input at the start of a command ends the
/// body, and so does the limit.
pub open spec fn body_from(
    s: Seq<u8>,
    pos: int,
    options: Options,
    done: nat,
    sim: SimValue,
    kept: Seq<CommandValue>,
) -> Result<BodyValue, Failure>
    decreases s.len() - pos,
{
    if pos < 0 || pos >= s.len() || options.exhausted(done) {
        Ok(BodyValue { sim, commands: kept })
    } else {
        match command_at(s, pos) {
            Err(e) => Err(e),
            Ok((command, next)) => match sim_after(sim, command, options.stop_on_desync) {
                Err(e) => Err(e),
                Ok(sim2) => body_from(
                    s,
                    next,
                    options,
                    done + 1,
                    sim2,
                    if options.keeps(command) {
                        kept.push(command)
                    } else {
                        kept
                    },
                ),
            },
        }
    }
}

/// The body that `s` holds.
pub open spec fn body_of(s: Seq<u8>, options: Options) -> Result<BodyValue, Failure> {
    body_from(s, 0, options, 0, initial_sim(), Seq::empty())
}

/// The ticks of the `Advance` command that a frame with payload `payload`
/// holds.
pub open spec fn advance_of(payload: Seq<u8>) -> Result<u32, Failure> {
    match command_of(ADVANCE, payload) {
        Err(e) => Err(e),
        Ok(CommandValue::Advance { ticks }) => Ok(ticks),
        Ok(_) => Ok(0),
    }
}

/// The ticks that the commands from `pos` on add to `total`. Only the frames
/// are followed; of the payloads only those of `Advance` are decoded.
pub open spec fn ticks_from(s: Seq<u8>, pos: int, total: u32) -> Result<u32, Failure>
    decreases s.len() - pos,
{
    if pos < 0 || pos >= s.len() {
        Ok(total)
    } else {
        match frame_at(s, pos) {
            Err(e) => Err(e),
            Ok((frame, next)) => if frame.0 == ADVANCE {
                match advance_of(frame.1) {
                    Err(e) => Err(e),
                    Ok(ticks) => if total + ticks > u32::MAX {
                        Err(Failure::Malformed(Malformation::TickOverflow))
                    } else {
                        ticks_from(s, next, (total + ticks) as u32)
                    },
                }
            } else {
                ticks_from(s, next, total)
            },
        }
    }
}

/// The ticks that the body `s` advances the simulation by.
pub open spec fn ticks_of(s: Seq<u8>) -> Result<u32, Failure> {
    ticks_from(s, 0, 0)
}

/// Whether two digests hold the same bytes.
fn same_digest(a: &[u8; 16], b: &[u8; 16]) -> (r: bool)
    ensures
        r == (a@ == b@),
{
    let mut i: usize = 0;
    while i < 16
        invariant
            0 <= i <= 16,
            forall|k: int| 0 <= k < i ==> a@[k] == b@[k],
        decreases 16 - i,
    {
        if a[i] != b[i] {
            return false;
        }
        i = i + 1;
    }
    assert(a@ =~= b@);
    true
}

impl SimData {
    /// The state before the first command.
    pub fn new() -> (sim: SimData)
        ensures
            sim@ == initial_sim(),
    {
        let sim = SimData {
            tick: 0,
            command_source: -1i8,
            players_last_tick: HashMap::new(),
            checksum_stored: false,
            checksum: [0u8; 16],
            checksum_tick: 0,
            desync_tick: None,
            desync_ticks: Vec::new(),
        };
        assert(sim.checksum@ =~= initial_sim().checksum);
        sim
    }

    /// Lets `command` act on the state. With `stop_on_desync`, a command
    /// that shows a desync fails and leaves the state as it was.
    pub fn process(&mut self, command: &ReplayCommand, stop_on_desync: bool) -> (res: Result<
        (),
        ReplayReadError,
    >)
        ensures
            match sim_after(old(self)@, command@, stop_on_desync) {
                Ok(sim) => res is Ok && final(self)@ == sim,
                Err(e) => res is Err && res->Err_0@ == e && final(self)@ == old(self)@,
            },
    {
        match command {
            ReplayCommand::Advance { ticks } => {
                if *ticks > u32::MAX - self.tick {
                    return Err(ReplayReadError::Malformed(Malformation::TickOverflow));
                }
                self.tick = self.tick + *ticks;
            },
            ReplayCommand::SetCommandSource { id } => {
                self.command_source = if *id < 128 {
                    *id as i8
                } else {
                    (*id as i16 - 256) as i8
                };
                self.players_last_tick.insert(*id, self.tick);
            },
            ReplayCommand::CommandSourceTerminated => {
                self.command_source = -1;
            },
            ReplayCommand::VerifyChecksum { digest, tick } => {
                let desync = self.checksum_stored && self.checksum_tick == *tick && !same_digest(
                    &self.checksum,
                    digest,
                );
                if desync {
                    if stop_on_desync {
                        return Err(ReplayReadError::Desynced(*tick));
                    }
                    if self.desync_tick.is_none() {
                        self.desync_tick = Some(*tick);
                    }
                    self.desync_ticks.push(*tick);
                }
                self.checksum_stored = true;
                self.checksum = *digest;
                self.checksum_tick = *tick;
            },
            _ => {},
        }
        Ok(())
    }
}

/// Decodes the body that `data` holds.
pub fn decode_body(data: &[u8], options: &ParserWrap) -> (res: Result<ReplayBody, ReplayReadError>)
    ensures
        match body_of(data@, options@) {
            Ok(body) => res is Ok && res->Ok_0@ == body && body.sim.wf(),
            Err(e) => res is Err && res->Err_0@ == e,
        },
{
    let mut r = Reader::new(data);
    let mut sim = SimData::new();
    let mut commands: Vec<ReplayCommand> = Vec::new();
    let mut done: usize = 0;
    let limit = options.limit();
    let size = data.len();
    assert(size == data@.len());
    assert(commands_value(commands@) =~= Seq::empty());
    loop
        invariant
            data@.len() <= usize::MAX,
            r.input() == data@,
            0 <= r.offset() <= data@.len(),
            done <= r.offset(),
            limit == options@.limit,
            sim@.wf(),
            body_of(data@, options@) == body_from(
                data@,
                r.offset(),
                options@,
                done as nat,
                sim@,
                commands_value(commands@),
            ),
        decreases data@.len() - r.offset(),
    {
        let at_limit = match limit {
            Some(n) => done >= n,
            None => false,
        };
        if r.remaining() == 0 || at_limit {
            return Ok(ReplayBody { sim, commands });
        }
        proof {
            lemma_frame_advances(data@, r.offset());
        }
        let command = read_command(&mut r)?;
        sim.process(&command, options.stop_on_desync())?;
        if options.save_commands() && options.selects(command.tag()) {
            let ghost before = commands@;
            commands.push(command);
            assert(commands_value(commands@) =~= commands_value(before).push(command@));
        }
        done = done + 1;
    }
}

/// Decodes the payload of an `Advance` command.
fn advance_ticks(payload: &[u8]) -> (res: Result<u32, ReplayReadError>)
    ensures
        match advance_of(payload@) {
            Ok(ticks) => res == Ok::<u32, ReplayReadError>(ticks),
            Err(e) => res is Err && res->Err_0@ == e,
        },
{
    match decode_command(ADVANCE, payload)? {
        ReplayCommand::Advance { ticks } => Ok(ticks),
        _ => Ok(0),
    }
}

/// Counts the ticks by which the body `data` advances the simulation. Only
/// the frames are followed; of the payloads only those of `Advance` are
/// decoded.
pub fn body_ticks(data: &[u8]) -> (res: Result<u32, ReplayReadError>)
    ensures
        match ticks_of(data@) {
            Ok(ticks) => res == Ok::<u32, ReplayReadError>(ticks),
            Err(e) => res is Err && res->Err_0@ == e,
        },
{
    let mut r = Reader::new(data);
    let mut total: u32 = 0;
    loop
        invariant
            r.input() == data@,
            0 <= r.offset() <= data@.len(),
            ticks_of(data@) == ticks_from(data@, r.offset(), total),
        decreases data@.len() - r.offset(),
    {
        if r.remaining() == 0 {
            return Ok(total);
        }
        proof {
            lemma_frame_advances(data@, r.offset());
        }
        let frame = read_frame(&mut r)?;
        if frame.0 == ADVANCE {
            let ticks = advance_ticks(frame.1)?;
            if ticks > u32::MAX - total {
                return Err(ReplayReadError::Malformed(Malformation::TickOverflow));
            }
            total = total + ticks;
        }
    }
}

} // verus!
