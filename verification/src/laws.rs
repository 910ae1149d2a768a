//! What holds of the decoders taken together.

use vstd::prelude::*;
use crate::body::{
    body_from, body_of, desync_of, initial_sim, sim_after, sim_step, ticks_from, ticks_of,
    Options,
};
use crate::command::{command_at, command_of, frame_at, lemma_frame_advances};
use crate::constants::MAX;
use crate::error::Failure;
use crate::header::{
    armies_at, armies_end_at, army_at, header_at, header_end_at, lua_block_at, offset_of,
    player_at, player_list_at, players_at, players_end_at, titles_at,
};
use crate::parser::replay_of;
use crate::reader::{signed8, u8_at};
use crate::replay::{ArmyValue, BodyValue, CommandValue, PlayerValue, SimValue};

verus! {

/// A command that a frame holds has the frame's tag.
pub proof fn lemma_command_tag(tag: u8, payload: Seq<u8>)
    ensures
        command_of(tag, payload) matches Ok(command) ==> command.tag() == tag && tag < MAX,
{
}

/// Stepping over `n` players ends where decoding them ends.
pub proof fn lemma_players_end(s: Seq<u8>, pos: int, n: nat, acc: Seq<PlayerValue>)
    ensures
        players_at(s, pos, n, acc) matches Ok((players, end)) ==> players_end_at(s, pos, n) == Ok::<
            ((), int),
            Failure,
        >(((), end)) && players.len() == acc.len() + n,
    decreases n,
{
    if n > 0 {
        if let Ok((player, next)) = player_at(s, pos) {
            lemma_players_end(s, next, (n - 1) as nat, acc.push(player));
        }
    }
}

/// Stepping over `n` armies ends where decoding them ends, and decoding
/// them gives `n` armies more.
pub proof fn lemma_armies_end(s: Seq<u8>, pos: int, n: nat, acc: Seq<ArmyValue>)
    ensures
        armies_at(s, pos, n, acc) matches Ok((armies, end)) ==> armies_end_at(s, pos, n) == Ok::<
            ((), int),
            Failure,
        >(((), end)) && armies.len() == acc.len() + n,
    decreases n,
{
    if n > 0 {
        if let Ok((army, next)) = army_at(s, pos) {
            lemma_armies_end(s, next, (n - 1) as nat, acc.push(army));
        }
    }
}

/// The body starts where decoding the header stops: wherever a header
/// decodes, stepping over it succeeds and ends at the same position. The
/// header then has as many armies as its count says.
pub proof fn lemma_offset_is_header_end(s: Seq<u8>, pos: int)
    ensures
        header_at(s, pos) matches Ok((header, end)) ==> header_end_at(s, pos) == Ok::<
            ((), int),
            Failure,
        >(((), end)) && header.wf(),
{
    if let Ok((header, end)) = header_at(s, pos) {
        let e1 = titles_at(s, pos)->Ok_0.1;
        let e2 = lua_block_at(s, e1)->Ok_0.1;
        let e3 = lua_block_at(s, e2)->Ok_0.1;
        let n = u8_at(s, e3)->Ok_0.0;
        lemma_players_end(s, e3 + 1, n as nat, Seq::empty());
        let e4 = player_list_at(s, e3)->Ok_0.1;
        let e5 = e4 + 1;
        let m = u8_at(s, e5)->Ok_0.0;
        lemma_armies_end(s, e5 + 1, m as nat, Seq::empty());
    }
}

/// The offset of the body is the position at which decoding the header
/// stops.
pub proof fn lemma_body_offset(s: Seq<u8>)
    ensures
        header_at(s, 0) matches Ok((_, end)) ==> offset_of(s) == Ok::<int, Failure>(end),
{
    lemma_offset_is_header_end(s, 0);
}

/// The body of a whole replay is the body that the bytes behind the offset
/// hold.
pub proof fn lemma_body_of_rest(s: Seq<u8>, options: Options)
    ensures
        replay_of(s, options) matches Ok(replay) ==> offset_of(s) matches Ok(offset) && body_of(
            s.subrange(offset, s.len() as int),
            options,
        ) == Ok::<BodyValue, Failure>(replay.body),
{
    lemma_offset_is_header_end(s, 0);
}

/// The state of a decoded body, or the failure.
pub open spec fn sim_of(body: Result<BodyValue, Failure>) -> Result<SimValue, Failure> {
    match body {
        Ok(b) => Ok(b.sim),
        Err(e) => Err(e),
    }
}

/// The state after the commands of a list, from the first to the last.
pub open spec fn sim_fold(
    sim: SimValue,
    commands: Seq<CommandValue>,
    stop_on_desync: bool,
) -> Result<SimValue, Failure>
    decreases commands.len(),
{
    if commands.len() == 0 {
        Ok(sim)
    } else {
        match sim_fold(sim, commands.drop_last(), stop_on_desync) {
            Err(e) => Err(e),
            Ok(before) => sim_after(before, commands.last(), stop_on_desync),
        }
    }
}

/// The sum of the ticks of the `Advance` commands of a list.
pub open spec fn tick_sum(commands: Seq<CommandValue>) -> int
    decreases commands.len(),
{
    if commands.len() == 0 {
        0
    } else {
        tick_sum(commands.drop_last()) + match commands.last() {
            CommandValue::Advance { ticks } => ticks as int,
            _ => 0,
        }
    }
}

/// Whether a parser keeps every command that it decodes.
pub open spec fn keeps_all(options: Options) -> bool {
    options.save_commands && forall|t: u8| t < MAX ==> options.commands.contains(t)
}

/// What one command does to the state: the tick never goes down, and only
/// `Advance` moves it; the active command source changes only with
/// `SetCommandSource`, which makes it the id in two's complement, and with
/// `CommandSourceTerminated`, which makes it -1; a first desync stays the
/// first, and the list of desyncs only grows; a well-formed state stays so.
pub proof fn lemma_step(sim: SimValue, command: CommandValue)
    ensures
        sim_step(sim, command) matches Ok(after) ==> {
            &&& after.tick >= sim.tick
            &&& (!(command is Advance) ==> after.tick == sim.tick)
            &&& (command matches CommandValue::SetCommandSource { id } ==> after.command_source
                == signed8(id))
            &&& (command is CommandSourceTerminated ==> after.command_source == -1)
            &&& (!(command is SetCommandSource) && !(command is CommandSourceTerminated)
                ==> after.command_source == sim.command_source)
            &&& (sim.desync_tick is Some ==> after.desync_tick == sim.desync_tick)
            &&& after.desync_ticks.len() >= sim.desync_ticks.len()
            &&& after.desync_ticks.take(sim.desync_ticks.len() as int) == sim.desync_ticks
            &&& (sim.wf() && (command matches CommandValue::VerifyChecksum { digest, .. }
                ==> digest.len() == 16) ==> after.wf())
        },
{
    if let Ok(after) = sim_step(sim, command) {
        assert(after.desync_ticks.take(sim.desync_ticks.len() as int) =~= sim.desync_ticks);
    }
}

/// From any point of a body on: no more commands are kept than the limit
/// leaves room for.
pub proof fn lemma_limit_bound_from(
    s: Seq<u8>,
    pos: int,
    options: Options,
    done: nat,
    sim: SimValue,
    kept: Seq<CommandValue>,
)
    requires
        options.limit is Some,
        kept.len() <= done,
    ensures
        body_from(s, pos, options, done, sim, kept) matches Ok(body) ==> body.commands.len()
            <= kept.len() + if done >= options.limit->Some_0 {
            0
        } else {
            options.limit->Some_0 - done
        },
    decreases s.len() - pos,
{
    if !(pos < 0 || pos >= s.len() || options.exhausted(done)) {
        lemma_frame_advances(s, pos);
        if let Ok((command, next)) = command_at(s, pos) {
            if let Ok(sim2) = sim_after(sim, command, options.stop_on_desync) {
                lemma_limit_bound_from(
                    s,
                    next,
                    options,
                    done + 1,
                    sim2,
                    if options.keeps(command) {
                        kept.push(command)
                    } else {
                        kept
                    },
                );
            }
        }
    }
}

/// A body that was decoded with a limit holds no more commands than the
/// limit.
pub proof fn lemma_limit_bound(s: Seq<u8>, options: Options)
    requires
        options.limit is Some,
    ensures
        body_of(s, options) matches Ok(body) ==> body.commands.len() <= options.limit->Some_0,
{
    lemma_limit_bound_from(s, 0, options, 0, initial_sim(), Seq::empty());
}

/// Every body that decodes ends in a well-formed state: the digest has 16
/// bytes, and a first desync is recorded exactly when the list of desyncs
/// is not empty, and is its head.
pub proof fn lemma_body_sim_wf(s: Seq<u8>, options: Options)
    ensures
        body_of(s, options) matches Ok(body) ==> body.sim.wf(),
{
    lemma_body_sim_wf_from(s, 0, options, 0, initial_sim(), Seq::empty());
}

/// From any point of a body on, a well-formed state stays well-formed to
/// the end.
pub proof fn lemma_body_sim_wf_from(
    s: Seq<u8>,
    pos: int,
    options: Options,
    done: nat,
    sim: SimValue,
    kept: Seq<CommandValue>,
)
    requires
        sim.wf(),
    ensures
        body_from(s, pos, options, done, sim, kept) matches Ok(body) ==> body.sim.wf(),
    decreases s.len() - pos,
{
    if !(pos < 0 || pos >= s.len() || options.exhausted(done)) {
        lemma_frame_advances(s, pos);
        if let Ok((command, next)) = command_at(s, pos) {
            if let Ok(sim2) = sim_after(sim, command, options.stop_on_desync) {
                lemma_step(sim, command);
                lemma_body_sim_wf_from(
                    s,
                    next,
                    options,
                    done + 1,
                    sim2,
                    if options.keeps(command) {
                        kept.push(command)
                    } else {
                        kept
                    },
                );
            }
        }
    }
}

/// Whether commands are kept has no part in the state: two parsers with
/// the same limit and the same way with desyncs end in the same state, or
/// in the same failure.
pub proof fn lemma_sim_ignores_keeping(s: Seq<u8>, a: Options, b: Options)
    requires
        a.limit == b.limit,
        a.stop_on_desync == b.stop_on_desync,
    ensures
        sim_of(body_of(s, a)) == sim_of(body_of(s, b)),
{
    lemma_sim_ignores_kept(s, 0, a, b, 0, initial_sim(), Seq::empty(), Seq::empty());
}

/// The state at the end does not depend on which commands were kept, from
/// any point of the body on.
pub proof fn lemma_sim_ignores_kept(
    s: Seq<u8>,
    pos: int,
    a: Options,
    b: Options,
    done: nat,
    sim: SimValue,
    kept_a: Seq<CommandValue>,
    kept_b: Seq<CommandValue>,
)
    requires
        a.limit == b.limit,
        a.stop_on_desync == b.stop_on_desync,
    ensures
        sim_of(body_from(s, pos, a, done, sim, kept_a)) == sim_of(
            body_from(s, pos, b, done, sim, kept_b),
        ),
    decreases s.len() - pos,
{
    if !(pos < 0 || pos >= s.len() || a.exhausted(done)) {
        lemma_frame_advances(s, pos);
        if let Ok((command, next)) = command_at(s, pos) {
            if let Ok(sim2) = sim_after(sim, command, a.stop_on_desync) {
                lemma_sim_ignores_kept(
                    s,
                    next,
                    a,
                    b,
                    done + 1,
                    sim2,
                    if a.keeps(command) {
                        kept_a.push(command)
                    } else {
                        kept_a
                    },
                    if b.keeps(command) {
                        kept_b.push(command)
                    } else {
                        kept_b
                    },
                );
            }
        }
    }
}

/// Counting the ticks of a body gives the tick at which decoding the whole
/// body ends.
pub proof fn lemma_ticks_agree(s: Seq<u8>, options: Options)
    requires
        options.limit is None,
    ensures
        body_of(s, options) matches Ok(body) ==> ticks_of(s) == Ok::<u32, Failure>(body.sim.tick),
{
    lemma_ticks_agree_from(s, 0, options, 0, initial_sim(), Seq::empty());
}

/// Counting the ticks from any point of a body on gives the tick at which
/// decoding from there ends.
pub proof fn lemma_ticks_agree_from(
    s: Seq<u8>,
    pos: int,
    options: Options,
    done: nat,
    sim: SimValue,
    kept: Seq<CommandValue>,
)
    requires
        options.limit is None,
    ensures
        body_from(s, pos, options, done, sim, kept) matches Ok(body) ==> ticks_from(
            s,
            pos,
            sim.tick,
        ) == Ok::<u32, Failure>(body.sim.tick),
    decreases s.len() - pos,
{
    if !(pos < 0 || pos >= s.len()) {
        lemma_frame_advances(s, pos);
        if let Ok((command, next)) = command_at(s, pos) {
            let frame = frame_at(s, pos)->Ok_0.0;
            lemma_command_tag(frame.0, frame.1);
            if let Ok(sim2) = sim_after(sim, command, options.stop_on_desync) {
                lemma_ticks_agree_from(
                    s,
                    next,
                    options,
                    done + 1,
                    sim2,
                    if options.keeps(command) {
                        kept.push(command)
                    } else {
                        kept
                    },
                );
            }
        }
    }
}

/// The tick of a whole replay is the count of the ticks of the bytes
/// behind the offset of its body.
pub proof fn lemma_replay_ticks(s: Seq<u8>, options: Options)
    requires
        options.limit is None,
    ensures
        replay_of(s, options) matches Ok(replay) ==> offset_of(s) matches Ok(offset) && ticks_of(
            s.subrange(offset, s.len() as int),
        ) == Ok::<u32, Failure>(replay.body.sim.tick),
{
    lemma_offset_is_header_end(s, 0);
    if let Ok((_, end)) = header_at(s, 0) {
        lemma_ticks_agree(s.subrange(end, s.len() as int), options);
    }
}

/// The state at the end of a list of commands has advanced by the sum of
/// the ticks of its `Advance` commands.
pub proof fn lemma_fold_ticks(sim: SimValue, commands: Seq<CommandValue>, stop_on_desync: bool)
    ensures
        sim_fold(sim, commands, stop_on_desync) matches Ok(after) ==> after.tick == sim.tick
            + tick_sum(commands),
    decreases commands.len(),
{
    if commands.len() > 0 {
        lemma_fold_ticks(sim, commands.drop_last(), stop_on_desync);
    }
}

/// From any point of a body on: where the state is that behind the kept
/// commands and every command is kept, the body's state is that behind its
/// commands, and its commands begin with those kept so far.
pub proof fn lemma_body_is_fold_from(
    s: Seq<u8>,
    pos: int,
    options: Options,
    done: nat,
    sim: SimValue,
    kept: Seq<CommandValue>,
)
    requires
        keeps_all(options),
        sim_fold(initial_sim(), kept, options.stop_on_desync) == Ok::<SimValue, Failure>(sim),
    ensures
        body_from(s, pos, options, done, sim, kept) matches Ok(body) ==> {
            &&& sim_fold(initial_sim(), body.commands, options.stop_on_desync) == Ok::<
                SimValue,
                Failure,
            >(body.sim)
            &&& body.commands.len() >= kept.len()
            &&& body.commands.take(kept.len() as int) == kept
        },
    decreases s.len() - pos,
{
    if pos < 0 || pos >= s.len() || options.exhausted(done) {
        assert(kept.take(kept.len() as int) =~= kept);
    } else {
        lemma_frame_advances(s, pos);
        if let Ok((command, next)) = command_at(s, pos) {
            let frame = frame_at(s, pos)->Ok_0.0;
            lemma_command_tag(frame.0, frame.1);
            if let Ok(sim2) = sim_after(sim, command, options.stop_on_desync) {
                let kept2 = kept.push(command);
                assert(kept2.drop_last() =~= kept);
                lemma_body_is_fold_from(s, next, options, done + 1, sim2, kept2);
                if let Ok(body) = body_from(s, next, options, done + 1, sim2, kept2) {
                    assert(body.commands.take(kept.len() as int) =~= body.commands.take(
                        kept2.len() as int,
                    ).take(kept.len() as int));
                    assert(kept2.take(kept.len() as int) =~= kept);
                }
            }
        }
    }
}

/// For a parser that keeps every command, the state of a body is the
/// state behind its commands, and its tick is the sum of the ticks of its
/// `Advance` commands.
pub proof fn lemma_body_is_fold(s: Seq<u8>, options: Options)
    requires
        keeps_all(options),
    ensures
        body_of(s, options) matches Ok(body) ==> {
            &&& sim_fold(initial_sim(), body.commands, options.stop_on_desync) == Ok::<
                SimValue,
                Failure,
            >(body.sim)
            &&& body.sim.tick == tick_sum(body.commands)
        },
{
    lemma_body_is_fold_from(s, 0, options, 0, initial_sim(), Seq::empty());
    if let Ok(body) = body_of(s, options) {
        lemma_fold_ticks(initial_sim(), body.commands, options.stop_on_desync);
    }
}

/// The number of commands that a limit of `n` leaves of `total`.
pub open spec fn limited(n: usize, total: nat) -> int {
    if n <= total {
        n as int
    } else {
        total as int
    }
}

/// From any point of a body on: where decoding without a limit succeeds,
/// decoding with the limit `n` succeeds too, and gives the commands up to
/// the limit.
pub proof fn lemma_limit_from(
    s: Seq<u8>,
    pos: int,
    options: Options,
    n: usize,
    done: nat,
    sim: SimValue,
    kept: Seq<CommandValue>,
)
    requires
        keeps_all(options),
        options.limit is None,
        kept.len() == done,
        sim_fold(initial_sim(), kept, options.stop_on_desync) == Ok::<SimValue, Failure>(sim),
    ensures
        body_from(s, pos, options, done, sim, kept) matches Ok(whole) ==> body_from(
            s,
            pos,
            Options { limit: Some(n), ..options },
            done,
            sim,
            kept,
        ) matches Ok(cut) && cut.commands == whole.commands.take(
            if n <= done {
                done as int
            } else {
                limited(n, whole.commands.len())
            },
        ),
    decreases s.len() - pos,
{
    let bounded = Options { limit: Some(n), ..options };
    lemma_body_is_fold_from(s, pos, options, done, sim, kept);
    if pos < 0 || pos >= s.len() {
        assert(kept.take(kept.len() as int) =~= kept);
    } else if bounded.exhausted(done) {
    } else {
        lemma_frame_advances(s, pos);
        if let Ok((command, next)) = command_at(s, pos) {
            let frame = frame_at(s, pos)->Ok_0.0;
            lemma_command_tag(frame.0, frame.1);
            if let Ok(sim2) = sim_after(sim, command, options.stop_on_desync) {
                let kept2 = kept.push(command);
                assert(kept2.drop_last() =~= kept);
                lemma_limit_from(s, next, options, n, done + 1, sim2, kept2);
                lemma_body_is_fold_from(s, next, options, done + 1, sim2, kept2);
            }
        }
    }
}

/// A limit of `n` gives the first `n` commands of the body, or all of them
/// where there are fewer; the state is that behind these commands, and its
/// tick is the sum of the ticks of their `Advance` commands. This is stated
/// of a parser that keeps every command, and of a body that decodes without
/// the limit.
pub proof fn lemma_limit(s: Seq<u8>, options: Options, n: usize)
    requires
        keeps_all(options),
        options.limit is None,
        body_of(s, options) is Ok,
    ensures
        body_of(s, Options { limit: Some(n), ..options }) matches Ok(cut) && {
            let whole = body_of(s, options)->Ok_0;
            &&& cut.commands == whole.commands.take(limited(n, whole.commands.len()))
            &&& cut.commands.len() == limited(n, whole.commands.len())
            &&& sim_fold(initial_sim(), cut.commands, options.stop_on_desync) == Ok::<
                SimValue,
                Failure,
            >(cut.sim)
            &&& cut.sim.tick == tick_sum(cut.commands)
        },
{
    lemma_limit_from(s, 0, options, n, 0, initial_sim(), Seq::empty());
    lemma_body_is_fold(s, Options { limit: Some(n), ..options });
}

/// The tick of a checksum command.
pub open spec fn checksum_tick_of(command: CommandValue) -> Option<u32> {
    match command {
        CommandValue::VerifyChecksum { tick, .. } => Some(tick),
        _ => None,
    }
}

/// Whether the ticks of the checksum commands of a list never go down.
pub open spec fn checksum_ticks_ascend(commands: Seq<CommandValue>) -> bool {
    forall|i: int, j: int|
        0 <= i < j < commands.len() && checksum_tick_of(commands[i]) is Some && checksum_tick_of(
            commands[j],
        ) is Some ==> checksum_tick_of(commands[i])->Some_0 <= checksum_tick_of(
            commands[j],
        )->Some_0
}

/// Whether no element of a list is less than one before it.
pub open spec fn ascends(ticks: Seq<u32>) -> bool {
    forall|i: int, j: int| 0 <= i < j < ticks.len() ==> ticks[i] <= ticks[j]
}

/// Behind commands whose checksum ticks never go down, the desyncs stand
/// in ascending order and none is later than the stored digest's tick,
/// which is that of one of the commands where a digest is stored.
pub proof fn lemma_desyncs_ascend(commands: Seq<CommandValue>, stop_on_desync: bool)
    requires
        checksum_ticks_ascend(commands),
    ensures
        sim_fold(initial_sim(), commands, stop_on_desync) matches Ok(sim) ==> {
            &&& ascends(sim.desync_ticks)
            &&& forall|k: int|
                0 <= k < sim.desync_ticks.len() ==> sim.desync_ticks[k] <= sim.checksum_tick
            &&& (!sim.checksum_stored ==> sim.checksum_tick == 0)
            &&& (!sim.checksum_stored || exists|i: int|
                0 <= i < commands.len() && checksum_tick_of(commands[i]) == Some(
                    sim.checksum_tick,
                ))
            &&& sim.desync_tick == if sim.desync_ticks.len() == 0 {
                None
            } else {
                Some(sim.desync_ticks[0])
            }
        },
    decreases commands.len(),
{
    if commands.len() > 0 {
        let front = commands.drop_last();
        let last = commands.last();
        assert forall|i: int, j: int|
            0 <= i < j < front.len() && checksum_tick_of(front[i]) is Some && checksum_tick_of(
                front[j],
            ) is Some implies checksum_tick_of(front[i])->Some_0 <= checksum_tick_of(
            front[j],
        )->Some_0 by {
            assert(front[i] == commands[i] && front[j] == commands[j]);
        }
        lemma_desyncs_ascend(front, stop_on_desync);
        if let Ok(before) = sim_fold(initial_sim(), front, stop_on_desync) {
            if let Ok(sim) = sim_after(before, last, stop_on_desync) {
                if before.checksum_stored {
                    let i = choose|i: int|
                        0 <= i < front.len() && checksum_tick_of(front[i]) == Some(
                            before.checksum_tick,
                        );
                    assert(front[i] == commands[i]);
                    assert(commands[commands.len() - 1] == last);
                }
                if checksum_tick_of(last) is Some {
                    assert(checksum_tick_of(commands[commands.len() - 1]) == Some(
                        sim.checksum_tick,
                    ));
                }
            }
        }
    }
}

/// A desync is recorded as the first exactly when the list of desyncs is
/// not empty, and it is the head of the list. Where the ticks of the
/// checksum commands never go down, the first desync is also the least.
pub proof fn lemma_first_desync_is_least(commands: Seq<CommandValue>, stop_on_desync: bool)
    requires
        checksum_ticks_ascend(commands),
    ensures
        sim_fold(initial_sim(), commands, stop_on_desync) matches Ok(sim) ==> {
            &&& (sim.desync_tick is Some <==> sim.desync_ticks.len() > 0)
            &&& sim.desync_tick matches Some(first) ==> sim.desync_ticks.contains(first)
                && forall|k: int| 0 <= k < sim.desync_ticks.len() ==> first <= sim.desync_ticks[k]
        },
{
    lemma_desyncs_ascend(commands, stop_on_desync);
    if let Ok(sim) = sim_fold(initial_sim(), commands, stop_on_desync) {
        if sim.desync_ticks.len() > 0 {
            assert(sim.desync_ticks[0] == sim.desync_tick->Some_0);
        }
    }
}

/// The digest and the tick of the last checksum command of a list.
pub open spec fn last_checksum(commands: Seq<CommandValue>) -> Option<(Seq<u8>, u32)>
    decreases commands.len(),
{
    if commands.len() == 0 {
        None
    } else {
        match commands.last() {
            CommandValue::VerifyChecksum { digest, tick } => Some((digest, tick)),
            _ => last_checksum(commands.drop_last()),
        }
    }
}

/// Whether the last command of a list is a checksum command for the tick of
/// the checksum command before it, with another digest.
pub open spec fn differs_at_end(commands: Seq<CommandValue>) -> bool {
    commands.len() > 0 && match commands.last() {
        CommandValue::VerifyChecksum { digest, tick } => match last_checksum(
            commands.drop_last(),
        ) {
            Some((stored, at)) => at == tick && stored != digest,
            None => false,
        },
        _ => false,
    }
}

/// The ticks of the checksum commands of a list that differ from the
/// checksum command before them for the same tick, in the order of the list.
pub open spec fn mismatch_ticks(commands: Seq<CommandValue>) -> Seq<u32>
    decreases commands.len(),
{
    if commands.len() == 0 {
        Seq::empty()
    } else if differs_at_end(commands) {
        mismatch_ticks(commands.drop_last()).push(checksum_tick_of(commands.last())->Some_0)
    } else {
        mismatch_ticks(commands.drop_last())
    }
}

/// Behind a list of commands the stored digest is that of the last
/// checksum command, and none is stored where there was no such command;
/// the desyncs are the ticks at which a checksum command differs from the
/// one before it for the same tick, whatever the digests hold. A parser
/// that stops at a desync gets behind the list only where there is none.
pub proof fn lemma_desyncs_are_mismatches(commands: Seq<CommandValue>, stop_on_desync: bool)
    ensures
        sim_fold(initial_sim(), commands, stop_on_desync) matches Ok(sim) ==> {
            &&& sim.desync_ticks == mismatch_ticks(commands)
            &&& match last_checksum(commands) {
                Some((digest, tick)) => sim.checksum_stored && sim.checksum == digest
                    && sim.checksum_tick == tick,
                None => !sim.checksum_stored,
            }
            &&& (stop_on_desync ==> mismatch_ticks(commands).len() == 0)
        },
    decreases commands.len(),
{
    if commands.len() > 0 {
        lemma_desyncs_are_mismatches(commands.drop_last(), stop_on_desync);
    }
}

/// A parser that stops at a desync fails with the tick of the first
/// checksum command that differs from the one before it for the same tick,
/// and it fails wherever there is such a command.
pub proof fn lemma_stop_at_first_mismatch(commands: Seq<CommandValue>)
    ensures
        sim_fold(initial_sim(), commands, true) matches Err(Failure::Desynced(tick))
            ==> mismatch_ticks(commands).len() > 0 && mismatch_ticks(commands)[0] == tick,
        mismatch_ticks(commands).len() > 0 ==> sim_fold(initial_sim(), commands, true) is Err,
    decreases commands.len(),
{
    if commands.len() > 0 {
        let front = commands.drop_last();
        lemma_stop_at_first_mismatch(front);
        lemma_desyncs_are_mismatches(front, true);
        lemma_desyncs_are_mismatches(commands, true);
    }
}

/// From any point of a body on, the desyncs of the state stay at the head
/// of the list of desyncs to the end.
pub proof fn lemma_body_keeps_desyncs_from(
    s: Seq<u8>,
    pos: int,
    options: Options,
    done: nat,
    sim: SimValue,
    kept: Seq<CommandValue>,
)
    ensures
        body_from(s, pos, options, done, sim, kept) matches Ok(body) ==> {
            &&& body.sim.desync_ticks.len() >= sim.desync_ticks.len()
            &&& body.sim.desync_ticks.take(sim.desync_ticks.len() as int) == sim.desync_ticks
        },
    decreases s.len() - pos,
{
    if pos < 0 || pos >= s.len() || options.exhausted(done) {
        assert(sim.desync_ticks.take(sim.desync_ticks.len() as int) =~= sim.desync_ticks);
    } else {
        lemma_frame_advances(s, pos);
        if let Ok((command, next)) = command_at(s, pos) {
            if let Ok(sim2) = sim_after(sim, command, options.stop_on_desync) {
                lemma_step(sim, command);
                let kept2 = if options.keeps(command) {
                    kept.push(command)
                } else {
                    kept
                };
                lemma_body_keeps_desyncs_from(s, next, options, done + 1, sim2, kept2);
                if let Ok(body) = body_from(s, next, options, done + 1, sim2, kept2) {
                    assert(body.sim.desync_ticks.take(sim.desync_ticks.len() as int)
                        =~= body.sim.desync_ticks.take(sim2.desync_ticks.len() as int).take(
                        sim.desync_ticks.len() as int,
                    ));
                }
            }
        }
    }
}

/// What a parser that stops at a desync makes of a body, from what one that
/// goes on makes of it.
pub open spec fn stopped(body: BodyValue) -> Result<BodyValue, Failure> {
    if body.sim.desync_ticks.len() == 0 {
        Ok(body)
    } else {
        Err(Failure::Desynced(body.sim.desync_ticks[0]))
    }
}

/// From any point of a body on, before the first desync: where a parser
/// that goes on at a desync decodes the body, one that stops decodes the
/// same if there was no desync, and fails with the first otherwise.
pub proof fn lemma_stop_on_desync_from(
    s: Seq<u8>,
    pos: int,
    options: Options,
    done: nat,
    sim: SimValue,
    kept: Seq<CommandValue>,
)
    requires
        sim.desync_ticks.len() == 0,
    ensures
        body_from(
            s,
            pos,
            Options { stop_on_desync: false, ..options },
            done,
            sim,
            kept,
        ) matches Ok(body) ==> body_from(
            s,
            pos,
            Options { stop_on_desync: true, ..options },
            done,
            sim,
            kept,
        ) == stopped(body),
    decreases s.len() - pos,
{
    let lax = Options { stop_on_desync: false, ..options };
    let strict = Options { stop_on_desync: true, ..options };
    if !(pos < 0 || pos >= s.len() || lax.exhausted(done)) {
        lemma_frame_advances(s, pos);
        if let Ok((command, next)) = command_at(s, pos) {
            if let Ok(sim2) = sim_after(sim, command, false) {
                let kept2 = if lax.keeps(command) {
                    kept.push(command)
                } else {
                    kept
                };
                if desync_of(sim, command) is Some {
                    lemma_body_keeps_desyncs_from(s, next, lax, done + 1, sim2, kept2);
                    if let Ok(body) = body_from(s, next, lax, done + 1, sim2, kept2) {
                        assert(body.sim.desync_ticks.take(1)[0] == sim2.desync_ticks[0]);
                    }
                } else {
                    lemma_stop_on_desync_from(s, next, options, done + 1, sim2, kept2);
                }
            }
        }
    }
}

/// Stopping at a desync changes nothing but the outcome at the first
/// desync: where a parser that goes on decodes a body, the parser that
/// differs from it only in that it stops decodes the same if the body has no
/// desync, and fails with the tick of the first desync otherwise.
pub proof fn lemma_stop_on_desync(s: Seq<u8>, options: Options)
    ensures
        body_of(s, Options { stop_on_desync: false, ..options }) matches Ok(body) ==> body_of(
            s,
            Options { stop_on_desync: true, ..options },
        ) == stopped(body),
{
    lemma_stop_on_desync_from(s, 0, options, 0, initial_sim(), Seq::empty());
}

/// The desyncs of a body are the ticks at which one of its checksum
/// commands differs from the checksum command before it for the same tick,
/// and the stored digest is that of its last checksum command. This is
/// stated of a parser that keeps every command, so that the body shows its
/// commands; the state of any other parser with the same limit and the same
/// way with desyncs is the same.
pub proof fn lemma_body_desyncs(s: Seq<u8>, options: Options)
    requires
        keeps_all(options),
    ensures
        body_of(s, options) matches Ok(body) ==> {
            &&& body.sim.desync_ticks == mismatch_ticks(body.commands)
            &&& match last_checksum(body.commands) {
                Some((digest, tick)) => body.sim.checksum_stored && body.sim.checksum == digest
                    && body.sim.checksum_tick == tick,
                None => !body.sim.checksum_stored,
            }
        },
{
    lemma_body_is_fold(s, options);
    if let Ok(body) = body_of(s, options) {
        lemma_desyncs_are_mismatches(body.commands, options.stop_on_desync);
    }
}

} // verus!
