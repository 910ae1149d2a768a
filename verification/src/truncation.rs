//! What decoding makes of an input that was cut short, and what stepping
//! over a header makes of bytes that follow it.

use vstd::prelude::*;
use crate::body::{
    advance_of, body_from, body_of, initial_sim, sim_after, ticks_from, ticks_of, Options,
};
use crate::constants::ADVANCE;
use crate::command::{command_at, frame_at, lemma_frame_advances};
use crate::error::Failure;
use crate::header::{
    armies_at, armies_end_at, army_at, army_list_at, header_at, header_end_at,
    header_tail_end_at, lua_block_at, offset_of, player_at, player_list_at, players_at,
    players_end_at, separator_at, titles_at,
};
use crate::parser::replay_of;
use crate::reader::{
    block_at, bool_at, bytes_at, cstring_at, i8_at, lemma_zero_from, lemma_zero_from_is, text_at,
    u16_at, u32_at, u8_at, zero_from, Decoded,
};
use crate::laws::lemma_offset_is_header_end;
use crate::replay::{
    ArmyValue, BodyValue, CommandValue, HeaderValue, PlayerValue, ReplayValue, SimValue,
};

verus! {

/// How decoding an item on the first `k` bytes relates to decoding it on
/// the whole input, where that succeeds: an item that ends within the first
/// `k` bytes decodes to the same, and one that does not runs into the end.
pub open spec fn cut_short<T>(whole: Decoded<T>, cut: Decoded<T>, k: int) -> bool {
    match whole {
        Ok((_, next)) => if next <= k {
            cut == whole
        } else {
            cut == Err::<(T, int), Failure>(Failure::UnexpectedEof)
        },
        Err(_) => true,
    }
}

/// Bytes cut short.
pub proof fn lemma_cut_bytes(s: Seq<u8>, pos: int, n: int, k: int)
    requires
        0 <= pos <= k <= s.len(),
    ensures
        cut_short(bytes_at(s, pos, n), bytes_at(s.take(k), pos, n), k),
{
    if let Ok((b, next)) = bytes_at(s, pos, n) {
        if next <= k {
            assert(s.take(k).subrange(pos, pos + n) =~= s.subrange(pos, pos + n));
        }
    }
}

/// Fixed-width items cut short.
pub proof fn lemma_cut_fixed(s: Seq<u8>, pos: int, k: int)
    requires
        0 <= pos <= k <= s.len(),
    ensures
        cut_short(u8_at(s, pos), u8_at(s.take(k), pos), k),
        cut_short(i8_at(s, pos), i8_at(s.take(k), pos), k),
        cut_short(bool_at(s, pos), bool_at(s.take(k), pos), k),
        cut_short(u16_at(s, pos), u16_at(s.take(k), pos), k),
        cut_short(u32_at(s, pos), u32_at(s.take(k), pos), k),
        cut_short(separator_at(s, pos), separator_at(s.take(k), pos), k),
{
}

/// A zero-terminated item cut short.
pub proof fn lemma_cut_cstring(s: Seq<u8>, pos: int, k: int)
    requires
        0 <= pos <= k <= s.len(),
    ensures
        cut_short(cstring_at(s, pos), cstring_at(s.take(k), pos), k),
        cut_short(text_at(s, pos), text_at(s.take(k), pos), k),
{
    let t = s.take(k);
    lemma_zero_from(s, pos);
    let z = zero_from(s, pos);
    if z < k {
        lemma_zero_from_is(t, pos, z);
        assert(t.subrange(pos, z) =~= s.subrange(pos, z));
    } else {
        lemma_zero_from_is(t, pos, k);
    }
}

/// A block cut short.
pub proof fn lemma_cut_block(s: Seq<u8>, pos: int, k: int)
    requires
        0 <= pos <= k <= s.len(),
    ensures
        cut_short(block_at(s, pos), block_at(s.take(k), pos), k),
        cut_short(lua_block_at(s, pos), lua_block_at(s.take(k), pos), k),
{
    lemma_cut_fixed(s, pos, k);
    if let Ok((n, e1)) = u32_at(s, pos) {
        if e1 <= k {
            lemma_cut_bytes(s, e1, n as int, k);
        }
    }
}

/// A player cut short.
pub proof fn lemma_cut_player(s: Seq<u8>, pos: int, k: int)
    requires
        0 <= pos <= k <= s.len(),
    ensures
        cut_short(player_at(s, pos), player_at(s.take(k), pos), k),
        player_at(s, pos) matches Ok((_, next)) ==> pos <= next,
{
    lemma_cut_cstring(s, pos, k);
    lemma_zero_from(s, pos);
    if let Ok((_, e1)) = text_at(s, pos) {
        if e1 <= k {
            lemma_cut_fixed(s, e1, k);
        }
    }
}

/// An army cut short.
pub proof fn lemma_cut_army(s: Seq<u8>, pos: int, k: int)
    requires
        0 <= pos <= k <= s.len(),
    ensures
        cut_short(army_at(s, pos), army_at(s.take(k), pos), k),
        army_at(s, pos) matches Ok((_, next)) ==> pos <= next,
{
    lemma_cut_block(s, pos, k);
    if let Ok((_, e1)) = lua_block_at(s, pos) {
        if e1 <= k {
            lemma_cut_fixed(s, e1, k);
        }
    }
}

/// Players cut short.
pub proof fn lemma_cut_players(s: Seq<u8>, pos: int, n: nat, acc: Seq<PlayerValue>, k: int)
    requires
        0 <= pos <= k <= s.len(),
    ensures
        cut_short(players_at(s, pos, n, acc), players_at(s.take(k), pos, n, acc), k),
        players_at(s, pos, n, acc) matches Ok((_, next)) ==> pos <= next,
    decreases n,
{
    if n > 0 {
        lemma_cut_player(s, pos, k);
        if let Ok((player, next)) = player_at(s, pos) {
            if next <= k {
                lemma_cut_players(s, next, (n - 1) as nat, acc.push(player), k);
            } else {
                lemma_players_go_on(s, next, (n - 1) as nat, acc.push(player));
            }
        }
    }
}

/// Players end behind their start.
pub proof fn lemma_players_go_on(s: Seq<u8>, pos: int, n: nat, acc: Seq<PlayerValue>)
    requires
        0 <= pos,
    ensures
        players_at(s, pos, n, acc) matches Ok((_, next)) ==> pos <= next,
    decreases n,
{
    if n > 0 {
        if let Ok((player, next)) = player_at(s, pos) {
            lemma_zero_from(s, pos);
            lemma_players_go_on(s, next, (n - 1) as nat, acc.push(player));
        }
    }
}

/// Armies end behind their start.
pub proof fn lemma_armies_go_on(s: Seq<u8>, pos: int, n: nat, acc: Seq<ArmyValue>)
    requires
        0 <= pos,
    ensures
        armies_at(s, pos, n, acc) matches Ok((_, next)) ==> pos <= next,
    decreases n,
{
    if n > 0 {
        if let Ok((army, next)) = army_at(s, pos) {
            lemma_armies_go_on(s, next, (n - 1) as nat, acc.push(army));
        }
    }
}

/// Armies cut short.
pub proof fn lemma_cut_armies(s: Seq<u8>, pos: int, n: nat, acc: Seq<ArmyValue>, k: int)
    requires
        0 <= pos <= k <= s.len(),
    ensures
        cut_short(armies_at(s, pos, n, acc), armies_at(s.take(k), pos, n, acc), k),
        armies_at(s, pos, n, acc) matches Ok((_, next)) ==> pos <= next,
    decreases n,
{
    if n > 0 {
        lemma_cut_army(s, pos, k);
        if let Ok((army, next)) = army_at(s, pos) {
            if next <= k {
                lemma_cut_armies(s, next, (n - 1) as nat, acc.push(army), k);
            } else {
                lemma_armies_go_on(s, next, (n - 1) as nat, acc.push(army));
            }
        }
    }
}

/// The texts at the start of a header cut short.
pub proof fn lemma_cut_titles(s: Seq<u8>, pos: int, k: int)
    requires
        0 <= pos <= k <= s.len(),
    ensures
        cut_short(titles_at(s, pos), titles_at(s.take(k), pos), k),
        titles_at(s, pos) matches Ok((_, next)) ==> pos <= next,
{
    lemma_cut_cstring(s, pos, k);
    lemma_zero_from(s, pos);
    if let Ok((_, e1)) = text_at(s, pos) {
        lemma_zero_from(s, e1);
        if e1 <= k {
            lemma_cut_cstring(s, e1, k);
        }
        if let Ok((_, e2)) = cstring_at(s, e1) {
            if e2 <= k {
                lemma_cut_fixed(s, e2, k);
            }
            if let Ok((_, e3)) = separator_at(s, e2) {
                lemma_zero_from(s, e3);
                if e3 <= k {
                    lemma_cut_cstring(s, e3, k);
                }
                if let Ok((_, e4)) = text_at(s, e3) {
                    lemma_zero_from(s, e4);
                    if e4 <= k {
                        lemma_cut_cstring(s, e4, k);
                    }
                }
            }
        }
    }
}

/// A list of players cut short.
pub proof fn lemma_cut_player_list(s: Seq<u8>, pos: int, k: int)
    requires
        0 <= pos <= k <= s.len(),
    ensures
        cut_short(player_list_at(s, pos), player_list_at(s.take(k), pos), k),
        player_list_at(s, pos) matches Ok((_, next)) ==> pos <= next,
{
    lemma_cut_fixed(s, pos, k);
    if let Ok((n, first)) = u8_at(s, pos) {
        if first <= k {
            lemma_cut_players(s, first, n as nat, Seq::empty(), k);
        } else {
            lemma_players_go_on(s, first, n as nat, Seq::empty());
        }
    }
}

/// A list of armies cut short.
pub proof fn lemma_cut_army_list(s: Seq<u8>, pos: int, k: int)
    requires
        0 <= pos <= k <= s.len(),
    ensures
        cut_short(army_list_at(s, pos), army_list_at(s.take(k), pos), k),
        army_list_at(s, pos) matches Ok((_, next)) ==> pos <= next,
{
    lemma_cut_fixed(s, pos, k);
    if let Ok((n, first)) = u8_at(s, pos) {
        if first <= k {
            lemma_cut_armies(s, first, n as nat, Seq::empty(), k);
        } else {
            lemma_armies_go_on(s, first, n as nat, Seq::empty());
        }
    }
}

/// The players, the flag for cheats, the armies and the seed of a header.
pub open spec fn header_rest_at(s: Seq<u8>, pos: int) -> Decoded<()> {
    match player_list_at(s, pos) {
        Err(e) => Err(e),
        Ok((_, e1)) => match bool_at(s, e1) {
            Err(e) => Err(e),
            Ok((_, e2)) => match army_list_at(s, e2) {
                Err(e) => Err(e),
                Ok((_, e3)) => match u32_at(s, e3) {
                    Err(e) => Err(e),
                    Ok((_, e4)) => Ok(((), e4)),
                },
            },
        },
    }
}

/// The players, the flag for cheats, the armies and the seed, cut short:
/// each of them decodes to the same within the first `k` bytes, and the
/// first that does not end there runs into the end.
pub proof fn lemma_cut_header_rest(s: Seq<u8>, pos: int, k: int)
    requires
        0 <= pos <= k <= s.len(),
    ensures
        header_rest_at(s, pos) matches Ok((_, end)) ==> {
            let e1 = player_list_at(s, pos)->Ok_0.1;
            let e2 = e1 + 1;
            let e3 = army_list_at(s, e2)->Ok_0.1;
            &&& pos <= e1 <= e3 <= end
            &&& cut_short(player_list_at(s, pos), player_list_at(s.take(k), pos), k)
            &&& (e1 <= k ==> cut_short(bool_at(s, e1), bool_at(s.take(k), e1), k))
            &&& (e2 <= k ==> cut_short(army_list_at(s, e2), army_list_at(s.take(k), e2), k))
            &&& (e3 <= k ==> cut_short(u32_at(s, e3), u32_at(s.take(k), e3), k))
        },
{
    lemma_cut_player_list(s, pos, k);
    if let Ok((_, e1)) = player_list_at(s, pos) {
        if e1 <= k {
            lemma_cut_fixed(s, e1, k);
        }
        if let Ok((_, e2)) = bool_at(s, e1) {
            if e2 <= k {
                lemma_cut_army_list(s, e2, k);
            } else {
                let n = u8_at(s, e2)->Ok_0.0;
                lemma_armies_go_on(s, e2 + 1, n as nat, Seq::empty());
            }
            if let Ok((_, e3)) = army_list_at(s, e2) {
                if e3 <= k {
                    lemma_cut_fixed(s, e3, k);
                }
            }
        }
    }
}

/// A header cut short: one that ends within the first `k` bytes decodes to
/// the same on them, and one that does not runs into the end.
pub proof fn lemma_cut_header(s: Seq<u8>, pos: int, k: int)
    requires
        0 <= pos <= k <= s.len(),
    ensures
        cut_short(header_at(s, pos), header_at(s.take(k), pos), k),
{
    lemma_cut_titles(s, pos, k);
    if let Ok((_, e1)) = titles_at(s, pos) {
        if e1 <= k {
            lemma_cut_block(s, e1, k);
        }
        if let Ok((_, e2)) = lua_block_at(s, e1) {
            if e2 <= k {
                lemma_cut_block(s, e2, k);
            }
            if let Ok((_, e3)) = lua_block_at(s, e2) {
                if e3 <= k {
                    lemma_cut_header_rest(s, e3, k);
                } else {
                    lemma_header_rest_goes_on(s, e3);
                }
            }
        }
    }
}

/// The players, the flag for cheats, the armies and the seed end behind
/// their start.
pub proof fn lemma_header_rest_goes_on(s: Seq<u8>, pos: int)
    requires
        0 <= pos,
    ensures
        header_rest_at(s, pos) matches Ok((_, end)) ==> pos <= end,
{
    if let Ok((n, first)) = u8_at(s, pos) {
        lemma_players_go_on(s, first, n as nat, Seq::empty());
        if let Ok((_, e1)) = player_list_at(s, pos) {
            if let Ok((m, second)) = u8_at(s, e1 + 1) {
                lemma_armies_go_on(s, second, m as nat, Seq::empty());
            }
        }
    }
}

/// A header that was cut short does not decode: the input ends inside it.
pub proof fn lemma_truncated_header(s: Seq<u8>, k: int)
    requires
        header_at(s, 0) is Ok,
        0 <= k < header_at(s, 0)->Ok_0.1,
        k <= s.len(),
    ensures
        header_at(s.take(k), 0) == Err::<(HeaderValue, int), Failure>(Failure::UnexpectedEof),
{
    lemma_cut_header(s, 0, k);
}

/// A frame cut short.
pub proof fn lemma_cut_frame(s: Seq<u8>, pos: int, k: int)
    requires
        0 <= pos <= k <= s.len(),
    ensures
        cut_short(frame_at(s, pos), frame_at(s.take(k), pos), k),
        cut_short(command_at(s, pos), command_at(s.take(k), pos), k),
        pos < k ==> (frame_at(s, pos) is Ok && frame_at(s, pos)->Ok_0.1 > k ==> command_at(
            s.take(k),
            pos,
        ) == Err::<(CommandValue, int), Failure>(Failure::UnexpectedEof)),
{
    lemma_cut_fixed(s, pos, k);
    if let Ok((tag, e1)) = u8_at(s, pos) {
        if e1 <= k {
            lemma_cut_fixed(s, e1, k);
            if let Ok((size, e2)) = u16_at(s, e1) {
                if e2 <= k {
                    lemma_cut_bytes(s, e2, size - 3, k);
                }
            }
        }
    }
}

/// Whether a command of the body `s` that is reached from `pos` starts at
/// `k`, or the body that is reached from `pos` ends there.
pub open spec fn command_starts_at(s: Seq<u8>, pos: int, k: int) -> bool
    decreases s.len() - pos,
{
    if pos == k {
        true
    } else if pos < 0 || pos > k || pos >= s.len() {
        false
    } else {
        match frame_at(s, pos) {
            Ok((_, next)) => pos < next && command_starts_at(s, next, k),
            Err(_) => false,
        }
    }
}

/// From any point of a body on: where the whole decodes, the first `k`
/// bytes do not, unless a command starts at `k`.
pub proof fn lemma_truncated_body_from(
    s: Seq<u8>,
    pos: int,
    options: Options,
    done: nat,
    sim: SimValue,
    kept: Seq<CommandValue>,
    k: int,
)
    requires
        options.limit is None,
        0 <= pos <= k < s.len(),
        !command_starts_at(s, pos, k),
        body_from(s, pos, options, done, sim, kept) is Ok,
    ensures
        body_from(s.take(k), pos, options, done, sim, kept) == Err::<BodyValue, Failure>(
            Failure::UnexpectedEof,
        ),
    decreases s.len() - pos,
{
    lemma_frame_advances(s, pos);
    lemma_cut_frame(s, pos, k);
    let (command, next) = command_at(s, pos)->Ok_0;
    if next <= k {
        let sim2 = sim_after(sim, command, options.stop_on_desync)->Ok_0;
        lemma_truncated_body_from(
            s,
            next,
            options,
            done + 1,
            sim2,
            if options.keeps(command) {
                kept.push(command)
            } else {
                kept
            },
            k,
        );
    }
}

/// A body that was cut short inside a command does not decode: the input
/// ends inside the command. This is stated of a parser without a limit, of
/// a body that decodes as a whole, and of every cut but those at which a
/// command starts, where what is left is a body of its own.
pub proof fn lemma_truncated_body(s: Seq<u8>, options: Options, k: int)
    requires
        options.limit is None,
        body_of(s, options) is Ok,
        0 <= k < s.len(),
        !command_starts_at(s, 0, k),
    ensures
        body_of(s.take(k), options) == Err::<BodyValue, Failure>(Failure::UnexpectedEof),
{
    lemma_truncated_body_from(s, 0, options, 0, initial_sim(), Seq::empty(), k);
}

/// A replay that was cut short does not decode: the input ends inside the
/// header or inside a command. This is stated of a parser without a limit,
/// of a replay that decodes as a whole, and of every cut but those at which
/// a command of the body starts, the end of the header being the first of
/// them.
pub proof fn lemma_truncated_replay(s: Seq<u8>, options: Options, k: int)
    requires
        options.limit is None,
        replay_of(s, options) is Ok,
        0 <= k < s.len(),
        k >= header_at(s, 0)->Ok_0.1 ==> !command_starts_at(
            s.subrange(header_at(s, 0)->Ok_0.1, s.len() as int),
            0,
            k - header_at(s, 0)->Ok_0.1,
        ),
    ensures
        replay_of(s.take(k), options) == Err::<ReplayValue, Failure>(Failure::UnexpectedEof),
{
    let end = header_at(s, 0)->Ok_0.1;
    lemma_cut_header(s, 0, k);
    lemma_offset_is_header_end(s, 0);
    if k >= end {
        let rest = s.subrange(end, s.len() as int);
        assert(s.take(k).subrange(end, s.take(k).len() as int) =~= rest.take(k - end));
        lemma_truncated_body(rest, options, k - end);
    }
}

/// Stepping over players, cut short.
pub proof fn lemma_cut_players_end(s: Seq<u8>, pos: int, n: nat, k: int)
    requires
        0 <= pos <= k <= s.len(),
    ensures
        cut_short(players_end_at(s, pos, n), players_end_at(s.take(k), pos, n), k),
        players_end_at(s, pos, n) matches Ok((_, next)) ==> pos <= next,
    decreases n,
{
    if n > 0 {
        lemma_cut_cstring(s, pos, k);
        lemma_zero_from(s, pos);
        if let Ok((_, e1)) = cstring_at(s, pos) {
            if e1 <= k {
                lemma_cut_fixed(s, e1, k);
            }
            if let Ok((_, e2)) = u32_at(s, e1) {
                if e2 <= k {
                    lemma_cut_players_end(s, e2, (n - 1) as nat, k);
                } else {
                    lemma_players_end_goes_on(s, e2, (n - 1) as nat);
                }
            }
        }
    }
}

/// Stepping over players ends behind its start.
pub proof fn lemma_players_end_goes_on(s: Seq<u8>, pos: int, n: nat)
    requires
        0 <= pos,
    ensures
        players_end_at(s, pos, n) matches Ok((_, next)) ==> pos <= next,
    decreases n,
{
    if n > 0 {
        if let Ok((_, e1)) = cstring_at(s, pos) {
            lemma_zero_from(s, pos);
            if let Ok((_, e2)) = u32_at(s, e1) {
                lemma_players_end_goes_on(s, e2, (n - 1) as nat);
            }
        }
    }
}

/// Stepping over armies ends behind its start.
pub proof fn lemma_armies_end_goes_on(s: Seq<u8>, pos: int, n: nat)
    requires
        0 <= pos,
    ensures
        armies_end_at(s, pos, n) matches Ok((_, next)) ==> pos <= next,
    decreases n,
{
    if n > 0 {
        if let Ok((_, e1)) = block_at(s, pos) {
            if let Ok((_, e2)) = u8_at(s, e1) {
                lemma_armies_end_goes_on(s, e2, (n - 1) as nat);
            }
        }
    }
}

/// Stepping over armies, cut short.
pub proof fn lemma_cut_armies_end(s: Seq<u8>, pos: int, n: nat, k: int)
    requires
        0 <= pos <= k <= s.len(),
    ensures
        cut_short(armies_end_at(s, pos, n), armies_end_at(s.take(k), pos, n), k),
        armies_end_at(s, pos, n) matches Ok((_, next)) ==> pos <= next,
    decreases n,
{
    if n > 0 {
        lemma_cut_block(s, pos, k);
        if let Ok((_, e1)) = block_at(s, pos) {
            if e1 <= k {
                lemma_cut_fixed(s, e1, k);
            }
            if let Ok((_, e2)) = u8_at(s, e1) {
                if e2 <= k {
                    lemma_cut_armies_end(s, e2, (n - 1) as nat, k);
                } else {
                    lemma_armies_end_goes_on(s, e2, (n - 1) as nat);
                }
            }
        }
    }
}

/// Stepping over the players, the armies and the seed ends behind its
/// start.
pub proof fn lemma_header_tail_end_goes_on(s: Seq<u8>, pos: int)
    requires
        0 <= pos,
    ensures
        header_tail_end_at(s, pos) matches Ok((_, next)) ==> pos <= next,
{
    if let Ok((players, e1)) = u8_at(s, pos) {
        lemma_players_end_goes_on(s, e1, players as nat);
        if let Ok((_, e2)) = players_end_at(s, e1, players as nat) {
            if let Ok((_, e3)) = u8_at(s, e2) {
                if let Ok((armies, e4)) = u8_at(s, e3) {
                    lemma_armies_end_goes_on(s, e4, armies as nat);
                }
            }
        }
    }
}

/// Stepping over the players, the armies and the seed, cut short.
pub proof fn lemma_cut_header_tail_end(s: Seq<u8>, pos: int, k: int)
    requires
        0 <= pos <= k <= s.len(),
    ensures
        cut_short(header_tail_end_at(s, pos), header_tail_end_at(s.take(k), pos), k),
{
    lemma_cut_fixed(s, pos, k);
    if let Ok((players, e1)) = u8_at(s, pos) {
        if e1 <= k {
            lemma_cut_players_end(s, e1, players as nat, k);
        } else {
            lemma_players_end_goes_on(s, e1, players as nat);
        }
        if let Ok((_, e2)) = players_end_at(s, e1, players as nat) {
            if e2 <= k {
                lemma_cut_fixed(s, e2, k);
            }
            if let Ok((_, e3)) = u8_at(s, e2) {
                if e3 <= k {
                    lemma_cut_fixed(s, e3, k);
                }
                if let Ok((armies, e4)) = u8_at(s, e3) {
                    if e4 <= k {
                        lemma_cut_armies_end(s, e4, armies as nat, k);
                    } else {
                        lemma_armies_end_goes_on(s, e4, armies as nat);
                    }
                    if let Ok((_, e5)) = armies_end_at(s, e4, armies as nat) {
                        if e5 <= k {
                            lemma_cut_fixed(s, e5, k);
                        }
                    }
                }
            }
        }
    }
}

/// Stepping over a header, cut short.
pub proof fn lemma_cut_header_end(s: Seq<u8>, pos: int, k: int)
    requires
        0 <= pos <= k <= s.len(),
    ensures
        cut_short(header_end_at(s, pos), header_end_at(s.take(k), pos), k),
{
    lemma_cut_cstring(s, pos, k);
    lemma_zero_from(s, pos);
    if let Ok((_, e1)) = cstring_at(s, pos) {
        lemma_zero_from(s, e1);
        if e1 <= k {
            lemma_cut_cstring(s, e1, k);
        }
        if let Ok((_, e2)) = cstring_at(s, e1) {
            if e2 <= k {
                lemma_cut_fixed(s, e2, k);
            }
            if let Ok((_, e3)) = separator_at(s, e2) {
                lemma_zero_from(s, e3);
                if e3 <= k {
                    lemma_cut_cstring(s, e3, k);
                }
                if let Ok((_, e4)) = cstring_at(s, e3) {
                    lemma_zero_from(s, e4);
                    if e4 <= k {
                        lemma_cut_cstring(s, e4, k);
                    }
                    if let Ok((_, e5)) = cstring_at(s, e4) {
                        if e5 <= k {
                            lemma_cut_block(s, e5, k);
                        }
                        if let Ok((_, e6)) = block_at(s, e5) {
                            if e6 <= k {
                                lemma_cut_block(s, e6, k);
                            }
                            if let Ok((_, e7)) = block_at(s, e6) {
                                lemma_header_tail_end_goes_on(s, e7);
                                if e7 <= k {
                                    lemma_cut_header_tail_end(s, e7, k);
                                }
                            }
                        }
                    }
                }
            }
        }
    }
}

/// The offset of the body of a replay that was cut short inside its header
/// is not found: the input ends inside the header.
pub proof fn lemma_truncated_offset(s: Seq<u8>, k: int)
    requires
        offset_of(s) is Ok,
        0 <= k < offset_of(s)->Ok_0,
        k <= s.len(),
    ensures
        offset_of(s.take(k)) == Err::<int, Failure>(Failure::UnexpectedEof),
{
    lemma_cut_header_end(s, 0, k);
}

/// From any point of a body on: where the ticks of the whole are counted,
/// those of the first `k` bytes are not, unless a command starts at `k`.
pub proof fn lemma_truncated_ticks_from(s: Seq<u8>, pos: int, total: u32, k: int)
    requires
        0 <= pos <= k < s.len(),
        !command_starts_at(s, pos, k),
        ticks_from(s, pos, total) is Ok,
    ensures
        ticks_from(s.take(k), pos, total) == Err::<u32, Failure>(Failure::UnexpectedEof),
    decreases s.len() - pos,
{
    lemma_frame_advances(s, pos);
    lemma_cut_frame(s, pos, k);
    let (frame, next) = frame_at(s, pos)->Ok_0;
    if next <= k {
        if frame.0 == ADVANCE {
            let ticks = advance_of(frame.1)->Ok_0;
            lemma_truncated_ticks_from(s, next, (total + ticks) as u32, k);
        } else {
            lemma_truncated_ticks_from(s, next, total, k);
        }
    }
}

/// The ticks of a body that was cut short inside a command are not
/// counted: the input ends inside the command. This is stated of a body
/// whose ticks are counted as a whole, and of every cut but those at which a
/// command starts.
pub proof fn lemma_truncated_ticks(s: Seq<u8>, k: int)
    requires
        ticks_of(s) is Ok,
        0 <= k < s.len(),
        !command_starts_at(s, 0, k),
    ensures
        ticks_of(s.take(k)) == Err::<u32, Failure>(Failure::UnexpectedEof),
{
    lemma_truncated_ticks_from(s, 0, 0, k);
}

/// Whether `long` begins with `short`.
pub open spec fn begins_with(long: Seq<u8>, short: Seq<u8>) -> bool {
    short.len() <= long.len() && long.take(short.len() as int) == short
}

/// How decoding an item on a longer input relates to decoding it on the
/// input's beginning, where that succeeds: it gives the same.
pub open spec fn goes_on<T>(short: Decoded<T>, long: Decoded<T>) -> bool {
    short is Ok ==> long == short
}

/// An input that begins with another holds the other's bytes.
pub proof fn lemma_begins_with(long: Seq<u8>, short: Seq<u8>)
    requires
        begins_with(long, short),
    ensures
        forall|i: int| 0 <= i < short.len() ==> long[i] == short[i],
{
    assert forall|i: int| 0 <= i < short.len() implies long[i] == short[i] by {
        assert(long.take(short.len() as int)[i] == long[i]);
    }
}

/// Bytes and fixed-width items on a longer input.
pub proof fn lemma_on_fixed(short: Seq<u8>, long: Seq<u8>, pos: int, n: int)
    requires
        begins_with(long, short),
    ensures
        goes_on(bytes_at(short, pos, n), bytes_at(long, pos, n)),
        goes_on(u8_at(short, pos), u8_at(long, pos)),
        goes_on(u32_at(short, pos), u32_at(long, pos)),
        goes_on(separator_at(short, pos), separator_at(long, pos)),
{
    lemma_begins_with(long, short);
    if bytes_at(short, pos, n) is Ok {
        assert(long.subrange(pos, pos + n) =~= short.subrange(pos, pos + n));
    }
}

/// A zero-terminated item on a longer input.
pub proof fn lemma_on_cstring(short: Seq<u8>, long: Seq<u8>, pos: int)
    requires
        begins_with(long, short),
    ensures
        goes_on(cstring_at(short, pos), cstring_at(long, pos)),
{
    lemma_begins_with(long, short);
    if cstring_at(short, pos) is Ok {
        lemma_zero_from(short, pos);
        let z = zero_from(short, pos);
        lemma_zero_from_is(long, pos, z);
        assert(long.subrange(pos, z) =~= short.subrange(pos, z));
    }
}

/// A block on a longer input.
pub proof fn lemma_on_block(short: Seq<u8>, long: Seq<u8>, pos: int)
    requires
        begins_with(long, short),
    ensures
        goes_on(block_at(short, pos), block_at(long, pos)),
{
    lemma_on_fixed(short, long, pos, 0);
    if let Ok((n, e1)) = u32_at(short, pos) {
        lemma_on_fixed(short, long, e1, n as int);
    }
}

/// Stepping over players on a longer input.
pub proof fn lemma_on_players_end(short: Seq<u8>, long: Seq<u8>, pos: int, n: nat)
    requires
        begins_with(long, short),
    ensures
        goes_on(players_end_at(short, pos, n), players_end_at(long, pos, n)),
    decreases n,
{
    if n > 0 {
        lemma_on_cstring(short, long, pos);
        if let Ok((_, e1)) = cstring_at(short, pos) {
            lemma_on_fixed(short, long, e1, 0);
            if let Ok((_, e2)) = u32_at(short, e1) {
                lemma_on_players_end(short, long, e2, (n - 1) as nat);
            }
        }
    }
}

/// Stepping over armies on a longer input.
pub proof fn lemma_on_armies_end(short: Seq<u8>, long: Seq<u8>, pos: int, n: nat)
    requires
        begins_with(long, short),
    ensures
        goes_on(armies_end_at(short, pos, n), armies_end_at(long, pos, n)),
    decreases n,
{
    if n > 0 {
        lemma_on_block(short, long, pos);
        if let Ok((_, e1)) = block_at(short, pos) {
            lemma_on_fixed(short, long, e1, 0);
            if let Ok((_, e2)) = u8_at(short, e1) {
                lemma_on_armies_end(short, long, e2, (n - 1) as nat);
            }
        }
    }
}

/// Stepping over the players, the armies and the seed on a longer input.
pub proof fn lemma_on_header_tail_end(short: Seq<u8>, long: Seq<u8>, pos: int)
    requires
        begins_with(long, short),
    ensures
        goes_on(header_tail_end_at(short, pos), header_tail_end_at(long, pos)),
{
    lemma_on_fixed(short, long, pos, 0);
    if let Ok((players, e1)) = u8_at(short, pos) {
        lemma_on_players_end(short, long, e1, players as nat);
        if let Ok((_, e2)) = players_end_at(short, e1, players as nat) {
            lemma_on_fixed(short, long, e2, 0);
            if let Ok((_, e3)) = u8_at(short, e2) {
                lemma_on_fixed(short, long, e3, 0);
                if let Ok((armies, e4)) = u8_at(short, e3) {
                    lemma_on_armies_end(short, long, e4, armies as nat);
                    if let Ok((_, e5)) = armies_end_at(short, e4, armies as nat) {
                        lemma_on_fixed(short, long, e5, 0);
                    }
                }
            }
        }
    }
}

/// Stepping over a header on a longer input.
pub proof fn lemma_on_header_end(short: Seq<u8>, long: Seq<u8>, pos: int)
    requires
        begins_with(long, short),
    ensures
        goes_on(header_end_at(short, pos), header_end_at(long, pos)),
{
    lemma_on_cstring(short, long, pos);
    if let Ok((_, e1)) = cstring_at(short, pos) {
        lemma_on_cstring(short, long, e1);
        if let Ok((_, e2)) = cstring_at(short, e1) {
            lemma_on_fixed(short, long, e2, 0);
            if let Ok((_, e3)) = separator_at(short, e2) {
                lemma_on_cstring(short, long, e3);
                if let Ok((_, e4)) = cstring_at(short, e3) {
                    lemma_on_cstring(short, long, e4);
                    if let Ok((_, e5)) = cstring_at(short, e4) {
                        lemma_on_block(short, long, e5);
                        if let Ok((_, e6)) = block_at(short, e5) {
                            lemma_on_block(short, long, e6);
                            if let Ok((_, e7)) = block_at(short, e6) {
                                lemma_on_header_tail_end(short, long, e7);
                            }
                        }
                    }
                }
            }
        }
    }
}

/// What follows a complete header has no part in the offset of the body:
/// where the offset is found in an input, it is the same in every input
/// that begins with that one.
pub proof fn lemma_offset_ignores_rest(s: Seq<u8>, rest: Seq<u8>)
    ensures
        offset_of(s) matches Ok(end) ==> offset_of(s + rest) == Ok::<int, Failure>(end),
{
    assert((s + rest).take(s.len() as int) =~= s);
    lemma_on_header_end(s, s + rest, 0);
}

} // verus!
