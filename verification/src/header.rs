//! The header of a replay: versions, map, mods, scenario, players, armies
//! and seed, in this order.

use vstd::prelude::*;
use crate::error::{Failure, Malformation, ReplayReadError};
use crate::lua::{lua_at, read_lua_object, LuaObject, LuaValue};
use crate::reader::{
    block_at, bool_at, cstring_at, i8_at, text_at, u32_at, u8_at, yields, Decoded, Reader,
};
use crate::replay::{
    armies_value, players_value, Army, ArmyValue, HeaderValue, Player, PlayerValue, ReplayHeader,
};

verus! {

/// The byte that stands before the replay version.
pub const SEPARATOR: u8 = 0x0D;

/// The embedded value that a block holds at its start. What follows the
/// value in the block is ignored.
pub open spec fn lua_of(block: Seq<u8>) -> Result<LuaValue, Failure> {
    match lua_at(block, 0) {
        Err(e) => Err(e),
        Ok((value, _)) => Ok(value),
    }
}

/// The embedded value in the block at `pos`.
pub open spec fn lua_block_at(s: Seq<u8>, pos: int) -> Decoded<LuaValue> {
    match block_at(s, pos) {
        Err(e) => Err(e),
        Ok((block, next)) => match lua_of(block) {
            Err(e) => Err(e),
            Ok(value) => Ok((value, next)),
        },
    }
}

/// The separator at `pos`.
pub open spec fn separator_at(s: Seq<u8>, pos: int) -> Decoded<()> {
    match u8_at(s, pos) {
        Err(e) => Err(e),
        Ok((b, next)) => if b == SEPARATOR {
            Ok(((), next))
        } else {
            Err(Failure::Malformed(Malformation::MissingSeparator))
        },
    }
}

/// The player at `pos`: a zero-terminated name and a `u32` id.
pub open spec fn player_at(s: Seq<u8>, pos: int) -> Decoded<PlayerValue> {
    match text_at(s, pos) {
        Err(e) => Err(e),
        Ok((name, e1)) => match u32_at(s, e1) {
            Err(e) => Err(e),
            Ok((id, e2)) => Ok((PlayerValue { name, id }, e2)),
        },
    }
}

/// The `n` players at `pos`, behind those of `acc`.
pub open spec fn players_at(s: Seq<u8>, pos: int, n: nat, acc: Seq<PlayerValue>) -> Decoded<
    Seq<PlayerValue>,
>
    decreases n,
{
    if n == 0 {
        Ok((acc, pos))
    } else {
        match player_at(s, pos) {
            Err(e) => Err(e),
            Ok((player, next)) => players_at(s, next, (n - 1) as nat, acc.push(player)),
        }
    }
}

/// The player that commands an army, from the byte that names it: -1 says
/// that none does.
pub open spec fn source_of(b: i8) -> Option<i8> {
    if b == -1 {
        None
    } else {
        Some(b)
    }
}

/// The army at `pos`: a block with its description, and an `i8` for its
/// player.
pub open spec fn army_at(s: Seq<u8>, pos: int) -> Decoded<ArmyValue> {
    match lua_block_at(s, pos) {
        Err(e) => Err(e),
        Ok((data, e1)) => match i8_at(s, e1) {
            Err(e) => Err(e),
            Ok((b, e2)) => Ok((ArmyValue { data, source: source_of(b) }, e2)),
        },
    }
}

/// The `n` armies at `pos`, behind those of `acc`.
pub open spec fn armies_at(s: Seq<u8>, pos: int, n: nat, acc: Seq<ArmyValue>) -> Decoded<
    Seq<ArmyValue>,
>
    decreases n,
{
    if n == 0 {
        Ok((acc, pos))
    } else {
        match army_at(s, pos) {
            Err(e) => Err(e),
            Ok((army, next)) => armies_at(s, next, (n - 1) as nat, acc.push(army)),
        }
    }
}

/// The three texts at the start of a header: the game's version, a field
/// that is skipped, the separator, the replay's version and the map.
pub open spec fn titles_at(s: Seq<u8>, pos: int) -> Decoded<(Seq<char>, Seq<char>, Seq<char>)> {
    match text_at(s, pos) {
        Err(e) => Err(e),
        Ok((scfa_version, e1)) => match cstring_at(s, e1) {
            Err(e) => Err(e),
            Ok((_, e2)) => match separator_at(s, e2) {
                Err(e) => Err(e),
                Ok((_, e3)) => match text_at(s, e3) {
                    Err(e) => Err(e),
                    Ok((replay_version, e4)) => match text_at(s, e4) {
                        Err(e) => Err(e),
                        Ok((map_file, e5)) => Ok(((scfa_version, replay_version, map_file), e5)),
                    },
                },
            },
        }
    }
}

/// The list of players at `pos`: a count byte, then the players.
pub open spec fn player_list_at(s: Seq<u8>, pos: int) -> Decoded<Seq<PlayerValue>> {
    match u8_at(s, pos) {
        Err(e) => Err(e),
        Ok((n, e1)) => players_at(s, e1, n as nat, Seq::empty()),
    }
}

/// The list of armies at `pos`: a count byte, then the armies.
pub open spec fn army_list_at(s: Seq<u8>, pos: int) -> Decoded<(u8, Seq<ArmyValue>)> {
    match u8_at(s, pos) {
        Err(e) => Err(e),
        Ok((n, e1)) => match armies_at(s, e1, n as nat, Seq::empty()) {
            Err(e) => Err(e),
            Ok((armies, e2)) => Ok(((n, armies), e2)),
        },
    }
}

/// The header at `pos`.
pub open spec fn header_at(s: Seq<u8>, pos: int) -> Decoded<HeaderValue> {
    match titles_at(s, pos) {
        Err(e) => Err(e),
        Ok((titles, e1)) => match lua_block_at(s, e1) {
            Err(e) => Err(e),
            Ok((mods, e2)) => match lua_block_at(s, e2) {
                Err(e) => Err(e),
                Ok((scenario, e3)) => match player_list_at(s, e3) {
                    Err(e) => Err(e),
                    Ok((players, e4)) => match bool_at(s, e4) {
                        Err(e) => Err(e),
                        Ok((cheats_enabled, e5)) => match army_list_at(s, e5) {
                            Err(e) => Err(e),
                            Ok((armies, e6)) => match u32_at(s, e6) {
                                Err(e) => Err(e),
                                Ok((seed, e7)) => Ok(
                                    (
                                        HeaderValue {
                                            scfa_version: titles.0,
                                            replay_version: titles.1,
                                            map_file: titles.2,
                                            mods,
                                            scenario,
                                            players,
                                            cheats_enabled,
                                            army_count: armies.0,
                                            armies: armies.1,
                                            seed,
                                        },
                                        e7,
                                    ),
                                ),
                            },
                        },
                    },
                },
            },
        },
    }
}

/// The header that `s` starts with.
pub open spec fn header_of(s: Seq<u8>) -> Result<HeaderValue, Failure> {
    match header_at(s, 0) {
        Err(e) => Err(e),
        Ok((header, _)) => Ok(header),
    }
}

/// Decodes the embedded value at the start of `block`.
pub fn decode_lua(block: &[u8]) -> (res: Result<LuaObject, ReplayReadError>)
    ensures
        match lua_of(block@) {
            Ok(value) => res is Ok && res->Ok_0@ == value,
            Err(e) => res is Err && res->Err_0@ == e,
        },
{
    let mut r = Reader::new(block);
    read_lua_object(&mut r)
}

/// Reads a block and decodes the embedded value at its start.
pub fn read_lua_block(r: &mut Reader) -> (res: Result<LuaObject, ReplayReadError>)
    ensures
        final(r).input() == old(r).input(),
        yields(
            res,
            final(r).offset(),
            lua_block_at(old(r).input(), old(r).offset()),
            old(r).offset(),
        ),
{
    let mut probe = *r;
    let block = probe.take_block()?;
    let value = decode_lua(block)?;
    *r = probe;
    Ok(value)
}

/// Reads the separator.
fn read_separator(r: &mut Reader) -> (res: Result<(), ReplayReadError>)
    ensures
        final(r).input() == old(r).input(),
        yields(
            res,
            final(r).offset(),
            separator_at(old(r).input(), old(r).offset()),
            old(r).offset(),
        ),
{
    let mut probe = *r;
    let b = probe.read_u8()?;
    if b != SEPARATOR {
        return Err(ReplayReadError::Malformed(Malformation::MissingSeparator));
    }
    *r = probe;
    Ok(())
}

/// Reads the texts at the start of a header.
fn read_titles(r: &mut Reader) -> (res: Result<(String, String, String), ReplayReadError>)
    ensures
        final(r).input() == old(r).input(),
        yields(res, final(r).offset(), titles_at(old(r).input(), old(r).offset()), old(r).offset()),
{
    let mut probe = *r;
    let scfa_version = probe.read_cstring()?;
    let _ = probe.take_cstring()?;
    read_separator(&mut probe)?;
    let replay_version = probe.read_cstring()?;
    let map_file = probe.read_cstring()?;
    *r = probe;
    Ok((scfa_version, replay_version, map_file))
}

/// Reads one player.
fn read_player(r: &mut Reader) -> (res: Result<Player, ReplayReadError>)
    ensures
        final(r).input() == old(r).input(),
        yields(res, final(r).offset(), player_at(old(r).input(), old(r).offset()), old(r).offset()),
{
    let mut probe = *r;
    let name = probe.read_cstring()?;
    let id = probe.read_u32()?;
    *r = probe;
    Ok(Player { name, id })
}

/// Reads one army.
fn read_army(r: &mut Reader) -> (res: Result<Army, ReplayReadError>)
    ensures
        final(r).input() == old(r).input(),
        yields(res, final(r).offset(), army_at(old(r).input(), old(r).offset()), old(r).offset()),
{
    let mut probe = *r;
    let data = read_lua_block(&mut probe)?;
    let b = probe.read_i8()?;
    let source = if b == -1 {
        None
    } else {
        Some(b)
    };
    *r = probe;
    Ok(Army { data, source })
}

/// Reads the list of players.
fn read_player_list(r: &mut Reader) -> (res: Result<Vec<Player>, ReplayReadError>)
    ensures
        final(r).input() == old(r).input(),
        match player_list_at(old(r).input(), old(r).offset()) {
            Ok((players, next)) => {
                &&& res is Ok
                &&& players_value(res->Ok_0@) == players
                &&& final(r).offset() == next
            },
            Err(e) => res is Err && res->Err_0@ == e && final(r).offset() == old(r).offset(),
        },
{
    let ghost s = r.input();
    let ghost start = r.offset();
    let mut probe = *r;
    let n = probe.read_u8()?;
    let mut players: Vec<Player> = Vec::new();
    let mut i: u8 = 0;
    assert(players_value(players@) =~= Seq::empty());
    while i < n
        invariant
            probe.input() == s,
            r.input() == s,
            r.offset() == start,
            old(r).input() == s,
            old(r).offset() == start,
            i <= n,
            player_list_at(s, start) == players_at(
                s,
                probe.offset(),
                (n - i) as nat,
                players_value(players@),
            ),
        decreases n - i,
    {
        let player = read_player(&mut probe)?;
        let ghost before = players@;
        players.push(player);
        assert(players_value(players@) =~= players_value(before).push(player@));
        i = i + 1;
    }
    *r = probe;
    Ok(players)
}

/// Reads the list of armies with its count.
fn read_army_list(r: &mut Reader) -> (res: Result<(u8, Vec<Army>), ReplayReadError>)
    ensures
        final(r).input() == old(r).input(),
        match army_list_at(old(r).input(), old(r).offset()) {
            Ok((armies, next)) => {
                &&& res is Ok
                &&& res->Ok_0.0 == armies.0
                &&& armies_value(res->Ok_0.1@) == armies.1
                &&& res->Ok_0.1@.len() == armies.0
                &&& final(r).offset() == next
            },
            Err(e) => res is Err && res->Err_0@ == e && final(r).offset() == old(r).offset(),
        },
{
    let ghost s = r.input();
    let ghost start = r.offset();
    let mut probe = *r;
    let n = probe.read_u8()?;
    let ghost first = probe.offset();
    let mut armies: Vec<Army> = Vec::new();
    let mut i: u8 = 0;
    assert(armies_value(armies@) =~= Seq::empty());
    while i < n
        invariant
            probe.input() == s,
            r.input() == s,
            r.offset() == start,
            old(r).input() == s,
            old(r).offset() == start,
            i <= n,
            armies@.len() == i,
            u8_at(s, start) == Ok::<(u8, int), Failure>((n, first)),
            armies_at(s, first, n as nat, Seq::empty()) == armies_at(
                s,
                probe.offset(),
                (n - i) as nat,
                armies_value(armies@),
            ),
        decreases n - i,
    {
        let army = read_army(&mut probe)?;
        let ghost before = armies@;
        armies.push(army);
        assert(armies_value(armies@) =~= armies_value(before).push(army@));
        i = i + 1;
    }
    *r = probe;
    Ok((n, armies))
}

/// Decodes the header at the cursor. There are as many armies as the count
/// says.
pub fn read_header(r: &mut Reader) -> (res: Result<ReplayHeader, ReplayReadError>)
    ensures
        final(r).input() == old(r).input(),
        yields(res, final(r).offset(), header_at(old(r).input(), old(r).offset()), old(r).offset()),
        res is Ok ==> res->Ok_0@.wf(),
{
    let mut probe = *r;
    let titles = read_titles(&mut probe)?;
    let mods = read_lua_block(&mut probe)?;
    let scenario = read_lua_block(&mut probe)?;
    let players = read_player_list(&mut probe)?;
    let cheats_enabled = probe.read_bool()?;
    let armies = read_army_list(&mut probe)?;
    let seed = probe.read_u32()?;
    *r = probe;
    Ok(
        ReplayHeader {
            scfa_version: titles.0,
            replay_version: titles.1,
            map_file: titles.2,
            mods,
            scenario,
            players,
            cheats_enabled,
            army_count: armies.0,
            armies: armies.1,
            seed,
        },
    )
}

/// Where the body starts behind a header at `pos`: the header's fields are
/// stepped over, and nothing in them is decoded but the counts and sizes.
pub open spec fn header_end_at(s: Seq<u8>, pos: int) -> Decoded<()> {
    match cstring_at(s, pos) {
        Err(e) => Err(e),
        Ok((_, e1)) => match cstring_at(s, e1) {
            Err(e) => Err(e),
            Ok((_, e2)) => match separator_at(s, e2) {
                Err(e) => Err(e),
                Ok((_, e3)) => match cstring_at(s, e3) {
                    Err(e) => Err(e),
                    Ok((_, e4)) => match cstring_at(s, e4) {
                        Err(e) => Err(e),
                        Ok((_, e5)) => match block_at(s, e5) {
                            Err(e) => Err(e),
                            Ok((_, e6)) => match block_at(s, e6) {
                                Err(e) => Err(e),
                                Ok((_, e7)) => header_tail_end_at(s, e7),
                            },
                        },
                    },
                },
            },
        },
    }
}

/// Where the body starts behind the players, the armies and the seed at
/// `pos`.
pub open spec fn header_tail_end_at(s: Seq<u8>, pos: int) -> Decoded<()> {
    match u8_at(s, pos) {
        Err(e) => Err(e),
        Ok((players, e1)) => match players_end_at(s, e1, players as nat) {
            Err(e) => Err(e),
            Ok((_, e2)) => match u8_at(s, e2) {
                Err(e) => Err(e),
                Ok((_, e3)) => match u8_at(s, e3) {
                    Err(e) => Err(e),
                    Ok((armies, e4)) => match armies_end_at(s, e4, armies as nat) {
                        Err(e) => Err(e),
                        Ok((_, e5)) => match u32_at(s, e5) {
                            Err(e) => Err(e),
                            Ok((_, e6)) => Ok(((), e6)),
                        },
                    },
                },
            },
        },
    }
}

/// The position behind `n` players at `pos`.
pub open spec fn players_end_at(s: Seq<u8>, pos: int, n: nat) -> Decoded<()>
    decreases n,
{
    if n == 0 {
        Ok(((), pos))
    } else {
        match cstring_at(s, pos) {
            Err(e) => Err(e),
            Ok((_, e1)) => match u32_at(s, e1) {
                Err(e) => Err(e),
                Ok((_, e2)) => players_end_at(s, e2, (n - 1) as nat),
            },
        }
    }
}

/// The position behind `n` armies at `pos`.
pub open spec fn armies_end_at(s: Seq<u8>, pos: int, n: nat) -> Decoded<()>
    decreases n,
{
    if n == 0 {
        Ok(((), pos))
    } else {
        match block_at(s, pos) {
            Err(e) => Err(e),
            Ok((_, e1)) => match u8_at(s, e1) {
                Err(e) => Err(e),
                Ok((_, e2)) => armies_end_at(s, e2, (n - 1) as nat),
            },
        }
    }
}

/// The number of bytes that the header of `s` takes up.
pub open spec fn offset_of(s: Seq<u8>) -> Result<int, Failure> {
    match header_end_at(s, 0) {
        Err(e) => Err(e),
        Ok((_, end)) => Ok(end),
    }
}

/// Steps over `n` players.
fn skip_players(r: &mut Reader, n: u8) -> (res: Result<(), ReplayReadError>)
    ensures
        final(r).input() == old(r).input(),
        yields(
            res,
            final(r).offset(),
            players_end_at(old(r).input(), old(r).offset(), n as nat),
            old(r).offset(),
        ),
{
    let ghost s = r.input();
    let ghost start = r.offset();
    let mut probe = *r;
    let mut i: u8 = 0;
    while i < n
        invariant
            probe.input() == s,
            r.input() == s,
            r.offset() == start,
            old(r).input() == s,
            old(r).offset() == start,
            i <= n,
            players_end_at(s, start, n as nat) == players_end_at(
                s,
                probe.offset(),
                (n - i) as nat,
            ),
        decreases n - i,
    {
        let _ = probe.take_cstring()?;
        probe.skip(4)?;
        i = i + 1;
    }
    *r = probe;
    Ok(())
}

/// Steps over `n` armies.
fn skip_armies(r: &mut Reader, n: u8) -> (res: Result<(), ReplayReadError>)
    ensures
        final(r).input() == old(r).input(),
        yields(
            res,
            final(r).offset(),
            armies_end_at(old(r).input(), old(r).offset(), n as nat),
            old(r).offset(),
        ),
{
    let ghost s = r.input();
    let ghost start = r.offset();
    let mut probe = *r;
    let mut i: u8 = 0;
    while i < n
        invariant
            probe.input() == s,
            r.input() == s,
            r.offset() == start,
            old(r).input() == s,
            old(r).offset() == start,
            i <= n,
            armies_end_at(s, start, n as nat) == armies_end_at(s, probe.offset(), (n - i) as nat),
        decreases n - i,
    {
        let _ = probe.take_block()?;
        probe.skip(1)?;
        i = i + 1;
    }
    *r = probe;
    Ok(())
}

/// Steps over the players, the armies and the seed.
fn skip_header_tail(r: &mut Reader) -> (res: Result<(), ReplayReadError>)
    ensures
        final(r).input() == old(r).input(),
        yields(
            res,
            final(r).offset(),
            header_tail_end_at(old(r).input(), old(r).offset()),
            old(r).offset(),
        ),
{
    let mut probe = *r;
    let players = probe.read_u8()?;
    skip_players(&mut probe, players)?;
    probe.skip(1)?;
    let armies = probe.read_u8()?;
    skip_armies(&mut probe, armies)?;
    probe.skip(4)?;
    *r = probe;
    Ok(())
}

/// Finds where the body of the replay `data` starts, without decoding the
/// header's values.
pub fn body_offset(data: &[u8]) -> (res: Result<usize, ReplayReadError>)
    ensures
        match offset_of(data@) {
            Ok(end) => res is Ok && res->Ok_0 == end && end <= data@.len(),
            Err(e) => res is Err && res->Err_0@ == e,
        },
{
    let mut r = Reader::new(data);
    let _ = r.take_cstring()?;
    let _ = r.take_cstring()?;
    read_separator(&mut r)?;
    let _ = r.take_cstring()?;
    let _ = r.take_cstring()?;
    let _ = r.take_block()?;
    let _ = r.take_block()?;
    skip_header_tail(&mut r)?;
    Ok(r.position())
}

} // verus!
