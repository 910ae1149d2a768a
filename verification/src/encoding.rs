//! The wire format stated from the values to the bytes, and the proof that
//! decoding gives the values back.

use vstd::prelude::*;
use vstd::utf8::encode_utf8;
use crate::body::{body_from, body_of, initial_sim, sim_after, Options};
use crate::command::{
    command_at, command_of, create_prop_at, create_unit_at, debug_command_at, formation_at,
    frame_at, game_command_at, i32_pair_at, ids_at, lemma_frame_advances, lua_sim_callback_at,
    order_tail_at, payload_at, position_at, process_info_pair_at, remove_from_queue_at,
    set_command_cells_at, set_command_target_at, target_at, verify_checksum_at, warp_entity_at,
    words_at, TARGET_ENTITY, TARGET_NONE, TARGET_POSITION,
};
use crate::constants::MAX;
use crate::error::Failure;
use crate::header::{
    armies_at, army_at, army_list_at, header_at, lua_block_at, player_at, player_list_at,
    players_at, separator_at, titles_at, SEPARATOR,
};
use crate::laws::{keeps_all, lemma_fold_ticks, limited, sim_fold, tick_sum};
use crate::lua::{
    distinct_keys, entries_at, lemma_find_key_is, table_put, value_at, LuaValue, MAX_TABLE_DEPTH,
    TAG_BOOL, TAG_BYTE_STRING, TAG_END, TAG_FLOAT, TAG_NIL, TAG_TABLE, TAG_TEXT,
};
use crate::parser::replay_of;
use crate::reader::{
    block_at, bool_at, bytes_at, cstring_at, float_at, i32_at, i8_at, le32, lemma_zero_from_is,
    text_at, u16_at, u32_at, u8_at, FloatBits,
};
use crate::replay::{
    ArmyValue, BodyValue, CommandValue, Formation, GameCommandValue, HeaderValue, PlayerValue,
    Position, ReplayValue, SimValue, Target,
};

verus! {

/// Whether `bytes` stand in `s` at `pos`.
pub open spec fn holds(s: Seq<u8>, pos: int, bytes: Seq<u8>) -> bool {
    0 <= pos && pos + bytes.len() <= s.len() && s.subrange(pos, pos + bytes.len()) == bytes
}

/// Where two lists of bytes stand one behind the other, each of them stands
/// at its place.
pub proof fn lemma_holds_split(s: Seq<u8>, pos: int, a: Seq<u8>, b: Seq<u8>)
    requires
        holds(s, pos, a + b),
    ensures
        holds(s, pos, a),
        holds(s, pos + a.len(), b),
{
    let whole = s.subrange(pos, pos + (a + b).len());
    assert(s.subrange(pos, pos + a.len()) =~= whole.subrange(0, a.len() as int));
    assert((a + b).subrange(0, a.len() as int) =~= a);
    assert(s.subrange(pos + a.len(), pos + a.len() + b.len()) =~= whole.subrange(
        a.len() as int,
        (a + b).len() as int,
    ));
    assert((a + b).subrange(a.len() as int, (a + b).len() as int) =~= b);
}

/// The bytes of a `u16`, low byte first.
#[verifier::opaque]
pub open spec fn enc_u16(v: u16) -> Seq<u8> {
    seq![(v % 256) as u8, (v / 256) as u8]
}

/// The bytes of a `u32`, low byte first.
#[verifier::opaque]
pub open spec fn enc_u32(v: u32) -> Seq<u8> {
    seq![
        (v % 256) as u8,
        (v / 256 % 256) as u8,
        (v / 256 / 256 % 256) as u8,
        (v / 256 / 256 / 256) as u8,
    ]
}

/// The byte whose two's complement reading is `v`.
pub open spec fn unsigned8(v: i8) -> u8 {
    if v >= 0 {
        v as u8
    } else {
        (v + 256) as u8
    }
}

/// The 32 bits whose two's complement reading is `v`.
pub open spec fn unsigned32(v: i32) -> u32 {
    if v >= 0 {
        v as u32
    } else {
        (v + 4294967296) as u32
    }
}

/// The bytes of an `i32`.
pub open spec fn enc_i32(v: i32) -> Seq<u8> {
    enc_u32(unsigned32(v))
}

/// The bytes of a float.
pub open spec fn enc_float(v: FloatBits) -> Seq<u8> {
    enc_u32(v.bits)
}

/// The byte of a boolean.
pub open spec fn enc_bool(v: bool) -> Seq<u8> {
    seq![if v { 1u8 } else { 0u8 }]
}

/// The bytes of a zero-terminated byte string.
pub open spec fn enc_cstring(bytes: Seq<u8>) -> Seq<u8> {
    bytes + seq![0u8]
}

/// The bytes of a zero-terminated text.
pub open spec fn enc_text(text: Seq<char>) -> Seq<u8> {
    enc_cstring(encode_utf8(text))
}

/// The bytes of a block.
pub open spec fn enc_block(content: Seq<u8>) -> Seq<u8> {
    enc_u32(content.len() as u32) + content
}

/// Whether a byte string can stand before a terminating zero: it holds no
/// zero byte itself.
pub open spec fn zero_free(bytes: Seq<u8>) -> bool {
    forall|i: int| 0 <= i < bytes.len() ==> bytes[i] != 0
}

/// Whether a text can be zero-terminated: its encoding holds no zero byte.
pub open spec fn plain_text(text: Seq<char>) -> bool {
    zero_free(encode_utf8(text))
}

/// A byte is decoded where it stands.
pub proof fn lemma_round_u8(s: Seq<u8>, pos: int, v: u8)
    requires
        holds(s, pos, seq![v]),
    ensures
        u8_at(s, pos) == Ok::<(u8, int), Failure>((v, pos + 1)),
{
    assert(s.subrange(pos, pos + 1)[0] == v);
}

/// An `i8` is decoded where its byte stands.
pub proof fn lemma_round_i8(s: Seq<u8>, pos: int, v: i8)
    requires
        holds(s, pos, seq![unsigned8(v)]),
    ensures
        i8_at(s, pos) == Ok::<(i8, int), Failure>((v, pos + 1)),
{
    lemma_round_u8(s, pos, unsigned8(v));
}

/// A boolean is decoded where its byte stands.
pub proof fn lemma_round_bool(s: Seq<u8>, pos: int, v: bool)
    requires
        holds(s, pos, enc_bool(v)),
    ensures
        bool_at(s, pos) == Ok::<(bool, int), Failure>((v, pos + 1)),
{
    lemma_round_u8(s, pos, enc_bool(v)[0]);
}

/// A `u16` is decoded where its bytes stand.
pub proof fn lemma_round_u16(s: Seq<u8>, pos: int, v: u16)
    requires
        holds(s, pos, enc_u16(v)),
    ensures
        u16_at(s, pos) == Ok::<(u16, int), Failure>((v, pos + 2)),
        enc_u16(v).len() == 2,
{
    reveal(enc_u16);
    let e = enc_u16(v);
    let w = s.subrange(pos, pos + 2);
    assert(w[0] == e[0] && w[1] == e[1]);
}

/// A `u32` is decoded where its bytes stand.
pub proof fn lemma_round_u32(s: Seq<u8>, pos: int, v: u32)
    requires
        holds(s, pos, enc_u32(v)),
    ensures
        u32_at(s, pos) == Ok::<(u32, int), Failure>((v, pos + 4)),
        enc_u32(v).len() == 4,
{
    reveal(enc_u32);
    let e = enc_u32(v);
    let w = s.subrange(pos, pos + 4);
    assert(w[0] == e[0] && w[1] == e[1] && w[2] == e[2] && w[3] == e[3]);
}

/// An `i32` is decoded where its bytes stand.
pub proof fn lemma_round_i32(s: Seq<u8>, pos: int, v: i32)
    requires
        holds(s, pos, enc_i32(v)),
    ensures
        i32_at(s, pos) == Ok::<(i32, int), Failure>((v, pos + 4)),
        enc_i32(v).len() == 4,
{
    lemma_round_u32(s, pos, unsigned32(v));
}

/// A float is decoded where its bytes stand.
pub proof fn lemma_round_float(s: Seq<u8>, pos: int, v: FloatBits)
    requires
        holds(s, pos, enc_float(v)),
    ensures
        float_at(s, pos) == Ok::<(FloatBits, int), Failure>((v, pos + 4)),
        enc_float(v).len() == 4,
{
    lemma_round_u32(s, pos, v.bits);
}

/// Bytes are decoded where they stand.
pub proof fn lemma_round_bytes(s: Seq<u8>, pos: int, bytes: Seq<u8>)
    requires
        holds(s, pos, bytes),
    ensures
        bytes_at(s, pos, bytes.len() as int) == Ok::<(Seq<u8>, int), Failure>(
            (bytes, pos + bytes.len()),
        ),
{
}

/// A zero-terminated byte string is decoded where it stands.
pub proof fn lemma_round_cstring(s: Seq<u8>, pos: int, bytes: Seq<u8>)
    requires
        holds(s, pos, enc_cstring(bytes)),
        zero_free(bytes),
    ensures
        cstring_at(s, pos) == Ok::<(Seq<u8>, int), Failure>((bytes, pos + bytes.len() + 1)),
{
    let e = enc_cstring(bytes);
    let w = s.subrange(pos, pos + e.len());
    assert forall|i: int| pos <= i < pos + bytes.len() implies s[i] != 0 by {
        assert(w[i - pos] == e[i - pos]);
        assert(e[i - pos] == bytes[i - pos]);
    }
    assert(w[bytes.len() as int] == e[bytes.len() as int]);
    lemma_zero_from_is(s, pos, pos + bytes.len());
    assert(s.subrange(pos, pos + bytes.len()) =~= bytes) by {
        assert forall|i: int| 0 <= i < bytes.len() implies s[pos + i] == bytes[i] by {
            assert(w[i] == e[i]);
        }
    }
}

/// A zero-terminated text is decoded where it stands.
pub proof fn lemma_round_text(s: Seq<u8>, pos: int, text: Seq<char>)
    requires
        holds(s, pos, enc_text(text)),
        plain_text(text),
    ensures
        text_at(s, pos) == Ok::<(Seq<char>, int), Failure>((text, pos + enc_text(text).len())),
{
    lemma_round_cstring(s, pos, encode_utf8(text));
    vstd::utf8::encode_utf8_valid_utf8(text);
    vstd::utf8::encode_utf8_decode_utf8(text);
}

/// A block is decoded where it stands.
pub proof fn lemma_round_block(s: Seq<u8>, pos: int, content: Seq<u8>)
    requires
        holds(s, pos, enc_block(content)),
        content.len() <= u32::MAX,
    ensures
        block_at(s, pos) == Ok::<(Seq<u8>, int), Failure>((content, pos + 4 + content.len())),
{
    lemma_le32_of_bytes(content.len() as u32);
    lemma_holds_split(s, pos, enc_u32(content.len() as u32), content);
    lemma_round_u32(s, pos, content.len() as u32);
    lemma_round_bytes(s, pos + 4, content);
}

/// The bytes of an embedded value: its tag, then its content; for a table
/// its entries, key before value, and the end marker.
pub open spec fn enc_value(v: LuaValue) -> Seq<u8>
    decreases v, 0int,
{
    match v {
        LuaValue::Float(f) => seq![TAG_FLOAT] + enc_float(f),
        LuaValue::ByteString(b) => seq![TAG_BYTE_STRING] + enc_cstring(b),
        LuaValue::Text(t) => seq![TAG_TEXT] + enc_text(t),
        LuaValue::Nil => seq![TAG_NIL],
        LuaValue::Bool(b) => seq![TAG_BOOL] + enc_bool(b),
        LuaValue::Table(entries) => seq![TAG_TABLE] + enc_entries(entries, 0) + seq![TAG_END],
    }
}

/// The bytes of the entries of a table from the one with index `from` on.
pub open spec fn enc_entries(entries: Seq<(LuaValue, LuaValue)>, from: int) -> Seq<u8>
    decreases entries, entries.len() - from,
{
    if from < 0 || from >= entries.len() {
        Seq::empty()
    } else {
        enc_value(entries[from].0) + enc_value(entries[from].1) + enc_entries(entries, from + 1)
    }
}

/// Whether an embedded value can be written and read back: its strings can
/// be zero-terminated, the keys of each table are pairwise different, and
/// tables stand at most `depth` deep inside one another.
pub open spec fn valid_value(v: LuaValue, depth: nat) -> bool
    decreases v,
{
    match v {
        LuaValue::ByteString(b) => zero_free(b),
        LuaValue::Text(t) => plain_text(t),
        LuaValue::Table(entries) => depth > 0 && distinct_keys(entries) && forall|i: int|
            0 <= i < entries.len() ==> valid_value(entries[i].0, (depth - 1) as nat)
                && valid_value(entries[i].1, (depth - 1) as nat),
        _ => true,
    }
}

/// An embedded value is decoded where its bytes stand.
pub proof fn lemma_round_value(s: Seq<u8>, pos: int, v: LuaValue, depth: nat)
    requires
        holds(s, pos, enc_value(v)),
        valid_value(v, depth),
    ensures
        value_at(s, pos, depth) == Ok::<(LuaValue, int), Failure>((v, pos + enc_value(v).len())),
        enc_value(v).len() > 0,
        enc_value(v)[0] != TAG_END,
    decreases v, 0int,
{
    match v {
        LuaValue::Float(f) => {
            lemma_holds_split(s, pos, seq![TAG_FLOAT], enc_float(f));
            lemma_round_u8(s, pos, TAG_FLOAT);
            lemma_round_float(s, pos + 1, f);
        },
        LuaValue::ByteString(b) => {
            lemma_holds_split(s, pos, seq![TAG_BYTE_STRING], enc_cstring(b));
            lemma_round_u8(s, pos, TAG_BYTE_STRING);
            lemma_round_cstring(s, pos + 1, b);
        },
        LuaValue::Text(t) => {
            lemma_holds_split(s, pos, seq![TAG_TEXT], enc_text(t));
            lemma_round_u8(s, pos, TAG_TEXT);
            lemma_round_text(s, pos + 1, t);
        },
        LuaValue::Nil => {
            lemma_round_u8(s, pos, TAG_NIL);
        },
        LuaValue::Bool(b) => {
            lemma_holds_split(s, pos, seq![TAG_BOOL], enc_bool(b));
            lemma_round_u8(s, pos, TAG_BOOL);
            lemma_round_bool(s, pos + 1, b);
        },
        LuaValue::Table(entries) => {
            let inner = enc_entries(entries, 0);
            lemma_holds_split(s, pos, seq![TAG_TABLE] + inner, seq![TAG_END]);
            lemma_holds_split(s, pos, seq![TAG_TABLE], inner);
            lemma_round_u8(s, pos, TAG_TABLE);
            assert(holds(s, pos + 1, inner + seq![TAG_END])) by {
                assert(s.subrange(pos + 1, pos + 1 + (inner + seq![TAG_END]).len())
                    =~= s.subrange(pos, pos + enc_value(v).len()).subrange(
                    1,
                    enc_value(v).len() as int,
                ));
                assert(enc_value(v).subrange(1, enc_value(v).len() as int) =~= inner + seq![
                    TAG_END,
                ]);
            }
            assert(entries.take(0) =~= Seq::<(LuaValue, LuaValue)>::empty());
            lemma_round_entries(s, pos + 1, entries, 0, (depth - 1) as nat);
        },
    }
}

/// The entries of a table from the one with index `from` on are decoded
/// where their bytes and the end marker stand.
pub proof fn lemma_round_entries(
    s: Seq<u8>,
    pos: int,
    entries: Seq<(LuaValue, LuaValue)>,
    from: int,
    depth: nat,
)
    requires
        0 <= from <= entries.len(),
        holds(s, pos, enc_entries(entries, from) + seq![TAG_END]),
        distinct_keys(entries),
        forall|i: int|
            0 <= i < entries.len() ==> valid_value(entries[i].0, depth) && valid_value(
                entries[i].1,
                depth,
            ),
    ensures
        entries_at(s, pos, depth, entries.take(from)) == Ok::<
            (Seq<(LuaValue, LuaValue)>, int),
            Failure,
        >((entries, pos + enc_entries(entries, from).len() + 1)),
    decreases entries, entries.len() - from,
{
    let rest = enc_entries(entries, from);
    lemma_holds_split(s, pos, rest, seq![TAG_END]);
    if from == entries.len() {
        lemma_round_u8(s, pos, TAG_END);
        assert(entries.take(from) =~= entries);
    } else {
        let key = entries[from].0;
        let value = entries[from].1;
        let ek = enc_value(key);
        let ev = enc_value(value);
        let tail = enc_entries(entries, from + 1);
        lemma_holds_split(s, pos, ek + ev, tail);
        lemma_holds_split(s, pos, ek, ev);
        lemma_round_value(s, pos, key, depth);
        lemma_round_value(s, pos + ek.len(), value, depth);
        assert(s[pos] == ek[0]) by {
            assert(s.subrange(pos, pos + ek.len())[0] == ek[0]);
        }
        let acc = entries.take(from);
        assert forall|i: int| 0 <= i < acc.len() implies acc[i].0 != key by {
            assert(acc[i] == entries[i]);
        }
        lemma_find_key_is(acc, key, 0, acc.len() as int);
        assert(table_put(acc, key, value) =~= entries.take(from + 1));
        let next = pos + ek.len() + ev.len();
        assert(holds(s, next, tail + seq![TAG_END])) by {
            let whole = rest + seq![TAG_END];
            assert(s.subrange(next, next + (tail + seq![TAG_END]).len()) =~= s.subrange(
                pos,
                pos + whole.len(),
            ).subrange((ek.len() + ev.len()) as int, whole.len() as int));
            assert(whole.subrange((ek.len() + ev.len()) as int, whole.len() as int) =~= tail
                + seq![TAG_END]);
        }
        lemma_round_entries(s, next, entries, from + 1, depth);
    }
}

/// The bytes of a position.
pub open spec fn enc_position(p: Position) -> Seq<u8> {
    enc_float(p.x) + enc_float(p.y) + enc_float(p.z)
}

/// The bytes of a target.
pub open spec fn enc_target(t: Target) -> Seq<u8> {
    match t {
        Target::NoTarget => seq![TARGET_NONE],
        Target::Entity { id } => seq![TARGET_ENTITY] + enc_u32(id),
        Target::Position(p) => seq![TARGET_POSITION] + enc_position(p),
    }
}

/// The bytes of a formation or of its absence. Where there is a formation
/// the marker before it is written as zero.
pub open spec fn enc_formation(f: Option<Formation>) -> Seq<u8> {
    match f {
        None => enc_i32(-1i32),
        Some(f) => enc_i32(0) + enc_i32(f.a) + enc_float(f.b) + enc_float(f.c) + enc_float(f.d)
            + enc_float(f.scale),
    }
}

/// The bytes of a list of `u32`, one after the other.
pub open spec fn enc_words(ids: Seq<u32>) -> Seq<u8> {
    Seq::new(4 * ids.len(), |j: int| enc_u32(ids[j / 4])[j % 4])
}

/// The bytes of a list of ids: their number, then the ids.
pub open spec fn enc_ids(ids: Seq<u32>) -> Seq<u8> {
    enc_u32(ids.len() as u32) + enc_words(ids)
}

/// The bytes of a pair of `i32`.
pub open spec fn enc_i32_pair(v: (i32, i32)) -> Seq<u8> {
    enc_i32(v.0) + enc_i32(v.1)
}

/// The bytes of the last five fields of an order.
pub open spec fn enc_order_tail(g: GameCommandValue) -> Seq<u8> {
    enc_i32(g.arg4) + enc_i32(g.arg5) + enc_i32(g.arg6) + enc_value(g.upgrades) + enc_bool(
        g.clear_queue,
    )
}

/// The bytes of an order.
pub open spec fn enc_game_command(g: GameCommandValue) -> Seq<u8> {
    enc_ids(g.entity_ids) + enc_i32(g.id) + enc_i32(g.coordinated_attack_cmd_id) + seq![g.type_]
        + seq![g.arg2] + enc_target(g.target) + enc_float(g.arg3) + enc_formation(g.formation)
        + enc_text(g.blueprint) + enc_order_tail(g)
}

/// Whether an order can be written and read back.
pub open spec fn valid_game_command(g: GameCommandValue) -> bool {
    &&& g.entity_ids.len() <= u32::MAX
    &&& plain_text(g.blueprint)
    &&& valid_value(g.upgrades, MAX_TABLE_DEPTH as nat)
}

/// The bytes of the fields of a command.
#[verifier::opaque]
pub open spec fn enc_payload(c: CommandValue) -> Seq<u8> {
    match c {
        CommandValue::Advance { ticks } => enc_u32(ticks),
        CommandValue::SetCommandSource { id } => seq![id],
        CommandValue::DestroyEntity { unit } => enc_u32(unit),
        CommandValue::IssueCommand(g) => enc_game_command(g),
        CommandValue::IssueFactoryCommand(g) => enc_game_command(g),
        CommandValue::IncreaseCommandCount { id, delta } => enc_i32_pair((id, delta)),
        CommandValue::DecreaseCommandCount { id, delta } => enc_i32_pair((id, delta)),
        CommandValue::SetCommandType { id, type_ } => enc_i32_pair((id, type_)),
        CommandValue::ExecuteLuaInSim { code } => enc_text(code),
        CommandValue::VerifyChecksum { digest, tick } => digest + enc_u32(tick),
        CommandValue::CreateUnit { army, blueprint, x, z, heading } => {
            seq![army] + enc_text(blueprint) + enc_float(x) + enc_float(z) + enc_float(heading)
        },
        CommandValue::CreateProp { blueprint, position } => {
            enc_text(blueprint) + enc_position(position)
        },
        CommandValue::WarpEntity { unit, x, y, z } => {
            enc_u32(unit) + enc_float(x) + enc_float(y) + enc_float(z)
        },
        CommandValue::ProcessInfoPair { unit, arg1, arg2 } => {
            enc_u32(unit) + enc_text(arg1) + enc_text(arg2)
        },
        CommandValue::SetCommandTarget { id, target } => enc_i32(id) + enc_target(target),
        CommandValue::SetCommandCells { id, cells, position } => {
            enc_i32(id) + enc_value(cells) + enc_position(position)
        },
        CommandValue::RemoveCommandFromQueue { id, unit } => enc_i32(id) + enc_u32(unit),
        CommandValue::DebugCommand { command, position, focus_army, selection } => {
            seq![command] + enc_position(position) + seq![focus_army] + enc_ids(selection)
        },
        CommandValue::LuaSimCallback { func, args, selection } => {
            enc_text(func) + enc_value(args) + enc_ids(selection)
        },
        _ => Seq::empty(),
    }
}

/// Whether the fields of a command can be written and read back: texts can
/// be zero-terminated, embedded values are valid, lists are not longer than
/// their count can say, and a digest has 16 bytes.
#[verifier::opaque]
pub open spec fn valid_payload(c: CommandValue) -> bool {
    match c {
        CommandValue::IssueCommand(g) => valid_game_command(g),
        CommandValue::IssueFactoryCommand(g) => valid_game_command(g),
        CommandValue::ExecuteLuaInSim { code } => plain_text(code),
        CommandValue::VerifyChecksum { digest, .. } => digest.len() == 16,
        CommandValue::CreateUnit { blueprint, .. } => plain_text(blueprint),
        CommandValue::CreateProp { blueprint, .. } => plain_text(blueprint),
        CommandValue::ProcessInfoPair { arg1, arg2, .. } => plain_text(arg1) && plain_text(arg2),
        CommandValue::SetCommandCells { cells, .. } => valid_value(cells, MAX_TABLE_DEPTH as nat),
        CommandValue::DebugCommand { selection, .. } => selection.len() <= u32::MAX,
        CommandValue::LuaSimCallback { func, args, selection } => {
            &&& plain_text(func)
            &&& valid_value(args, MAX_TABLE_DEPTH as nat)
            &&& selection.len() <= u32::MAX
        },
        _ => true,
    }
}

/// The bytes of a command: its tag, the size of the frame and the fields.
pub open spec fn enc_command(c: CommandValue) -> Seq<u8> {
    seq![c.tag()] + enc_u16((enc_payload(c).len() + 3) as u16) + enc_payload(c)
}

/// Whether a command can be written and read back: its fields can, and the
/// frame's size fits its two bytes.
pub open spec fn valid_command(c: CommandValue) -> bool {
    valid_payload(c) && enc_payload(c).len() + 3 <= u16::MAX
}

/// The little-endian value of the bytes of a `u32` is the `u32`.
pub proof fn lemma_le32_of_bytes(v: u32)
    ensures
        enc_u32(v).len() == 4,
        le32(enc_u32(v)[0], enc_u32(v)[1], enc_u32(v)[2], enc_u32(v)[3]) == v,
{
    reveal(enc_u32);
}

/// A position is decoded where its bytes stand.
pub proof fn lemma_round_position(s: Seq<u8>, pos: int, p: Position)
    requires
        holds(s, pos, enc_position(p)),
    ensures
        position_at(s, pos) == Ok::<_, Failure>((p, pos + enc_position(p).len())),
{
    let b0 = enc_float(p.x);
    let b1 = enc_float(p.y);
    let b2 = enc_float(p.z);
    lemma_holds_split(s, pos, b0 + b1, b2);
    lemma_holds_split(s, pos, b0, b1);
    lemma_round_float(s, pos, p.x);
    lemma_round_float(s, pos + b0.len(), p.y);
    lemma_round_float(s, pos + b0.len() + b1.len(), p.z);
}

/// A pair of `i32` is decoded where its bytes stand.
pub proof fn lemma_round_i32_pair(s: Seq<u8>, pos: int, v: (i32, i32))
    requires
        holds(s, pos, enc_i32_pair(v)),
    ensures
        i32_pair_at(s, pos) == Ok::<_, Failure>((v, pos + enc_i32_pair(v).len())),
{
    let b0 = enc_i32(v.0);
    let b1 = enc_i32(v.1);
    lemma_holds_split(s, pos, b0, b1);
    lemma_round_i32(s, pos, v.0);
    lemma_round_i32(s, pos + b0.len(), v.1);
}

/// A target is decoded where its bytes stand.
pub proof fn lemma_round_target(s: Seq<u8>, pos: int, t: Target)
    requires
        holds(s, pos, enc_target(t)),
    ensures
        target_at(s, pos) == Ok::<_, Failure>((t, pos + enc_target(t).len())),
{
    match t {
        Target::NoTarget => {
            lemma_round_u8(s, pos, TARGET_NONE);
        },
        Target::Entity { id } => {
            lemma_holds_split(s, pos, seq![TARGET_ENTITY], enc_u32(id));
            lemma_round_u8(s, pos, TARGET_ENTITY);
            lemma_round_u32(s, pos + 1, id);
        },
        Target::Position(p) => {
            lemma_holds_split(s, pos, seq![TARGET_POSITION], enc_position(p));
            lemma_round_u8(s, pos, TARGET_POSITION);
            lemma_round_position(s, pos + 1, p);
        },
    }
}

/// A formation, or its absence, is decoded where its bytes stand.
pub proof fn lemma_round_formation(s: Seq<u8>, pos: int, f: Option<Formation>)
    requires
        holds(s, pos, enc_formation(f)),
    ensures
        formation_at(s, pos) == Ok::<_, Failure>((f, pos + enc_formation(f).len())),
{
    match f {
        None => {
            lemma_round_i32(s, pos, -1i32);
        },
        Some(f) => {
            let b0 = enc_i32(0);
            let b1 = enc_i32(f.a);
            let b2 = enc_float(f.b);
            let b3 = enc_float(f.c);
            let b4 = enc_float(f.d);
            let b5 = enc_float(f.scale);
            lemma_holds_split(s, pos, b0 + b1 + b2 + b3 + b4, b5);
            lemma_holds_split(s, pos, b0 + b1 + b2 + b3, b4);
            lemma_holds_split(s, pos, b0 + b1 + b2, b3);
            lemma_holds_split(s, pos, b0 + b1, b2);
            lemma_holds_split(s, pos, b0, b1);
            lemma_round_i32(s, pos, 0);
            lemma_round_i32(s, pos + b0.len(), f.a);
            lemma_round_float(s, pos + b0.len() + b1.len(), f.b);
            lemma_round_float(s, pos + b0.len() + b1.len() + b2.len(), f.c);
            lemma_round_float(s, pos + b0.len() + b1.len() + b2.len() + b3.len(), f.d);
            lemma_round_float(
                s,
                pos + b0.len() + b1.len() + b2.len() + b3.len() + b4.len(),
                f.scale,
            );
        },
    }
}

/// A list of ids is decoded where its bytes stand.
pub proof fn lemma_round_ids(s: Seq<u8>, pos: int, ids: Seq<u32>)
    requires
        holds(s, pos, enc_ids(ids)),
        ids.len() <= u32::MAX,
    ensures
        ids_at(s, pos) == Ok::<_, Failure>((ids, pos + enc_ids(ids).len())),
{
    let n = ids.len() as u32;
    let words = enc_words(ids);
    lemma_le32_of_bytes(n);
    lemma_holds_split(s, pos, enc_u32(n), words);
    lemma_round_u32(s, pos, n);
    let base = pos + 4;
    let window = s.subrange(base, base + words.len());
    assert forall|i: int| 0 <= i < ids.len() implies #[trigger] words_at(s, base, n as int)[i]
        == ids[i] by {
        lemma_le32_of_bytes(ids[i]);
        assert(window[4 * i] == words[4 * i]);
        assert(window[4 * i + 1] == words[4 * i + 1]);
        assert(window[4 * i + 2] == words[4 * i + 2]);
        assert(window[4 * i + 3] == words[4 * i + 3]);
    }
    assert(words_at(s, base, n as int) =~= ids);
}

/// The last five fields of an order are decoded where their bytes stand.
pub proof fn lemma_round_order_tail(s: Seq<u8>, pos: int, g: GameCommandValue)
    requires
        holds(s, pos, enc_order_tail(g)),
        valid_value(g.upgrades, MAX_TABLE_DEPTH as nat),
    ensures
        order_tail_at(s, pos) == Ok::<_, Failure>(
            ((g.arg4, g.arg5, g.arg6, g.upgrades, g.clear_queue), pos + enc_order_tail(g).len()),
        ),
{
    let b0 = enc_i32(g.arg4);
    let b1 = enc_i32(g.arg5);
    let b2 = enc_i32(g.arg6);
    let b3 = enc_value(g.upgrades);
    let b4 = enc_bool(g.clear_queue);
    lemma_holds_split(s, pos, b0 + b1 + b2 + b3, b4);
    lemma_holds_split(s, pos, b0 + b1 + b2, b3);
    lemma_holds_split(s, pos, b0 + b1, b2);
    lemma_holds_split(s, pos, b0, b1);
    lemma_round_i32(s, pos, g.arg4);
    lemma_round_i32(s, pos + b0.len(), g.arg5);
    lemma_round_i32(s, pos + b0.len() + b1.len(), g.arg6);
    lemma_round_value(
        s,
        pos + b0.len() + b1.len() + b2.len(),
        g.upgrades,
        MAX_TABLE_DEPTH as nat,
    );
    lemma_round_bool(s, pos + b0.len() + b1.len() + b2.len() + b3.len(), g.clear_queue);
}

/// An order is decoded where its bytes stand.
#[verifier::rlimit(40)]
pub proof fn lemma_round_game_command(s: Seq<u8>, pos: int, g: GameCommandValue)
    requires
        holds(s, pos, enc_game_command(g)),
        valid_game_command(g),
    ensures
        game_command_at(s, pos) == Ok::<_, Failure>((g, pos + enc_game_command(g).len())),
{
    let b0 = enc_ids(g.entity_ids);
    let b1 = enc_i32(g.id);
    let b2 = enc_i32(g.coordinated_attack_cmd_id);
    let b3 = seq![g.type_];
    let b4 = seq![g.arg2];
    let b5 = enc_target(g.target);
    let b6 = enc_float(g.arg3);
    let b7 = enc_formation(g.formation);
    let b8 = enc_text(g.blueprint);
    let b9 = enc_order_tail(g);
    lemma_holds_split(s, pos, b0 + b1 + b2 + b3 + b4 + b5 + b6 + b7 + b8, b9);
    lemma_holds_split(s, pos, b0 + b1 + b2 + b3 + b4 + b5 + b6 + b7, b8);
    lemma_holds_split(s, pos, b0 + b1 + b2 + b3 + b4 + b5 + b6, b7);
    lemma_holds_split(s, pos, b0 + b1 + b2 + b3 + b4 + b5, b6);
    lemma_holds_split(s, pos, b0 + b1 + b2 + b3 + b4, b5);
    lemma_holds_split(s, pos, b0 + b1 + b2 + b3, b4);
    lemma_holds_split(s, pos, b0 + b1 + b2, b3);
    lemma_holds_split(s, pos, b0 + b1, b2);
    lemma_holds_split(s, pos, b0, b1);
    lemma_round_ids(s, pos, g.entity_ids);
    lemma_round_i32(s, pos + b0.len(), g.id);
    lemma_round_i32(s, pos + b0.len() + b1.len(), g.coordinated_attack_cmd_id);
    lemma_round_u8(s, pos + b0.len() + b1.len() + b2.len(), g.type_);
    lemma_round_u8(s, pos + b0.len() + b1.len() + b2.len() + b3.len(), g.arg2);
    lemma_round_target(s, pos + b0.len() + b1.len() + b2.len() + b3.len() + b4.len(), g.target);
    lemma_round_float(
        s,
        pos + b0.len() + b1.len() + b2.len() + b3.len() + b4.len() + b5.len(),
        g.arg3,
    );
    lemma_round_formation(
        s,
        pos + b0.len() + b1.len() + b2.len() + b3.len() + b4.len() + b5.len() + b6.len(),
        g.formation,
    );
    lemma_round_text(
        s,
        pos + b0.len() + b1.len() + b2.len() + b3.len() + b4.len() + b5.len() + b6.len() + b7.len(),
        g.blueprint,
    );
    lemma_round_order_tail(
        s,
        pos + b0.len() + b1.len() + b2.len() + b3.len() + b4.len() + b5.len() + b6.len()
            + b7.len() + b8.len(),
        g,
    );
}

/// A checksum command is decoded where the bytes of its fields stand.
pub proof fn lemma_round_verify_checksum(s: Seq<u8>, pos: int, c: CommandValue)
    requires
        c is VerifyChecksum,
        holds(s, pos, enc_payload(c)),
        valid_payload(c),
    ensures
        verify_checksum_at(s, pos) == Ok::<_, Failure>((c, pos + enc_payload(c).len())),
{
    reveal(enc_payload);
    reveal(valid_payload);
    if let CommandValue::VerifyChecksum { digest, tick } = c {
        let b0 = digest;
        let b1 = enc_u32(tick);
        lemma_holds_split(s, pos, b0, b1);
        lemma_round_bytes(s, pos, digest);
        lemma_round_u32(s, pos + b0.len(), tick);
    }
}

/// A command that creates a unit is decoded where the
/// bytes of its fields stand.
pub proof fn lemma_round_create_unit(s: Seq<u8>, pos: int, c: CommandValue)
    requires
        c is CreateUnit,
        holds(s, pos, enc_payload(c)),
        valid_payload(c),
    ensures
        create_unit_at(s, pos) == Ok::<_, Failure>((c, pos + enc_payload(c).len())),
{
    reveal(enc_payload);
    reveal(valid_payload);
    if let CommandValue::CreateUnit { army, blueprint, x, z, heading } = c {
        let b0 = seq![army];
        let b1 = enc_text(blueprint);
        let b2 = enc_float(x);
        let b3 = enc_float(z);
        let b4 = enc_float(heading);
        lemma_holds_split(s, pos, b0 + b1 + b2 + b3, b4);
        lemma_holds_split(s, pos, b0 + b1 + b2, b3);
        lemma_holds_split(s, pos, b0 + b1, b2);
        lemma_holds_split(s, pos, b0, b1);
        lemma_round_u8(s, pos, army);
        lemma_round_text(s, pos + b0.len(), blueprint);
        lemma_round_float(s, pos + b0.len() + b1.len(), x);
        lemma_round_float(s, pos + b0.len() + b1.len() + b2.len(), z);
        lemma_round_float(s, pos + b0.len() + b1.len() + b2.len() + b3.len(), heading);
    }
}

/// A command that creates a prop is decoded where the
/// bytes of its fields stand.
pub proof fn lemma_round_create_prop(s: Seq<u8>, pos: int, c: CommandValue)
    requires
        c is CreateProp,
        holds(s, pos, enc_payload(c)),
        valid_payload(c),
    ensures
        create_prop_at(s, pos) == Ok::<_, Failure>((c, pos + enc_payload(c).len())),
{
    reveal(enc_payload);
    reveal(valid_payload);
    if let CommandValue::CreateProp { blueprint, position } = c {
        let b0 = enc_text(blueprint);
        let b1 = enc_position(position);
        lemma_holds_split(s, pos, b0, b1);
        lemma_round_text(s, pos, blueprint);
        lemma_round_position(s, pos + b0.len(), position);
    }
}

/// A command that moves an entity at once is decoded where the
/// bytes of its fields stand.
pub proof fn lemma_round_warp_entity(s: Seq<u8>, pos: int, c: CommandValue)
    requires
        c is WarpEntity,
        holds(s, pos, enc_payload(c)),
        valid_payload(c),
    ensures
        warp_entity_at(s, pos) == Ok::<_, Failure>((c, pos + enc_payload(c).len())),
{
    reveal(enc_payload);
    reveal(valid_payload);
    if let CommandValue::WarpEntity { unit, x, y, z } = c {
        let b0 = enc_u32(unit);
        let b1 = enc_float(x);
        let b2 = enc_float(y);
        let b3 = enc_float(z);
        lemma_holds_split(s, pos, b0 + b1 + b2, b3);
        lemma_holds_split(s, pos, b0 + b1, b2);
        lemma_holds_split(s, pos, b0, b1);
        lemma_round_u32(s, pos, unit);
        lemma_round_float(s, pos + b0.len(), x);
        lemma_round_float(s, pos + b0.len() + b1.len(), y);
        lemma_round_float(s, pos + b0.len() + b1.len() + b2.len(), z);
    }
}

/// A command that hands a pair of texts to a unit is decoded where the
/// bytes of its fields stand.
pub proof fn lemma_round_process_info_pair(s: Seq<u8>, pos: int, c: CommandValue)
    requires
        c is ProcessInfoPair,
        holds(s, pos, enc_payload(c)),
        valid_payload(c),
    ensures
        process_info_pair_at(s, pos) == Ok::<_, Failure>((c, pos + enc_payload(c).len())),
{
    reveal(enc_payload);
    reveal(valid_payload);
    if let CommandValue::ProcessInfoPair { unit, arg1, arg2 } = c {
        let b0 = enc_u32(unit);
        let b1 = enc_text(arg1);
        let b2 = enc_text(arg2);
        lemma_holds_split(s, pos, b0 + b1, b2);
        lemma_holds_split(s, pos, b0, b1);
        lemma_round_u32(s, pos, unit);
        lemma_round_text(s, pos + b0.len(), arg1);
        lemma_round_text(s, pos + b0.len() + b1.len(), arg2);
    }
}

/// A command that gives an order a new target is decoded where the
/// bytes of its fields stand.
pub proof fn lemma_round_set_command_target(s: Seq<u8>, pos: int, c: CommandValue)
    requires
        c is SetCommandTarget,
        holds(s, pos, enc_payload(c)),
        valid_payload(c),
    ensures
        set_command_target_at(s, pos) == Ok::<_, Failure>((c, pos + enc_payload(c).len())),
{
    reveal(enc_payload);
    reveal(valid_payload);
    if let CommandValue::SetCommandTarget { id, target } = c {
        let b0 = enc_i32(id);
        let b1 = enc_target(target);
        lemma_holds_split(s, pos, b0, b1);
        lemma_round_i32(s, pos, id);
        lemma_round_target(s, pos + b0.len(), target);
    }
}

/// A command that gives an order new cells is decoded where the
/// bytes of its fields stand.
pub proof fn lemma_round_set_command_cells(s: Seq<u8>, pos: int, c: CommandValue)
    requires
        c is SetCommandCells,
        holds(s, pos, enc_payload(c)),
        valid_payload(c),
    ensures
        set_command_cells_at(s, pos) == Ok::<_, Failure>((c, pos + enc_payload(c).len())),
{
    reveal(enc_payload);
    reveal(valid_payload);
    if let CommandValue::SetCommandCells { id, cells, position } = c {
        let b0 = enc_i32(id);
        let b1 = enc_value(cells);
        let b2 = enc_position(position);
        lemma_holds_split(s, pos, b0 + b1, b2);
        lemma_holds_split(s, pos, b0, b1);
        lemma_round_i32(s, pos, id);
        lemma_round_value(s, pos + b0.len(), cells, MAX_TABLE_DEPTH as nat);
        lemma_round_position(s, pos + b0.len() + b1.len(), position);
    }
}

/// A command that takes an order out of a unit's queue is decoded where the
/// bytes of its fields stand.
pub proof fn lemma_round_remove_from_queue(s: Seq<u8>, pos: int, c: CommandValue)
    requires
        c is RemoveCommandFromQueue,
        holds(s, pos, enc_payload(c)),
        valid_payload(c),
    ensures
        remove_from_queue_at(s, pos) == Ok::<_, Failure>((c, pos + enc_payload(c).len())),
{
    reveal(enc_payload);
    reveal(valid_payload);
    if let CommandValue::RemoveCommandFromQueue { id, unit } = c {
        let b0 = enc_i32(id);
        let b1 = enc_u32(unit);
        lemma_holds_split(s, pos, b0, b1);
        lemma_round_i32(s, pos, id);
        lemma_round_u32(s, pos + b0.len(), unit);
    }
}

/// A debug command is decoded where the bytes of its fields stand.
pub proof fn lemma_round_debug_command(s: Seq<u8>, pos: int, c: CommandValue)
    requires
        c is DebugCommand,
        holds(s, pos, enc_payload(c)),
        valid_payload(c),
    ensures
        debug_command_at(s, pos) == Ok::<_, Failure>((c, pos + enc_payload(c).len())),
{
    reveal(enc_payload);
    reveal(valid_payload);
    if let CommandValue::DebugCommand { command, position, focus_army, selection } = c {
        let b0 = seq![command];
        let b1 = enc_position(position);
        let b2 = seq![focus_army];
        let b3 = enc_ids(selection);
        lemma_holds_split(s, pos, b0 + b1 + b2, b3);
        lemma_holds_split(s, pos, b0 + b1, b2);
        lemma_holds_split(s, pos, b0, b1);
        lemma_round_u8(s, pos, command);
        lemma_round_position(s, pos + b0.len(), position);
        lemma_round_u8(s, pos + b0.len() + b1.len(), focus_army);
        lemma_round_ids(s, pos + b0.len() + b1.len() + b2.len(), selection);
    }
}

/// A callback into the simulation's scripts is decoded where the
/// bytes of its fields stand.
pub proof fn lemma_round_lua_sim_callback(s: Seq<u8>, pos: int, c: CommandValue)
    requires
        c is LuaSimCallback,
        holds(s, pos, enc_payload(c)),
        valid_payload(c),
    ensures
        lua_sim_callback_at(s, pos) == Ok::<_, Failure>((c, pos + enc_payload(c).len())),
{
    reveal(enc_payload);
    reveal(valid_payload);
    if let CommandValue::LuaSimCallback { func, args, selection } = c {
        let b0 = enc_text(func);
        let b1 = enc_value(args);
        let b2 = enc_ids(selection);
        lemma_holds_split(s, pos, b0 + b1, b2);
        lemma_holds_split(s, pos, b0, b1);
        lemma_round_text(s, pos, func);
        lemma_round_value(s, pos + b0.len(), args, MAX_TABLE_DEPTH as nat);
        lemma_round_ids(s, pos + b0.len() + b1.len(), selection);
    }
}

/// A command without fields is decoded where it stands.
pub proof fn lemma_round_bare(s: Seq<u8>, pos: int, c: CommandValue)
    requires
        0 <= pos <= s.len(),
        c is CommandSourceTerminated || c is RequestPause || c is Resume || c is SingleStep
            || c is EndGame,
    ensures
        payload_at(c.tag(), s, pos) == Ok::<_, Failure>((c, pos)),
        enc_payload(c).len() == 0,
{
    reveal(enc_payload);
}

/// A command of one number is decoded where the bytes of the number stand.
pub proof fn lemma_round_plain(s: Seq<u8>, pos: int, c: CommandValue)
    requires
        holds(s, pos, enc_payload(c)),
        c is Advance || c is SetCommandSource || c is DestroyEntity,
    ensures
        payload_at(c.tag(), s, pos) == Ok::<_, Failure>((c, pos + enc_payload(c).len())),
{
    reveal(enc_payload);
    match c {
        CommandValue::Advance { ticks } => {
            lemma_round_u32(s, pos, ticks);
        },
        CommandValue::SetCommandSource { id } => {
            lemma_round_u8(s, pos, id);
        },
        CommandValue::DestroyEntity { unit } => {
            lemma_round_u32(s, pos, unit);
        },
        _ => {},
    }
}

/// A command that carries script code is decoded where the code stands.
pub proof fn lemma_round_execute_lua(s: Seq<u8>, pos: int, c: CommandValue)
    requires
        holds(s, pos, enc_payload(c)),
        valid_payload(c),
        c is ExecuteLuaInSim,
    ensures
        payload_at(c.tag(), s, pos) == Ok::<_, Failure>((c, pos + enc_payload(c).len())),
{
    reveal(enc_payload);
    reveal(valid_payload);
    if let CommandValue::ExecuteLuaInSim { code } = c {
        lemma_round_text(s, pos, code);
    }
}

/// A command that carries an order, or a pair of `i32`, is decoded where
/// the bytes of its fields stand.
pub proof fn lemma_round_order(s: Seq<u8>, pos: int, c: CommandValue)
    requires
        holds(s, pos, enc_payload(c)),
        valid_payload(c),
        c is IssueCommand || c is IssueFactoryCommand || c is IncreaseCommandCount
            || c is DecreaseCommandCount || c is SetCommandType,
    ensures
        payload_at(c.tag(), s, pos) == Ok::<_, Failure>((c, pos + enc_payload(c).len())),
{
    reveal(enc_payload);
    reveal(valid_payload);
    match c {
        CommandValue::IssueCommand(g) => {
            lemma_round_game_command(s, pos, g);
        },
        CommandValue::IssueFactoryCommand(g) => {
            lemma_round_game_command(s, pos, g);
        },
        CommandValue::IncreaseCommandCount { id, delta } => {
            lemma_round_i32_pair(s, pos, (id, delta));
        },
        CommandValue::DecreaseCommandCount { id, delta } => {
            lemma_round_i32_pair(s, pos, (id, delta));
        },
        CommandValue::SetCommandType { id, type_ } => {
            lemma_round_i32_pair(s, pos, (id, type_));
        },
        _ => {},
    }
}

/// The fields of a command are decoded where their bytes stand.
pub proof fn lemma_round_payload(s: Seq<u8>, pos: int, c: CommandValue)
    requires
        holds(s, pos, enc_payload(c)),
        valid_payload(c),
    ensures
        payload_at(c.tag(), s, pos) == Ok::<_, Failure>((c, pos + enc_payload(c).len())),
{
    match c {
        CommandValue::VerifyChecksum { .. } => {
            lemma_round_verify_checksum(s, pos, c);
        },
        CommandValue::CreateUnit { .. } => {
            lemma_round_create_unit(s, pos, c);
        },
        CommandValue::CreateProp { .. } => {
            lemma_round_create_prop(s, pos, c);
        },
        CommandValue::WarpEntity { .. } => {
            lemma_round_warp_entity(s, pos, c);
        },
        CommandValue::ProcessInfoPair { .. } => {
            lemma_round_process_info_pair(s, pos, c);
        },
        CommandValue::SetCommandTarget { .. } => {
            lemma_round_set_command_target(s, pos, c);
        },
        CommandValue::SetCommandCells { .. } => {
            lemma_round_set_command_cells(s, pos, c);
        },
        CommandValue::RemoveCommandFromQueue { .. } => {
            lemma_round_remove_from_queue(s, pos, c);
        },
        CommandValue::DebugCommand { .. } => {
            lemma_round_debug_command(s, pos, c);
        },
        CommandValue::LuaSimCallback { .. } => {
            lemma_round_lua_sim_callback(s, pos, c);
        },
        CommandValue::IssueCommand(_)
        | CommandValue::IssueFactoryCommand(_)
        | CommandValue::IncreaseCommandCount { .. }
        | CommandValue::DecreaseCommandCount { .. }
        | CommandValue::SetCommandType { .. } => {
            lemma_round_order(s, pos, c);
        },
        CommandValue::Advance { .. }
        | CommandValue::SetCommandSource { .. }
        | CommandValue::DestroyEntity { .. } => {
            lemma_round_plain(s, pos, c);
        },
        CommandValue::ExecuteLuaInSim { .. } => {
            lemma_round_execute_lua(s, pos, c);
        },
        _ => {
            lemma_round_bare(s, pos, c);
        },
    }
}

/// A command is decoded where its bytes stand.
pub proof fn lemma_round_command(s: Seq<u8>, pos: int, c: CommandValue)
    requires
        holds(s, pos, enc_command(c)),
        valid_command(c),
    ensures
        command_at(s, pos) == Ok::<_, Failure>((c, pos + enc_command(c).len())),
{
    let payload = enc_payload(c);
    let size = (payload.len() + 3) as u16;
    let tag = c.tag();
    assert(tag < MAX);
    assert(enc_u16(size).len() == 2 && frame_at(s, pos) == Ok::<_, Failure>(
        ((tag, payload), pos + 3 + payload.len()),
    )) by {
        lemma_holds_split(s, pos, seq![tag] + enc_u16(size), payload);
        lemma_holds_split(s, pos, seq![tag], enc_u16(size));
        lemma_round_u8(s, pos, tag);
        lemma_round_u16(s, pos + 1, size);
        lemma_round_bytes(s, pos + 3, payload);
    }
    assert(command_of(tag, payload) == Ok::<_, Failure>(c)) by {
        assert(payload.subrange(0, payload.len() as int) =~= payload);
        lemma_round_payload(payload, 0, c);
    }
}

/// The bytes of the commands of a list from the one with index `from` on.
pub open spec fn enc_commands(commands: Seq<CommandValue>, from: int) -> Seq<u8>
    decreases commands.len() - from,
{
    if from < 0 || from >= commands.len() {
        Seq::empty()
    } else {
        enc_command(commands[from]) + enc_commands(commands, from + 1)
    }
}

/// The bytes of a body with the commands of a list.
pub open spec fn enc_body(commands: Seq<CommandValue>) -> Seq<u8> {
    enc_commands(commands, 0)
}

/// Whether every command of a list can be written and read back.
pub open spec fn valid_commands(commands: Seq<CommandValue>) -> bool {
    forall|i: int| 0 <= i < commands.len() ==> valid_command(#[trigger] commands[i])
}

/// Where a list of commands leads to a state, so does each of its
/// beginnings, and one command more leads on from there.
pub proof fn lemma_fold_prefix(
    sim: SimValue,
    commands: Seq<CommandValue>,
    stop_on_desync: bool,
    n: int,
)
    requires
        sim_fold(sim, commands, stop_on_desync) is Ok,
        0 <= n <= commands.len(),
    ensures
        sim_fold(sim, commands.take(n), stop_on_desync) is Ok,
        n < commands.len() ==> sim_fold(sim, commands.take(n + 1), stop_on_desync) == sim_after(
            sim_fold(sim, commands.take(n), stop_on_desync)->Ok_0,
            commands[n],
            stop_on_desync,
        ),
    decreases commands.len(),
{
    if n < commands.len() {
        assert(commands.take(n + 1).drop_last() =~= commands.take(n));
        assert(commands.take(n + 1).last() == commands[n]);
        let front = commands.drop_last();
        if n + 1 < commands.len() {
            lemma_fold_prefix(sim, front, stop_on_desync, n + 1);
            lemma_fold_prefix(sim, front, stop_on_desync, n);
            assert(front.take(n + 1) =~= commands.take(n + 1));
            assert(front.take(n) =~= commands.take(n));
        } else {
            assert(commands.take(n + 1) =~= commands);
            assert(commands.take(n) =~= front);
        }
    } else {
        assert(commands.take(n) =~= commands);
    }
}

/// The number of commands that a parser decodes of a body of `total`.
pub open spec fn decoded_count(options: Options, total: nat) -> int {
    match options.limit {
        Some(n) => limited(n, total),
        None => total as int,
    }
}

/// From any command of a written body on, up to the limit: decoding goes
/// on to the limit or to the end, and gives the commands that were written
/// up to there and the state behind them.
pub proof fn lemma_round_body_from(
    s: Seq<u8>,
    pos: int,
    options: Options,
    commands: Seq<CommandValue>,
    from: int,
)
    requires
        keeps_all(options),
        valid_commands(commands),
        sim_fold(
            initial_sim(),
            commands.take(decoded_count(options, commands.len())),
            options.stop_on_desync,
        ) is Ok,
        0 <= from <= decoded_count(options, commands.len()),
        holds(s, pos, enc_commands(commands, from)),
        pos + enc_commands(commands, from).len() == s.len(),
    ensures
        body_from(
            s,
            pos,
            options,
            from as nat,
            sim_fold(initial_sim(), commands.take(from), options.stop_on_desync)->Ok_0,
            commands.take(from),
        ) == Ok::<BodyValue, Failure>(
            BodyValue {
                sim: sim_fold(
                    initial_sim(),
                    commands.take(decoded_count(options, commands.len())),
                    options.stop_on_desync,
                )->Ok_0,
                commands: commands.take(decoded_count(options, commands.len())),
            },
        ),
    decreases commands.len() - from,
{
    let m = decoded_count(options, commands.len());
    let read = commands.take(m);
    lemma_fold_prefix(initial_sim(), read, options.stop_on_desync, from);
    assert(read.take(from) =~= commands.take(from));
    if from < m {
        lemma_fold_prefix(initial_sim(), read, options.stop_on_desync, from + 1);
        assert(read.take(from + 1) =~= commands.take(from + 1));
        let c = commands[from];
        assert(read[from] == c);
        let rest = enc_commands(commands, from + 1);
        lemma_holds_split(s, pos, enc_command(c), rest);
        lemma_round_command(s, pos, c);
        lemma_frame_advances(s, pos);
        assert(c.tag() < MAX);
        assert(commands.take(from).push(c) =~= commands.take(from + 1));
        lemma_round_body_from(s, pos + enc_command(c).len(), options, commands, from + 1);
    }
}

/// A written body decodes to what was written: for a parser that keeps
/// every command and has no limit, and for commands that can be written and
/// lead to a state, decoding their bytes gives the commands and that state.
pub proof fn lemma_round_body(commands: Seq<CommandValue>, options: Options)
    requires
        keeps_all(options),
        options.limit is None,
        valid_commands(commands),
        sim_fold(initial_sim(), commands, options.stop_on_desync) is Ok,
    ensures
        body_of(enc_body(commands), options) == Ok::<BodyValue, Failure>(
            BodyValue {
                sim: sim_fold(initial_sim(), commands, options.stop_on_desync)->Ok_0,
                commands,
            },
        ),
{
    let s = enc_body(commands);
    assert(s.subrange(0, s.len() as int) =~= s);
    assert(commands.take(0) =~= Seq::<CommandValue>::empty());
    assert(commands.take(commands.len() as int) =~= commands);
    lemma_round_body_from(s, 0, options, commands, 0);
}

/// A limit of `n` gives exactly the first `n` commands of a written body, or
/// all of them where there are fewer: for a parser that keeps every command,
/// and for commands that can be written and of which those up to the limit
/// lead to a state, decoding the bytes of all of them gives the commands up
/// to the limit and the state behind these, whose tick is the sum of the
/// ticks of their `Advance` commands.
pub proof fn lemma_round_body_limited(commands: Seq<CommandValue>, options: Options, n: usize)
    requires
        keeps_all(options),
        options.limit == Some(n),
        valid_commands(commands),
        sim_fold(
            initial_sim(),
            commands.take(limited(n, commands.len())),
            options.stop_on_desync,
        ) is Ok,
    ensures
        body_of(enc_body(commands), options) matches Ok(cut) && {
            &&& cut.commands == commands.take(limited(n, commands.len()))
            &&& cut.commands.len() == limited(n, commands.len())
            &&& sim_fold(initial_sim(), cut.commands, options.stop_on_desync) == Ok::<
                SimValue,
                Failure,
            >(cut.sim)
            &&& cut.sim.tick == tick_sum(cut.commands)
        },
{
    let s = enc_body(commands);
    assert(s.subrange(0, s.len() as int) =~= s);
    assert(commands.take(0) =~= Seq::<CommandValue>::empty());
    lemma_round_body_from(s, 0, options, commands, 0);
    lemma_fold_ticks(
        initial_sim(),
        commands.take(limited(n, commands.len())),
        options.stop_on_desync,
    );
}

/// The bytes of a block that holds an embedded value.
pub open spec fn enc_lua_block(v: LuaValue) -> Seq<u8> {
    enc_block(enc_value(v))
}

/// Whether an embedded value can stand in a block.
pub open spec fn valid_lua_block(v: LuaValue) -> bool {
    valid_value(v, MAX_TABLE_DEPTH as nat) && enc_value(v).len() <= u32::MAX
}

/// The bytes of a player.
pub open spec fn enc_player(p: PlayerValue) -> Seq<u8> {
    enc_text(p.name) + enc_u32(p.id)
}

/// The bytes of the players of a list from the one with index `from` on.
pub open spec fn enc_players(players: Seq<PlayerValue>, from: int) -> Seq<u8>
    decreases players.len() - from,
{
    if from < 0 || from >= players.len() {
        Seq::empty()
    } else {
        enc_player(players[from]) + enc_players(players, from + 1)
    }
}

/// The byte that names the player of an army.
pub open spec fn enc_source(source: Option<i8>) -> Seq<u8> {
    seq![unsigned8(match source {
        Some(b) => b,
        None => -1i8,
    })]
}

/// The bytes of an army.
pub open spec fn enc_army(a: ArmyValue) -> Seq<u8> {
    enc_lua_block(a.data) + enc_source(a.source)
}

/// Whether an army can be written and read back.
pub open spec fn valid_army(a: ArmyValue) -> bool {
    valid_lua_block(a.data) && a.source != Some(-1i8)
}

/// The bytes of the armies of a list from the one with index `from` on.
pub open spec fn enc_armies(armies: Seq<ArmyValue>, from: int) -> Seq<u8>
    decreases armies.len() - from,
{
    if from < 0 || from >= armies.len() {
        Seq::empty()
    } else {
        enc_army(armies[from]) + enc_armies(armies, from + 1)
    }
}

/// The bytes of the texts at the start of a header. The field that
/// decoding skips is written empty.
pub open spec fn enc_titles(h: HeaderValue) -> Seq<u8> {
    enc_text(h.scfa_version) + enc_cstring(Seq::empty()) + seq![SEPARATOR] + enc_text(
        h.replay_version,
    ) + enc_text(h.map_file)
}

/// The bytes of a list of players: their number, then the players.
pub open spec fn enc_player_list(players: Seq<PlayerValue>) -> Seq<u8> {
    seq![players.len() as u8] + enc_players(players, 0)
}

/// The bytes of a list of armies: their number, then the armies.
pub open spec fn enc_army_list(armies: Seq<ArmyValue>) -> Seq<u8> {
    seq![armies.len() as u8] + enc_armies(armies, 0)
}

/// The bytes of a header.
pub open spec fn enc_header(h: HeaderValue) -> Seq<u8> {
    enc_titles(h) + enc_lua_block(h.mods) + enc_lua_block(h.scenario) + enc_player_list(
        h.players,
    ) + enc_bool(h.cheats_enabled) + enc_army_list(h.armies) + enc_u32(h.seed)
}

/// Whether a header can be written and read back: its texts can be
/// zero-terminated, its embedded values are valid and fit their blocks, the
/// players can be counted in a byte, and there are as many armies as the
/// count says.
pub open spec fn valid_header(h: HeaderValue) -> bool {
    &&& plain_text(h.scfa_version)
    &&& plain_text(h.replay_version)
    &&& plain_text(h.map_file)
    &&& valid_lua_block(h.mods)
    &&& valid_lua_block(h.scenario)
    &&& h.players.len() <= u8::MAX
    &&& forall|i: int| 0 <= i < h.players.len() ==> plain_text(#[trigger] h.players[i].name)
    &&& h.armies.len() == h.army_count
    &&& forall|i: int| 0 <= i < h.armies.len() ==> valid_army(#[trigger] h.armies[i])
}

/// An embedded value is decoded where its block stands.
pub proof fn lemma_round_lua_block(s: Seq<u8>, pos: int, v: LuaValue)
    requires
        holds(s, pos, enc_lua_block(v)),
        valid_lua_block(v),
    ensures
        lua_block_at(s, pos) == Ok::<_, Failure>((v, pos + enc_lua_block(v).len())),
{
    let content = enc_value(v);
    lemma_round_block(s, pos, content);
    lemma_le32_of_bytes(content.len() as u32);
    assert(content.subrange(0, content.len() as int) =~= content);
    lemma_round_value(content, 0, v, MAX_TABLE_DEPTH as nat);
}

/// The separator is decoded where it stands.
pub proof fn lemma_round_separator(s: Seq<u8>, pos: int)
    requires
        holds(s, pos, seq![SEPARATOR]),
    ensures
        separator_at(s, pos) == Ok::<_, Failure>(((), pos + 1)),
{
    lemma_round_u8(s, pos, SEPARATOR);
}

/// The texts at the start of a header are decoded where they stand.
pub proof fn lemma_round_titles(s: Seq<u8>, pos: int, h: HeaderValue)
    requires
        holds(s, pos, enc_titles(h)),
        plain_text(h.scfa_version),
        plain_text(h.replay_version),
        plain_text(h.map_file),
    ensures
        titles_at(s, pos) == Ok::<_, Failure>(
            ((h.scfa_version, h.replay_version, h.map_file), pos + enc_titles(h).len()),
        ),
{
    let b0 = enc_text(h.scfa_version);
    let b1 = enc_cstring(Seq::empty());
    let b2 = seq![SEPARATOR];
    let b3 = enc_text(h.replay_version);
    let b4 = enc_text(h.map_file);
    lemma_holds_split(s, pos, b0 + b1 + b2 + b3, b4);
    lemma_holds_split(s, pos, b0 + b1 + b2, b3);
    lemma_holds_split(s, pos, b0 + b1, b2);
    lemma_holds_split(s, pos, b0, b1);
    lemma_round_text(s, pos, h.scfa_version);
    lemma_round_cstring(s, pos + b0.len(), Seq::empty());
    lemma_round_separator(s, pos + b0.len() + b1.len());
    lemma_round_text(s, pos + b0.len() + b1.len() + b2.len(), h.replay_version);
    lemma_round_text(s, pos + b0.len() + b1.len() + b2.len() + b3.len(), h.map_file);
}

/// A player is decoded where its bytes stand.
pub proof fn lemma_round_player(s: Seq<u8>, pos: int, p: PlayerValue)
    requires
        holds(s, pos, enc_player(p)),
        plain_text(p.name),
    ensures
        player_at(s, pos) == Ok::<_, Failure>((p, pos + enc_player(p).len())),
{
    lemma_holds_split(s, pos, enc_text(p.name), enc_u32(p.id));
    lemma_round_text(s, pos, p.name);
    lemma_round_u32(s, pos + enc_text(p.name).len(), p.id);
}

/// The players from the one with index `from` on are decoded where their
/// bytes stand.
pub proof fn lemma_round_players(s: Seq<u8>, pos: int, players: Seq<PlayerValue>, from: int)
    requires
        0 <= from <= players.len(),
        holds(s, pos, enc_players(players, from)),
        forall|i: int| 0 <= i < players.len() ==> plain_text(#[trigger] players[i].name),
    ensures
        players_at(s, pos, (players.len() - from) as nat, players.take(from)) == Ok::<_, Failure>(
            (players, pos + enc_players(players, from).len()),
        ),
    decreases players.len() - from,
{
    if from == players.len() {
        assert(players.take(from) =~= players);
    } else {
        let p = players[from];
        lemma_holds_split(s, pos, enc_player(p), enc_players(players, from + 1));
        lemma_round_player(s, pos, p);
        assert(players.take(from).push(p) =~= players.take(from + 1));
        lemma_round_players(s, pos + enc_player(p).len(), players, from + 1);
    }
}

/// An army is decoded where its bytes stand.
pub proof fn lemma_round_army(s: Seq<u8>, pos: int, a: ArmyValue)
    requires
        holds(s, pos, enc_army(a)),
        valid_army(a),
    ensures
        army_at(s, pos) == Ok::<_, Failure>((a, pos + enc_army(a).len())),
{
    lemma_holds_split(s, pos, enc_lua_block(a.data), enc_source(a.source));
    lemma_round_lua_block(s, pos, a.data);
    let b = match a.source {
        Some(b) => b,
        None => -1i8,
    };
    lemma_round_i8(s, pos + enc_lua_block(a.data).len(), b);
}

/// The armies from the one with index `from` on are decoded where their
/// bytes stand.
pub proof fn lemma_round_armies(s: Seq<u8>, pos: int, armies: Seq<ArmyValue>, from: int)
    requires
        0 <= from <= armies.len(),
        holds(s, pos, enc_armies(armies, from)),
        forall|i: int| 0 <= i < armies.len() ==> valid_army(#[trigger] armies[i]),
    ensures
        armies_at(s, pos, (armies.len() - from) as nat, armies.take(from)) == Ok::<_, Failure>(
            (armies, pos + enc_armies(armies, from).len()),
        ),
    decreases armies.len() - from,
{
    if from == armies.len() {
        assert(armies.take(from) =~= armies);
    } else {
        let a = armies[from];
        lemma_holds_split(s, pos, enc_army(a), enc_armies(armies, from + 1));
        lemma_round_army(s, pos, a);
        assert(armies.take(from).push(a) =~= armies.take(from + 1));
        lemma_round_armies(s, pos + enc_army(a).len(), armies, from + 1);
    }
}

/// A list of players is decoded where its bytes stand.
pub proof fn lemma_round_player_list(s: Seq<u8>, pos: int, players: Seq<PlayerValue>)
    requires
        holds(s, pos, enc_player_list(players)),
        players.len() <= u8::MAX,
        forall|i: int| 0 <= i < players.len() ==> plain_text(#[trigger] players[i].name),
    ensures
        player_list_at(s, pos) == Ok::<_, Failure>((players, pos + enc_player_list(players).len())),
{
    lemma_holds_split(s, pos, seq![players.len() as u8], enc_players(players, 0));
    lemma_round_u8(s, pos, players.len() as u8);
    assert(players.take(0) =~= Seq::<PlayerValue>::empty());
    lemma_round_players(s, pos + 1, players, 0);
}

/// A list of armies is decoded where its bytes stand.
pub proof fn lemma_round_army_list(s: Seq<u8>, pos: int, armies: Seq<ArmyValue>)
    requires
        holds(s, pos, enc_army_list(armies)),
        armies.len() <= u8::MAX,
        forall|i: int| 0 <= i < armies.len() ==> valid_army(#[trigger] armies[i]),
    ensures
        army_list_at(s, pos) == Ok::<_, Failure>(
            ((armies.len() as u8, armies), pos + enc_army_list(armies).len()),
        ),
{
    lemma_holds_split(s, pos, seq![armies.len() as u8], enc_armies(armies, 0));
    lemma_round_u8(s, pos, armies.len() as u8);
    assert(armies.take(0) =~= Seq::<ArmyValue>::empty());
    lemma_round_armies(s, pos + 1, armies, 0);
}

/// A header is decoded where its bytes stand.
pub proof fn lemma_round_header(s: Seq<u8>, pos: int, h: HeaderValue)
    requires
        holds(s, pos, enc_header(h)),
        valid_header(h),
    ensures
        header_at(s, pos) == Ok::<_, Failure>((h, pos + enc_header(h).len())),
{
    let b0 = enc_titles(h);
    let b1 = enc_lua_block(h.mods);
    let b2 = enc_lua_block(h.scenario);
    let b3 = enc_player_list(h.players);
    let b4 = enc_bool(h.cheats_enabled);
    let b5 = enc_army_list(h.armies);
    let b6 = enc_u32(h.seed);
    lemma_holds_split(s, pos, b0 + b1 + b2 + b3 + b4 + b5, b6);
    lemma_holds_split(s, pos, b0 + b1 + b2 + b3 + b4, b5);
    lemma_holds_split(s, pos, b0 + b1 + b2 + b3, b4);
    lemma_holds_split(s, pos, b0 + b1 + b2, b3);
    lemma_holds_split(s, pos, b0 + b1, b2);
    lemma_holds_split(s, pos, b0, b1);
    let e1 = pos + b0.len();
    let e2 = e1 + b1.len();
    let e3 = e2 + b2.len();
    let e4 = e3 + b3.len();
    let e5 = e4 + b4.len();
    let e6 = e5 + b5.len();
    lemma_round_titles(s, pos, h);
    lemma_round_lua_block(s, e1, h.mods);
    lemma_round_lua_block(s, e2, h.scenario);
    lemma_round_player_list(s, e3, h.players);
    lemma_round_bool(s, e4, h.cheats_enabled);
    lemma_round_army_list(s, e5, h.armies);
    lemma_round_u32(s, e6, h.seed);
}

/// The bytes of a replay: its header, then its commands.
pub open spec fn enc_replay(h: HeaderValue, commands: Seq<CommandValue>) -> Seq<u8> {
    enc_header(h) + enc_body(commands)
}

/// A written replay decodes to what was written: for a parser that keeps
/// every command and has no limit, for a header and for commands that can
/// be written, where the commands lead to a state, decoding their bytes
/// gives the header, the commands and that state.
pub proof fn lemma_round_replay(h: HeaderValue, commands: Seq<CommandValue>, options: Options)
    requires
        keeps_all(options),
        options.limit is None,
        valid_header(h),
        valid_commands(commands),
        sim_fold(initial_sim(), commands, options.stop_on_desync) is Ok,
    ensures
        replay_of(enc_replay(h, commands), options) == Ok::<ReplayValue, Failure>(
            ReplayValue {
                header: h,
                body: BodyValue {
                    sim: sim_fold(initial_sim(), commands, options.stop_on_desync)->Ok_0,
                    commands,
                },
            },
        ),
{
    let s = enc_replay(h, commands);
    assert(s.subrange(0, s.len() as int) =~= s);
    lemma_holds_split(s, 0, enc_header(h), enc_body(commands));
    lemma_round_header(s, 0, h);
    let end = enc_header(h).len() as int;
    assert(s.subrange(end, s.len() as int) =~= enc_body(commands));
    lemma_round_body(commands, options);
}

} // verus!
