//! Embedded scripted values: the tagged value tree that the header and some
//! commands carry.

use vstd::prelude::*;
use crate::error::{Failure, Malformation, ReplayReadError};
use crate::reader::{
    bool_at, cstring_at, float_at, lemma_zero_from, text_at, u8_at, yields, Decoded, FloatBits,
    Reader,
};

verus! {

/// Tag of a float value.
pub const TAG_FLOAT: u8 = 0;

/// Tag of a zero-terminated byte string.
pub const TAG_BYTE_STRING: u8 = 1;

/// Tag of a zero-terminated UTF-8 text.
pub const TAG_TEXT: u8 = 2;

/// Tag of the nil value.
pub const TAG_NIL: u8 = 3;

/// Tag of a boolean.
pub const TAG_BOOL: u8 = 4;

/// Tag that opens a table.
pub const TAG_TABLE: u8 = 5;

/// Marker that closes a table.
pub const TAG_END: u8 = 6;

/// How many tables may stand inside one another.
pub const MAX_TABLE_DEPTH: usize = 64;

/// Mathematical value of an embedded object. A table is the list of its
/// entries in the order in which their keys first appeared.
pub enum LuaValue {
    Float(FloatBits),
    ByteString(Seq<u8>),
    Text(Seq<char>),
    Nil,
    Bool(bool),
    Table(Seq<(LuaValue, LuaValue)>),
}

/// An embedded object.
#[derive(Debug, PartialEq, Eq)]
pub enum LuaObject {
    Float(FloatBits),
    ByteString(Vec<u8>),
    Text(String),
    Nil,
    Bool(bool),
    Table(LuaTable),
}

/// A table of embedded objects: entries with pairwise different keys, in the
/// order in which the keys were first inserted.
#[derive(Debug, PartialEq, Eq)]
pub struct LuaTable {
    entries: Vec<(LuaObject, LuaObject)>,
}

impl View for LuaObject {
    type V = LuaValue;

    open spec fn view(&self) -> LuaValue
        decreases self,
    {
        match self {
            LuaObject::Float(f) => LuaValue::Float(*f),
            LuaObject::ByteString(b) => LuaValue::ByteString(b@),
            LuaObject::Text(t) => LuaValue::Text(t@),
            LuaObject::Nil => LuaValue::Nil,
            LuaObject::Bool(b) => LuaValue::Bool(*b),
            LuaObject::Table(t) => LuaValue::Table(t.view()),
        }
    }
}

impl View for LuaTable {
    type V = Seq<(LuaValue, LuaValue)>;

    closed spec fn view(&self) -> Seq<(LuaValue, LuaValue)>
        decreases self,
    {
        pairs_value(self.entries@)
    }
}

/// The values of a list of entries.
pub open spec fn pairs_value(entries: Seq<(LuaObject, LuaObject)>) -> Seq<(LuaValue, LuaValue)>
    decreases entries,
{
    Seq::new(
        entries.len(),
        |i: int|
            if 0 <= i < entries.len() {
                (entries[i].0.view(), entries[i].1.view())
            } else {
                (LuaValue::Nil, LuaValue::Nil)
            },
    )
}

/// Index of the first entry at or behind `from` whose key is `key`; the
/// number of entries where there is none.
pub open spec fn find_key(entries: Seq<(LuaValue, LuaValue)>, key: LuaValue, from: int) -> int
    decreases entries.len() - from,
{
    if from < 0 || from >= entries.len() {
        entries.len() as int
    } else if entries[from].0 == key {
        from
    } else {
        find_key(entries, key, from + 1)
    }
}

/// The entries after `key` was set to `value`: an entry with that key keeps
/// its place and gets the new value, a new key goes to the end.
pub open spec fn table_put(
    entries: Seq<(LuaValue, LuaValue)>,
    key: LuaValue,
    value: LuaValue,
) -> Seq<(LuaValue, LuaValue)> {
    let i = find_key(entries, key, 0);
    if i < entries.len() {
        entries.update(i, (key, value))
    } else {
        entries.push((key, value))
    }
}

/// The value that `entries` give to `key`.
pub open spec fn table_get(entries: Seq<(LuaValue, LuaValue)>, key: LuaValue) -> Option<LuaValue> {
    let i = find_key(entries, key, 0);
    if i < entries.len() {
        Some(entries[i].1)
    } else {
        None
    }
}

/// No key occurs twice.
pub open spec fn distinct_keys(entries: Seq<(LuaValue, LuaValue)>) -> bool {
    forall|i: int, j: int| 0 <= i < j < entries.len() ==> entries[i].0 != entries[j].0
}

/// `find_key` is the least index that holds the key.
pub proof fn lemma_find_key(entries: Seq<(LuaValue, LuaValue)>, key: LuaValue, from: int)
    requires
        0 <= from <= entries.len(),
    ensures
        from <= find_key(entries, key, from) <= entries.len(),
        find_key(entries, key, from) < entries.len() ==> entries[find_key(entries, key, from)].0
            == key,
        forall|i: int| from <= i < find_key(entries, key, from) ==> entries[i].0 != key,
    decreases entries.len() - from,
{
    if from < entries.len() && entries[from].0 != key {
        lemma_find_key(entries, key, from + 1);
    }
}

/// An index that holds the key with none before it is where `find_key` points.
pub proof fn lemma_find_key_is(
    entries: Seq<(LuaValue, LuaValue)>,
    key: LuaValue,
    from: int,
    at: int,
)
    requires
        0 <= from <= at <= entries.len(),
        forall|i: int| from <= i < at ==> entries[i].0 != key,
        at < entries.len() ==> entries[at].0 == key,
    ensures
        find_key(entries, key, from) == at,
    decreases at - from,
{
    if from < at {
        lemma_find_key_is(entries, key, from + 1, at);
    }
}

/// Setting a key keeps the keys pairwise different, and the key then has the
/// value that was set.
pub proof fn lemma_table_put(entries: Seq<(LuaValue, LuaValue)>, key: LuaValue, value: LuaValue)
    requires
        distinct_keys(entries),
    ensures
        distinct_keys(table_put(entries, key, value)),
        table_get(table_put(entries, key, value), key) == Some(value),
{
    lemma_find_key(entries, key, 0);
    let i = find_key(entries, key, 0);
    let after = table_put(entries, key, value);
    assert forall|a: int, b: int| 0 <= a < b < after.len() implies after[a].0 != after[b].0 by {
        if i < entries.len() {
            assert(after[a].0 == entries[a].0);
            assert(after[b].0 == entries[b].0);
        } else if b == entries.len() {
            assert(after[a].0 == entries[a].0);
        }
    }
    assert forall|k: int| 0 <= k < i implies after[k].0 != key by {
        assert(after[k].0 == entries[k].0);
    }
    lemma_find_key_is(after, key, 0, i);
}

/// Whether `to` lies behind `from` and inside `s`.
pub open spec fn advances(s: Seq<u8>, from: int, to: int) -> bool {
    from < to <= s.len()
}

/// The embedded value at `pos`, with tables nested at most `depth` deep: a
/// tag byte, then what the tag calls for.
pub open spec fn value_at(s: Seq<u8>, pos: int, depth: nat) -> Decoded<LuaValue>
    decreases s.len() - pos, 1int,
{
    match u8_at(s, pos) {
        Err(e) => Err(e),
        Ok((tag, p)) => if tag == TAG_FLOAT {
            match float_at(s, p) {
                Ok((f, next)) => Ok((LuaValue::Float(f), next)),
                Err(e) => Err(e),
            }
        } else if tag == TAG_BYTE_STRING {
            match cstring_at(s, p) {
                Ok((b, next)) => Ok((LuaValue::ByteString(b), next)),
                Err(e) => Err(e),
            }
        } else if tag == TAG_TEXT {
            match text_at(s, p) {
                Ok((t, next)) => Ok((LuaValue::Text(t), next)),
                Err(e) => Err(e),
            }
        } else if tag == TAG_NIL {
            Ok((LuaValue::Nil, p))
        } else if tag == TAG_BOOL {
            match bool_at(s, p) {
                Ok((b, next)) => Ok((LuaValue::Bool(b), next)),
                Err(e) => Err(e),
            }
        } else if tag == TAG_TABLE {
            if depth == 0 {
                Err(Failure::Malformed(Malformation::DepthExceeded))
            } else {
                match entries_at(s, p, (depth - 1) as nat, Seq::empty()) {
                    Ok((entries, next)) => Ok((LuaValue::Table(entries), next)),
                    Err(e) => Err(e),
                }
            }
        } else if tag == TAG_END {
            Err(Failure::Malformed(Malformation::UnexpectedTableEnd))
        } else {
            Err(Failure::Malformed(Malformation::UnknownValueTag))
        },
    }
}

/// The rest of a table at `pos`, with `acc` the entries read so far: the end
/// marker, or a key, its value and the rest. A key that was read before gets
/// the later value. Every value takes up at least its tag byte and ends
/// inside the input, which is all that the two tests of `advances` say.
pub open spec fn entries_at(
    s: Seq<u8>,
    pos: int,
    depth: nat,
    acc: Seq<(LuaValue, LuaValue)>,
) -> Decoded<Seq<(LuaValue, LuaValue)>>
    decreases s.len() - pos, 2int,
{
    match u8_at(s, pos) {
        Err(e) => Err(e),
        Ok((tag, p)) => if tag == TAG_END {
            Ok((acc, p))
        } else {
            match value_at(s, pos, depth) {
                Err(e) => Err(e),
                Ok((key, q)) => if !advances(s, pos, q) {
                    Err(Failure::UnexpectedEof)
                } else {
                    match value_at(s, q, depth) {
                        Err(e) => Err(e),
                        Ok((value, next)) => if !advances(s, q, next) {
                            Err(Failure::UnexpectedEof)
                        } else {
                            entries_at(s, next, depth, table_put(acc, key, value))
                        },
                    }
                },
            }
        },
    }
}

/// The embedded value at `pos`.
pub open spec fn lua_at(s: Seq<u8>, pos: int) -> Decoded<LuaValue> {
    value_at(s, pos, MAX_TABLE_DEPTH as nat)
}

/// A value that decodes ends behind its start and inside the input.
pub proof fn lemma_value_advances(s: Seq<u8>, pos: int, depth: nat)
    ensures
        value_at(s, pos, depth) matches Ok((_, next)) ==> advances(s, pos, next),
    decreases s.len() - pos, 1int,
{
    if let Ok((tag, p)) = u8_at(s, pos) {
        if tag == TAG_BYTE_STRING || tag == TAG_TEXT {
            lemma_zero_from(s, p);
        } else if tag == TAG_TABLE && depth > 0 {
            lemma_entries_advance(s, p, (depth - 1) as nat, Seq::empty());
        }
    }
}

/// The rest of a table that decodes ends behind its start and inside the
/// input.
pub proof fn lemma_entries_advance(
    s: Seq<u8>,
    pos: int,
    depth: nat,
    acc: Seq<(LuaValue, LuaValue)>,
)
    ensures
        entries_at(s, pos, depth, acc) matches Ok((_, next)) ==> advances(s, pos, next),
    decreases s.len() - pos, 2int,
{
    if let Ok((tag, p)) = u8_at(s, pos) {
        if tag != TAG_END {
            if let Ok((key, q)) = value_at(s, pos, depth) {
                if advances(s, pos, q) {
                    if let Ok((value, next)) = value_at(s, q, depth) {
                        if advances(s, q, next) {
                            lemma_entries_advance(s, next, depth, table_put(acc, key, value));
                        }
                    }
                }
            }
        }
    }
}

/// Whether two byte strings hold the same bytes.
fn same_bytes(a: &Vec<u8>, b: &Vec<u8>) -> (r: bool)
    ensures
        r == (a@ == b@),
{
    if a.len() != b.len() {
        return false;
    }
    let mut i: usize = 0;
    while i < a.len()
        invariant
            a@.len() == b@.len(),
            0 <= i <= a@.len(),
            forall|k: int| 0 <= k < i ==> a@[k] == b@[k],
        decreases a@.len() - i,
    {
        if a[i] != b[i] {
            return false;
        }
        i = i + 1;
    }
    assert(a@ =~= b@);
    true
}

impl LuaObject {
    /// Whether two objects have the same value: the same kind and the same
    /// content, tables entry by entry in their order.
    pub fn same(&self, other: &LuaObject) -> (r: bool)
        ensures
            r == (self@ == other@),
        decreases self, 1int,
    {
        match self {
            LuaObject::Float(a) => match other {
                LuaObject::Float(b) => a.bits == b.bits,
                _ => false,
            },
            LuaObject::ByteString(a) => match other {
                LuaObject::ByteString(b) => same_bytes(a, b),
                _ => false,
            },
            LuaObject::Text(a) => match other {
                LuaObject::Text(b) => *a == *b,
                _ => false,
            },
            LuaObject::Nil => match other {
                LuaObject::Nil => true,
                _ => false,
            },
            LuaObject::Bool(a) => match other {
                LuaObject::Bool(b) => *a == *b,
                _ => false,
            },
            LuaObject::Table(a) => match other {
                LuaObject::Table(b) => a.same(b),
                _ => false,
            },
        }
    }
}

impl LuaTable {
    #[verifier::type_invariant]
    spec fn inv(self) -> bool {
        distinct_keys(self@)
    }

    /// Whether two tables hold the same entries in the same order.
    pub fn same(&self, other: &LuaTable) -> (r: bool)
        ensures
            r == (self@ == other@),
        decreases self, 0int,
    {
        if self.entries.len() != other.entries.len() {
            assert(self@.len() != other@.len());
            return false;
        }
        let mut i: usize = 0;
        while i < self.entries.len()
            invariant
                self.entries@.len() == other.entries@.len(),
                0 <= i <= self.entries@.len(),
                forall|k: int| 0 <= k < i ==> self@[k] == other@[k],
            decreases self.entries@.len() - i,
        {
            let same_key = self.entries[i].0.same(&other.entries[i].0);
            let same_value = self.entries[i].1.same(&other.entries[i].1);
            if !same_key || !same_value {
                assert(self@[i as int] != other@[i as int]);
                return false;
            }
            i = i + 1;
        }
        assert(self@ =~= other@);
        true
    }

    /// A table without entries.
    pub fn new() -> (t: LuaTable)
        ensures
            t@ == Seq::<(LuaValue, LuaValue)>::empty(),
    {
        let t = LuaTable { entries: Vec::new() };
        assert(t@ =~= Seq::<(LuaValue, LuaValue)>::empty());
        t
    }

    /// Number of entries, whose keys are pairwise different.
    pub fn len(&self) -> (n: usize)
        ensures
            n == self@.len(),
            distinct_keys(self@),
    {
        proof {
            use_type_invariant(self);
        }
        self.entries.len()
    }

    /// Key and value of the entry at `i`.
    pub fn entry(&self, i: usize) -> (e: (&LuaObject, &LuaObject))
        requires
            i < self@.len(),
        ensures
            e.0@ == self@[i as int].0,
            e.1@ == self@[i as int].1,
    {
        (&self.entries[i].0, &self.entries[i].1)
    }

    /// Index of the entry with `key`, or the number of entries.
    fn position(&self, key: &LuaObject) -> (i: usize)
        ensures
            i == find_key(self@, key@, 0),
            i <= self@.len(),
    {
        let mut i: usize = 0;
        while i < self.entries.len()
            invariant
                0 <= i <= self.entries@.len(),
                forall|k: int| 0 <= k < i ==> self@[k].0 != key@,
            decreases self.entries@.len() - i,
        {
            if self.entries[i].0.same(key) {
                proof {
                    lemma_find_key_is(self@, key@, 0, i as int);
                }
                return i;
            }
            i = i + 1;
        }
        proof {
            lemma_find_key_is(self@, key@, 0, i as int);
        }
        i
    }

    /// The value under `key`.
    pub fn get(&self, key: &LuaObject) -> (v: Option<&LuaObject>)
        ensures
            match v {
                Some(value) => table_get(self@, key@) == Some(value@),
                None => table_get(self@, key@) is None,
            },
    {
        let i = self.position(key);
        if i < self.entries.len() {
            Some(&self.entries[i].1)
        } else {
            None
        }
    }

    /// Sets `key` to `value`. A key that the table holds keeps its place and
    /// gets the new value; a new key goes to the end.
    pub fn insert(&mut self, key: LuaObject, value: LuaObject)
        ensures
            final(self)@ == table_put(old(self)@, key@, value@),
    {
        proof {
            use_type_invariant(&*self);
            lemma_table_put(self@, key@, value@);
        }
        let i = self.position(&key);
        let ghost before = self@;
        let ghost k = key@;
        let ghost v = value@;
        let mut taken = LuaTable::new();
        std::mem::swap(self, &mut taken);
        let mut entries = taken.entries;
        if i < entries.len() {
            entries.set(i, (key, value));
        } else {
            entries.push((key, value));
        }
        assert(pairs_value(entries@) =~= table_put(before, k, v));
        *self = LuaTable { entries };
    }
}

/// Decodes the embedded value at the cursor, with tables nested at most
/// `depth` deep.
fn read_value(r: &mut Reader, depth: usize) -> (res: Result<LuaObject, ReplayReadError>)
    ensures
        final(r).input() == old(r).input(),
        yields(
            res,
            final(r).offset(),
            value_at(old(r).input(), old(r).offset(), depth as nat),
            old(r).offset(),
        ),
    decreases old(r).input().len() - old(r).offset(), 1int,
{
    let mut probe = *r;
    let tag = probe.read_u8()?;
    let value = if tag == TAG_FLOAT {
        LuaObject::Float(probe.read_f32()?)
    } else if tag == TAG_BYTE_STRING {
        LuaObject::ByteString(probe.read_cstring_bytes()?)
    } else if tag == TAG_TEXT {
        LuaObject::Text(probe.read_cstring()?)
    } else if tag == TAG_NIL {
        LuaObject::Nil
    } else if tag == TAG_BOOL {
        LuaObject::Bool(probe.read_bool()?)
    } else if tag == TAG_TABLE {
        if depth == 0 {
            return Err(ReplayReadError::Malformed(Malformation::DepthExceeded));
        }
        LuaObject::Table(read_entries(&mut probe, depth - 1)?)
    } else if tag == TAG_END {
        return Err(ReplayReadError::Malformed(Malformation::UnexpectedTableEnd));
    } else {
        return Err(ReplayReadError::Malformed(Malformation::UnknownValueTag));
    };
    *r = probe;
    Ok(value)
}

/// Decodes the entries of a table up to and with its end marker.
fn read_entries(r: &mut Reader, depth: usize) -> (res: Result<LuaTable, ReplayReadError>)
    ensures
        final(r).input() == old(r).input(),
        yields(
            res,
            final(r).offset(),
            entries_at(old(r).input(), old(r).offset(), depth as nat, Seq::empty()),
            old(r).offset(),
        ),
    decreases old(r).input().len() - old(r).offset(), 2int,
{
    let ghost s = r.input();
    let ghost start = r.offset();
    let mut probe = *r;
    let mut table = LuaTable::new();
    let _ = probe.position();
    loop
        invariant
            probe.input() == s,
            r.input() == s,
            r.offset() == start,
            old(r).input() == s,
            old(r).offset() == start,
            start <= probe.offset() <= s.len(),
            entries_at(s, start, depth as nat, Seq::empty()) == entries_at(
                s,
                probe.offset(),
                depth as nat,
                table@,
            ),
        decreases s.len() - probe.offset(),
    {
        let ghost here = probe.offset();
        let mut peek = probe;
        let tag = peek.read_u8()?;
        if tag == TAG_END {
            *r = peek;
            return Ok(table);
        }
        proof {
            lemma_value_advances(s, here, depth as nat);
        }
        let key = read_value(&mut probe, depth)?;
        proof {
            lemma_value_advances(s, probe.offset(), depth as nat);
        }
        let value = read_value(&mut probe, depth)?;
        table.insert(key, value);
    }
}

/// Decodes the embedded value at the cursor.
pub fn read_lua_object(r: &mut Reader) -> (res: Result<LuaObject, ReplayReadError>)
    ensures
        final(r).input() == old(r).input(),
        yields(
            res,
            final(r).offset(),
            lua_at(old(r).input(), old(r).offset()),
            old(r).offset(),
        ),
{
    read_value(r, MAX_TABLE_DEPTH)
}

} // verus!
