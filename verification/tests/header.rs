use fafreplay::header::{decode_lua, read_header, read_lua_block};
use fafreplay::lua::{LuaObject, LuaTable};
use fafreplay::reader::{FloatBits, Reader};
use fafreplay::replay::{Army, Player, ReplayHeader};
use fafreplay::{body_offset, Malformation, ParserWrap, ReplayReadError};

fn block(content: &[u8]) -> Vec<u8> {
    let mut out = (content.len() as u32).to_le_bytes().to_vec();
    out.extend_from_slice(content);
    out
}

fn text(s: &str) -> LuaObject {
    LuaObject::Text(s.to_string())
}

fn mods_bytes() -> Vec<u8> {
    vec![5, 2, b'u', b'i', b'd', 0, 2, b'a', b'b', b'c', 0, 6]
}

fn mods() -> LuaObject {
    let mut t = LuaTable::new();
    t.insert(text("uid"), text("abc"));
    LuaObject::Table(t)
}

fn scenario_bytes() -> Vec<u8> {
    let mut out = vec![5, 2, b's', b'i', b'z', b'e', 0, 0];
    out.extend_from_slice(&512f32.to_le_bytes());
    out.extend_from_slice(&[2, b'n', b'a', b'm', b'e', 0, 1, b'S', b'e', b't', b'o', b'n', 0]);
    out.push(6);
    out
}

fn scenario() -> LuaObject {
    let mut t = LuaTable::new();
    t.insert(text("size"), LuaObject::Float(FloatBits { bits: 512f32.to_bits() }));
    t.insert(text("name"), LuaObject::ByteString(b"Seton".to_vec()));
    LuaObject::Table(t)
}

fn header_bytes() -> Vec<u8> {
    let mut out = vec![];
    out.extend_from_slice(b"Supreme Commander v1.50.3599\0");
    out.extend_from_slice(b"\r\n\0");
    out.push(0x0d);
    out.extend_from_slice(b"Replay v1.9\0");
    out.extend_from_slice(b"/maps/scmp_009/scmp_009.scmap\0");
    out.extend_from_slice(&block(&mods_bytes()));
    out.extend_from_slice(&block(&scenario_bytes()));
    out.push(2);
    out.extend_from_slice(b"alice\0");
    out.extend_from_slice(&1001u32.to_le_bytes());
    out.extend_from_slice("b\u{f6}b\0".as_bytes());
    out.extend_from_slice(&0xffff_ffffu32.to_le_bytes());
    out.push(1);
    out.push(3);
    out.extend_from_slice(&block(&[2, b'A', 0]));
    out.push(0);
    out.extend_from_slice(&block(&[3, 9, 9]));
    out.push(0xff);
    out.extend_from_slice(&block(&[5, 6]));
    out.push(0x80);
    out.extend_from_slice(&0xdead_beefu32.to_le_bytes());
    out
}

fn header() -> ReplayHeader {
    ReplayHeader {
        scfa_version: "Supreme Commander v1.50.3599".to_string(),
        replay_version: "Replay v1.9".to_string(),
        map_file: "/maps/scmp_009/scmp_009.scmap".to_string(),
        mods: mods(),
        scenario: scenario(),
        players: vec![
            Player { name: "alice".to_string(), id: 1001 },
            Player { name: "b\u{f6}b".to_string(), id: 0xffff_ffff },
        ],
        cheats_enabled: true,
        army_count: 3,
        armies: vec![
            Army { data: text("A"), source: Some(0) },
            Army { data: LuaObject::Nil, source: None },
            Army { data: LuaObject::Table(LuaTable::new()), source: Some(-128) },
        ],
        seed: 0xdead_beef,
    }
}

fn minimal_header_bytes() -> Vec<u8> {
    let mut out = vec![0, 0, 0x0d, 0, 0];
    out.extend_from_slice(&block(&[3]));
    out.extend_from_slice(&block(&[3]));
    out.extend_from_slice(&[0, 0, 0, 7, 0, 0, 0]);
    out
}

#[test]
fn header_decodes_field_by_field() {
    let bytes = header_bytes();
    let parser = ParserWrap::new(None, None, None, None);
    assert_eq!(parser.parse_header(&bytes), Ok(header()));
}

#[test]
fn header_has_as_many_armies_as_its_count() {
    let h = ParserWrap::new(None, None, None, None).parse_header(&header_bytes()).unwrap();
    assert_eq!(h.armies.len(), h.army_count as usize);
    assert_eq!(h.armies.len(), 3);
    let h = ParserWrap::new(None, None, None, None)
        .parse_header(&minimal_header_bytes())
        .unwrap();
    assert_eq!(h.armies.len(), h.army_count as usize);
    assert_eq!(h.armies.len(), 0);
}

#[test]
fn minimal_header() {
    let h = ParserWrap::new(None, None, None, None)
        .parse_header(&minimal_header_bytes())
        .unwrap();
    assert_eq!(
        h,
        ReplayHeader {
            scfa_version: String::new(),
            replay_version: String::new(),
            map_file: String::new(),
            mods: LuaObject::Nil,
            scenario: LuaObject::Nil,
            players: vec![],
            cheats_enabled: false,
            army_count: 0,
            armies: vec![],
            seed: 7,
        }
    );
    assert_eq!(body_offset(&minimal_header_bytes()), Ok(22));
}

#[test]
fn body_offset_is_where_the_header_stops() {
    let bytes = header_bytes();
    let mut r = Reader::new(&bytes);
    assert_eq!(read_header(&mut r), Ok(header()));
    assert_eq!(r.position(), bytes.len());
    assert_eq!(body_offset(&bytes), Ok(bytes.len()));
    let mut longer = bytes.clone();
    longer.extend_from_slice(&[0, 7, 0, 1, 0, 0, 0]);
    assert_eq!(body_offset(&longer), Ok(bytes.len()));
    let mut r = Reader::new(&longer);
    assert!(read_header(&mut r).is_ok());
    assert_eq!(r.position(), bytes.len());
}

#[test]
fn header_ignores_what_follows() {
    let mut bytes = header_bytes();
    bytes.extend_from_slice(&[24, 24, 24]);
    assert_eq!(
        ParserWrap::new(None, None, None, None).parse_header(&bytes),
        Ok(header())
    );
}

#[test]
fn truncated_header_fails_at_every_cut() {
    let bytes = header_bytes();
    let parser = ParserWrap::new(None, None, None, None);
    for k in 0..bytes.len() {
        assert_eq!(parser.parse_header(&bytes[..k]), Err(ReplayReadError::UnexpectedEof));
        assert_eq!(body_offset(&bytes[..k]), Err(ReplayReadError::UnexpectedEof));
        assert_eq!(parser.parse(&bytes[..k]), Err(ReplayReadError::UnexpectedEof));
    }
}

#[test]
fn header_without_separator() {
    let mut bytes = header_bytes();
    let at = b"Supreme Commander v1.50.3599\0\r\n\0".len();
    assert_eq!(bytes[at], 0x0d);
    bytes[at] = b' ';
    assert_eq!(
        ParserWrap::new(None, None, None, None).parse_header(&bytes),
        Err(ReplayReadError::Malformed(Malformation::MissingSeparator))
    );
    assert_eq!(
        body_offset(&bytes),
        Err(ReplayReadError::Malformed(Malformation::MissingSeparator))
    );
}

#[test]
fn header_with_bad_text() {
    let mut bytes = header_bytes();
    bytes[0] = 0xff;
    let mut raw = b"Supreme Commander v1.50.3599".to_vec();
    raw[0] = 0xff;
    assert_eq!(
        ParserWrap::new(None, None, None, None).parse_header(&bytes),
        Err(ReplayReadError::MalformedUtf8(raw, 0))
    );
    // The offset does not depend on what the texts hold.
    assert_eq!(body_offset(&bytes), Ok(bytes.len()));
}

#[test]
fn header_with_bad_value_in_a_block() {
    let mut out = vec![0, 0, 0x0d, 0, 0];
    out.extend_from_slice(&block(&[9]));
    out.extend_from_slice(&block(&[3]));
    out.extend_from_slice(&[0, 0, 0, 7, 0, 0, 0]);
    assert_eq!(
        ParserWrap::new(None, None, None, None).parse_header(&out),
        Err(ReplayReadError::Malformed(Malformation::UnknownValueTag))
    );
    assert_eq!(body_offset(&out), Ok(out.len()));

    let mut out = vec![0, 0, 0x0d, 0, 0];
    out.extend_from_slice(&block(&[6]));
    out.extend_from_slice(&block(&[3]));
    out.extend_from_slice(&[0, 0, 0, 7, 0, 0, 0]);
    assert_eq!(
        ParserWrap::new(None, None, None, None).parse_header(&out),
        Err(ReplayReadError::Malformed(Malformation::UnexpectedTableEnd))
    );
}

#[test]
fn value_that_its_block_cuts_off() {
    let mut out = vec![0, 0, 0x0d, 0, 0];
    out.extend_from_slice(&block(&[5, 3]));
    out.extend_from_slice(&block(&[3]));
    out.extend_from_slice(&[0, 0, 0, 7, 0, 0, 0]);
    assert_eq!(
        ParserWrap::new(None, None, None, None).parse_header(&out),
        Err(ReplayReadError::UnexpectedEof)
    );
    let empty = block(&[]);
    let mut r = Reader::new(&empty);
    assert_eq!(read_lua_block(&mut r), Err(ReplayReadError::UnexpectedEof));
    assert_eq!(r.position(), 0);
}

#[test]
fn block_may_be_longer_than_its_value() {
    assert_eq!(decode_lua(&[4, 1, 0xff, 0xff]), Ok(LuaObject::Bool(true)));
    let bytes = block(&[4, 1, 0xff, 0xff]);
    let mut r = Reader::new(&bytes);
    assert_eq!(read_lua_block(&mut r), Ok(LuaObject::Bool(true)));
    assert_eq!(r.position(), 8);
}
