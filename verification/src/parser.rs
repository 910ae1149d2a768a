//! The configured parser: what to decode, what to keep, when to stop.

use vstd::prelude::*;
use vstd::slice::slice_subrange;
use crate::body::{body_of, decode_body, Options};
use crate::constants::MAX;
use crate::error::{Failure, ReplayReadError};
use crate::header::{header_at, header_of, read_header};
use crate::reader::Reader;
use crate::replay::{Replay, ReplayBody, ReplayHeader, ReplayValue};

verus! {

/// The tags of all commands.
pub open spec fn all_tags() -> Set<u8> {
    Set::new(|t: u8| t < MAX)
}

/// The tags that occur in `tags`.
pub open spec fn tags_of(tags: Seq<u8>) -> Set<u8> {
    Set::new(|t: u8| tags.contains(t))
}

/// The replay that `s` holds: its header, and the body that the bytes behind
/// the header hold.
pub open spec fn replay_of(s: Seq<u8>, options: Options) -> Result<ReplayValue, Failure> {
    match header_at(s, 0) {
        Err(e) => Err(e),
        Ok((header, end)) => match body_of(s.subrange(end, s.len() as int), options) {
            Err(e) => Err(e),
            Ok(body) => Ok(ReplayValue { header, body }),
        },
    }
}

/// A parser with its configuration, which nothing changes once it is made.
#[derive(Debug)]
pub struct ParserWrap {
    limit: Option<usize>,
    commands: Vec<u8>,
    save_commands: bool,
    stop_on_desync: bool,
}

impl View for ParserWrap {
    type V = Options;

    closed spec fn view(&self) -> Options {
        Options {
            limit: self.limit,
            commands: tags_of(self.commands@),
            save_commands: self.save_commands,
            stop_on_desync: self.stop_on_desync,
        }
    }
}

impl ParserWrap {
    /// A parser that decodes at most `limit` commands, or all of them where
    /// `limit` is `None`; keeps the commands whose tag is in `commands`, or
    /// those of every tag where `commands` is `None`, and keeps them only if
    /// `save_commands` is true, which it is not unless given; and fails at
    /// the first desync if `stop_on_desync` is true, which it is unless given.
    pub fn new(
        limit: Option<usize>,
        commands: Option<Vec<u8>>,
        save_commands: Option<bool>,
        stop_on_desync: Option<bool>,
    ) -> (p: ParserWrap)
        ensures
            p@.limit == limit,
            p@.commands == match commands {
                Some(tags) => tags_of(tags@),
                None => all_tags(),
            },
            p@.save_commands == match save_commands {
                Some(b) => b,
                None => false,
            },
            p@.stop_on_desync == match stop_on_desync {
                Some(b) => b,
                None => true,
            },
    {
        let tags = match commands {
            Some(tags) => tags,
            None => {
                let mut tags: Vec<u8> = Vec::new();
                let mut t: u8 = 0;
                while t < MAX
                    invariant
                        t <= MAX,
                        tags@.len() == t,
                        forall|i: int| 0 <= i < t ==> tags@[i] == i,
                    decreases MAX - t,
                {
                    tags.push(t);
                    t = t + 1;
                }
                assert(tags_of(tags@) =~= all_tags()) by {
                    assert forall|x: u8| x < MAX implies tags@.contains(x) by {
                        assert(tags@[x as int] == x);
                    }
                }
                tags
            },
        };
        ParserWrap {
            limit,
            commands: tags,
            save_commands: match save_commands {
                Some(b) => b,
                None => false,
            },
            stop_on_desync: match stop_on_desync {
                Some(b) => b,
                None => true,
            },
        }
    }

    /// The largest number of commands that are decoded.
    pub fn limit(&self) -> (l: Option<usize>)
        ensures
            l == self@.limit,
    {
        self.limit
    }

    /// Whether commands are kept at all.
    pub fn save_commands(&self) -> (b: bool)
        ensures
            b == self@.save_commands,
    {
        self.save_commands
    }

    /// Whether the first desync ends decoding with a failure.
    pub fn stop_on_desync(&self) -> (b: bool)
        ensures
            b == self@.stop_on_desync,
    {
        self.stop_on_desync
    }

    /// Whether commands with tag `tag` are among those to keep.
    pub fn selects(&self, tag: u8) -> (b: bool)
        ensures
            b == self@.commands.contains(tag),
    {
        let mut i: usize = 0;
        while i < self.commands.len()
            invariant
                0 <= i <= self.commands@.len(),
                forall|k: int| 0 <= k < i ==> self.commands@[k] != tag,
            decreases self.commands@.len() - i,
        {
            if self.commands[i] == tag {
                return true;
            }
            i = i + 1;
        }
        false
    }

    /// Decodes a whole replay.
    pub fn parse(&self, data: &[u8]) -> (res: Result<Replay, ReplayReadError>)
        ensures
            match replay_of(data@, self@) {
                Ok(replay) => res is Ok && res->Ok_0@ == replay && replay.header.wf()
                    && replay.body.sim.wf(),
                Err(e) => res is Err && res->Err_0@ == e,
            },
    {
        let mut r = Reader::new(data);
        let header = read_header(&mut r)?;
        let rest = slice_subrange(data, r.position(), data.len());
        let body = decode_body(rest, self)?;
        Ok(Replay { header, body })
    }

    /// Decodes the header that `data` starts with. What follows the header
    /// is not looked at.
    pub fn parse_header(&self, data: &[u8]) -> (res: Result<ReplayHeader, ReplayReadError>)
        ensures
            match header_of(data@) {
                Ok(header) => res is Ok && res->Ok_0@ == header && header.wf(),
                Err(e) => res is Err && res->Err_0@ == e,
            },
    {
        let mut r = Reader::new(data);
        read_header(&mut r)
    }

    /// Decodes a replay body that starts at the first byte of `data`.
    pub fn parse_body(&self, data: &[u8]) -> (res: Result<ReplayBody, ReplayReadError>)
        ensures
            match body_of(data@, self@) {
                Ok(body) => res is Ok && res->Ok_0@ == body && body.sim.wf(),
                Err(e) => res is Err && res->Err_0@ == e,
            },
    {
        decode_body(data, self)
    }
}

} // verus!
