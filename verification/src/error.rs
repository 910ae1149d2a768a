//! Failures that decoding can end in.

use vstd::prelude::*;

verus! {

/// A structural violation of the wire format.
#[derive(Clone, Copy, Debug, PartialEq, Eq, Structural)]
pub enum Malformation {
    /// A command frame starts with a tag outside the command table.
    UnknownCommandTag,
    /// A frame's size field disagrees with the bytes its payload decodes to.
    SizeMismatch,
    /// An embedded value starts with a tag outside the value table.
    UnknownValueTag,
    /// The table end marker stands where a value was expected.
    UnexpectedTableEnd,
    /// Tables are nested deeper than the decoder follows.
    DepthExceeded,
    /// The separator byte before the replay version is missing.
    MissingSeparator,
    /// A target starts with a discriminator outside the target table.
    UnknownTargetKind,
    /// The tick counter would leave the range of `u32`.
    TickOverflow,
}

/// A failed decode.
#[derive(Debug, PartialEq, Eq)]
pub enum ReplayReadError {
    /// The input ended inside a field or inside a command.
    UnexpectedEof,
    /// A text field does not hold UTF-8. The field's raw bytes are kept, and
    /// the number of bytes at their start that are valid UTF-8.
    MalformedUtf8(Vec<u8>, usize),
    /// Two command sources disagreed on the checksum of this tick.
    Desynced(u32),
    /// The input breaks the structure of the format.
    Malformed(Malformation),
}

/// Mathematical value of a [`ReplayReadError`].
pub enum Failure {
    UnexpectedEof,
    MalformedUtf8(Seq<u8>, int),
    Desynced(u32),
    Malformed(Malformation),
}

impl View for ReplayReadError {
    type V = Failure;

    open spec fn view(&self) -> Failure {
        match self {
            ReplayReadError::UnexpectedEof => Failure::UnexpectedEof,
            ReplayReadError::MalformedUtf8(bytes, valid) => Failure::MalformedUtf8(
                bytes@,
                *valid as int,
            ),
            ReplayReadError::Desynced(tick) => Failure::Desynced(*tick),
            ReplayReadError::Malformed(what) => Failure::Malformed(*what),
        }
    }
}

impl Malformation {
    /// The message of this violation.
    pub open spec fn text(self) -> Seq<char> {
        match self {
            Malformation::UnknownCommandTag => "unknown command tag"@,
            Malformation::SizeMismatch => "command size mismatch"@,
            Malformation::UnknownValueTag => "unknown value tag"@,
            Malformation::UnexpectedTableEnd => "table end marker outside a table"@,
            Malformation::DepthExceeded => "tables nested too deeply"@,
            Malformation::MissingSeparator => "missing separator before replay version"@,
            Malformation::UnknownTargetKind => "unknown target kind"@,
            Malformation::TickOverflow => "tick counter overflow"@,
        }
    }

    /// The message of this violation.
    pub fn message(self) -> (m: &'static str)
        ensures
            m@ == self.text(),
    {
        match self {
            Malformation::UnknownCommandTag => "unknown command tag",
            Malformation::SizeMismatch => "command size mismatch",
            Malformation::UnknownValueTag => "unknown value tag",
            Malformation::UnexpectedTableEnd => "table end marker outside a table",
            Malformation::DepthExceeded => "tables nested too deeply",
            Malformation::MissingSeparator => "missing separator before replay version",
            Malformation::UnknownTargetKind => "unknown target kind",
            Malformation::TickOverflow => "tick counter overflow",
        }
    }
}

} // verus!
