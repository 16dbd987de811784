//! Token types produced by the decoder and the encoder for outgoing
//! escape sequences.

use vstd::prelude::*;

verus! {

/// The byte that introduces an escape sequence.
pub const ESC_ASCII: u8 = 0x1b;

/// The second byte of a cursor-movement escape sequence (`[`).
pub const ESC_CSI_ASCII: u8 = 0x5b;

/// The full length in bytes of a recognized incoming escape sequence:
/// the two-byte prefix `ESC [` followed by one selector byte.
pub const MAX_ESC_SEQ_LENGTH: usize = 3;

/// A recognized incoming control sequence.
///
/// The decoder only ever produces a repeat count of 1; the count is carried
/// as a field so that the type can also describe repeated movements.
/// A selector byte outside the recognized table maps to `Unknown`.
#[derive(Debug, Clone, Copy, PartialEq, Eq, PartialOrd, Ord, Structural)]
pub enum StdinEscSeq {
    MoveUp(u32),
    MoveRight(u32),
    MoveDown(u32),
    MoveLeft(u32),
    Unknown,
}

/// An outgoing control sequence that can be rendered to bytes.
#[derive(Debug, Clone, Copy, PartialEq, Eq, PartialOrd, Ord, Structural)]
pub enum StdoutEscSeq {
    MoveUp(u32),
    MoveRight(u32),
    MoveDown(u32),
    MoveLeft(u32),
    SaveScreen,
    RestoreScreen,
    SaveCursorPosition,
    RestorCursorPosition,
    EraseEntireScreen,
}

/// One decoded unit of terminal input: either a recognized escape sequence
/// or one Unicode scalar value, carried as its UTF-8 byte form (1-4 bytes).
#[derive(Debug, Clone, PartialEq, Eq, PartialOrd, Ord)]
pub enum Token {
    Esc(StdinEscSeq),
    Char(Vec<u8>),
}

/// The escape code selected by the third byte of an incoming escape
/// sequence: the fixed table `A -> up, B -> down, C -> right, D -> left`,
/// with every other byte mapping to `Unknown`.
pub open spec fn esc_code_of(selector: u8) -> StdinEscSeq {
    if selector == 0x41 {
        StdinEscSeq::MoveUp(1)
    } else if selector == 0x42 {
        StdinEscSeq::MoveDown(1)
    } else if selector == 0x43 {
        StdinEscSeq::MoveRight(1)
    } else if selector == 0x44 {
        StdinEscSeq::MoveLeft(1)
    } else {
        StdinEscSeq::Unknown
    }
}

impl StdinEscSeq {
    /// Tries to convert this to an `StdoutEscSeq` -- the four movement
    /// codes translate to the outgoing code of the same name, while
    /// `Unknown` has no outgoing counterpart.
    pub fn as_stdout_esc_seq(&self) -> (r: Option<StdoutEscSeq>)
        ensures
            r == match *self {
                StdinEscSeq::MoveUp(count) => Some(StdoutEscSeq::MoveUp(count)),
                StdinEscSeq::MoveRight(count) => Some(StdoutEscSeq::MoveRight(count)),
                StdinEscSeq::MoveDown(count) => Some(StdoutEscSeq::MoveDown(count)),
                StdinEscSeq::MoveLeft(count) => Some(StdoutEscSeq::MoveLeft(count)),
                StdinEscSeq::Unknown => None::<StdoutEscSeq>,
            },
    {
        match *self {
            Self::MoveUp(count) => Some(StdoutEscSeq::MoveUp(count)),
            Self::MoveRight(count) => Some(StdoutEscSeq::MoveRight(count)),
            Self::MoveDown(count) => Some(StdoutEscSeq::MoveDown(count)),
            Self::MoveLeft(count) => Some(StdoutEscSeq::MoveLeft(count)),
            Self::Unknown => None,
        }
    }
}

/// The shortest decimal digit string for `n`, as ASCII bytes.
pub open spec fn dec_rep(n: nat) -> Seq<u8>
    decreases n,
{
    if n < 10 {
        seq![(0x30 + n) as u8]
    } else {
        dec_rep(n / 10) + seq![(0x30 + n % 10) as u8]
    }
}

/// Appends the decimal digit string of `n` to `out`.
fn push_decimal(out: &mut Vec<u8>, n: u32)
    ensures
        final(out)@ == old(out)@ + dec_rep(n as nat),
    decreases n,
{
    if n >= 10 {
        push_decimal(out, n / 10);
    }
    out.push(0x30 + (n % 10) as u8);
    assert(out@ =~= old(out)@ + dec_rep(n as nat));
}

/// The byte rendering of an outgoing escape sequence: the `ESC [` prefix
/// followed by the sequence's parameters and selector, except for the two
/// cursor-position codes, which are the bare `ESC`-plus-code pairs.
pub open spec fn esc_seq_bytes(s: StdoutEscSeq) -> Seq<u8> {
    match s {
        StdoutEscSeq::MoveUp(count) => seq![ESC_ASCII, ESC_CSI_ASCII] + dec_rep(count as nat) + seq![0x41u8],
        StdoutEscSeq::MoveRight(count) => seq![ESC_ASCII, ESC_CSI_ASCII] + dec_rep(count as nat) + seq![0x43u8],
        StdoutEscSeq::MoveDown(count) => seq![ESC_ASCII, ESC_CSI_ASCII] + dec_rep(count as nat) + seq![0x42u8],
        StdoutEscSeq::MoveLeft(count) => seq![ESC_ASCII, ESC_CSI_ASCII] + dec_rep(count as nat) + seq![0x44u8],
        StdoutEscSeq::SaveScreen => seq![ESC_ASCII, ESC_CSI_ASCII, 0x3fu8, 0x34u8, 0x37u8, 0x68u8],
        StdoutEscSeq::RestoreScreen => seq![ESC_ASCII, ESC_CSI_ASCII, 0x3fu8, 0x34u8, 0x37u8, 0x6cu8],
        StdoutEscSeq::SaveCursorPosition => seq![ESC_ASCII, 7u8],
        StdoutEscSeq::RestorCursorPosition => seq![ESC_ASCII, 8u8],
        StdoutEscSeq::EraseEntireScreen => seq![ESC_ASCII, ESC_CSI_ASCII, 0x32u8, 0x4au8],
    }
}

impl StdoutEscSeq {
    /// Renders this sequence as the bytes to write to the terminal.
    pub fn as_bytes(&self) -> (r: Vec<u8>)
        ensures
            r@ == esc_seq_bytes(*self),
    {
        let mut out: Vec<u8> = Vec::new();
        match *self {
            Self::MoveUp(count) => {
                out.push(ESC_ASCII);
                out.push(ESC_CSI_ASCII);
                push_decimal(&mut out, count);
                out.push(0x41);
            },
            Self::MoveRight(count) => {
                out.push(ESC_ASCII);
                out.push(ESC_CSI_ASCII);
                push_decimal(&mut out, count);
                out.push(0x43);
            },
            Self::MoveDown(count) => {
                out.push(ESC_ASCII);
                out.push(ESC_CSI_ASCII);
                push_decimal(&mut out, count);
                out.push(0x42);
            },
            Self::MoveLeft(count) => {
                out.push(ESC_ASCII);
                out.push(ESC_CSI_ASCII);
                push_decimal(&mut out, count);
                out.push(0x44);
            },
            Self::SaveScreen => {
                out.push(ESC_ASCII);
                out.push(ESC_CSI_ASCII);
                out.push(0x3f);
                out.push(0x34);
                out.push(0x37);
                out.push(0x68);
            },
            Self::RestoreScreen => {
                out.push(ESC_ASCII);
                out.push(ESC_CSI_ASCII);
                out.push(0x3f);
                out.push(0x34);
                out.push(0x37);
                out.push(0x6c);
            },
            Self::SaveCursorPosition => {
                out.push(ESC_ASCII);
                out.push(7);
            },
            Self::RestorCursorPosition => {
                out.push(ESC_ASCII);
                out.push(8);
            },
            Self::EraseEntireScreen => {
                out.push(ESC_ASCII);
                out.push(ESC_CSI_ASCII);
                out.push(0x32);
                out.push(0x4a);
            },
        }
        assert(out@ =~= esc_seq_bytes(*self));
        out
    }
}

} // verus!
