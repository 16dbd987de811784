//! The incremental stream decoder.
//!
//! A [`TokenReader`] owns a fixed-capacity byte buffer and a read cursor.
//! The byte source (the caller's read loop) hands it raw chunks through
//! [`TokenReader::feed`]; [`TokenReader::next`] produces the next decoded
//! unit from the buffered bytes, or reports that it needs another chunk
//! before it can decide.  Its behaviour is exactly the model in
//! [`crate::decode`]: what `next` produces is `spec_step` of the current
//! window, and `feed` appends the chunk to the window, compacting the
//! buffer without losing or duplicating a byte.

use vstd::prelude::*;
use vstd::utf8::*;

use crate::decode::{leading_len, spec_step, SpecStep, SpecTok};
use crate::token::{Token, ESC_ASCII, ESC_CSI_ASCII};

verus! {

/// The size of the TokenReader's internal buffer.
pub const BUF_SIZE: usize = 4096;

/// What one call to [`TokenReader::next`] can report.
#[derive(Debug, Clone, PartialEq, Eq)]
pub enum DecodeStep {
    /// One decoded token, consuming its bytes from the buffer.
    Tok(Token),
    /// One byte that cannot begin a well-formed token, consumed alone;
    /// carries the offending byte.
    Malformed(u8),
    /// Nothing can be decided from the buffered bytes: feed another chunk.
    NeedMore,
    /// The source is exhausted and every buffered byte has been consumed.
    EndOfStream,
}

/// True when the step `step` reports exactly the unit `tok` of the
/// decoder model.
pub open spec fn step_produces(step: DecodeStep, tok: SpecTok) -> bool {
    match step {
        DecodeStep::Tok(t) => match t {
            Token::Esc(e) => tok == SpecTok::Esc(e),
            Token::Char(v) => tok == SpecTok::Char(v@),
        },
        DecodeStep::Malformed(b) => tok == SpecTok::Malformed(b),
        DecodeStep::NeedMore => false,
        DecodeStep::EndOfStream => false,
    }
}

/// The incremental decoder: a fixed-capacity buffer, the window of
/// unconsumed bytes inside it, and the end-of-stream flag.
///
/// The two ghost fields log every byte ever consumed by token production
/// and every byte ever supplied by the source; the well-formedness
/// invariant ties them to the window, which is how the crate states that
/// buffer compaction never loses or duplicates bytes.
pub struct TokenReader {
    buf: Vec<u8>,
    index: usize,
    end: usize,
    eof: bool,
    consumed: Ghost<Seq<u8>>,
    supplied: Ghost<Seq<u8>>,
}

impl TokenReader {
    /// The window of unconsumed bytes, in arrival order.
    pub closed spec fn window(self) -> Seq<u8> {
        self.buf@.subrange(self.index as int, self.end as int)
    }

    /// True once the byte source has reported end of stream.
    pub closed spec fn at_eof(self) -> bool {
        self.eof
    }

    /// Every byte consumed by token production so far, in order.
    pub closed spec fn consumed_bytes(self) -> Seq<u8> {
        self.consumed@
    }

    /// Every byte the source has supplied so far, in order.
    pub closed spec fn supplied_bytes(self) -> Seq<u8> {
        self.supplied@
    }

    /// The reader's invariant: the cursor and window are inside the
    /// fixed-size buffer, and the consumed bytes followed by the window
    /// are exactly the supplied bytes.
    pub closed spec fn wf(self) -> bool {
        &&& self.buf@.len() == BUF_SIZE
        &&& self.index <= self.end <= BUF_SIZE
        &&& self.consumed@ + self.window() == self.supplied@
    }

    /// Creates a reader with an empty window.
    pub fn new() -> (r: Self)
        ensures
            r.wf(),
            r.window() == Seq::<u8>::empty(),
            !r.at_eof(),
            r.consumed_bytes() == Seq::<u8>::empty(),
            r.supplied_bytes() == Seq::<u8>::empty(),
    {
        let mut buf: Vec<u8> = Vec::new();
        let mut i: usize = 0;
        while i < BUF_SIZE
            invariant
                i <= BUF_SIZE,
                buf@.len() == i,
            decreases BUF_SIZE - i,
        {
            buf.push(0);
            i += 1;
        }
        let r = TokenReader {
            buf,
            index: 0,
            end: 0,
            eof: false,
            consumed: Ghost(Seq::empty()),
            supplied: Ghost(Seq::empty()),
        };
        proof {
            assert(r.window() =~= Seq::<u8>::empty());
            assert(r.consumed@ + r.window() =~= r.supplied@);
        }
        r
    }

    /// The number of unconsumed bytes currently buffered.
    pub fn bytes_left(&self) -> (n: usize)
        requires
            self.wf(),
        ensures
            n == self.window().len(),
    {
        self.end - self.index
    }

    /// How many more bytes the next refill may supply: the buffer's
    /// capacity minus the unconsumed window that compaction preserves.
    pub fn capacity_left(&self) -> (n: usize)
        requires
            self.wf(),
        ensures
            n == BUF_SIZE - self.window().len(),
    {
        BUF_SIZE - (self.end - self.index)
    }

    /// Accepts the next chunk from the byte source.
    ///
    /// Compacts the unconsumed bytes to the front of the buffer and
    /// appends the chunk after them, so the new window is exactly the old
    /// window followed by the chunk.  An empty chunk is the source's
    /// end-of-stream report and puts the reader into its terminal state.
    pub fn feed(&mut self, bytes: &[u8])
        requires
            old(self).wf(),
            !old(self).at_eof(),
            old(self).window().len() + bytes@.len() <= BUF_SIZE,
        ensures
            final(self).wf(),
            final(self).window() == old(self).window() + bytes@,
            final(self).at_eof() == (bytes@.len() == 0),
            final(self).consumed_bytes() == old(self).consumed_bytes(),
            final(self).supplied_bytes() == old(self).supplied_bytes() + bytes@,
    {
        let ghost pre = *self;
        let n = self.end - self.index;

        // compact: move the window to offset 0
        let mut i: usize = 0;
        while i < n
            invariant
                i <= n,
                n == pre.end - pre.index,
                self.index == pre.index,
                self.end == pre.end,
                self.eof == pre.eof,
                self.consumed == pre.consumed,
                self.supplied == pre.supplied,
                self.buf@.len() == BUF_SIZE,
                pre.wf(),
                forall|j: int| 0 <= j < i ==> self.buf@[j] == pre.window()[j],
                forall|j: int| i <= j < n ==> self.buf@[pre.index + j] == pre.window()[j],
            decreases n - i,
        {
            let b = self.buf[self.index + i];
            self.buf.set(i, b);
            i += 1;
        }
        self.index = 0;
        self.end = n;

        // append the chunk after the compacted window
        let mut j: usize = 0;
        while j < bytes.len()
            invariant
                j <= bytes@.len(),
                n + bytes@.len() <= BUF_SIZE,
                self.index == 0,
                self.end == n,
                self.eof == pre.eof,
                self.consumed == pre.consumed,
                self.supplied == pre.supplied,
                self.buf@.len() == BUF_SIZE,
                n <= BUF_SIZE,
                forall|k: int| 0 <= k < n ==> self.buf@[k] == pre.window()[k],
                forall|k: int| 0 <= k < j ==> self.buf@[n + k] == bytes@[k],
            decreases bytes@.len() - j,
        {
            let b = bytes[j];
            self.buf.set(n + j, b);
            j += 1;
        }
        self.end = n + bytes.len();
        if bytes.len() == 0 {
            self.eof = true;
        }
        self.supplied = Ghost(self.supplied@ + bytes@);
        proof {
            assert(self.window() =~= pre.window() + bytes@);
            assert(self.consumed@ + self.window() =~= self.supplied@);
        }
    }

    /// Consumes the leading byte of the window alone, reporting it as the
    /// byte that could not begin a well-formed token.
    fn consume_one(&mut self) -> (b: u8)
        requires
            old(self).wf(),
            old(self).window().len() >= 1,
        ensures
            final(self).wf(),
            b == old(self).window()[0],
            final(self).window() == old(self).window().skip(1),
            final(self).consumed_bytes() == old(self).consumed_bytes() + old(self).window().take(1),
            final(self).at_eof() == old(self).at_eof(),
            final(self).supplied_bytes() == old(self).supplied_bytes(),
    {
        let ghost pre = *self;
        let b = self.buf[self.index];
        self.index = self.index + 1;
        self.consumed = Ghost(self.consumed@ + pre.window().take(1));
        proof {
            assert(self.window() =~= pre.window().skip(1));
            assert(self.consumed@ + self.window() =~= self.supplied@);
        }
        b
    }

    /// Consumes a complete `ESC [ selector` sequence and returns the
    /// escape code that the selector byte picks from the fixed table.
    fn read_esc_seq(&mut self) -> (r: crate::token::StdinEscSeq)
        requires
            old(self).wf(),
            old(self).window().len() >= 3,
            old(self).window()[0] == ESC_ASCII,
            old(self).window()[1] == ESC_CSI_ASCII,
        ensures
            final(self).wf(),
            r == crate::token::esc_code_of(old(self).window()[2]),
            final(self).window() == old(self).window().skip(3),
            final(self).consumed_bytes() == old(self).consumed_bytes() + old(self).window().take(3),
            final(self).at_eof() == old(self).at_eof(),
            final(self).supplied_bytes() == old(self).supplied_bytes(),
    {
        let ghost pre = *self;
        let selector = self.buf[self.index + 2];
        self.index = self.index + 3;
        self.consumed = Ghost(self.consumed@ + pre.window().take(3));
        proof {
            assert(self.window() =~= pre.window().skip(3));
            assert(self.consumed@ + self.window() =~= self.supplied@);
        }
        if selector == 0x41 {
            crate::token::StdinEscSeq::MoveUp(1)
        } else if selector == 0x42 {
            crate::token::StdinEscSeq::MoveDown(1)
        } else if selector == 0x43 {
            crate::token::StdinEscSeq::MoveRight(1)
        } else if selector == 0x44 {
            crate::token::StdinEscSeq::MoveLeft(1)
        } else {
            crate::token::StdinEscSeq::Unknown
        }
    }

    /// Consumes `len` bytes and returns them: the byte form of one
    /// decoded scalar.
    fn read_char(&mut self, len: usize) -> (r: Vec<u8>)
        requires
            old(self).wf(),
            1 <= len <= old(self).window().len(),
        ensures
            final(self).wf(),
            r@ == old(self).window().take(len as int),
            final(self).window() == old(self).window().skip(len as int),
            final(self).consumed_bytes() == old(self).consumed_bytes() + old(self).window().take(
                len as int,
            ),
            final(self).at_eof() == old(self).at_eof(),
            final(self).supplied_bytes() == old(self).supplied_bytes(),
    {
        let ghost pre = *self;
        let mut out: Vec<u8> = Vec::new();
        let mut i: usize = 0;
        while i < len
            invariant
                i <= len,
                len <= pre.window().len(),
                *self == pre,
                pre.wf(),
                out@.len() == i,
                forall|j: int| 0 <= j < i ==> out@[j] == pre.window()[j],
            decreases len - i,
        {
            let b = self.buf[self.index + i];
            out.push(b);
            i += 1;
        }
        self.index = self.index + len;
        self.consumed = Ghost(self.consumed@ + pre.window().take(len as int));
        proof {
            assert(out@ =~= pre.window().take(len as int));
            assert(self.window() =~= pre.window().skip(len as int));
            assert(self.consumed@ + self.window() =~= self.supplied@);
        }
        out
    }

    /// The byte length that the window's leading byte announces for a
    /// UTF-8 scalar encoding; 0 for a byte that cannot lead one.
    fn utf8_expected_len(b: u8) -> (l: usize)
        ensures
            l == leading_len(b),
    {
        if b <= 0x7f {
            1
        } else if b >= 0xc0 && b <= 0xdf {
            2
        } else if b >= 0xe0 && b <= 0xef {
            3
        } else if b >= 0xf0 && b <= 0xf7 {
            4
        } else {
            0
        }
    }

    /// Checks that the first `len` window bytes form a well-formed UTF-8
    /// encoding of a single scalar: correct continuation bytes, no
    /// overlong encoding, no surrogate, and not beyond the last scalar.
    fn check_scalar_at(&self, len: usize) -> (ok: bool)
        requires
            self.wf(),
            1 <= len <= self.window().len(),
            leading_len(self.window()[0]) == len,
        ensures
            ok == valid_first_scalar(self.window().take(len as int)),
    {
        let ghost t = self.window().take(len as int);
        let b0 = self.buf[self.index];
        if len == 1 {
            proof {
                assert(b0 & 0x7f == b0) by (bit_vector)
                    requires
                        b0 <= 0x7f,
                ;
            }
            true
        } else if len == 2 {
            let b1 = self.buf[self.index + 1];
            if !(b1 >= 0x80 && b1 <= 0xbf) {
                return false;
            }
            let cp: u32 = (((b0 & 0x1f) as u32) << 6u32) | ((b1 & 0x3f) as u32);
            proof {
                assert(cp == codepoint_width_2(b0, b1));
                assert((((b0 & 0x1f) as u32) << 6u32) | ((b1 & 0x3f) as u32) <= 0x7ff)
                    by (bit_vector);
            }
            cp >= 0x80
        } else if len == 3 {
            let b1 = self.buf[self.index + 1];
            let b2 = self.buf[self.index + 2];
            if !(b1 >= 0x80 && b1 <= 0xbf) || !(b2 >= 0x80 && b2 <= 0xbf) {
                return false;
            }
            let cp: u32 = (((b0 & 0x0f) as u32) << 12u32) | (((b1 & 0x3f) as u32) << 6u32) | ((b2
                & 0x3f) as u32);
            proof {
                assert(cp == codepoint_width_3(b0, b1, b2));
            }
            cp >= 0x800 && !(cp >= 0xd800 && cp <= 0xdfff)
        } else {
            let b1 = self.buf[self.index + 1];
            let b2 = self.buf[self.index + 2];
            let b3 = self.buf[self.index + 3];
            if !(b1 >= 0x80 && b1 <= 0xbf) || !(b2 >= 0x80 && b2 <= 0xbf) || !(b3 >= 0x80 && b3
                <= 0xbf) {
                return false;
            }
            let cp: u32 = (((b0 & 0x07) as u32) << 18u32) | (((b1 & 0x3f) as u32) << 12u32) | (((b2
                & 0x3f) as u32) << 6u32) | ((b3 & 0x3f) as u32);
            proof {
                assert(cp == codepoint_width_4(b0, b1, b2, b3));
            }
            cp >= 0x10000 && cp <= 0x10ffff
        }
    }

    /// If the window begins with a complete, well-formed scalar encoding
    /// (and not the escape byte), reports `(true, its byte length)`.
    fn can_read_char(&self) -> (r: (bool, usize))
        requires
            self.wf(),
            self.window().len() > 0,
        ensures
            ({
                let w = self.window();
                let l = leading_len(w[0]);
                &&& r.0 <==> (w[0] != ESC_ASCII && l != 0 && w.len() >= l && valid_first_scalar(
                    w.take(l),
                ))
                &&& r.0 ==> r.1 == l
            }),
    {
        let byte = self.buf[self.index];
        if byte == ESC_ASCII {
            return (false, 0);
        }
        let len = Self::utf8_expected_len(byte);
        if len == 0 {
            return (false, 0);
        }
        if self.end - self.index < len {
            return (false, 0);
        }
        (self.check_scalar_at(len), len)
    }

    /// Produces the next decoded unit from the buffered bytes.
    ///
    /// Exactly one of four things happens, decided by the model
    /// [`spec_step`] on the current window: a token is produced and its
    /// bytes consumed; a single malformed byte is consumed and reported;
    /// the reader asks for another chunk; or, with the source exhausted
    /// and the window empty, it reports end of stream.  The reader never
    /// consumes bytes it has not classified and never reorders output.
    pub fn next(&mut self) -> (step: DecodeStep)
        requires
            old(self).wf(),
        ensures
            final(self).wf(),
            final(self).at_eof() == old(self).at_eof(),
            final(self).supplied_bytes() == old(self).supplied_bytes(),
            (match spec_step(old(self).window(), old(self).at_eof()) {
                SpecStep::Produced { tok, used } => {
                    &&& step_produces(step, tok)
                    &&& final(self).window() == old(self).window().skip(used)
                    &&& final(self).consumed_bytes() == old(self).consumed_bytes() + old(
                        self,
                    ).window().take(used)
                },
                SpecStep::NeedMore => {
                    &&& step == (if old(self).at_eof() {
                        DecodeStep::EndOfStream
                    } else {
                        DecodeStep::NeedMore
                    })
                    &&& *final(self) == *old(self)
                },
            }),
    {
        let avail = self.end - self.index;
        if avail == 0 {
            if self.eof {
                return DecodeStep::EndOfStream;
            }
            return DecodeStep::NeedMore;
        }
        let b0 = self.buf[self.index];
        if b0 == ESC_ASCII {
            if avail >= 2 {
                if self.buf[self.index + 1] == ESC_CSI_ASCII {
                    if avail >= 3 {
                        let code = self.read_esc_seq();
                        return DecodeStep::Tok(Token::Esc(code));
                    }
                    // prefix present but the selector has not arrived yet
                    if !self.eof {
                        return DecodeStep::NeedMore;
                    }
                    return DecodeStep::Malformed(self.consume_one());
                }
                // ESC not followed by `[`: not a recognized sequence
                return DecodeStep::Malformed(self.consume_one());
            }
            // a lone ESC may yet become an escape sequence
            if !self.eof {
                return DecodeStep::NeedMore;
            }
            return DecodeStep::Malformed(self.consume_one());
        }
        let (ok, char_len) = self.can_read_char();
        if ok {
            let bytes = self.read_char(char_len);
            return DecodeStep::Tok(Token::Char(bytes));
        }
        let expected = Self::utf8_expected_len(b0);
        if expected != 0 && avail < expected && !self.eof {
            // the codepoint's bytes have not all arrived yet
            return DecodeStep::NeedMore;
        }
        DecodeStep::Malformed(self.consume_one())
    }

    /// Buffer management never loses or duplicates bytes: at every point,
    /// the bytes consumed by token production followed by the unconsumed
    /// window are exactly the bytes the source has supplied, in order.
    pub proof fn lemma_byte_conservation(r: TokenReader)
        requires
            r.wf(),
        ensures
            r.consumed_bytes() + r.window() == r.supplied_bytes(),
    {
    }
}

} // verus!
