//! The mathematical model of the incremental decoder.
//!
//! [`spec_next`] says what the decoder does with a window of unconsumed
//! bytes: either it produces one output unit, consuming a definite non-zero
//! number of leading bytes, or it needs more bytes before it can decide.
//! [`spec_tokens`] drains a window of every unit producible without more
//! input, and [`run_tokens`] models a whole feed/decode session over a
//! sequence of input chunks.  The lemmas at the end state the decoder's
//! laws: a produced unit never changes when more bytes arrive, the output
//! of a session does not depend on how the input was split into chunks,
//! and a UTF-8 encoded text decodes to exactly its scalar values in order.

use vstd::prelude::*;
use vstd::utf8::*;

use crate::token::{esc_code_of, StdinEscSeq, ESC_ASCII, ESC_CSI_ASCII};

verus! {

/// One output unit of the decoder, at the specification level: a
/// recognized escape sequence, the byte form of one Unicode scalar value,
/// or a single byte that cannot begin a well-formed unit.
pub enum SpecTok {
    Esc(StdinEscSeq),
    Char(Seq<u8>),
    Malformed(u8),
}

/// What the decoder does with a window of unconsumed bytes: produce one
/// unit from the first `used` bytes, or wait for more input.
pub enum SpecStep {
    Produced { tok: SpecTok, used: int },
    NeedMore,
}

/// The byte length of a UTF-8 scalar encoding, as announced by its leading
/// byte's high-order bit pattern (`0xxxxxxx` is 1, `110xxxxx` is 2,
/// `1110xxxx` is 3, `11110xxx` is 4); 0 for a byte that cannot lead an
/// encoding.
pub open spec fn leading_len(b: u8) -> int {
    if is_leading_byte_width_1(b) {
        1
    } else if is_leading_byte_width_2(b) {
        2
    } else if is_leading_byte_width_3(b) {
        3
    } else if is_leading_byte_width_4(b) {
        4
    } else {
        0
    }
}

/// The decoder's decision on the window `w`, evaluated in priority order.
///
/// A window beginning with `ESC` is an escape sequence in the making: with
/// the full `ESC [ selector` present the sequence is produced, with a
/// well-formed but incomplete prefix the decoder waits, and an `ESC` not
/// followed by `[` is consumed alone as malformed.  Any other leading byte
/// is treated as UTF-8: the decoder waits until the announced number of
/// bytes is present, then produces either the scalar's byte form or, if
/// the bytes do not form a well-formed scalar encoding, the leading byte
/// alone as malformed.
pub open spec fn spec_next(w: Seq<u8>) -> SpecStep {
    if w.len() == 0 {
        SpecStep::NeedMore
    } else if w[0] == ESC_ASCII {
        if w.len() < 2 {
            SpecStep::NeedMore
        } else if w[1] == ESC_CSI_ASCII {
            if w.len() < 3 {
                SpecStep::NeedMore
            } else {
                SpecStep::Produced { tok: SpecTok::Esc(esc_code_of(w[2])), used: 3 }
            }
        } else {
            SpecStep::Produced { tok: SpecTok::Malformed(ESC_ASCII), used: 1 }
        }
    } else {
        let l = leading_len(w[0]);
        if l == 0 {
            SpecStep::Produced { tok: SpecTok::Malformed(w[0]), used: 1 }
        } else if w.len() < l {
            SpecStep::NeedMore
        } else if valid_first_scalar(w.take(l)) {
            SpecStep::Produced { tok: SpecTok::Char(w.take(l)), used: l }
        } else {
            SpecStep::Produced { tok: SpecTok::Malformed(w[0]), used: 1 }
        }
    }
}

/// The decoder's decision including the end-of-stream policy: once the
/// source is exhausted, a window that would otherwise wait for more bytes
/// is drained one leading byte at a time as malformed.
pub open spec fn spec_step(w: Seq<u8>, eof: bool) -> SpecStep {
    match spec_next(w) {
        SpecStep::Produced { tok, used } => SpecStep::Produced { tok, used },
        SpecStep::NeedMore => if !eof || w.len() == 0 {
            SpecStep::NeedMore
        } else {
            SpecStep::Produced { tok: SpecTok::Malformed(w[0]), used: 1 }
        },
    }
}

/// Every unit the decoder can produce from `w` without further input,
/// in order.
pub open spec fn spec_tokens(w: Seq<u8>) -> Seq<SpecTok>
    decreases w.len(),
{
    match spec_next(w) {
        SpecStep::Produced { tok, used } => if 1 <= used <= w.len() {
            seq![tok] + spec_tokens(w.skip(used))
        } else {
            // never reached: a produced unit consumes between 1 and w.len() bytes
            seq![]
        },
        SpecStep::NeedMore => seq![],
    }
}

/// The bytes left over after draining `w` with [`spec_tokens`]: the
/// longest suffix on which the decoder waits for more input.
pub open spec fn spec_rest(w: Seq<u8>) -> Seq<u8>
    decreases w.len(),
{
    match spec_next(w) {
        SpecStep::Produced { tok, used } => if 1 <= used <= w.len() {
            spec_rest(w.skip(used))
        } else {
            w
        },
        SpecStep::NeedMore => w,
    }
}

/// The output of a whole session: starting from window `w`, drain, feed
/// the next chunk into what is left over, and repeat until the chunks are
/// exhausted.  This is what a caller sees who alternates `next` and `feed`
/// on a reader, feeding the chunks in order.
pub open spec fn run_tokens(w: Seq<u8>, chunks: Seq<Seq<u8>>) -> Seq<SpecTok>
    decreases chunks.len(),
{
    if chunks.len() == 0 {
        spec_tokens(w)
    } else {
        spec_tokens(w) + run_tokens(spec_rest(w) + chunks.first(), chunks.drop_first())
    }
}

/// A produced unit consumes at least one byte and no more than the window
/// holds.
pub proof fn lemma_spec_next_used_in_range(w: Seq<u8>)
    ensures
        spec_next(w) matches SpecStep::Produced { used, .. } ==> 1 <= used <= w.len(),
{
}

/// A unit the decoder has produced is final: however many bytes arrive
/// afterwards, the same unit is produced from the same number of bytes.
pub proof fn lemma_spec_next_stable(w: Seq<u8>, ext: Seq<u8>)
    ensures
        spec_next(w) is Produced ==> spec_next(w + ext) == spec_next(w),
{
    if spec_next(w) is Produced {
        let v = w + ext;
        assert(forall|i: int| 0 <= i < w.len() ==> v[i] == w[i]);
        if w[0] != ESC_ASCII {
            let l = leading_len(w[0]);
            if l != 0 && w.len() >= l {
                assert(v.take(l) =~= w.take(l));
            }
        }
    }
}

/// Draining `w + ext` produces first the units drained from `w` alone,
/// then the units drained from `w`'s leftover followed by `ext`; the
/// leftovers agree likewise.  This is split-invariance for a single feed
/// boundary.
pub proof fn lemma_tokens_extend(w: Seq<u8>, ext: Seq<u8>)
    ensures
        spec_tokens(w + ext) == spec_tokens(w) + spec_tokens(spec_rest(w) + ext),
        spec_rest(w + ext) == spec_rest(spec_rest(w) + ext),
    decreases w.len(),
{
    lemma_spec_next_used_in_range(w);
    match spec_next(w) {
        SpecStep::Produced { tok, used } => {
            lemma_spec_next_stable(w, ext);
            assert((w + ext).skip(used) =~= w.skip(used) + ext);
            lemma_tokens_extend(w.skip(used), ext);
            assert(spec_tokens(w + ext) =~= spec_tokens(w) + spec_tokens(spec_rest(w) + ext));
        },
        SpecStep::NeedMore => {
        },
    }
}

/// A session's output equals the output of decoding all its input in one
/// piece.
pub proof fn lemma_run_tokens_concat(w: Seq<u8>, chunks: Seq<Seq<u8>>)
    ensures
        run_tokens(w, chunks) == spec_tokens(w + chunks.flatten()),
    decreases chunks.len(),
{
    if chunks.len() == 0 {
        assert(w + chunks.flatten() =~= w);
    } else {
        let first = chunks.first();
        let rest_flat = chunks.drop_first().flatten();
        lemma_run_tokens_concat(spec_rest(w) + first, chunks.drop_first());
        lemma_tokens_extend(w, first + rest_flat);
        assert((spec_rest(w) + first) + rest_flat =~= spec_rest(w) + (first + rest_flat));
        assert(w + chunks.flatten() =~= w + (first + rest_flat));
    }
}

/// Split-invariance: for any division of a byte stream into chunks, a
/// session that feeds the chunks one at a time produces exactly the units
/// that the whole stream produces when decoded in one piece.
pub proof fn lemma_split_invariance(chunks: Seq<Seq<u8>>)
    ensures
        run_tokens(Seq::empty(), chunks) == spec_tokens(chunks.flatten()),
{
    lemma_run_tokens_concat(Seq::empty(), chunks);
    assert(Seq::<u8>::empty() + chunks.flatten() =~= chunks.flatten());
}

/// A well-formed scalar encoding at the head of a window is already
/// decided by its own bytes: truncating the window to exactly the
/// encoding keeps it well-formed, with the same scalar.
proof fn lemma_valid_first_scalar_take(w: Seq<u8>, l: int)
    requires
        valid_first_scalar(w),
        l == length_of_first_scalar(w),
        w.len() >= l,
    ensures
        valid_first_scalar(w.take(l)),
        decode_first_scalar(w.take(l)) == decode_first_scalar(w),
        length_of_first_scalar(w.take(l)) == l,
{
    let t = w.take(l);
    assert(t.len() == l);
    assert(forall|i: int| 0 <= i < l ==> t[i] == w[i]);
}

/// The first byte of a scalar's UTF-8 encoding is the escape byte only if
/// the scalar is the escape character itself.
proof fn lemma_encode_scalar_head(c: u32)
    requires
        is_scalar(c),
        c != 0x1b,
    ensures
        encode_scalar(c).len() >= 1,
        encode_scalar(c)[0] != ESC_ASCII,
{
    if has_width_1_encoding(c) {
        assert((c & 0x7f) as u8 != 0x1b) by (bit_vector)
            requires
                c <= 0x7f && c != 0x1b,
        ;
    } else if has_width_2_encoding(c) {
        assert(0xc0u8 | ((c >> 6) & 0x1f) as u8 != 0x1b) by (bit_vector);
    } else if has_width_3_encoding(c) {
        assert(0xe0u8 | ((c >> 12) & 0x0f) as u8 != 0x1b) by (bit_vector);
    } else {
        assert(0xf0u8 | ((c >> 18) & 0x7) as u8 != 0x1b) by (bit_vector);
    }
}

/// A UTF-8 encoded text of scalar values, none of them the escape
/// character, decodes to exactly one unit per scalar: the scalar's own
/// byte form, in the original order, with nothing left over.
pub proof fn lemma_utf8_decodes_in_order(chars: Seq<char>)
    requires
        forall|i: int| 0 <= i < chars.len() ==> chars[i] != '\u{1b}',
    ensures
        spec_tokens(encode_utf8(chars)).len() == chars.len(),
        forall|i: int| 0 <= i < chars.len() ==> spec_tokens(encode_utf8(chars))[i]
            == SpecTok::Char(encode_scalar(chars[i] as u32)),
        spec_rest(encode_utf8(chars)) == Seq::<u8>::empty(),
    decreases chars.len(),
{
    let w = encode_utf8(chars);
    if chars.len() == 0 {
        assert(w =~= Seq::<u8>::empty());
    } else {
        let c0 = chars[0];
        let c = c0 as u32;
        char_is_scalar(c0);
        char_u32_cast(c0, c);
        encode_utf8_first_scalar(chars);
        let rest = chars.drop_first();
        let l = length_of_first_scalar(w);
        assert(w == encode_scalar(c) + encode_utf8(rest));
        assert(w.len() == encode_scalar(c).len() + encode_utf8(rest).len());
        assert(l == encode_scalar(c).len());

        // the head byte is not ESC, so the window takes the UTF-8 path
        assert(c != 0x1b) by {
            if c == 0x1b {
                char_u32_cast('\u{1b}', 0x1b);
            }
        }
        lemma_encode_scalar_head(c);
        assert(w[0] == encode_scalar(c)[0]);
        assert(w[0] != ESC_ASCII);

        // the announced length matches the encoding's actual length
        assert(leading_len(w[0]) == l);
        assert(w.len() >= l);
        lemma_valid_first_scalar_take(w, l);
        assert(spec_next(w) == (SpecStep::Produced {
            tok: SpecTok::Char(w.take(l)),
            used: l,
        }));
        assert(w.take(l) =~= encode_scalar(c));
        assert(w.skip(l) =~= encode_utf8(rest));

        lemma_utf8_decodes_in_order(rest);

        let toks = spec_tokens(w);
        let rest_toks = spec_tokens(encode_utf8(rest));
        assert(toks == seq![SpecTok::Char(encode_scalar(c))] + rest_toks);
        assert forall|i: int| 0 <= i < chars.len() implies toks[i]
            == SpecTok::Char(encode_scalar(chars[i] as u32)) by {
            if i > 0 {
                assert(toks[i] == rest_toks[i - 1]);
                assert(rest[i - 1] == chars[i]);
            }
        }
    }
}

} // verus!
