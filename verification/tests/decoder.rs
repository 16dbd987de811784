use termset::reader::{DecodeStep, TokenReader};
use termset::token::{StdinEscSeq, Token};

/// Feeds `chunks` one at a time, then end-of-stream, and collects every
/// step the reader produces until it reports `EndOfStream`.  An empty
/// chunk is skipped: a read from a live source returns at least one byte,
/// and a zero-byte read is the end-of-stream report fed at the end.
fn run_chunks(chunks: &[&[u8]]) -> Vec<DecodeStep> {
    let mut reader = TokenReader::new();
    let mut out = Vec::new();
    let mut next_chunk = 0;
    loop {
        match reader.next() {
            DecodeStep::NeedMore => {
                while next_chunk < chunks.len() && chunks[next_chunk].is_empty() {
                    next_chunk += 1;
                }
                if next_chunk < chunks.len() {
                    reader.feed(chunks[next_chunk]);
                    next_chunk += 1;
                } else {
                    reader.feed(&[]);
                }
            }
            DecodeStep::EndOfStream => return out,
            step => out.push(step),
        }
    }
}

fn esc(code: StdinEscSeq) -> DecodeStep {
    DecodeStep::Tok(Token::Esc(code))
}

fn ch(bytes: &[u8]) -> DecodeStep {
    DecodeStep::Tok(Token::Char(bytes.to_vec()))
}

#[test]
fn arrow_up_sequence() {
    assert_eq!(run_chunks(&[&[0x1b, 0x5b, b'A']]), vec![esc(StdinEscSeq::MoveUp(1))]);
}

#[test]
fn arrow_down_sequence() {
    assert_eq!(run_chunks(&[&[0x1b, 0x5b, b'B']]), vec![esc(StdinEscSeq::MoveDown(1))]);
}

#[test]
fn arrow_right_sequence() {
    assert_eq!(run_chunks(&[&[0x1b, 0x5b, b'C']]), vec![esc(StdinEscSeq::MoveRight(1))]);
}

#[test]
fn arrow_left_sequence() {
    assert_eq!(run_chunks(&[&[0x1b, 0x5b, b'D']]), vec![esc(StdinEscSeq::MoveLeft(1))]);
}

#[test]
fn unrecognized_selector_gives_unknown() {
    assert_eq!(run_chunks(&[&[0x1b, 0x5b, b'Z']]), vec![esc(StdinEscSeq::Unknown)]);
}

#[test]
fn ascii_text_decodes_per_character() {
    assert_eq!(
        run_chunks(&[b"hi"]),
        vec![ch(b"h"), ch(b"i")],
    );
}

#[test]
fn utf8_string_decodes_to_one_token_per_scalar() {
    // four scalars of widths 1, 2, 3 and 4
    let text = "a\u{e9}\u{20ac}\u{1f600}";
    let steps = run_chunks(&[text.as_bytes()]);
    assert_eq!(
        steps,
        vec![
            ch("a".as_bytes()),
            ch("\u{e9}".as_bytes()),
            ch("\u{20ac}".as_bytes()),
            ch("\u{1f600}".as_bytes()),
        ],
    );
}

#[test]
fn escape_prefix_alone_produces_nothing_until_completed() {
    let mut reader = TokenReader::new();
    reader.feed(&[0x1b, 0x5b]);
    // the source has stalled before the selector byte: no token yet
    assert_eq!(reader.next(), DecodeStep::NeedMore);
    assert_eq!(reader.bytes_left(), 2);
    reader.feed(&[b'A']);
    assert_eq!(reader.next(), DecodeStep::Tok(Token::Esc(StdinEscSeq::MoveUp(1))));
    assert_eq!(reader.bytes_left(), 0);
    assert_eq!(reader.next(), DecodeStep::NeedMore);
}

#[test]
fn four_byte_codepoint_split_across_reads() {
    let bytes = "\u{1f600}".as_bytes();
    let mut reader = TokenReader::new();
    reader.feed(&bytes[..1]);
    assert_eq!(reader.next(), DecodeStep::NeedMore);
    reader.feed(&bytes[1..]);
    assert_eq!(reader.next(), DecodeStep::Tok(Token::Char(bytes.to_vec())));
}

#[test]
fn end_of_stream_reported_and_does_not_hang() {
    let mut reader = TokenReader::new();
    reader.feed(&[]);
    assert_eq!(reader.next(), DecodeStep::EndOfStream);
    // the state is terminal: asking again answers immediately
    assert_eq!(reader.next(), DecodeStep::EndOfStream);
}

#[test]
fn split_invariance_over_chunk_boundaries() {
    let mut stream = Vec::new();
    stream.extend_from_slice("a\u{e9}\u{20ac}".as_bytes());
    stream.extend_from_slice(&[0x1b, 0x5b, b'B']);
    stream.extend_from_slice("\u{1f600}x".as_bytes());
    stream.extend_from_slice(&[0xff]); // invalid leading byte
    stream.extend_from_slice(&[0x1b, 0x5b, b'D']);

    let all_at_once = run_chunks(&[&stream]);
    // every split position of the stream into two chunks
    for cut in 0..=stream.len() {
        let split = run_chunks(&[&stream[..cut], &stream[cut..]]);
        assert_eq!(split, all_at_once);
    }
    // one byte at a time
    let single: Vec<&[u8]> = stream.chunks(1).collect();
    assert_eq!(run_chunks(&single), all_at_once);
}

#[test]
fn invalid_leading_byte_is_consumed_as_malformed() {
    assert_eq!(
        run_chunks(&[&[0xff, b'a']]),
        vec![DecodeStep::Malformed(0xff), ch(b"a")],
    );
}

#[test]
fn overlong_encoding_is_rejected() {
    // 0xC0 0xAF would be an overlong encoding of '/'
    assert_eq!(
        run_chunks(&[&[0xc0, 0xaf]]),
        vec![DecodeStep::Malformed(0xc0), DecodeStep::Malformed(0xaf)],
    );
}

#[test]
fn surrogate_encoding_is_rejected() {
    // 0xED 0xA0 0x80 encodes the surrogate U+D800
    assert_eq!(
        run_chunks(&[&[0xed, 0xa0, 0x80]]),
        vec![
            DecodeStep::Malformed(0xed),
            DecodeStep::Malformed(0xa0),
            DecodeStep::Malformed(0x80),
        ],
    );
}

#[test]
fn escape_without_bracket_is_malformed() {
    assert_eq!(
        run_chunks(&[&[0x1b, b'a']]),
        vec![DecodeStep::Malformed(0x1b), ch(b"a")],
    );
}

#[test]
fn truncated_codepoint_at_end_of_stream_is_malformed() {
    // the first byte of a two-byte encoding, then the source ends
    assert_eq!(run_chunks(&[&[0xc3]]), vec![DecodeStep::Malformed(0xc3)]);
}

#[test]
fn truncated_escape_at_end_of_stream_is_malformed() {
    assert_eq!(
        run_chunks(&[&[0x1b, 0x5b]]),
        vec![DecodeStep::Malformed(0x1b), ch(&[0x5b])],
    );
}

#[test]
fn bytes_are_neither_lost_nor_duplicated() {
    // reassemble the stream from the consumed bytes of every step
    let mut stream = Vec::new();
    stream.extend_from_slice("ab\u{e9}".as_bytes());
    stream.extend_from_slice(&[0x1b, 0x5b, b'A']);
    stream.extend_from_slice(&[0xf0, 0x28]); // malformed pair
    stream.extend_from_slice("\u{1f600}".as_bytes());

    for chunk_size in [1, 2, 3, stream.len()] {
        let chunks: Vec<&[u8]> = stream.chunks(chunk_size).collect();
        let steps = run_chunks(&chunks);
        let mut reassembled = Vec::new();
        for step in steps {
            match step {
                DecodeStep::Tok(Token::Char(bytes)) => reassembled.extend_from_slice(&bytes),
                DecodeStep::Tok(Token::Esc(code)) => {
                    let selector = match code {
                        StdinEscSeq::MoveUp(_) => b'A',
                        StdinEscSeq::MoveDown(_) => b'B',
                        StdinEscSeq::MoveRight(_) => b'C',
                        StdinEscSeq::MoveLeft(_) => b'D',
                        StdinEscSeq::Unknown => unreachable!(),
                    };
                    reassembled.extend_from_slice(&[0x1b, 0x5b, selector]);
                }
                DecodeStep::Malformed(b) => reassembled.push(b),
                DecodeStep::NeedMore | DecodeStep::EndOfStream => unreachable!(),
            }
        }
        assert_eq!(reassembled, stream);
    }
}

#[test]
fn capacity_shrinks_with_buffered_bytes() {
    let mut reader = TokenReader::new();
    assert_eq!(reader.capacity_left(), 4096);
    reader.feed(&[0x1b]);
    assert_eq!(reader.capacity_left(), 4095);
    assert_eq!(reader.bytes_left(), 1);
}

#[test]
fn full_buffer_round_trip() {
    // fill the whole buffer with ASCII and drain it
    let stream = vec![b'x'; 4096];
    let mut reader = TokenReader::new();
    reader.feed(&stream);
    assert_eq!(reader.bytes_left(), 4096);
    for _ in 0..4096 {
        assert_eq!(reader.next(), DecodeStep::Tok(Token::Char(vec![b'x'])));
    }
    assert_eq!(reader.next(), DecodeStep::NeedMore);
}
