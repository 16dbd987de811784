use termset::stdout::TsStdout;
use termset::token::{StdinEscSeq, StdoutEscSeq};

#[test]
fn movement_codes_translate_to_stdout_codes() {
    assert_eq!(
        StdinEscSeq::MoveUp(1).as_stdout_esc_seq(),
        Some(StdoutEscSeq::MoveUp(1))
    );
    assert_eq!(
        StdinEscSeq::MoveDown(3).as_stdout_esc_seq(),
        Some(StdoutEscSeq::MoveDown(3))
    );
    assert_eq!(
        StdinEscSeq::MoveRight(2).as_stdout_esc_seq(),
        Some(StdoutEscSeq::MoveRight(2))
    );
    assert_eq!(
        StdinEscSeq::MoveLeft(7).as_stdout_esc_seq(),
        Some(StdoutEscSeq::MoveLeft(7))
    );
    assert_eq!(StdinEscSeq::Unknown.as_stdout_esc_seq(), None);
}

#[test]
fn movement_sequences_render_with_decimal_count() {
    assert_eq!(StdoutEscSeq::MoveUp(1).as_bytes(), b"\x1b[1A".to_vec());
    assert_eq!(StdoutEscSeq::MoveDown(1).as_bytes(), b"\x1b[1B".to_vec());
    assert_eq!(StdoutEscSeq::MoveRight(1).as_bytes(), b"\x1b[1C".to_vec());
    assert_eq!(StdoutEscSeq::MoveLeft(1).as_bytes(), b"\x1b[1D".to_vec());
    assert_eq!(StdoutEscSeq::MoveUp(12).as_bytes(), b"\x1b[12A".to_vec());
    assert_eq!(StdoutEscSeq::MoveLeft(305).as_bytes(), b"\x1b[305D".to_vec());
    assert_eq!(StdoutEscSeq::MoveUp(0).as_bytes(), b"\x1b[0A".to_vec());
    assert_eq!(
        StdoutEscSeq::MoveRight(u32::MAX).as_bytes(),
        b"\x1b[4294967295C".to_vec()
    );
}

#[test]
fn screen_and_cursor_sequences_render_exactly() {
    assert_eq!(StdoutEscSeq::SaveScreen.as_bytes(), b"\x1b[?47h".to_vec());
    assert_eq!(StdoutEscSeq::RestoreScreen.as_bytes(), b"\x1b[?47l".to_vec());
    assert_eq!(StdoutEscSeq::SaveCursorPosition.as_bytes(), vec![0x1b, 7]);
    assert_eq!(StdoutEscSeq::RestorCursorPosition.as_bytes(), vec![0x1b, 8]);
    assert_eq!(StdoutEscSeq::EraseEntireScreen.as_bytes(), b"\x1b[2J".to_vec());
}

#[test]
fn stdout_queues_commands_and_text_in_order() {
    let mut stdout = TsStdout::new();
    stdout.exec(&[StdoutEscSeq::SaveCursorPosition, StdoutEscSeq::EraseEntireScreen]);
    stdout.write_str("hi \u{e9}");
    stdout.exec(&[StdoutEscSeq::MoveLeft(1)]);
    let flushed = stdout.flush();
    let mut expected = Vec::new();
    expected.extend_from_slice(&[0x1b, 7]);
    expected.extend_from_slice(b"\x1b[2J");
    expected.extend_from_slice("hi \u{e9}".as_bytes());
    expected.extend_from_slice(b"\x1b[1D");
    assert_eq!(flushed, expected);
}

#[test]
fn flush_clears_the_queue() {
    let mut stdout = TsStdout::new();
    stdout.write_str("once");
    assert_eq!(stdout.flush(), b"once".to_vec());
    assert_eq!(stdout.flush(), Vec::<u8>::new());
}
