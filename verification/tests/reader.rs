use apt_cli_wrappers::{
    non_blocking_line_reading, OutputBuffer, ReadOutcome, ReadStatus, ReadStep,
};

fn data(bytes: &[u8]) -> ReadOutcome {
    ReadOutcome::Data(bytes.to_vec())
}

#[test]
fn bytes_that_complete_no_line_are_kept() {
    let mut buffer = OutputBuffer::new();
    let step = non_blocking_line_reading(&mut buffer, &data(b"50% ins"));
    assert_eq!(step, ReadStep { lines: Vec::new(), status: ReadStatus::Continue });
    assert_eq!(buffer.pending().as_slice(), b"50% ins");
}

#[test]
fn a_line_spread_over_two_reads_is_handed_out_once() {
    let mut buffer = OutputBuffer::new();
    let mut handed: Vec<String> = Vec::new();
    handed.extend(non_blocking_line_reading(&mut buffer, &data(b"50% ins")).lines);
    handed.extend(non_blocking_line_reading(&mut buffer, &ReadOutcome::WouldBlock).lines);
    handed.extend(non_blocking_line_reading(&mut buffer, &data(b"talling pkg\n")).lines);
    handed.extend(non_blocking_line_reading(&mut buffer, &ReadOutcome::WouldBlock).lines);
    assert_eq!(handed, vec!["50% installing pkg".to_string()]);
    assert!(buffer.pending().is_empty());
}

#[test]
fn a_read_that_would_block_ends_the_round_and_keeps_the_fragment() {
    let mut buffer = OutputBuffer::new();
    non_blocking_line_reading(&mut buffer, &data(b"partial"));
    let step = non_blocking_line_reading(&mut buffer, &ReadOutcome::WouldBlock);
    assert_eq!(step, ReadStep { lines: Vec::new(), status: ReadStatus::Done });
    assert_eq!(buffer.pending().as_slice(), b"partial");
}

#[test]
fn the_end_of_the_stream_ends_the_round_and_keeps_the_fragment() {
    let mut buffer = OutputBuffer::new();
    non_blocking_line_reading(&mut buffer, &data(b"partial"));
    let step = non_blocking_line_reading(&mut buffer, &ReadOutcome::EndOfData);
    assert_eq!(step, ReadStep { lines: Vec::new(), status: ReadStatus::Done });
    assert_eq!(buffer.pending().as_slice(), b"partial");
}

#[test]
fn a_failed_read_drops_the_fragment() {
    let mut buffer = OutputBuffer::new();
    non_blocking_line_reading(&mut buffer, &data(b"partial"));
    let step = non_blocking_line_reading(&mut buffer, &ReadOutcome::Failed);
    assert_eq!(step, ReadStep { lines: Vec::new(), status: ReadStatus::Failed });
    assert!(buffer.pending().is_empty());
}

#[test]
fn several_lines_come_out_in_order() {
    let mut buffer = OutputBuffer::new();
    let step = non_blocking_line_reading(&mut buffer, &data(b"garbage\n75% done\nGet:"));
    assert_eq!(step.lines, vec!["garbage".to_string(), "75% done".to_string()]);
    assert_eq!(step.status, ReadStatus::Continue);
    assert_eq!(buffer.pending().as_slice(), b"Get:");
}

#[test]
fn a_character_cut_in_two_by_a_read_is_whole_in_its_line() {
    let text = "Get:1 dépôt\n".as_bytes();
    // the cut falls between the two bytes of the first accented letter
    let cut = 8;
    assert!(std::str::from_utf8(&text[..cut]).is_err());
    let mut buffer = OutputBuffer::new();
    assert!(non_blocking_line_reading(&mut buffer, &data(&text[..cut])).lines.is_empty());
    let step = non_blocking_line_reading(&mut buffer, &data(&text[cut..]));
    assert_eq!(step.lines, vec!["Get:1 dépôt".to_string()]);
}

#[test]
fn bytes_that_are_no_text_are_replaced_and_crash_nothing() {
    let mut buffer = OutputBuffer::new();
    let step = non_blocking_line_reading(&mut buffer, &data(b"ab\xffcd\n\xc3\n"));
    assert_eq!(step.lines, vec!["ab\u{fffd}cd".to_string(), "\u{fffd}".to_string()]);
    assert_eq!(step.status, ReadStatus::Continue);
}

#[test]
fn an_empty_read_hands_out_nothing() {
    let mut buffer = OutputBuffer::new();
    let step = non_blocking_line_reading(&mut buffer, &data(b""));
    assert_eq!(step, ReadStep { lines: Vec::new(), status: ReadStatus::Continue });
    assert!(buffer.pending().is_empty());
}
