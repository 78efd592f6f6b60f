use obd2::device::{check_echo, line_to_send, Elm327, Error as LinkError, DEFAULT_BAUD_RATE};
use obd2::framer::Framer;
use obd2::session::{connect_steps, reset_steps, BaudAction, BaudSearch, Step};
use obd2::text::{encode_hex, parse_hex_byte, split_lines, split_tokens};

fn framer_with(bytes: &[u8]) -> Framer {
    let mut f = Framer::new();
    f.feed(bytes);
    f
}

#[test]
fn line_terminated_by_cr() {
    let mut f = framer_with(b"41 0C\r");
    assert_eq!(f.read_line(), Some(b"41 0C".to_vec()));
    assert_eq!(f.pending(), b"");
}

#[test]
fn line_terminated_by_crlf() {
    let mut f = framer_with(b"41 0C\r\nNEXT\r");
    assert_eq!(f.read_line(), Some(b"41 0C".to_vec()));
    assert_eq!(f.read_line(), Some(b"NEXT".to_vec()));
}

#[test]
fn cr_and_crlf_read_alike() {
    let mut a = framer_with(b"ELM327 v1.5\rOK\r");
    let mut b = framer_with(b"ELM327 v1.5\r\nOK\r\n");
    assert_eq!(a.read_line(), b.read_line());
    assert_eq!(a.read_line(), b.read_line());
}

#[test]
fn bare_line_feed_is_dropped() {
    let mut f = framer_with(b"AB\nCD\r");
    assert_eq!(f.read_line(), Some(b"ABCD".to_vec()));
    let mut g = framer_with(b"AB\n");
    assert_eq!(g.read_line(), None);
}

#[test]
fn empty_lines_are_skipped() {
    let mut f = framer_with(b"\r\r\n\rOK\r");
    assert_eq!(f.read_line(), Some(b"OK".to_vec()));
}

#[test]
fn null_bytes_are_ignored() {
    let mut f = framer_with(b"O\0K\0\r");
    assert_eq!(f.read_line(), Some(b"OK".to_vec()));
}

#[test]
fn response_up_to_prompt() {
    let mut f = framer_with(b"41 0C 1A F8\r\r>");
    assert_eq!(f.read_response(), Some(b"41 0C 1A F8\n\n".to_vec()));
}

#[test]
fn empty_response_allowed() {
    let mut f = framer_with(b">");
    assert_eq!(f.read_response(), Some(Vec::new()));
}

#[test]
fn resume_after_timeout() {
    let mut f = framer_with(b"0: 49 02\r1: 01");
    assert_eq!(f.read_response(), None);
    assert_eq!(f.pending(), b"0: 49 02\r1: 01");
    f.feed(b" 41\r\r>");
    assert_eq!(f.read_response(), Some(b"0: 49 02\n1: 01 41\n\n".to_vec()));
}

#[test]
fn resume_line_after_timeout() {
    let mut f = framer_with(b"ATZ");
    assert_eq!(f.read_line(), None);
    f.feed(b"\r\n");
    assert_eq!(f.read_line(), Some(b"ATZ".to_vec()));
}

#[test]
fn clear_drops_queue() {
    let mut f = framer_with(b"junk");
    f.clear();
    assert_eq!(f.pending(), b"");
}

#[test]
fn echo_matches() {
    assert_eq!(check_echo(b"010C", Some(b"010C".to_vec())), Ok(()));
}

#[test]
fn echo_mismatch_any_byte() {
    for i in 0..4 {
        let mut echoed = b"010C".to_vec();
        echoed[i] ^= 0x01;
        assert_eq!(
            check_echo(b"010C", Some(echoed.clone())),
            Err(LinkError::EchoMismatch { sent: b"010C".to_vec(), received: Some(echoed) })
        );
    }
    assert!(check_echo(b"010C", Some(b"010".to_vec())).is_err());
    assert!(check_echo(b"010C", None).is_err());
}

#[test]
fn line_ends_with_crlf() {
    assert_eq!(line_to_send(b"ATZ"), b"ATZ\r\n".to_vec());
}

#[test]
fn session_frames_replies() {
    let mut s = Elm327::new();
    assert_eq!(s.baud_rate(), DEFAULT_BAUD_RATE);
    s.receive(b"010C\r41 0C 1A F8\r\r>");
    assert_eq!(s.get_line(), Some(b"010C".to_vec()));
    assert_eq!(s.get_response(), Some(b"41 0C 1A F8\n\n".to_vec()));
    s.set_baud_rate(40000);
    assert_eq!(s.baud_rate(), 40000);
    s.receive(b"left over");
    s.flush();
    assert_eq!(s.get_line(), None);
}

#[test]
fn command_text_is_upper_hex() {
    assert_eq!(Elm327::command_text(&[0x09, 0x02]), b"0902".to_vec());
    assert_eq!(Elm327::command_text(&[0x03]), b"03".to_vec());
    assert_eq!(encode_hex(&[0xab, 0x0f]), b"AB0F".to_vec());
}

#[test]
fn hex_tokens() {
    assert_eq!(parse_hex_byte(b"F8"), Some(0xF8));
    assert_eq!(parse_hex_byte(b"f8"), Some(0xF8));
    assert_eq!(parse_hex_byte(b"8"), None);
    assert_eq!(parse_hex_byte(b"G8"), None);
    assert_eq!(split_tokens(b"  41\t0C \x0b 1A  "), vec![b"41".to_vec(), b"0C".to_vec(), b"1A".to_vec()]);
    assert_eq!(split_lines(b"a\n\nb"), vec![b"a".to_vec(), Vec::new(), b"b".to_vec()]);
}

#[test]
fn reset_sequence() {
    assert_eq!(
        reset_steps(),
        vec![
            Step::Purge,
            Step::Command("ATZ"),
            Step::Pause(500),
            Step::Command("ATSP0"),
            Step::Command("0100"),
            Step::Purge,
        ]
    );
    let c = connect_steps();
    assert_eq!(c[..4], [Step::Purge, Step::Pause(500), Step::Command(" "), Step::Pause(500)]);
    assert_eq!(c[4..], reset_steps()[..]);
}

#[test]
fn baud_search_finds_first_confirmed_rate() {
    let mut s = BaudSearch::new(38400);
    assert_eq!(s.action(), BaudAction::SendLine(b"ATBRD5A".to_vec()));
    s.advance(None);
    assert_eq!(s.action(), BaudAction::ReadLine);
    s.advance(Some(b"OK".to_vec()));
    assert_eq!(s.action(), BaudAction::SetRate(4_000_000 / 90));
    s.advance(None);
    assert_eq!(s.action(), BaudAction::ReadLine);
    s.advance(Some(b"ELM327 v1.5".to_vec()));
    assert_eq!(s.action(), BaudAction::SendRaw(b"\r".to_vec()));
    s.advance(None);
    assert_eq!(s.action(), BaudAction::ReadLine);
    s.advance(Some(b"OK".to_vec()));
    assert_eq!(s.action(), BaudAction::Finished(Some((90, 44444))));
    assert_eq!(s.known_rate(), 44444);
}

#[test]
fn baud_search_falls_back() {
    let mut s = BaudSearch::new(38400);
    s.advance(None);
    s.advance(Some(b"OK".to_vec()));
    s.advance(None);
    s.advance(Some(b"garbled".to_vec()));
    assert_eq!(s.action(), BaudAction::SetRate(38400));
    s.advance(None);
    assert_eq!(s.action(), BaudAction::DrainReply);
    s.advance(None);
    assert_eq!(s.action(), BaudAction::Pause(200));
    s.advance(None);
    assert_eq!(s.action(), BaudAction::SendLine(b"ATBRD5B".to_vec()));
}

#[test]
fn baud_search_gives_up() {
    let mut s = BaudSearch::new(38400);
    let mut steps = 0;
    loop {
        match s.action() {
            BaudAction::Finished(found) => {
                assert_eq!(found, None);
                break;
            }
            BaudAction::ReadLine => s.advance(Some(b"?".to_vec())),
            _ => s.advance(None),
        }
        steps += 1;
        assert!(steps < 1000);
    }
    assert_eq!(s.known_rate(), 38400);
}

#[test]
fn baud_search_failure_after_switch_restores() {
    let mut s = BaudSearch::new(38400);
    s.advance(None);
    s.advance(Some(b"OK".to_vec()));
    assert_eq!(s.action(), BaudAction::SetRate(44444));
    s.advance(None);
    s.fail();
    assert_eq!(s.action(), BaudAction::SetRate(38400));
    s.advance(None);
    assert_eq!(s.action(), BaudAction::Finished(None));
    assert_eq!(s.known_rate(), 38400);
}

#[test]
fn baud_search_failure_before_switch_ends() {
    let mut s = BaudSearch::new(38400);
    s.fail();
    assert_eq!(s.action(), BaudAction::Finished(None));
}

#[test]
fn resume_keeps_line_break() {
    let mut f = framer_with(b"41 0C\r");
    assert_eq!(f.read_response(), None);
    f.feed(b"1A F8\r>");
    assert_eq!(f.read_response(), Some(b"41 0C\n1A F8\n".to_vec()));
}
