use hongbao_telnet::{
    encoded_len, DecodeHazard, Telnet, TelnetCommand, TelnetData, TelnetError, TelnetOption,
    TelnetSubnegotiationResponse,
};
use tokio_util::bytes::BytesMut;

const IAC: u8 = 255;
const SB: u8 = 250;
const SE: u8 = 240;

fn buf(bytes: &[u8]) -> BytesMut {
    BytesMut::from(bytes)
}

fn decode(bytes: &[u8]) -> (Result<Option<TelnetData>, TelnetError>, Vec<u8>) {
    let mut src = buf(bytes);
    let mut t = Telnet;
    assert_eq!(t.decode_hazard(&src), DecodeHazard::Safe);
    let r = t.decode(&mut src);
    (r, src.to_vec())
}

fn encode(item: TelnetData) -> Vec<u8> {
    let mut dst = BytesMut::new();
    let mut t = Telnet;
    assert!(t.encode(item, &mut dst).is_ok());
    dst.to_vec()
}

#[test]
fn decode_empty_buffer_waits() {
    let (r, rest) = decode(&[]);
    assert_eq!(r, Ok(None));
    assert!(rest.is_empty());
}

#[test]
fn decode_plain_data() {
    let (r, rest) = decode(b"hello");
    assert_eq!(r, Ok(Some(TelnetData::Binary(b"hello".to_vec()))));
    assert!(rest.is_empty());
}

#[test]
fn decode_escaped_iac_is_data() {
    let (r, rest) = decode(&[1, IAC, IAC, 2]);
    assert_eq!(r, Ok(Some(TelnetData::Binary(vec![1, 255, 2]))));
    assert!(rest.is_empty());
}

#[test]
fn decode_drops_nop_data_mark_and_stray_se() {
    let (r, rest) = decode(&[1, IAC, 241, 2, IAC, 242, 3, IAC, SE, 4]);
    assert_eq!(r, Ok(Some(TelnetData::Binary(vec![1, 2, 3, 4]))));
    assert!(rest.is_empty());
}

#[test]
fn decode_lone_nop_gives_empty_data() {
    let (r, rest) = decode(&[IAC, 241]);
    assert_eq!(r, Ok(Some(TelnetData::Binary(vec![]))));
    assert!(rest.is_empty());
}

#[test]
fn decode_command_alone() {
    let (r, rest) = decode(&[IAC, 249, 7]);
    assert_eq!(r, Ok(Some(TelnetData::Command(TelnetCommand::GoAhead))));
    assert_eq!(rest, vec![7]);
}

#[test]
fn decode_data_stops_before_command() {
    let mut src = buf(&[1, 2, IAC, 246]);
    let mut t = Telnet;
    assert_eq!(t.decode(&mut src), Ok(Some(TelnetData::Binary(vec![1, 2]))));
    assert_eq!(src.to_vec(), vec![IAC, 246]);
    assert_eq!(t.decode(&mut src), Ok(Some(TelnetData::Command(TelnetCommand::AreYouThere))));
    assert!(src.is_empty());
}

#[test]
fn decode_negotiations() {
    assert_eq!(decode(&[IAC, 253, 24]).0, Ok(Some(TelnetData::Do(true, TelnetOption::TerminalType))));
    assert_eq!(decode(&[IAC, 254, 34]).0, Ok(Some(TelnetData::Do(false, TelnetOption::LineMode))));
    assert_eq!(decode(&[IAC, 251, 1]).0, Ok(Some(TelnetData::Will(true, TelnetOption::Echo))));
    assert_eq!(decode(&[IAC, 252, 99]).0, Ok(Some(TelnetData::Will(false, TelnetOption::Unknown(99)))));
    let (_, rest) = decode(&[IAC, 253, 24, 5]);
    assert_eq!(rest, vec![5]);
}

#[test]
fn decode_incomplete_negotiation_waits() {
    let (r, rest) = decode(&[IAC, 251]);
    assert_eq!(r, Ok(None));
    assert_eq!(rest, vec![IAC, 251]);
    let (r, rest) = decode(&[IAC]);
    assert_eq!(r, Ok(None));
    assert_eq!(rest, vec![IAC]);
}

#[test]
fn decode_pending_after_escapes_drops_them() {
    let (r, rest) = decode(&[9, IAC, IAC, IAC, 251]);
    assert_eq!(r, Ok(None));
    assert_eq!(rest, vec![IAC, 251]);
}

#[test]
fn decode_command_after_escape_drops_the_data() {
    let (r, rest) = decode(&[9, IAC, IAC, IAC, 249]);
    assert_eq!(r, Ok(Some(TelnetData::Command(TelnetCommand::GoAhead))));
    assert!(rest.is_empty());
}

#[test]
fn decode_terminal_type() {
    let mut bytes = vec![IAC, SB, 24, 0];
    bytes.extend_from_slice(b"xterm");
    bytes.extend_from_slice(&[IAC, SE, 1]);
    let (r, rest) = decode(&bytes);
    assert_eq!(
        r,
        Ok(Some(TelnetData::SubnegotiationResponse(
            TelnetSubnegotiationResponse::TerminalType("xterm".to_string())
        )))
    );
    assert_eq!(rest, vec![1]);
}

#[test]
fn decode_terminal_type_bad_code() {
    let (r, rest) = decode(&[IAC, SB, 24, 1, b'a', IAC, SE]);
    assert_eq!(r, Err(TelnetError::UnexpectedTerminalType));
    assert!(rest.is_empty());
    assert_eq!(TelnetError::UnexpectedTerminalType.message(), "unexpected TerminalType response");
}

#[test]
fn decode_terminal_type_bad_utf8() {
    let (r, rest) = decode(&[IAC, SB, 24, 0, 0xc3, IAC, SE]);
    assert_eq!(r, Err(TelnetError::InvalidUtf8));
    assert!(rest.is_empty());
    assert_eq!(TelnetError::InvalidUtf8.message(), "unexpected utf8 string");
}

#[test]
fn decode_window_size() {
    let (r, rest) = decode(&[IAC, SB, 31, 0, 80, 0, 24, IAC, SE]);
    assert_eq!(
        r,
        Ok(Some(TelnetData::SubnegotiationResponse(TelnetSubnegotiationResponse::WindowSize {
            col: 80,
            row: 24
        })))
    );
    assert!(rest.is_empty());
    let (r, _) = decode(&[IAC, SB, 31, 1, 2, 3, 4, IAC, SE]);
    assert_eq!(
        r,
        Ok(Some(TelnetData::SubnegotiationResponse(TelnetSubnegotiationResponse::WindowSize {
            col: 258,
            row: 772
        })))
    );
}

#[test]
fn decode_window_size_bad_length() {
    let (r, rest) = decode(&[IAC, SB, 31, 1, 2, IAC, SE]);
    assert_eq!(r, Err(TelnetError::UnexpectedWindowSize));
    assert!(rest.is_empty());
    assert_eq!(TelnetError::UnexpectedWindowSize.message(), "unexpected WindowSize response");
}

#[test]
fn decode_other_subnegotiation_unescapes() {
    let (r, rest) = decode(&[IAC, SB, 1, 5, IAC, IAC, 6, IAC, SE]);
    assert_eq!(
        r,
        Ok(Some(TelnetData::SubnegotiationResponse(TelnetSubnegotiationResponse::Any(
            TelnetOption::Echo,
            vec![5, 255, 6]
        ))))
    );
    assert!(rest.is_empty());
}

#[test]
fn decode_unfinished_subnegotiation_waits() {
    let (r, rest) = decode(&[IAC, SB, 24, 0, b'a']);
    assert_eq!(r, Ok(None));
    assert_eq!(rest, vec![IAC, SB, 24, 0, b'a']);
}

#[test]
fn decode_empty_subnegotiation_never_completes() {
    let (r, rest) = decode(&[IAC, SB, 24, IAC, SE]);
    assert_eq!(r, Ok(None));
    assert_eq!(rest, vec![IAC, SB, 24, IAC, SE]);
}

#[test]
fn decode_hazards() {
    let t = Telnet;
    assert_eq!(t.decode_hazard(&buf(&[IAC, 1])), DecodeHazard::Spins);
    assert_eq!(t.decode_hazard(&buf(&[7, IAC, IAC, IAC, 200])), DecodeHazard::Spins);
    assert_eq!(t.decode_hazard(&buf(&[IAC, SB, 24])), DecodeHazard::SliceOutOfRange);
    assert_eq!(t.decode_hazard(&buf(&[IAC, SB])), DecodeHazard::Safe);
    assert_eq!(t.decode_hazard(&buf(b"abc")), DecodeHazard::Safe);
}

#[test]
fn encode_binary_doubles_iac() {
    assert_eq!(encode(TelnetData::Binary(vec![1, 255, 2, 255])), vec![1, 255, 255, 2, 255, 255]);
    assert_eq!(encode(TelnetData::Binary(vec![])), Vec::<u8>::new());
}

#[test]
fn encode_subnegotiation_request() {
    let code = b"51131748".to_vec();
    let mut expected = vec![IAC, SB, 240];
    expected.extend_from_slice(&code);
    expected.extend_from_slice(&[IAC, SE]);
    assert_eq!(encode(TelnetData::SubnegotiationRequest(TelnetOption::Hongbao2024, code)), expected);
}

#[test]
fn encode_negotiations_and_commands() {
    assert_eq!(encode(TelnetData::Will(true, TelnetOption::Echo)), vec![IAC, 251, 1]);
    assert_eq!(encode(TelnetData::Will(false, TelnetOption::Echo)), vec![IAC, 252, 1]);
    assert_eq!(encode(TelnetData::Do(true, TelnetOption::LineMode)), vec![IAC, 253, 34]);
    assert_eq!(encode(TelnetData::Do(false, TelnetOption::LineMode)), vec![IAC, 254, 34]);
    assert_eq!(encode(TelnetData::Command(TelnetCommand::Break)), vec![IAC, 243]);
    assert_eq!(
        encode(TelnetData::SubnegotiationResponse(TelnetSubnegotiationResponse::WindowSize {
            col: 1,
            row: 2
        })),
        Vec::<u8>::new()
    );
}

#[test]
fn encode_appends() {
    let mut dst = BytesMut::from(&[9u8][..]);
    let mut t = Telnet;
    assert!(t.encode(TelnetData::Command(TelnetCommand::Nop), &mut dst).is_ok());
    assert_eq!(dst.to_vec(), vec![9, IAC, 241]);
}

#[test]
fn encoded_len_counts() {
    assert_eq!(encoded_len(&TelnetData::Binary(vec![255, 1, 255])), Some(5));
    assert_eq!(encoded_len(&TelnetData::SubnegotiationRequest(TelnetOption::Echo, vec![1, 2])), Some(7));
    assert_eq!(encoded_len(&TelnetData::Do(true, TelnetOption::Echo)), Some(3));
    assert_eq!(encoded_len(&TelnetData::Command(TelnetCommand::Break)), Some(2));
}

#[test]
fn roundtrip_binary() {
    let v = vec![0, 255, 255, 17, 240, 255];
    let bytes = encode(TelnetData::Binary(v.clone()));
    let (r, rest) = decode(&bytes);
    assert_eq!(r, Ok(Some(TelnetData::Binary(v))));
    assert!(rest.is_empty());
}

#[test]
fn roundtrip_commands_exactly_for_standalone_ones() {
    let all = [
        TelnetCommand::Escape,
        TelnetCommand::DoNot,
        TelnetCommand::Do,
        TelnetCommand::WillNot,
        TelnetCommand::Will,
        TelnetCommand::Subnegotiation,
        TelnetCommand::GoAhead,
        TelnetCommand::EraseLine,
        TelnetCommand::EraseCharacter,
        TelnetCommand::AreYouThere,
        TelnetCommand::AbortOutput,
        TelnetCommand::InterruptProcess,
        TelnetCommand::Break,
        TelnetCommand::DataMark,
        TelnetCommand::Nop,
        TelnetCommand::SubnegotiationEnd,
    ];
    for c in all {
        let mut bytes = encode(TelnetData::Command(c));
        bytes.extend_from_slice(b"zz");
        let (r, _) = decode(&bytes);
        assert_eq!(r == Ok(Some(TelnetData::Command(c))), c.is_command());
    }
}

#[test]
fn roundtrip_negotiation_and_subnegotiation() {
    let mut bytes = encode(TelnetData::Will(true, TelnetOption::Hongbao2024));
    bytes.push(3);
    let (r, rest) = decode(&bytes);
    assert_eq!(r, Ok(Some(TelnetData::Will(true, TelnetOption::Hongbao2024))));
    assert_eq!(rest, vec![3]);

    let bytes = encode(TelnetData::SubnegotiationRequest(TelnetOption::Charset, vec![1, 2, 3]));
    let (r, rest) = decode(&bytes);
    assert_eq!(
        r,
        Ok(Some(TelnetData::SubnegotiationResponse(TelnetSubnegotiationResponse::Any(
            TelnetOption::Charset,
            vec![1, 2, 3]
        ))))
    );
    assert!(rest.is_empty());
}

#[test]
fn new_response_directly() {
    assert_eq!(
        TelnetSubnegotiationResponse::new(TelnetOption::TerminalType, b"\0vt100".to_vec()),
        Ok(TelnetSubnegotiationResponse::TerminalType("vt100".to_string()))
    );
    assert_eq!(
        TelnetSubnegotiationResponse::new(TelnetOption::TerminalType, vec![0]),
        Ok(TelnetSubnegotiationResponse::TerminalType(String::new()))
    );
    assert_eq!(
        TelnetSubnegotiationResponse::new(TelnetOption::WindowSizeNegotiation, vec![1, 0, 0, 1]),
        Ok(TelnetSubnegotiationResponse::WindowSize { col: 256, row: 1 })
    );
    assert_eq!(
        TelnetSubnegotiationResponse::new(TelnetOption::WindowSizeNegotiation, vec![]),
        Err(TelnetError::UnexpectedWindowSize)
    );
    assert_eq!(
        TelnetSubnegotiationResponse::new(TelnetOption::Echo, vec![]),
        Ok(TelnetSubnegotiationResponse::Any(TelnetOption::Echo, vec![]))
    );
}

#[test]
fn encode_fits_small_items() {
    let t = Telnet;
    let dst = BytesMut::from(&[1u8, 2, 3][..]);
    assert!(t.encode_fits(&TelnetData::Binary(vec![255; 10]), &dst));
    assert!(t.encode_fits(&TelnetData::Command(TelnetCommand::Break), &dst));
}

#[test]
fn decode_only_takes_from_the_front() {
    let bytes = [1, 2, IAC, 249, IAC, 251, 1, 7, 8];
    let mut src = buf(&bytes);
    let mut t = Telnet;
    loop {
        let before = src.to_vec();
        let r = t.decode(&mut src);
        let after = src.to_vec();
        assert!(after.len() <= before.len());
        assert_eq!(&before[before.len() - after.len()..], &after[..]);
        match r {
            Ok(Some(_)) => assert!(after.len() < before.len()),
            _ => break,
        }
        if src.is_empty() {
            break;
        }
    }
    assert!(src.is_empty());
}
