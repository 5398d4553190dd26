use hongbao_telnet::{TelnetCommand, TelnetOption};

#[test]
fn is_command_marks_standalone_commands() {
    assert!(TelnetCommand::GoAhead.is_command());
    assert!(TelnetCommand::AreYouThere.is_command());
    assert!(TelnetCommand::EraseLine.is_command());
    assert!(TelnetCommand::EraseCharacter.is_command());
    assert!(TelnetCommand::AbortOutput.is_command());
    assert!(TelnetCommand::InterruptProcess.is_command());
    assert!(TelnetCommand::Break.is_command());
    assert!(!TelnetCommand::Escape.is_command());
    assert!(!TelnetCommand::Nop.is_command());
    assert!(!TelnetCommand::DataMark.is_command());
    assert!(!TelnetCommand::Will.is_command());
    assert!(!TelnetCommand::Subnegotiation.is_command());
    assert!(!TelnetCommand::SubnegotiationEnd.is_command());
}

#[test]
fn command_bytes() {
    assert_eq!(TelnetCommand::Escape.to_byte(), 255);
    assert_eq!(TelnetCommand::SubnegotiationEnd.to_byte(), 240);
    assert_eq!(TelnetCommand::Subnegotiation.to_byte(), 250);
    assert_eq!(TelnetCommand::try_from_byte(249), Some(TelnetCommand::GoAhead));
    assert_eq!(TelnetCommand::try_from_byte(239), None);
    assert_eq!(TelnetCommand::try_from_byte(0), None);
    for b in 240..=255u8 {
        let c = TelnetCommand::try_from_byte(b).unwrap();
        assert_eq!(c.to_byte(), b);
    }
}

#[test]
fn option_bytes() {
    assert_eq!(TelnetOption::from_byte(24), TelnetOption::TerminalType);
    assert_eq!(TelnetOption::from_byte(240), TelnetOption::Hongbao2024);
    assert_eq!(TelnetOption::from_byte(254), TelnetOption::Unknown(254));
    assert_eq!(TelnetOption::from_byte(8), TelnetOption::Unknown(8));
    assert_eq!(TelnetOption::ExtendedOptionsList.to_byte(), 255);
    assert_eq!(TelnetOption::Unknown(24).to_byte(), 24);
    for b in 0..=255u8 {
        assert_eq!(TelnetOption::from_byte(b).to_byte(), b);
    }
}
