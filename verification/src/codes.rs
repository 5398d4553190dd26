//! Telnet command codes and option codes, and their bytes on the wire.
use vstd::prelude::*;

verus! {

/// The byte that introduces every telnet command.
pub const IAC: u8 = 255;

/// The telnet commands, each sent on the wire as the byte `command_byte` gives.
#[derive(Clone, Copy, Debug, PartialEq, Eq, Structural)]
#[non_exhaustive]
pub enum TelnetCommand {
    Escape,
    DoNot,
    Do,
    WillNot,
    Will,
    Subnegotiation,
    GoAhead,
    EraseLine,
    EraseCharacter,
    AreYouThere,
    AbortOutput,
    InterruptProcess,
    Break,
    DataMark,
    Nop,
    SubnegotiationEnd,
}

/// The byte of each command: `Escape` is 255 and the others count down to
/// `SubnegotiationEnd`, which is 240.
pub open spec fn command_byte(c: TelnetCommand) -> u8 {
    match c {
        TelnetCommand::Escape => 255,
        TelnetCommand::DoNot => 254,
        TelnetCommand::Do => 253,
        TelnetCommand::WillNot => 252,
        TelnetCommand::Will => 251,
        TelnetCommand::Subnegotiation => 250,
        TelnetCommand::GoAhead => 249,
        TelnetCommand::EraseLine => 248,
        TelnetCommand::EraseCharacter => 247,
        TelnetCommand::AreYouThere => 246,
        TelnetCommand::AbortOutput => 245,
        TelnetCommand::InterruptProcess => 244,
        TelnetCommand::Break => 243,
        TelnetCommand::DataMark => 242,
        TelnetCommand::Nop => 241,
        TelnetCommand::SubnegotiationEnd => 240,
    }
}

/// The command whose byte is `b`; bytes below 240 name no command.
pub open spec fn command_from_byte(b: u8) -> Option<TelnetCommand> {
    if b == 255 {
        Some(TelnetCommand::Escape)
    } else if b == 254 {
        Some(TelnetCommand::DoNot)
    } else if b == 253 {
        Some(TelnetCommand::Do)
    } else if b == 252 {
        Some(TelnetCommand::WillNot)
    } else if b == 251 {
        Some(TelnetCommand::Will)
    } else if b == 250 {
        Some(TelnetCommand::Subnegotiation)
    } else if b == 249 {
        Some(TelnetCommand::GoAhead)
    } else if b == 248 {
        Some(TelnetCommand::EraseLine)
    } else if b == 247 {
        Some(TelnetCommand::EraseCharacter)
    } else if b == 246 {
        Some(TelnetCommand::AreYouThere)
    } else if b == 245 {
        Some(TelnetCommand::AbortOutput)
    } else if b == 244 {
        Some(TelnetCommand::InterruptProcess)
    } else if b == 243 {
        Some(TelnetCommand::Break)
    } else if b == 242 {
        Some(TelnetCommand::DataMark)
    } else if b == 241 {
        Some(TelnetCommand::Nop)
    } else if b == 240 {
        Some(TelnetCommand::SubnegotiationEnd)
    } else {
        None
    }
}

/// The commands that stand alone on the wire, two bytes with no argument and
/// no data around them.
pub open spec fn is_command_spec(c: TelnetCommand) -> bool {
    match c {
        TelnetCommand::GoAhead
        | TelnetCommand::AreYouThere
        | TelnetCommand::EraseLine
        | TelnetCommand::EraseCharacter
        | TelnetCommand::AbortOutput
        | TelnetCommand::InterruptProcess
        | TelnetCommand::Break => true,
        _ => false,
    }
}

/// The commands that the decoder drops or turns into data: an escaped 255,
/// a no-op, a data mark, and a stray end of subnegotiation.
pub open spec fn is_inline_spec(c: TelnetCommand) -> bool {
    match c {
        TelnetCommand::Escape
        | TelnetCommand::Nop
        | TelnetCommand::DataMark
        | TelnetCommand::SubnegotiationEnd => true,
        _ => false,
    }
}

/// The commands that carry one option byte.
pub open spec fn is_negotiation_spec(c: TelnetCommand) -> bool {
    match c {
        TelnetCommand::Will
        | TelnetCommand::WillNot
        | TelnetCommand::Do
        | TelnetCommand::DoNot => true,
        _ => false,
    }
}

impl TelnetCommand {
    /// Whether the command stands alone: go ahead, are you there, erase line,
    /// erase character, abort output, interrupt process or break.
    pub fn is_command(&self) -> (r: bool)
        ensures
            r == is_command_spec(*self),
    {
        match self {
            Self::GoAhead
            | Self::AreYouThere
            | Self::EraseLine
            | Self::EraseCharacter
            | Self::AbortOutput
            | Self::InterruptProcess
            | Self::Break => true,
            _ => false,
        }
    }

    /// The command's byte on the wire.
    pub fn to_byte(&self) -> (b: u8)
        ensures
            b == command_byte(*self),
    {
        match self {
            Self::Escape => 255,
            Self::DoNot => 254,
            Self::Do => 253,
            Self::WillNot => 252,
            Self::Will => 251,
            Self::Subnegotiation => 250,
            Self::GoAhead => 249,
            Self::EraseLine => 248,
            Self::EraseCharacter => 247,
            Self::AreYouThere => 246,
            Self::AbortOutput => 245,
            Self::InterruptProcess => 244,
            Self::Break => 243,
            Self::DataMark => 242,
            Self::Nop => 241,
            Self::SubnegotiationEnd => 240,
        }
    }

    /// The command whose byte is `b`, or `None` for a byte below 240.
    pub fn try_from_byte(b: u8) -> (r: Option<Self>)
        ensures
            r == command_from_byte(b),
    {
        if b == 255 {
            Some(Self::Escape)
        } else if b == 254 {
            Some(Self::DoNot)
        } else if b == 253 {
            Some(Self::Do)
        } else if b == 252 {
            Some(Self::WillNot)
        } else if b == 251 {
            Some(Self::Will)
        } else if b == 250 {
            Some(Self::Subnegotiation)
        } else if b == 249 {
            Some(Self::GoAhead)
        } else if b == 248 {
            Some(Self::EraseLine)
        } else if b == 247 {
            Some(Self::EraseCharacter)
        } else if b == 246 {
            Some(Self::AreYouThere)
        } else if b == 245 {
            Some(Self::AbortOutput)
        } else if b == 244 {
            Some(Self::InterruptProcess)
        } else if b == 243 {
            Some(Self::Break)
        } else if b == 242 {
            Some(Self::DataMark)
        } else if b == 241 {
            Some(Self::Nop)
        } else if b == 240 {
            Some(Self::SubnegotiationEnd)
        } else {
            None
        }
    }
}

/// The telnet options this service knows by name; any other option byte is
/// kept as `Unknown`.
#[derive(Clone, Copy, Debug, PartialEq, Eq, Structural)]
pub enum TelnetOption {
    BinaryTransmission,
    Echo,
    Reconnection,
    SuppressGoAhead,
    ApproxMessageSizeNegotiation,
    Status,
    TimingMark,
    RemoteControlledTransAndEcho,
    ExtendedAscii,
    TerminalType,
    WindowSizeNegotiation,
    TerminalSpeed,
    RemoteFlowControl,
    LineMode,
    XDisplayControl,
    Environment,
    Authentication,
    Encryption,
    NewEnvironment,
    Charset,
    Hongbao2024,
    ExtendedOptionsList,
    Unknown(u8),
}

/// The byte of each option on the wire; `Unknown(b)` is sent as `b`.
pub open spec fn option_byte(o: TelnetOption) -> u8 {
    match o {
        TelnetOption::BinaryTransmission => 0,
        TelnetOption::Echo => 1,
        TelnetOption::Reconnection => 2,
        TelnetOption::SuppressGoAhead => 3,
        TelnetOption::ApproxMessageSizeNegotiation => 4,
        TelnetOption::Status => 5,
        TelnetOption::TimingMark => 6,
        TelnetOption::RemoteControlledTransAndEcho => 7,
        TelnetOption::ExtendedAscii => 17,
        TelnetOption::TerminalType => 24,
        TelnetOption::WindowSizeNegotiation => 31,
        TelnetOption::TerminalSpeed => 32,
        TelnetOption::RemoteFlowControl => 33,
        TelnetOption::LineMode => 34,
        TelnetOption::XDisplayControl => 35,
        TelnetOption::Environment => 36,
        TelnetOption::Authentication => 37,
        TelnetOption::Encryption => 38,
        TelnetOption::NewEnvironment => 39,
        TelnetOption::Charset => 42,
        TelnetOption::Hongbao2024 => 240,
        TelnetOption::ExtendedOptionsList => 255,
        TelnetOption::Unknown(b) => b,
    }
}

/// The option that byte `b` names: a named option where one has that byte,
/// else `Unknown(b)`.
pub open spec fn option_from_byte(b: u8) -> TelnetOption {
    if b == 0 {
        TelnetOption::BinaryTransmission
    } else if b == 1 {
        TelnetOption::Echo
    } else if b == 2 {
        TelnetOption::Reconnection
    } else if b == 3 {
        TelnetOption::SuppressGoAhead
    } else if b == 4 {
        TelnetOption::ApproxMessageSizeNegotiation
    } else if b == 5 {
        TelnetOption::Status
    } else if b == 6 {
        TelnetOption::TimingMark
    } else if b == 7 {
        TelnetOption::RemoteControlledTransAndEcho
    } else if b == 17 {
        TelnetOption::ExtendedAscii
    } else if b == 24 {
        TelnetOption::TerminalType
    } else if b == 31 {
        TelnetOption::WindowSizeNegotiation
    } else if b == 32 {
        TelnetOption::TerminalSpeed
    } else if b == 33 {
        TelnetOption::RemoteFlowControl
    } else if b == 34 {
        TelnetOption::LineMode
    } else if b == 35 {
        TelnetOption::XDisplayControl
    } else if b == 36 {
        TelnetOption::Environment
    } else if b == 37 {
        TelnetOption::Authentication
    } else if b == 38 {
        TelnetOption::Encryption
    } else if b == 39 {
        TelnetOption::NewEnvironment
    } else if b == 42 {
        TelnetOption::Charset
    } else if b == 240 {
        TelnetOption::Hongbao2024
    } else if b == 255 {
        TelnetOption::ExtendedOptionsList
    } else {
        TelnetOption::Unknown(b)
    }
}

/// An option value that reading its own byte back gives again: every named
/// option, and `Unknown(b)` where no named option has byte `b`.
pub open spec fn option_is_canonical(o: TelnetOption) -> bool {
    option_from_byte(option_byte(o)) == o
}

impl TelnetOption {
    /// The option that byte `b` names, `Unknown(b)` where none has it.
    pub fn from_byte(b: u8) -> (o: Self)
        ensures
            o == option_from_byte(b),
    {
        if b == 0 {
            Self::BinaryTransmission
        } else if b == 1 {
            Self::Echo
        } else if b == 2 {
            Self::Reconnection
        } else if b == 3 {
            Self::SuppressGoAhead
        } else if b == 4 {
            Self::ApproxMessageSizeNegotiation
        } else if b == 5 {
            Self::Status
        } else if b == 6 {
            Self::TimingMark
        } else if b == 7 {
            Self::RemoteControlledTransAndEcho
        } else if b == 17 {
            Self::ExtendedAscii
        } else if b == 24 {
            Self::TerminalType
        } else if b == 31 {
            Self::WindowSizeNegotiation
        } else if b == 32 {
            Self::TerminalSpeed
        } else if b == 33 {
            Self::RemoteFlowControl
        } else if b == 34 {
            Self::LineMode
        } else if b == 35 {
            Self::XDisplayControl
        } else if b == 36 {
            Self::Environment
        } else if b == 37 {
            Self::Authentication
        } else if b == 38 {
            Self::Encryption
        } else if b == 39 {
            Self::NewEnvironment
        } else if b == 42 {
            Self::Charset
        } else if b == 240 {
            Self::Hongbao2024
        } else if b == 255 {
            Self::ExtendedOptionsList
        } else {
            Self::Unknown(b)
        }
    }

    /// The option's byte on the wire.
    pub fn to_byte(&self) -> (b: u8)
        ensures
            b == option_byte(*self),
    {
        match self {
            Self::BinaryTransmission => 0,
            Self::Echo => 1,
            Self::Reconnection => 2,
            Self::SuppressGoAhead => 3,
            Self::ApproxMessageSizeNegotiation => 4,
            Self::Status => 5,
            Self::TimingMark => 6,
            Self::RemoteControlledTransAndEcho => 7,
            Self::ExtendedAscii => 17,
            Self::TerminalType => 24,
            Self::WindowSizeNegotiation => 31,
            Self::TerminalSpeed => 32,
            Self::RemoteFlowControl => 33,
            Self::LineMode => 34,
            Self::XDisplayControl => 35,
            Self::Environment => 36,
            Self::Authentication => 37,
            Self::Encryption => 38,
            Self::NewEnvironment => 39,
            Self::Charset => 42,
            Self::Hongbao2024 => 240,
            Self::ExtendedOptionsList => 255,
            Self::Unknown(b) => *b,
        }
    }
}

} // verus!
