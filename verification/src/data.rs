//! The items that the codec reads and writes, and the answers to a
//! subnegotiation that the service understands.
use crate::codes::{TelnetCommand, TelnetOption};
use vstd::prelude::*;
use vstd::utf8::{decode_utf8, valid_utf8};

verus! {

/// One item of a telnet stream.
#[derive(Debug, PartialEq, Eq)]
pub enum TelnetData {
    /// A command that stands alone.
    Command(TelnetCommand),
    /// `WILL` (true) or `WONT` (false) for an option.
    Will(bool, TelnetOption),
    /// `DO` (true) or `DONT` (false) for an option.
    Do(bool, TelnetOption),
    /// A subnegotiation that this side sends.
    SubnegotiationRequest(TelnetOption, Vec<u8>),
    /// A subnegotiation that the peer sent, read into its meaning.
    SubnegotiationResponse(TelnetSubnegotiationResponse),
    /// Plain data.
    Binary(Vec<u8>),
}

/// The answer that a peer gave in a subnegotiation.
#[derive(Debug, PartialEq, Eq)]
pub enum TelnetSubnegotiationResponse {
    /// The terminal's name.
    TerminalType(String),
    /// The window's size in columns and rows.
    WindowSize { col: u16, row: u16 },
    /// The data of any other option, as it came.
    Any(TelnetOption, Vec<u8>),
}

/// Why a subnegotiation answer was refused.
#[derive(Clone, Copy, Debug, PartialEq, Eq, Structural)]
pub enum TelnetError {
    /// A terminal type answer that does not start with the byte 0 (`IS`).
    UnexpectedTerminalType,
    /// A terminal type that is not valid UTF-8.
    InvalidUtf8,
    /// A window size answer that is not four bytes long.
    UnexpectedWindowSize,
}

/// The text that describes each error.
pub open spec fn error_message(e: TelnetError) -> Seq<char> {
    match e {
        TelnetError::UnexpectedTerminalType => "unexpected TerminalType response"@,
        TelnetError::InvalidUtf8 => "unexpected utf8 string"@,
        TelnetError::UnexpectedWindowSize => "unexpected WindowSize response"@,
    }
}

impl TelnetError {
    /// The text that describes the error.
    pub fn message(&self) -> (m: &'static str)
        ensures
            m@ == error_message(*self),
    {
        match self {
            Self::UnexpectedTerminalType => "unexpected TerminalType response",
            Self::InvalidUtf8 => "unexpected utf8 string",
            Self::UnexpectedWindowSize => "unexpected WindowSize response",
        }
    }
}

/// `TelnetSubnegotiationResponse` with its text and bytes as sequences.
pub enum ResponseView {
    TerminalType(Seq<char>),
    WindowSize { col: u16, row: u16 },
    Any(TelnetOption, Seq<u8>),
}

/// `TelnetData` with its bytes as sequences.
pub enum DataView {
    Command(TelnetCommand),
    Will(bool, TelnetOption),
    Do(bool, TelnetOption),
    SubnegotiationRequest(TelnetOption, Seq<u8>),
    SubnegotiationResponse(ResponseView),
    Binary(Seq<u8>),
}

impl View for TelnetSubnegotiationResponse {
    type V = ResponseView;

    open spec fn view(&self) -> ResponseView {
        match self {
            TelnetSubnegotiationResponse::TerminalType(s) => ResponseView::TerminalType(s@),
            TelnetSubnegotiationResponse::WindowSize { col, row } => ResponseView::WindowSize {
                col: *col,
                row: *row,
            },
            TelnetSubnegotiationResponse::Any(o, v) => ResponseView::Any(*o, v@),
        }
    }
}

impl View for TelnetData {
    type V = DataView;

    open spec fn view(&self) -> DataView {
        match self {
            TelnetData::Command(c) => DataView::Command(*c),
            TelnetData::Will(b, o) => DataView::Will(*b, *o),
            TelnetData::Do(b, o) => DataView::Do(*b, *o),
            TelnetData::SubnegotiationRequest(o, v) => DataView::SubnegotiationRequest(*o, v@),
            TelnetData::SubnegotiationResponse(r) => DataView::SubnegotiationResponse(r@),
            TelnetData::Binary(v) => DataView::Binary(v@),
        }
    }
}

/// A big-endian 16-bit number from its two bytes.
pub open spec fn be_u16(hi: u8, lo: u8) -> u16 {
    (hi * 256 + lo) as u16
}

/// What a subnegotiation answer for `option` with data `data` means.
/// A terminal type answer is `0` (`IS`) and the name in UTF-8; a window size
/// answer is two big-endian numbers, columns then rows; the data of any other
/// option is kept as it is.
pub open spec fn response_spec(option: TelnetOption, data: Seq<u8>) -> Result<
    ResponseView,
    TelnetError,
> {
    match option {
        TelnetOption::TerminalType => if data[0] != 0 {
            Err(TelnetError::UnexpectedTerminalType)
        } else if valid_utf8(data.skip(1)) {
            Ok(ResponseView::TerminalType(decode_utf8(data.skip(1))))
        } else {
            Err(TelnetError::InvalidUtf8)
        },
        TelnetOption::WindowSizeNegotiation => if data.len() != 4 {
            Err(TelnetError::UnexpectedWindowSize)
        } else {
            Ok(
                ResponseView::WindowSize {
                    col: be_u16(data[0], data[1]),
                    row: be_u16(data[2], data[3]),
                },
            )
        },
        _ => Ok(ResponseView::Any(option, data)),
    }
}

/// The view of a result that holds a response.
pub open spec fn response_result_view(r: Result<TelnetSubnegotiationResponse, TelnetError>) -> Result<
    ResponseView,
    TelnetError,
> {
    match r {
        Ok(v) => Ok(v@),
        Err(e) => Err(e),
    }
}

/// `String::from_utf8`: `Some` exactly where the bytes are valid UTF-8, and
/// then the characters they encode.
#[verifier::external_body]
fn string_from_utf8(bytes: Vec<u8>) -> (s: Option<String>)
    ensures
        s is Some <==> valid_utf8(bytes@),
        s matches Some(t) ==> t@ == decode_utf8(bytes@),
{
    String::from_utf8(bytes).ok()
}

impl TelnetSubnegotiationResponse {
    /// Reads the answer that a peer gave for `option` with the data `data`.
    /// A terminal type answer must hold at least its first byte.
    pub fn new(option: TelnetOption, data: Vec<u8>) -> (r: Result<Self, TelnetError>)
        requires
            option == TelnetOption::TerminalType ==> data@.len() > 0,
        ensures
            response_result_view(r) == response_spec(option, data@),
    {
        let mut data = data;
        match option {
            TelnetOption::TerminalType => {
                let ghost all = data@;
                let code = data.remove(0);
                if code != 0 {
                    return Err(TelnetError::UnexpectedTerminalType);
                }
                assert(data@ =~= all.skip(1));
                match string_from_utf8(data) {
                    Some(s) => Ok(Self::TerminalType(s)),
                    None => Err(TelnetError::InvalidUtf8),
                }
            },
            TelnetOption::WindowSizeNegotiation => {
                if data.len() != 4 {
                    return Err(TelnetError::UnexpectedWindowSize);
                }
                let col = (data[0] as u16) * 256 + (data[1] as u16);
                let row = (data[2] as u16) * 256 + (data[3] as u16);
                Ok(Self::WindowSize { col, row })
            },
            o => Ok(Self::Any(o, data)),
        }
    }
}

} // verus!
