//! What holds of the codec as a whole: what is written is read back.
use crate::codes::{
    command_byte, command_from_byte, is_command_spec, option_byte, option_from_byte,
    option_is_canonical, TelnetCommand, TelnetOption, IAC,
};
use crate::data::{response_spec, DataView, ResponseView};
use crate::decode::{decode_spec, sb_scan, scan, Decoded};
use crate::encode::encode_spec;
use crate::seqs::{
    escape_iac, find_from, lacks, lemma_escape_concat, lemma_escape_plain, lemma_find_from,
    lemma_find_from_at, lemma_find_from_none, lemma_unescape_plain, trailing, unescape,
};
use vstd::prelude::*;

verus! {

/// Every byte names an option whose byte is that byte again.
pub proof fn law_option_byte_roundtrip(b: u8)
    ensures
        option_byte(option_from_byte(b)) == b,
{
}

/// Every command is read back from its byte, and the bytes that name a
/// command are exactly those from 240 up, each naming the command whose byte
/// it is.
pub proof fn law_command_byte_roundtrip(c: TelnetCommand, b: u8)
    ensures
        command_from_byte(command_byte(c)) == Some(c),
        command_from_byte(b) is Some <==> b >= 240,
        command_from_byte(b) matches Some(d) ==> command_byte(d) == b,
{
}

/// Reading data that was written with its 255 bytes doubled, from `pos` on,
/// gives the data back with nothing left over.
proof fn lemma_scan_escaped(s: Seq<u8>, pos: int, acc: Seq<u8>, v: Seq<u8>)
    requires
        0 <= pos <= s.len(),
        s.subrange(pos, s.len() as int) == escape_iac(v),
    ensures
        scan(s, pos, acc) == Decoded::Ready(DataView::Binary(acc + v), s.len()),
    decreases v.len(),
{
    lemma_find_from(v, 0, IAC);
    match find_from(v, 0, IAC) {
        None => {
            assert(lacks(v, IAC));
            lemma_escape_plain(v);
            assert forall|k: int| pos <= k < s.len() implies s[k] != IAC by {
                assert(s[k] == s.subrange(pos, s.len() as int)[k - pos]);
            }
            lemma_find_from_none(s, pos, IAC);
        },
        Some(i) => {
            let head = v.subrange(0, i);
            let tail = v.subrange(i + 1, v.len() as int);
            assert(lacks(head, IAC));
            lemma_escape_plain(head);
            assert(v =~= head + (seq![IAC] + tail));
            lemma_escape_concat(head, seq![IAC] + tail);
            lemma_escape_concat(seq![IAC], tail);
            assert(seq![IAC].skip(1) =~= Seq::<u8>::empty());
            assert(escape_iac(seq![IAC]) == seq![IAC, IAC] + escape_iac(seq![IAC].skip(1)));
            assert(escape_iac(seq![IAC]) =~= seq![IAC, IAC]);
            let e = escape_iac(v);
            assert(e =~= head + seq![IAC, IAC] + escape_iac(tail));
            assert forall|k: int| pos <= k < pos + i implies s[k] != IAC by {
                assert(s[k] == e[k - pos]);
                assert(e[k - pos] == head[k - pos]);
            }
            assert(s[pos + i] == e[i]);
            assert(s[pos + i + 1] == e[i + 1]);
            lemma_find_from_at(s, pos, pos + i, IAC);
            assert(s.subrange(pos, pos + i) =~= head);
            assert(e.len() == s.len() - pos);
            assert(e.subrange(i + 2, e.len() as int) =~= escape_iac(tail));
            assert(s.subrange(pos + i + 2, s.len() as int) =~= e.subrange(i + 2, e.len() as int));
            lemma_scan_escaped(s, pos + i + 2, acc + head + seq![IAC], tail);
            assert(acc + head + seq![IAC] + tail =~= acc + v);
            assert(command_from_byte(s[pos + i + 1]) == Some(TelnetCommand::Escape));
        },
    }
}

/// Data that is not empty is read back as it was written, and all that was
/// written is taken.
pub proof fn law_binary_roundtrip(v: Seq<u8>)
    requires
        v.len() > 0,
    ensures
        decode_spec(encode_spec(DataView::Binary(v))) == Decoded::Ready(
            DataView::Binary(v),
            escape_iac(v).len(),
        ),
{
    let e = escape_iac(v);
    assert(e.len() > 0);
    assert(e.subrange(0, e.len() as int) =~= e);
    lemma_scan_escaped(e, 0, seq![], v);
    assert(Seq::<u8>::empty() + v =~= v);
}

/// A reading gives a `Command` item only for a command that stands alone.
proof fn lemma_scan_command(s: Seq<u8>, pos: int, acc: Seq<u8>)
    ensures
        scan(s, pos, acc) matches Decoded::Ready(DataView::Command(x), _) ==> is_command_spec(x),
    decreases s.len() - pos,
{
    if 0 <= pos <= s.len() {
        lemma_find_from(s, pos, IAC);
        if let Some(n) = find_from(s, pos, IAC) {
            if n + 1 < s.len() {
                if let Some(c) = command_from_byte(s[n + 1]) {
                    let extra = if c == TelnetCommand::Escape {
                        seq![IAC]
                    } else {
                        Seq::<u8>::empty()
                    };
                    lemma_scan_command(s, n + 2, acc + s.subrange(pos, n) + extra);
                }
            }
        }
    }
}

/// A command written on its own, whatever follows it, is read back as that
/// command exactly when it is one that stands alone; it takes two bytes.
pub proof fn law_command_roundtrip(c: TelnetCommand, rest: Seq<u8>)
    ensures
        (decode_spec(encode_spec(DataView::Command(c)) + rest) == Decoded::Ready(
            DataView::Command(c),
            2,
        )) <==> is_command_spec(c),
{
    let s = encode_spec(DataView::Command(c)) + rest;
    assert(s[0] == IAC);
    assert(s[1] == command_byte(c));
    lemma_find_from_at(s, 0, 0, IAC);
    lemma_scan_command(s, 0, seq![]);
}

/// A negotiation for an option whose byte reads back as that option, whatever
/// follows it, is read back as written and takes three bytes.
pub proof fn law_negotiation_roundtrip(will: bool, yes: bool, o: TelnetOption, rest: Seq<u8>)
    requires
        option_is_canonical(o),
    ensures
        decode_spec(encode_spec(DataView::Will(will, o)) + rest) == Decoded::Ready(
            DataView::Will(will, o),
            3,
        ),
        decode_spec(encode_spec(DataView::Do(yes, o)) + rest) == Decoded::Ready(
            DataView::Do(yes, o),
            3,
        ),
{
    let s = encode_spec(DataView::Will(will, o)) + rest;
    assert(s[0] == IAC);
    assert(s[2] == option_byte(o));
    lemma_find_from_at(s, 0, 0, IAC);
    let t = encode_spec(DataView::Do(yes, o)) + rest;
    assert(t[0] == IAC);
    assert(t[2] == option_byte(o));
    lemma_find_from_at(t, 0, 0, IAC);
}

/// A subnegotiation request whose data is not empty and holds no 255 and no
/// 240, for an option whose byte reads back as that option, is read back,
/// whatever follows it, as the answer that its data means, and takes all its
/// bytes.
pub proof fn law_subnegotiation_roundtrip(o: TelnetOption, v: Seq<u8>, rest: Seq<u8>)
    requires
        option_is_canonical(o),
        v.len() > 0,
        lacks(v, IAC),
        lacks(v, command_byte(TelnetCommand::SubnegotiationEnd)),
    ensures
        decode_spec(encode_spec(DataView::SubnegotiationRequest(o, v)) + rest) == (match response_spec(
            o,
            v,
        ) {
            Ok(r) => Decoded::Ready(DataView::SubnegotiationResponse(r), v.len() + 5),
            Err(e) => Decoded::Failed(e, v.len() + 5),
        }),
{
    let se = command_byte(TelnetCommand::SubnegotiationEnd);
    let s = encode_spec(DataView::SubnegotiationRequest(o, v)) + rest;
    let m = v.len() as int;
    assert(s[0] == IAC);
    assert(s[1] == command_byte(TelnetCommand::Subnegotiation));
    assert(s[2] == option_byte(o));
    assert forall|k: int| 0 <= k < m implies s[3 + k] == v[k] by {}
    assert(s[3 + m] == IAC);
    assert(s[4 + m] == se);
    lemma_find_from_at(s, 0, 0, IAC);
    assert forall|k: int| 4 <= k < 4 + m implies s[k] != se by {
        if k < 3 + m {
            assert(s[k] == v[k - 3]);
        }
    }
    lemma_find_from_at(s, 4, 4 + m, se);
    let stretch = s.subrange(4, 4 + m);
    assert(stretch.last() == IAC);
    assert(stretch.drop_last() =~= v.subrange(1, m));
    if m > 1 {
        assert(stretch.drop_last().last() == v[m - 1]);
    }
    assert(trailing(stretch.drop_last(), IAC) == 0);
    assert(trailing(stretch, IAC) == 1);
    assert(sb_scan(s, 4, 4) == Some(4 + m));
    assert(s.subrange(3, 3 + m) =~= v);
    lemma_unescape_plain(v);
    assert(unescape(s.subrange(3, 4 + m - 1)) == v);
    assert(option_from_byte(s[2]) == o);
}

/// The count that a subnegotiation scan returns stands before the end of the
/// buffer and is not less than where it started.
proof fn lemma_sb_scan_bound(s: Seq<u8>, seg: int, count: int)
    requires
        0 <= count <= seg,
    ensures
        sb_scan(s, seg, count) matches Some(c) ==> count <= c < s.len(),
    decreases s.len() - seg,
{
    let se = command_byte(TelnetCommand::SubnegotiationEnd);
    lemma_find_from(s, seg, se);
    if let Some(j) = find_from(s, seg, se) {
        lemma_sb_scan_bound(s, j + 1, count + (j - seg));
    }
}

/// Reading from `pos` in a non-empty buffer takes no more bytes than it
/// holds, and at least one for an item or a refused answer.
proof fn lemma_scan_bound(s: Seq<u8>, pos: int, acc: Seq<u8>)
    requires
        0 <= pos <= s.len(),
        s.len() > 0,
    ensures
        scan(s, pos, acc) matches Decoded::Pending(k) ==> k <= s.len(),
        scan(s, pos, acc) matches Decoded::Ready(_, k) ==> 0 < k <= s.len(),
        scan(s, pos, acc) matches Decoded::Failed(_, k) ==> 0 < k <= s.len(),
    decreases s.len() - pos,
{
    lemma_find_from(s, pos, IAC);
    if let Some(n) = find_from(s, pos, IAC) {
        if n + 1 < s.len() {
            if let Some(c) = command_from_byte(s[n + 1]) {
                let extra = if c == TelnetCommand::Escape {
                    seq![IAC]
                } else {
                    Seq::<u8>::empty()
                };
                lemma_scan_bound(s, n + 2, acc + s.subrange(pos, n) + extra);
                if pos + 3 < s.len() {
                    lemma_sb_scan_bound(s, pos + 4, pos + 4);
                }
            }
        }
    }
}

/// Reading takes bytes only off the front of the buffer, never more than it
/// holds, and at least one for each item or refused answer.
pub proof fn law_decode_takes_prefix(s: Seq<u8>)
    ensures
        decode_spec(s) matches Decoded::Pending(k) ==> k <= s.len(),
        decode_spec(s) matches Decoded::Ready(_, k) ==> 0 < k <= s.len(),
        decode_spec(s) matches Decoded::Failed(_, k) ==> 0 < k <= s.len(),
{
    if s.len() > 0 {
        lemma_scan_bound(s, 0, seq![]);
    }
}

/// Writing an item adds no bytes exactly for a subnegotiation answer and for
/// empty data.
pub proof fn law_encode_adds_nothing_only_for_empty(d: DataView)
    ensures
        (encode_spec(d).len() == 0) <==> (d is SubnegotiationResponse || d == DataView::Binary(
            Seq::<u8>::empty(),
        )),
{
    if let DataView::Binary(v) = d {
        if v.len() > 0 {
            assert(escape_iac(v).len() > 0);
        } else {
            assert(v =~= Seq::<u8>::empty());
        }
    }
}

/// The option bytes are the assigned telnet option numbers, read in both
/// directions.
pub proof fn law_option_numbers()
    ensures
        option_byte(TelnetOption::BinaryTransmission) == 0,
        option_byte(TelnetOption::Echo) == 1,
        option_byte(TelnetOption::Reconnection) == 2,
        option_byte(TelnetOption::SuppressGoAhead) == 3,
        option_byte(TelnetOption::ApproxMessageSizeNegotiation) == 4,
        option_byte(TelnetOption::Status) == 5,
        option_byte(TelnetOption::TimingMark) == 6,
        option_byte(TelnetOption::RemoteControlledTransAndEcho) == 7,
        option_byte(TelnetOption::ExtendedAscii) == 17,
        option_byte(TelnetOption::TerminalType) == 24,
        option_byte(TelnetOption::WindowSizeNegotiation) == 31,
        option_byte(TelnetOption::TerminalSpeed) == 32,
        option_byte(TelnetOption::RemoteFlowControl) == 33,
        option_byte(TelnetOption::LineMode) == 34,
        option_byte(TelnetOption::XDisplayControl) == 35,
        option_byte(TelnetOption::Environment) == 36,
        option_byte(TelnetOption::Authentication) == 37,
        option_byte(TelnetOption::Encryption) == 38,
        option_byte(TelnetOption::NewEnvironment) == 39,
        option_byte(TelnetOption::Charset) == 42,
        option_byte(TelnetOption::Hongbao2024) == 240,
        option_byte(TelnetOption::ExtendedOptionsList) == 255,
        forall|b: u8| option_byte(TelnetOption::Unknown(b)) == b,
        option_from_byte(0) == TelnetOption::BinaryTransmission,
        option_from_byte(1) == TelnetOption::Echo,
        option_from_byte(2) == TelnetOption::Reconnection,
        option_from_byte(3) == TelnetOption::SuppressGoAhead,
        option_from_byte(4) == TelnetOption::ApproxMessageSizeNegotiation,
        option_from_byte(5) == TelnetOption::Status,
        option_from_byte(6) == TelnetOption::TimingMark,
        option_from_byte(7) == TelnetOption::RemoteControlledTransAndEcho,
        option_from_byte(17) == TelnetOption::ExtendedAscii,
        option_from_byte(24) == TelnetOption::TerminalType,
        option_from_byte(31) == TelnetOption::WindowSizeNegotiation,
        option_from_byte(32) == TelnetOption::TerminalSpeed,
        option_from_byte(33) == TelnetOption::RemoteFlowControl,
        option_from_byte(34) == TelnetOption::LineMode,
        option_from_byte(35) == TelnetOption::XDisplayControl,
        option_from_byte(36) == TelnetOption::Environment,
        option_from_byte(37) == TelnetOption::Authentication,
        option_from_byte(38) == TelnetOption::Encryption,
        option_from_byte(39) == TelnetOption::NewEnvironment,
        option_from_byte(42) == TelnetOption::Charset,
        option_from_byte(240) == TelnetOption::Hongbao2024,
        option_from_byte(255) == TelnetOption::ExtendedOptionsList,
        option_from_byte(8) == TelnetOption::Unknown(8),
        option_from_byte(254) == TelnetOption::Unknown(254),
{
}

/// The command bytes are the telnet command codes, read in both directions.
pub proof fn law_command_codes()
    ensures
        command_byte(TelnetCommand::SubnegotiationEnd) == 240,
        command_byte(TelnetCommand::Nop) == 241,
        command_byte(TelnetCommand::DataMark) == 242,
        command_byte(TelnetCommand::Break) == 243,
        command_byte(TelnetCommand::InterruptProcess) == 244,
        command_byte(TelnetCommand::AbortOutput) == 245,
        command_byte(TelnetCommand::AreYouThere) == 246,
        command_byte(TelnetCommand::EraseCharacter) == 247,
        command_byte(TelnetCommand::EraseLine) == 248,
        command_byte(TelnetCommand::GoAhead) == 249,
        command_byte(TelnetCommand::Subnegotiation) == 250,
        command_byte(TelnetCommand::Will) == 251,
        command_byte(TelnetCommand::WillNot) == 252,
        command_byte(TelnetCommand::Do) == 253,
        command_byte(TelnetCommand::DoNot) == 254,
        command_byte(TelnetCommand::Escape) == 255,
        command_from_byte(240) == Some(TelnetCommand::SubnegotiationEnd),
        command_from_byte(241) == Some(TelnetCommand::Nop),
        command_from_byte(242) == Some(TelnetCommand::DataMark),
        command_from_byte(243) == Some(TelnetCommand::Break),
        command_from_byte(244) == Some(TelnetCommand::InterruptProcess),
        command_from_byte(245) == Some(TelnetCommand::AbortOutput),
        command_from_byte(246) == Some(TelnetCommand::AreYouThere),
        command_from_byte(247) == Some(TelnetCommand::EraseCharacter),
        command_from_byte(248) == Some(TelnetCommand::EraseLine),
        command_from_byte(249) == Some(TelnetCommand::GoAhead),
        command_from_byte(250) == Some(TelnetCommand::Subnegotiation),
        command_from_byte(251) == Some(TelnetCommand::Will),
        command_from_byte(252) == Some(TelnetCommand::WillNot),
        command_from_byte(253) == Some(TelnetCommand::Do),
        command_from_byte(254) == Some(TelnetCommand::DoNot),
        command_from_byte(255) == Some(TelnetCommand::Escape),
        forall|b: u8| b < 240 ==> command_from_byte(b) is None,
{
}

/// A window size answer of four bytes is two big-endian numbers: columns
/// from the first two bytes, rows from the last two.
pub proof fn law_window_size_big_endian(a: u8, b: u8, c: u8, d: u8)
    ensures
        response_spec(TelnetOption::WindowSizeNegotiation, seq![a, b, c, d]) matches Ok(
            ResponseView::WindowSize { col, row },
        ) && col as int == a as int * 256 + b as int && row as int == c as int * 256 + d as int,
{
}

/// Data is never dropped in front of a command that is neither data nor
/// dropped itself: reading stops right before the command and gives the
/// data, whatever the command and whatever follows it.
pub proof fn law_data_stops_before_command(v: Seq<u8>, c: TelnetCommand, rest: Seq<u8>)
    requires
        v.len() > 0,
        lacks(v, IAC),
        c != TelnetCommand::Escape,
        c != TelnetCommand::Nop,
        c != TelnetCommand::DataMark,
        c != TelnetCommand::SubnegotiationEnd,
    ensures
        decode_spec(v + seq![IAC, command_byte(c)] + rest) == Decoded::Ready(
            DataView::Binary(v),
            v.len(),
        ),
{
    let s = v + seq![IAC, command_byte(c)] + rest;
    let n = v.len() as int;
    assert forall|k: int| 0 <= k < n implies s[k] != IAC by {
        assert(s[k] == v[k]);
    }
    assert(s[n] == IAC);
    assert(s[n + 1] == command_byte(c));
    lemma_find_from_at(s, 0, n, IAC);
    assert(s.subrange(0, n) =~= v);
    assert(Seq::<u8>::empty() + v =~= v);
}

} // verus!
