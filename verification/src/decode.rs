//! Reading telnet items out of a receive buffer.
use crate::buffer::{buffer_advance, buffer_byte, buffer_len, bytes_mut_contents};
use crate::codes::{
    command_byte, command_from_byte, is_command_spec, is_inline_spec, is_negotiation_spec,
    option_from_byte, TelnetCommand, TelnetOption, IAC,
};
use crate::data::{response_spec, DataView, TelnetData, TelnetError, TelnetSubnegotiationResponse};
use crate::seqs::{
    find_from, lemma_find_from, lemma_find_from_at, lemma_find_from_none, lemma_trailing_len,
    lemma_unescape_nonempty, trailing, unescape,
};
use tokio_util::bytes::BytesMut;
use vstd::prelude::*;

verus! {

/// The codec: it reads items out of a receive buffer and writes items into a
/// send buffer.
pub struct Telnet;

/// What reading one item from a buffer comes to.  Each count is the number of
/// bytes taken off the front of the buffer.
pub enum Decoded {
    /// No item yet; wait for more bytes.
    Pending(nat),
    /// An item.
    Ready(DataView, nat),
    /// A subnegotiation answer that was refused.
    Failed(TelnetError, nat),
    /// Outside what `decode` accepts: reading meets a 255 followed by a byte
    /// below 240, which names no command.
    Diverges,
    /// Outside what `decode` accepts: reading meets a 255, 250 and an option
    /// byte with nothing after them.
    Aborts,
}

/// The item that a negotiation command with option `o` stands for.
pub open spec fn negotiation_item(c: TelnetCommand, o: TelnetOption) -> DataView {
    match c {
        TelnetCommand::Will => DataView::Will(true, o),
        TelnetCommand::WillNot => DataView::Will(false, o),
        TelnetCommand::Do => DataView::Do(true, o),
        _ => DataView::Do(false, o),
    }
}

/// The subnegotiation scan: from position `seg` on, look for the next 240; the
/// count grows by the length of each stretch before a 240.  The 240 ends the
/// subnegotiation where an odd number of 255 bytes stand right before it in
/// its stretch; then the count is returned.
pub open spec fn sb_scan(s: Seq<u8>, seg: int, count: int) -> Option<int>
    decreases s.len() - seg,
{
    if seg < 0 {
        None
    } else {
        match find_from(s, seg, command_byte(TelnetCommand::SubnegotiationEnd)) {
            None => None,
            Some(j) => {
                proof {
                    lemma_find_from(s, seg, command_byte(TelnetCommand::SubnegotiationEnd));
                }
                let count2 = count + (j - seg);
                if trailing(s.subrange(seg, j), IAC) % 2 == 1 {
                    Some(count2)
                } else {
                    sb_scan(s, j + 1, count2)
                }
            },
        }
    }
}

/// A command at position `p` (a 255 there and the command's byte after it)
/// that is neither data nor dropped.
pub open spec fn command_at(s: Seq<u8>, p: int, c: TelnetCommand) -> Decoded {
    if is_command_spec(c) {
        Decoded::Ready(DataView::Command(c), (p + 2) as nat)
    } else if is_negotiation_spec(c) {
        if p + 2 < s.len() {
            Decoded::Ready(negotiation_item(c, option_from_byte(s[p + 2])), (p + 3) as nat)
        } else {
            Decoded::Pending(p as nat)
        }
    } else if p + 3 > s.len() {
        Decoded::Pending(p as nat)
    } else if p + 3 == s.len() {
        Decoded::Aborts
    } else {
        match sb_scan(s, p + 4, p + 4) {
            None => Decoded::Pending(p as nat),
            Some(count) => {
                let data = unescape(s.subrange(p + 3, count - 1));
                match response_spec(option_from_byte(s[p + 2]), data) {
                    Ok(r) => Decoded::Ready(DataView::SubnegotiationResponse(r), (count + 1) as nat),
                    Err(e) => Decoded::Failed(e, (count + 1) as nat),
                }
            },
        }
    }
}

/// Reading from position `pos` with the data `acc` gathered so far.  Up to the
/// next 255 the bytes are data.  An escaped 255 adds a 255 to the data; a
/// no-op, a data mark or a stray subnegotiation end adds nothing; the reading
/// goes on after them.  Any other command ends the data before it, or, with no
/// data before it in this stretch, is read as an item of its own.
pub open spec fn scan(s: Seq<u8>, pos: int, acc: Seq<u8>) -> Decoded
    decreases s.len() - pos,
{
    if pos < 0 || pos > s.len() {
        Decoded::Aborts
    } else {
        match find_from(s, pos, IAC) {
            None => Decoded::Ready(DataView::Binary(acc + s.subrange(pos, s.len() as int)), s.len()),
            Some(n) => {
                proof {
                    lemma_find_from(s, pos, IAC);
                }
                if n + 1 >= s.len() {
                    Decoded::Pending(pos as nat)
                } else {
                    match command_from_byte(s[n + 1]) {
                        None => Decoded::Diverges,
                        Some(c) => if is_inline_spec(c) {
                            let extra = if c == TelnetCommand::Escape {
                                seq![IAC]
                            } else {
                                Seq::<u8>::empty()
                            };
                            scan(s, n + 2, acc + s.subrange(pos, n) + extra)
                        } else if n != pos {
                            Decoded::Ready(DataView::Binary(acc + s.subrange(pos, n)), n as nat)
                        } else {
                            command_at(s, pos, c)
                        },
                    }
                }
            },
        }
    }
}

/// What reading one item from the bytes `s` comes to.
pub open spec fn decode_spec(s: Seq<u8>) -> Decoded {
    if s.len() == 0 {
        Decoded::Pending(0)
    } else {
        scan(s, 0, seq![])
    }
}

/// The buffers that `decode` accepts: reading them meets neither a 255
/// followed by a byte below 240 nor a 255, 250 and option byte that end the buffer.
pub open spec fn decode_defined(s: Seq<u8>) -> bool {
    !(decode_spec(s) is Diverges) && !(decode_spec(s) is Aborts)
}

/// What reading comes to, in executable form.
enum Scan {
    Pending(usize),
    Ready(TelnetData, usize),
    Failed(TelnetError, usize),
    Diverges,
    Aborts,
}

/// The counts in `r` stay within a buffer of `len` bytes.
spec fn scan_within(r: Scan, len: nat) -> bool {
    match r {
        Scan::Pending(k) => k <= len,
        Scan::Ready(_, k) => k <= len,
        Scan::Failed(_, k) => k <= len,
        _ => true,
    }
}

spec fn scan_view(r: Scan) -> Decoded {
    match r {
        Scan::Pending(k) => Decoded::Pending(k as nat),
        Scan::Ready(d, k) => Decoded::Ready(d@, k as nat),
        Scan::Failed(e, k) => Decoded::Failed(e, k as nat),
        Scan::Diverges => Decoded::Diverges,
        Scan::Aborts => Decoded::Aborts,
    }
}

/// The first position at or after `from` that holds `b`.
fn find_byte(src: &BytesMut, from: usize, b: u8) -> (r: Option<usize>)
    requires
        from <= bytes_mut_contents(*src).len(),
    ensures
        match r {
            Some(j) => find_from(bytes_mut_contents(*src), from as int, b) == Some(j as int),
            None => find_from(bytes_mut_contents(*src), from as int, b) is None,
        },
{
    let ghost s = bytes_mut_contents(*src);
    let len = buffer_len(src);
    let mut i = from;
    while i < len
        invariant
            from <= i <= len,
            len == s.len(),
            s == bytes_mut_contents(*src),
            forall|k: int| from <= k < i ==> s[k] != b,
        decreases len - i,
    {
        if buffer_byte(src, i) == b {
            proof {
                lemma_find_from_at(s, from as int, i as int, b);
            }
            return Some(i);
        }
        i = i + 1;
    }
    proof {
        lemma_find_from_none(s, from as int, b);
    }
    None
}

/// Appends the bytes from `start` up to `end` to `out`.
fn copy_range(src: &BytesMut, start: usize, end: usize, out: &mut Vec<u8>)
    requires
        start <= end <= bytes_mut_contents(*src).len(),
    ensures
        final(out)@ == old(out)@ + bytes_mut_contents(*src).subrange(start as int, end as int),
{
    let ghost s = bytes_mut_contents(*src);
    let ghost init = out@;
    let mut i = start;
    while i < end
        invariant
            start <= i <= end,
            end <= s.len(),
            s == bytes_mut_contents(*src),
            out@ == init + s.subrange(start as int, i as int),
        decreases end - i,
    {
        out.push(buffer_byte(src, i));
        proof {
            assert(s.subrange(start as int, i + 1) =~= s.subrange(start as int, i as int).push(
                s[i as int],
            ));
        }
        i = i + 1;
    }
}

/// How many bytes equal to `b` end the stretch from `start` up to `end`.
fn count_trailing(src: &BytesMut, start: usize, end: usize, b: u8) -> (n: usize)
    requires
        start <= end <= bytes_mut_contents(*src).len(),
    ensures
        n == trailing(bytes_mut_contents(*src).subrange(start as int, end as int), b),
{
    let ghost s = bytes_mut_contents(*src);
    let mut i = end;
    let mut n: usize = 0;
    while i > start
        invariant
            start <= i <= end,
            end <= s.len(),
            s == bytes_mut_contents(*src),
            n + i == end,
            trailing(s.subrange(start as int, end as int), b) == n + trailing(
                s.subrange(start as int, i as int),
                b,
            ),
        decreases i,
    {
        if buffer_byte(src, i - 1) != b {
            return n;
        }
        proof {
            assert(s.subrange(start as int, i as int).drop_last() =~= s.subrange(
                start as int,
                i - 1,
            ));
        }
        n = n + 1;
        i = i - 1;
    }
    n
}

/// Each pair of 255 bytes made one, read left to right.
fn unescape_vec(v: &Vec<u8>) -> (r: Vec<u8>)
    ensures
        r@ == unescape(v@),
{
    let mut out: Vec<u8> = Vec::new();
    let mut i: usize = 0;
    let len = v.len();
    proof {
        assert(v@.skip(0) =~= v@);
    }
    while i < len
        invariant
            i <= len,
            len == v@.len(),
            unescape(v@) == out@ + unescape(v@.skip(i as int)),
        decreases len - i,
    {
        let ghost rest = v@.skip(i as int);
        if v[i] == IAC && i + 1 < len && v[i + 1] == IAC {
            out.push(IAC);
            proof {
                assert(rest.skip(2) =~= v@.skip(i + 2));
                assert(unescape(rest) == seq![IAC] + unescape(rest.skip(2)));
            }
            i = i + 2;
        } else {
            out.push(v[i]);
            proof {
                assert(rest.skip(1) =~= v@.skip(i + 1));
                assert(unescape(rest) == seq![v@[i as int]] + unescape(rest.skip(1)));
            }
            i = i + 1;
        }
    }
    proof {
        assert(v@.skip(len as int) =~= Seq::<u8>::empty());
        assert(out@ + Seq::<u8>::empty() =~= out@);
    }
    out
}

/// The subnegotiation that starts at `p`: a 255, a 250 and an option byte.
fn subnegotiation_at(src: &BytesMut, p: usize) -> (r: Scan)
    requires
        p + 1 < bytes_mut_contents(*src).len(),
        bytes_mut_contents(*src)[p as int] == IAC,
        bytes_mut_contents(*src)[p + 1] == command_byte(TelnetCommand::Subnegotiation),
    ensures
        scan_view(r) == command_at(bytes_mut_contents(*src), p as int, TelnetCommand::Subnegotiation),
        scan_within(r, bytes_mut_contents(*src).len()),
{
    let ghost s = bytes_mut_contents(*src);
    let len = buffer_len(src);
    if len - p < 3 {
        return Scan::Pending(p);
    }
    if len - p == 3 {
        return Scan::Aborts;
    }
    let option = TelnetOption::from_byte(buffer_byte(src, p + 2));
    let se = TelnetCommand::SubnegotiationEnd.to_byte();
    let mut seg = p + 4;
    let mut count = p + 4;
    while seg <= len
        invariant
            p + 4 <= count <= seg,
            p + 4 <= len,
            len == s.len(),
            s == bytes_mut_contents(*src),
            se == command_byte(TelnetCommand::SubnegotiationEnd),
            option == option_from_byte(s[p + 2]),
            sb_scan(s, seg as int, count as int) == sb_scan(s, p + 4, p + 4),
        decreases len + 1 - seg,
    {
        match find_byte(src, seg, se) {
            None => {
                return Scan::Pending(p);
            },
            Some(j) => {
                proof {
                    lemma_find_from(s, seg as int, se);
                }
                count = count + (j - seg);
                let t = count_trailing(src, seg, j, IAC);
                if t % 2 == 1 {
                    proof {
                        lemma_trailing_len(s.subrange(seg as int, j as int), IAC);
                    }
                    let mut raw: Vec<u8> = Vec::new();
                    copy_range(src, p + 3, count - 1, &mut raw);
                    proof {
                        assert(raw@ =~= s.subrange(p + 3, count - 1));
                        lemma_unescape_nonempty(raw@);
                    }
                    let data = unescape_vec(&raw);
                    return match TelnetSubnegotiationResponse::new(option, data) {
                        Ok(resp) => Scan::Ready(TelnetData::SubnegotiationResponse(resp), count + 1),
                        Err(e) => Scan::Failed(e, count + 1),
                    };
                }
                seg = j + 1;
            },
        }
    }
    Scan::Pending(p)
}

/// Reads one item, or finds that none is there yet, without changing `src`.
fn scan_buffer(src: &BytesMut) -> (r: Scan)
    ensures
        scan_view(r) == decode_spec(bytes_mut_contents(*src)),
        scan_within(r, bytes_mut_contents(*src).len()),
{
    let ghost s = bytes_mut_contents(*src);
    let len = buffer_len(src);
    if len == 0 {
        return Scan::Pending(0);
    }
    let mut buf: Vec<u8> = Vec::new();
    let mut pos: usize = 0;
    loop
        invariant
            pos <= len,
            len == s.len(),
            len > 0,
            s == bytes_mut_contents(*src),
            scan(s, pos as int, buf@) == decode_spec(s),
        decreases len - pos,
    {
        match find_byte(src, pos, IAC) {
            None => {
                copy_range(src, pos, len, &mut buf);
                return Scan::Ready(TelnetData::Binary(buf), len);
            },
            Some(n) => {
                proof {
                    lemma_find_from(s, pos as int, IAC);
                }
                if n + 1 >= len {
                    return Scan::Pending(pos);
                }
                let c = match TelnetCommand::try_from_byte(buffer_byte(src, n + 1)) {
                    Some(c) => c,
                    None => {
                        return Scan::Diverges;
                    },
                };
                if c == TelnetCommand::Escape || c == TelnetCommand::Nop || c
                    == TelnetCommand::DataMark || c == TelnetCommand::SubnegotiationEnd {
                    let ghost before = buf@;
                    copy_range(src, pos, n, &mut buf);
                    if c == TelnetCommand::Escape {
                        buf.push(IAC);
                    }
                    proof {
                        let extra = if c == TelnetCommand::Escape {
                            seq![IAC]
                        } else {
                            Seq::<u8>::empty()
                        };
                        assert(buf@ =~= before + s.subrange(pos as int, n as int) + extra);
                    }
                    pos = n + 2;
                } else if n != pos {
                    copy_range(src, pos, n, &mut buf);
                    return Scan::Ready(TelnetData::Binary(buf), n);
                } else if c.is_command() {
                    return Scan::Ready(TelnetData::Command(c), pos + 2);
                } else if c == TelnetCommand::Subnegotiation {
                    return subnegotiation_at(src, pos);
                } else {
                    if pos + 2 < len {
                        let o = TelnetOption::from_byte(buffer_byte(src, pos + 2));
                        let item = if c == TelnetCommand::Will {
                            TelnetData::Will(true, o)
                        } else if c == TelnetCommand::WillNot {
                            TelnetData::Will(false, o)
                        } else if c == TelnetCommand::Do {
                            TelnetData::Do(true, o)
                        } else {
                            TelnetData::Do(false, o)
                        };
                        return Scan::Ready(item, pos + 3);
                    }
                    return Scan::Pending(pos);
                }
            },
        }
    }
}

/// Whether `r` is what reading `s` gives, with `after` what is left of the
/// buffer.
pub open spec fn decode_result(
    s: Seq<u8>,
    r: Result<Option<TelnetData>, TelnetError>,
    after: Seq<u8>,
) -> bool {
    match decode_spec(s) {
        Decoded::Pending(k) => r == Ok::<Option<TelnetData>, TelnetError>(None) && after == s.skip(
            k as int,
        ),
        Decoded::Ready(d, k) => (r matches Ok(Some(x)) && x@ == d) && after == s.skip(k as int),
        Decoded::Failed(e, k) => r == Err::<Option<TelnetData>, TelnetError>(e) && after == s.skip(
            k as int,
        ),
        _ => false,
    }
}

/// Whether `decode` accepts a buffer, and if not, which of the two cases
/// outside its precondition the buffer falls in.
#[derive(Clone, Copy, Debug, PartialEq, Eq, Structural)]
pub enum DecodeHazard {
    /// `decode` accepts the buffer.
    Safe,
    /// Outside what `decode` accepts: reading meets a 255 followed by a byte
    /// below 240.
    Spins,
    /// Outside what `decode` accepts: reading meets a 255, 250 and an option
    /// byte with nothing after them.
    SliceOutOfRange,
}

impl Telnet {
    /// Whether `decode` accepts `src`, and if not, why not.
    pub fn decode_hazard(&self, src: &BytesMut) -> (h: DecodeHazard)
        ensures
            (h == DecodeHazard::Spins) == (decode_spec(bytes_mut_contents(*src)) is Diverges),
            (h == DecodeHazard::SliceOutOfRange) == (decode_spec(bytes_mut_contents(*src)) is Aborts),
            (h == DecodeHazard::Safe) == decode_defined(bytes_mut_contents(*src)),
    {
        match scan_buffer(src) {
            Scan::Diverges => DecodeHazard::Spins,
            Scan::Aborts => DecodeHazard::SliceOutOfRange,
            _ => DecodeHazard::Safe,
        }
    }

    /// Reads one item from the front of `src` and takes its bytes off.
    /// `Ok(None)` means that more bytes are needed; bytes that were read as
    /// escapes or dropped commands before that point are taken off all the same.
    pub fn decode(&mut self, src: &mut BytesMut) -> (r: Result<Option<TelnetData>, TelnetError>)
        requires
            decode_defined(bytes_mut_contents(*old(src))),
        ensures
            decode_result(bytes_mut_contents(*old(src)), r, bytes_mut_contents(*final(src))),
            bytes_mut_contents(*final(src)).len() <= bytes_mut_contents(*old(src)).len(),
            bytes_mut_contents(*final(src)) == bytes_mut_contents(*old(src)).subrange(
                bytes_mut_contents(*old(src)).len() - bytes_mut_contents(*final(src)).len(),
                bytes_mut_contents(*old(src)).len() as int,
            ),
            r matches Ok(Some(_)) ==> bytes_mut_contents(*final(src)).len() < bytes_mut_contents(
                *old(src),
            ).len(),
    {
        let ghost s = bytes_mut_contents(*src);
        proof {
            crate::laws::law_decode_takes_prefix(s);
        }
        match scan_buffer(src) {
            Scan::Pending(k) => {
                buffer_advance(src, k);
                Ok(None)
            },
            Scan::Ready(d, k) => {
                buffer_advance(src, k);
                Ok(Some(d))
            },
            Scan::Failed(e, k) => {
                buffer_advance(src, k);
                Err(e)
            },
            Scan::Diverges => Ok(None),
            Scan::Aborts => Ok(None),
        }
    }
}

} // verus!
