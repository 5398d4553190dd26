//! Writing telnet items into a send buffer.
use crate::buffer::{buffer_extend, buffer_len, buffer_put_u8, bytes_mut_contents};
use crate::codes::{command_byte, option_byte, TelnetCommand, TelnetOption, IAC};
use crate::data::{DataView, TelnetData, TelnetError};
use crate::decode::Telnet;
use crate::seqs::{
    escape_iac, find_from, find_in, lacks, lemma_escape_concat, lemma_escape_plain,
    lemma_find_from,
};
use tokio_util::bytes::BytesMut;
use vstd::prelude::*;
use vstd::slice::slice_subrange;

verus! {

/// The three bytes of a negotiation: 255, the command and the option.
pub open spec fn negotiation_bytes(c: TelnetCommand, o: TelnetOption) -> Seq<u8> {
    seq![IAC, command_byte(c), option_byte(o)]
}

/// The bytes that an item is sent as.  Data is sent with each 255 doubled; a
/// subnegotiation request as 255 250, the option, its data as it is, and 255
/// 240; a negotiation as 255, the command and the option; a command as 255
/// and its byte.  A subnegotiation answer is not sent: it gives no bytes.
pub open spec fn encode_spec(d: DataView) -> Seq<u8> {
    match d {
        DataView::Binary(v) => escape_iac(v),
        DataView::SubnegotiationRequest(o, v) => seq![
            IAC,
            command_byte(TelnetCommand::Subnegotiation),
            option_byte(o),
        ] + v + seq![IAC, command_byte(TelnetCommand::SubnegotiationEnd)],
        DataView::Will(true, o) => negotiation_bytes(TelnetCommand::Will, o),
        DataView::Will(false, o) => negotiation_bytes(TelnetCommand::WillNot, o),
        DataView::Do(true, o) => negotiation_bytes(TelnetCommand::Do, o),
        DataView::Do(false, o) => negotiation_bytes(TelnetCommand::DoNot, o),
        DataView::Command(c) => seq![IAC, command_byte(c)],
        DataView::SubnegotiationResponse(_) => Seq::empty(),
    }
}

/// Sends `v` as data: each 255 in it is sent twice.
fn encode_binary(v: &Vec<u8>, dst: &mut BytesMut)
    requires
        bytes_mut_contents(*old(dst)).len() + escape_iac(v@).len() <= isize::MAX,
    ensures
        bytes_mut_contents(*final(dst)) == bytes_mut_contents(*old(dst)) + escape_iac(v@),
{
    let ghost init = bytes_mut_contents(*dst);
    let len = v.len();
    let mut start: usize = 0;
    proof {
        assert(v@.subrange(0, 0) =~= Seq::<u8>::empty());
        assert(v@.subrange(0, len as int) =~= v@);
        assert(init + Seq::<u8>::empty() =~= init);
        lemma_escape_concat(Seq::<u8>::empty(), v@);
        assert(Seq::<u8>::empty() + v@ =~= v@);
    }
    loop
        invariant
            start <= len,
            len == v@.len(),
            init.len() + escape_iac(v@).len() <= isize::MAX,
            bytes_mut_contents(*dst) == init + escape_iac(v@.subrange(0, start as int)),
            escape_iac(v@) == escape_iac(v@.subrange(0, start as int)) + escape_iac(
                v@.subrange(start as int, len as int),
            ),
        ensures
            find_from(v@, start as int, IAC) is None,
        decreases len - start,
    {
        match find_in(v, start, IAC) {
            Some(n) => {
                proof {
                    lemma_find_from(v@, start as int, IAC);
                    let a = v@.subrange(0, start as int);
                    let mid = v@.subrange(start as int, n as int);
                    let rest = v@.subrange(n + 1, len as int);
                    assert(lacks(mid, IAC));
                    lemma_escape_plain(mid);
                    assert(seq![IAC].skip(1) =~= Seq::<u8>::empty());
                    assert(escape_iac(seq![IAC]) == seq![IAC, IAC] + escape_iac(seq![IAC].skip(1)));
                    assert(escape_iac(seq![IAC]) =~= seq![IAC, IAC]);
                    lemma_escape_concat(mid, seq![IAC]);
                    assert(v@.subrange(start as int, n + 1) =~= mid + seq![IAC]);
                    assert(v@.subrange(start as int, len as int) =~= v@.subrange(
                        start as int,
                        n + 1,
                    ) + rest);
                    lemma_escape_concat(v@.subrange(start as int, n + 1), rest);
                    assert(v@.subrange(0, n + 1) =~= a + v@.subrange(start as int, n + 1));
                    lemma_escape_concat(a, v@.subrange(start as int, n + 1));
                }
                buffer_extend(dst, slice_subrange(v.as_slice(), start, n + 1));
                buffer_put_u8(dst, IAC);
                proof {
                    let a = v@.subrange(0, start as int);
                    let piece = v@.subrange(start as int, n + 1);
                    assert(escape_iac(piece) =~= piece.push(IAC));
                    assert(init + escape_iac(a) + piece.push(IAC) =~= init + escape_iac(
                        v@.subrange(0, n + 1),
                    ));
                }
                start = n + 1;
            },
            None => {
                break ;
            },
        }
    }
    proof {
        let rest = v@.subrange(start as int, len as int);
        lemma_find_from(v@, start as int, IAC);
        assert(lacks(rest, IAC));
        lemma_escape_plain(rest);
    }
    buffer_extend(dst, slice_subrange(v.as_slice(), start, len));
    proof {
        assert(init + escape_iac(v@.subrange(0, start as int)) + v@.subrange(
            start as int,
            len as int,
        ) =~= init + escape_iac(v@));
    }
}

/// How many bytes `item` is sent as, or `None` where that number does not fit
/// in a `usize`.
pub fn encoded_len(item: &TelnetData) -> (r: Option<usize>)
    ensures
        match r {
            Some(n) => n == encode_spec(item@).len(),
            None => encode_spec(item@).len() > usize::MAX,
        },
{
    match item {
        TelnetData::Binary(v) => {
            let mut n: usize = 0;
            let mut i: usize = 0;
            proof {
                assert(v@.take(0) =~= Seq::<u8>::empty());
            }
            while i < v.len()
                invariant
                    i <= v@.len(),
                    n == escape_iac(v@.take(i as int)).len(),
                    encode_spec(item@) == escape_iac(v@),
                decreases v@.len() - i,
            {
                proof {
                    let x = v@[i as int];
                    let one = seq![x];
                    assert(one.skip(1) =~= Seq::<u8>::empty());
                    assert(escape_iac(one) == (if x == IAC {
                        seq![IAC, IAC]
                    } else {
                        seq![x]
                    }) + escape_iac(one.skip(1)));
                    assert(v@.take(i + 1) =~= v@.take(i as int) + one);
                    lemma_escape_concat(v@.take(i as int), one);
                    assert(v@.take(i as int) + v@.skip(i as int) =~= v@);
                    lemma_escape_concat(v@.take(i as int), v@.skip(i as int));
                    assert(v@.take(i + 1) + v@.skip(i + 1) =~= v@);
                    lemma_escape_concat(v@.take(i + 1), v@.skip(i + 1));
                }
                let step: usize = if v[i] == IAC {
                    2
                } else {
                    1
                };
                assert(escape_iac(v@.take(i + 1)).len() == n + step);
                assert(escape_iac(v@).len() >= n + step);
                match n.checked_add(step) {
                    Some(m) => {
                        n = m;
                    },
                    None => {
                        return None;
                    },
                }
                i = i + 1;
            }
            proof {
                assert(v@.take(v@.len() as int) =~= v@);
            }
            Some(n)
        },
        TelnetData::SubnegotiationRequest(_, v) => {
            if v.len() > usize::MAX - 5 {
                None
            } else {
                Some(v.len() + 5)
            }
        },
        TelnetData::Will(_, _) | TelnetData::Do(_, _) => Some(3),
        TelnetData::Command(_) => Some(2),
        TelnetData::SubnegotiationResponse(_) => Some(0),
    }
}

impl Telnet {
    /// Whether `item` can be appended to `dst`: the bytes together stay within
    /// `isize::MAX`, the most that a `BytesMut` holds.
    pub fn encode_fits(&self, item: &TelnetData, dst: &BytesMut) -> (b: bool)
        ensures
            b == (bytes_mut_contents(*dst).len() + encode_spec(item@).len() <= isize::MAX),
    {
        let len = buffer_len(dst);
        match encoded_len(item) {
            Some(n) => match len.checked_add(n) {
                Some(total) => total <= isize::MAX as usize,
                None => false,
            },
            None => false,
        }
    }

    /// Appends the bytes of `item` to `dst`.  It always succeeds.
    pub fn encode(&mut self, item: TelnetData, dst: &mut BytesMut) -> (r: Result<(), TelnetError>)
        requires
            bytes_mut_contents(*old(dst)).len() + encode_spec(item@).len() <= isize::MAX,
        ensures
            r is Ok,
            bytes_mut_contents(*final(dst)) == bytes_mut_contents(*old(dst)) + encode_spec(item@),
    {
        let ghost init = bytes_mut_contents(*dst);
        match item {
            TelnetData::Binary(v) => {
                encode_binary(&v, dst);
                return Ok(());
            },
            TelnetData::SubnegotiationRequest(o, v) => {
                let head = vec![IAC, TelnetCommand::Subnegotiation.to_byte(), o.to_byte()];
                buffer_extend(dst, head.as_slice());
                buffer_extend(dst, v.as_slice());
                let tail = vec![IAC, TelnetCommand::SubnegotiationEnd.to_byte()];
                buffer_extend(dst, tail.as_slice());
                proof {
                    assert(bytes_mut_contents(*dst) =~= init + encode_spec(
                        TelnetData::SubnegotiationRequest(o, v)@,
                    ));
                }
            },
            TelnetData::Will(will, o) => {
                let c = if will {
                    TelnetCommand::Will
                } else {
                    TelnetCommand::WillNot
                };
                let bytes = vec![IAC, c.to_byte(), o.to_byte()];
                buffer_extend(dst, bytes.as_slice());
            },
            TelnetData::Do(yes, o) => {
                let c = if yes {
                    TelnetCommand::Do
                } else {
                    TelnetCommand::DoNot
                };
                let bytes = vec![IAC, c.to_byte(), o.to_byte()];
                buffer_extend(dst, bytes.as_slice());
            },
            TelnetData::Command(c) => {
                let bytes = vec![IAC, c.to_byte()];
                buffer_extend(dst, bytes.as_slice());
            },
            TelnetData::SubnegotiationResponse(_) => {
                assert(init + Seq::<u8>::empty() =~= init);
            },
        }
        Ok(())
    }
}

} // verus!
