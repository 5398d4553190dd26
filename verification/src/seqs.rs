//! Byte-sequence functions that the wire format is stated with, and their lemmas.
use crate::codes::IAC;
use vstd::prelude::*;

verus! {

/// The first position at or after `from` that holds `b`.
pub open spec fn find_from(s: Seq<u8>, from: int, b: u8) -> Option<int>
    decreases s.len() - from,
{
    if from < 0 || from >= s.len() {
        None
    } else if s[from] == b {
        Some(from)
    } else {
        find_from(s, from + 1, b)
    }
}

/// How many bytes equal to `b` end `s`.
pub open spec fn trailing(s: Seq<u8>, b: u8) -> nat
    decreases s.len(),
{
    if s.len() == 0 {
        0
    } else if s.last() == b {
        1 + trailing(s.drop_last(), b)
    } else {
        0
    }
}

/// `s` with every 255 doubled, as plain data is sent.
pub open spec fn escape_iac(s: Seq<u8>) -> Seq<u8>
    decreases s.len(),
{
    if s.len() == 0 {
        s
    } else {
        (if s[0] == IAC {
            seq![IAC, IAC]
        } else {
            seq![s[0]]
        }) + escape_iac(s.skip(1))
    }
}

/// `s` read left to right with each pair of 255 bytes made one.
pub open spec fn unescape(s: Seq<u8>) -> Seq<u8>
    decreases s.len(),
{
    if s.len() == 0 {
        s
    } else if s.len() >= 2 && s[0] == IAC && s[1] == IAC {
        seq![IAC] + unescape(s.skip(2))
    } else {
        seq![s[0]] + unescape(s.skip(1))
    }
}

/// Whether `s` holds the byte `b` nowhere.
pub open spec fn lacks(s: Seq<u8>, b: u8) -> bool {
    forall|k: int| 0 <= k < s.len() ==> s[k] != b
}

/// What `find_from` gives: a position of `b` in range with no `b` before it,
/// or no `b` at all from `from` on.
pub proof fn lemma_find_from(s: Seq<u8>, from: int, b: u8)
    requires
        0 <= from,
    ensures
        find_from(s, from, b) matches Some(j) ==> {
            &&& from <= j < s.len()
            &&& s[j] == b
            &&& forall|k: int| from <= k < j ==> s[k] != b
        },
        find_from(s, from, b) is None ==> forall|k: int| from <= k < s.len() ==> s[k] != b,
    decreases s.len() - from,
{
    if from < s.len() && s[from] != b {
        lemma_find_from(s, from + 1, b);
    }
}

/// The first `b` at or after `from` is found where it stands.
pub proof fn lemma_find_from_at(s: Seq<u8>, from: int, j: int, b: u8)
    requires
        0 <= from <= j < s.len(),
        s[j] == b,
        forall|k: int| from <= k < j ==> s[k] != b,
    ensures
        find_from(s, from, b) == Some(j),
    decreases j - from,
{
    if from < j {
        lemma_find_from_at(s, from + 1, j, b);
    }
}

/// With no `b` from `from` on, none is found.
pub proof fn lemma_find_from_none(s: Seq<u8>, from: int, b: u8)
    requires
        0 <= from,
        forall|k: int| from <= k < s.len() ==> s[k] != b,
    ensures
        find_from(s, from, b) is None,
    decreases s.len() - from,
{
    if from < s.len() {
        lemma_find_from_none(s, from + 1, b);
    }
}

/// No more bytes trail than there are.
pub proof fn lemma_trailing_len(s: Seq<u8>, b: u8)
    ensures
        trailing(s, b) <= s.len(),
    decreases s.len(),
{
    if s.len() > 0 && s.last() == b {
        lemma_trailing_len(s.drop_last(), b);
    }
}

/// Escaping distributes over concatenation.
pub proof fn lemma_escape_concat(a: Seq<u8>, b: Seq<u8>)
    ensures
        escape_iac(a + b) == escape_iac(a) + escape_iac(b),
    decreases a.len(),
{
    if a.len() == 0 {
        assert(a + b =~= b);
    } else {
        lemma_escape_concat(a.skip(1), b);
        assert((a + b).skip(1) =~= a.skip(1) + b);
        assert((a + b)[0] == a[0]);
        let h = if a[0] == IAC {
            seq![IAC, IAC]
        } else {
            seq![a[0]]
        };
        assert(escape_iac(a + b) == h + escape_iac((a + b).skip(1)));
        assert(h + (escape_iac(a.skip(1)) + escape_iac(b)) =~= (h + escape_iac(a.skip(1)))
            + escape_iac(b));
    }
}

/// Bytes with no 255 are sent as they are.
pub proof fn lemma_escape_plain(a: Seq<u8>)
    requires
        lacks(a, IAC),
    ensures
        escape_iac(a) == a,
    decreases a.len(),
{
    if a.len() > 0 {
        assert(lacks(a.skip(1), IAC));
        lemma_escape_plain(a.skip(1));
        assert(seq![a[0]] + a.skip(1) =~= a);
    }
}

/// Bytes with no 255 are read as they are.
pub proof fn lemma_unescape_plain(a: Seq<u8>)
    requires
        lacks(a, IAC),
    ensures
        unescape(a) == a,
    decreases a.len(),
{
    if a.len() > 0 {
        assert(lacks(a.skip(1), IAC));
        lemma_unescape_plain(a.skip(1));
        assert(seq![a[0]] + a.skip(1) =~= a);
    }
}

/// Unescaping keeps a non-empty sequence non-empty.
pub proof fn lemma_unescape_nonempty(a: Seq<u8>)
    requires
        a.len() > 0,
    ensures
        unescape(a).len() > 0,
{
}

/// The first position at or after `from` in `v` that holds `b`.
pub fn find_in(v: &Vec<u8>, from: usize, b: u8) -> (r: Option<usize>)
    requires
        from <= v@.len(),
    ensures
        match r {
            Some(j) => find_from(v@, from as int, b) == Some(j as int),
            None => find_from(v@, from as int, b) is None,
        },
{
    let mut i = from;
    while i < v.len()
        invariant
            from <= i <= v@.len(),
            forall|k: int| from <= k < i ==> v@[k] != b,
        decreases v@.len() - i,
    {
        if v[i] == b {
            proof {
                lemma_find_from_at(v@, from as int, i as int, b);
            }
            return Some(i);
        }
        i = i + 1;
    }
    proof {
        lemma_find_from_none(v@, from as int, b);
    }
    None
}

} // verus!
