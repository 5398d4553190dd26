//! The decisions of the greeting service: what it answers to each thing that
//! happens on a connection.  The caller performs the actions and reports the
//! events.
use crate::codes::TelnetOption;
use crate::data::{DataView, TelnetData};
use crate::seqs::{find_from, find_in, lemma_find_from};
use vstd::prelude::*;

verus! {

/// How long a session waits for the peer before it ends, in seconds.
pub const SESSION_TIMEOUT_SECS: u64 = 60;

/// How long a session pauses after its first negotiation, in milliseconds.
pub const OPENING_PAUSE_MILLIS: u64 = 666;

/// The escape byte of terminal control sequences.
pub const ESC: u8 = 0x1b;

/// The byte after `ESC` that opens a control sequence.
pub const CSI: u8 = 0x5b;

/// The most parameter bytes a control sequence may hold.
pub const MAX_PARAMS: usize = 32;

/// The pictures and prompts that the service shows.
#[derive(Clone, Copy, Debug, PartialEq, Eq, Structural)]
pub enum Screen {
    Hongbao,
    HongbaoEasterOpened,
    PromptUnopened,
    PromptOpened,
    PromptUnopenedEasterOpened,
    PromptTimeout,
}

/// What the service asks its caller to do.
#[derive(Debug, PartialEq, Eq)]
pub enum Action {
    /// Send an item to the peer.
    Send(TelnetData),
    /// Send a screen to the peer as data.
    Show(Screen),
    /// Wait this many milliseconds.
    Pause(u64),
    /// End the session.
    Stop,
}

/// What happens on a connection.
#[derive(Debug, PartialEq, Eq)]
pub enum Event {
    /// The peer sent an item.
    Received(TelnetData),
    /// The peer closed the connection.
    Closed,
    /// Reading from the connection failed.
    Broken,
    /// The session's time ran out.
    Timeout,
}

/// Where the reading of terminal control sequences stands.
#[derive(Clone, Copy, Debug, PartialEq, Eq, Structural)]
pub enum Csi {
    /// Outside any control sequence.
    Idle,
    /// Right after an `ESC`.
    Escaped,
    /// Inside a control sequence, gathering its parameters.
    Sequence,
}

/// The state of one session.
#[derive(Debug)]
pub struct Session {
    option_neg_sent: bool,
    csi: Csi,
    params: Vec<u8>,
    opened_main: bool,
    opened_easter: bool,
}

/// `Session` with its parameters as a sequence.
pub struct SessionView {
    pub option_neg_sent: bool,
    pub csi: Csi,
    pub params: Seq<u8>,
    pub opened_main: bool,
    pub opened_easter: bool,
}

/// `Action` with its item as a view.
pub enum ActionView {
    Send(DataView),
    Show(Screen),
    Pause(u64),
    Stop,
}

impl View for Session {
    type V = SessionView;

    closed spec fn view(&self) -> SessionView {
        SessionView {
            option_neg_sent: self.option_neg_sent,
            csi: self.csi,
            params: self.params@,
            opened_main: self.opened_main,
            opened_easter: self.opened_easter,
        }
    }
}

impl View for Action {
    type V = ActionView;

    open spec fn view(&self) -> ActionView {
        match self {
            Action::Send(d) => ActionView::Send(d@),
            Action::Show(s) => ActionView::Show(*s),
            Action::Pause(ms) => ActionView::Pause(*ms),
            Action::Stop => ActionView::Stop,
        }
    }
}

/// The views of a list of actions.
pub open spec fn actions_view(v: Seq<Action>) -> Seq<ActionView> {
    v.map_values(|a: Action| a@)
}

/// A session state that can occur: the parameters fit in their 32 bytes, and
/// while a sequence is read there is room for one more.
pub open spec fn session_wf(s: SessionView) -> bool {
    &&& s.params.len() <= MAX_PARAMS
    &&& s.csi == Csi::Sequence ==> s.params.len() < MAX_PARAMS
}

/// The picture and the prompt that show whether the two red envelopes are open.
pub open spec fn render_spec(opened_main: bool, opened_easter: bool) -> Seq<ActionView> {
    if !opened_main && !opened_easter {
        seq![ActionView::Show(Screen::Hongbao), ActionView::Show(Screen::PromptUnopened)]
    } else if opened_main && !opened_easter {
        seq![ActionView::Show(Screen::Hongbao), ActionView::Show(Screen::PromptOpened)]
    } else if !opened_main && opened_easter {
        seq![
            ActionView::Show(Screen::HongbaoEasterOpened),
            ActionView::Show(Screen::PromptUnopenedEasterOpened),
        ]
    } else {
        seq![ActionView::Show(Screen::HongbaoEasterOpened), ActionView::Show(Screen::PromptOpened)]
    }
}

/// Whether `b` is an ASCII digit.
pub open spec fn is_digit(b: u8) -> bool {
    0x30 <= b <= 0x39
}

/// The number that the ASCII digits `d` spell in base ten.
pub open spec fn decimal(d: Seq<u8>) -> nat
    decreases d.len(),
{
    if d.len() == 0 {
        0
    } else {
        decimal(d.drop_last()) * 10 + (d.last() - 0x30) as nat
    }
}

/// What the ASCII digits `d` parse to as a `usize`: `None` where `d` is
/// empty, holds a byte that is not a digit, or spells a number too large.
pub open spec fn parse_digits_spec(d: Seq<u8>) -> Option<nat> {
    if d.len() == 0 || !(forall|k: int| 0 <= k < d.len() ==> is_digit(#[trigger] d[k])) {
        None
    } else if decimal(d) > usize::MAX {
        None
    } else {
        Some(decimal(d))
    }
}

/// What parsing `t` as a `usize` gives: an optional `+`, then one or more
/// ASCII digits, whose value must fit in a `usize`.
pub open spec fn parse_usize_spec(t: Seq<u8>) -> Option<nat> {
    if t.len() > 0 && t[0] == 0x2b {
        parse_digits_spec(t.skip(1))
    } else {
        parse_digits_spec(t)
    }
}

/// The row and column of a cursor position report, whose parameters are the
/// row, a `;` and the column; anything after a second `;` is ignored.
pub open spec fn cursor_report_spec(params: Seq<u8>) -> Option<(nat, nat)> {
    match find_from(params, 0, 0x3b) {
        None => None,
        Some(i) => {
            let end = match find_from(params, i + 1, 0x3b) {
                Some(j) => j,
                None => params.len() as int,
            };
            match (
                parse_usize_spec(params.subrange(0, i)),
                parse_usize_spec(params.subrange(i + 1, end)),
            ) {
                (Some(row), Some(col)) => Some((row, col)),
                _ => None,
            }
        },
    }
}

/// Whether a cursor report puts the cursor inside the hidden envelope: rows 12
/// to 16, columns 17 to 24.
pub open spec fn report_in_box(params: Seq<u8>) -> bool {
    match cursor_report_spec(params) {
        Some((row, col)) => 12 <= row <= 16 && 17 <= col <= 24,
        None => false,
    }
}

/// The code that opening the main envelope reveals, sent in a subnegotiation.
pub open spec fn hongbao_code_spec() -> Seq<u8> {
    seq![0x35, 0x31, 0x31, 0x33, 0x31, 0x37, 0x34, 0x38]
}

/// What one byte of data from the peer does.  An `ESC` starts a control
/// sequence; a carriage return asks the terminal where its cursor is.  After
/// `ESC [` the bytes 0x20 to 0x3f are parameters (at most 32) and a byte from
/// 0x40 to 0x7e ends the sequence: the arrow keys `A` to `D` are echoed back,
/// and a cursor report inside the hidden envelope opens it.
pub open spec fn step_byte(s: SessionView, b: u8) -> (SessionView, Seq<ActionView>) {
    if b == ESC {
        (SessionView { csi: Csi::Escaped, ..s }, seq![])
    } else if b == 0x0d {
        (
            SessionView { csi: Csi::Idle, ..s },
            seq![ActionView::Send(DataView::Binary(seq![ESC, CSI, 0x36, 0x6e]))],
        )
    } else {
        match s.csi {
            Csi::Idle => (s, seq![]),
            Csi::Escaped => if b == CSI {
                (SessionView { csi: Csi::Sequence, params: seq![], ..s }, seq![])
            } else {
                (SessionView { csi: Csi::Idle, ..s }, seq![])
            },
            Csi::Sequence => if 0x20 <= b <= 0x3f {
                let p = s.params.push(b);
                (
                    SessionView {
                        csi: if p.len() == MAX_PARAMS {
                            Csi::Idle
                        } else {
                            Csi::Sequence
                        },
                        params: p,
                        ..s
                    },
                    seq![],
                )
            } else if 0x40 <= b <= 0x7e {
                let s1 = SessionView { csi: Csi::Idle, ..s };
                if 0x41 <= b <= 0x44 {
                    (s1, seq![ActionView::Send(DataView::Binary(seq![ESC, CSI, b]))])
                } else if b == 0x52 && !s.opened_easter && report_in_box(s.params) {
                    (SessionView { opened_easter: true, ..s1 }, render_spec(s.opened_main, true))
                } else {
                    (s1, seq![])
                }
            } else {
                (SessionView { csi: Csi::Idle, ..s }, seq![])
            },
        }
    }
}

/// What the bytes `bs` do, one after the other.
pub open spec fn step_bytes(s: SessionView, bs: Seq<u8>) -> (SessionView, Seq<ActionView>)
    decreases bs.len(),
{
    if bs.len() == 0 {
        (s, seq![])
    } else {
        let (s1, a1) = step_bytes(s, bs.drop_last());
        let (s2, a2) = step_byte(s1, bs.last());
        (s2, a1 + a2)
    }
}

/// The four negotiations sent once, at the first negotiation from the peer:
/// no line mode, this side echoes, the peer does not, and this side offers
/// the envelope option.
pub open spec fn negotiation_burst() -> Seq<ActionView> {
    seq![
        ActionView::Send(DataView::Do(false, TelnetOption::LineMode)),
        ActionView::Send(DataView::Will(true, TelnetOption::Echo)),
        ActionView::Send(DataView::Do(false, TelnetOption::Echo)),
        ActionView::Send(DataView::Will(true, TelnetOption::Hongbao2024)),
    ]
}

/// What an item from the peer does.  Data goes byte by byte.  `DO` for the
/// envelope option opens the main envelope, sends its code and shows the
/// screen again.  The first other negotiation gets the negotiation burst.
pub open spec fn step_data(s: SessionView, d: DataView) -> (SessionView, Seq<ActionView>) {
    match d {
        DataView::Binary(bs) => step_bytes(s, bs),
        DataView::Do(true, TelnetOption::Hongbao2024) => (
            SessionView { opened_main: true, ..s },
            seq![
                ActionView::Send(
                    DataView::SubnegotiationRequest(TelnetOption::Hongbao2024, hongbao_code_spec()),
                ),
            ] + render_spec(true, s.opened_easter),
        ),
        DataView::Do(_, _) | DataView::Will(_, _) => if !s.option_neg_sent {
            (SessionView { option_neg_sent: true, ..s }, negotiation_burst())
        } else {
            (s, seq![])
        },
        _ => (s, seq![]),
    }
}

/// `Event` with its item as a view.
pub enum EventView {
    Received(DataView),
    Closed,
    Broken,
    Timeout,
}

impl View for Event {
    type V = EventView;

    open spec fn view(&self) -> EventView {
        match self {
            Event::Received(d) => EventView::Received(d@),
            Event::Closed => EventView::Closed,
            Event::Broken => EventView::Broken,
            Event::Timeout => EventView::Timeout,
        }
    }
}

/// What an event does: an item is handled as `step_data` says; a closed or
/// broken connection ends the session; a timeout shows the timeout prompt and
/// ends it.
pub open spec fn step_event(s: SessionView, e: EventView) -> (SessionView, Seq<ActionView>) {
    match e {
        EventView::Received(d) => step_data(s, d),
        EventView::Closed | EventView::Broken => (s, seq![ActionView::Stop]),
        EventView::Timeout => (s, seq![ActionView::Show(Screen::PromptTimeout), ActionView::Stop]),
    }
}

/// What a session does when it starts: it offers to echo, pauses, and shows
/// the closed envelope.
pub open spec fn start_spec() -> Seq<ActionView> {
    seq![
        ActionView::Send(DataView::Will(true, TelnetOption::Echo)),
        ActionView::Pause(OPENING_PAUSE_MILLIS),
    ] + render_spec(false, false)
}

/// The state of a session that has just started.
pub open spec fn initial_spec() -> SessionView {
    SessionView {
        option_neg_sent: false,
        csi: Csi::Idle,
        params: seq![],
        opened_main: false,
        opened_easter: false,
    }
}

/// A prefix of a digit string spells no larger a number than the whole.
proof fn lemma_decimal_prefix(d: Seq<u8>, k: int)
    requires
        0 <= k <= d.len(),
    ensures
        decimal(d.take(k)) <= decimal(d),
    decreases d.len(),
{
    if k < d.len() {
        lemma_decimal_prefix(d.drop_last(), k);
        assert(d.drop_last().take(k) =~= d.take(k));
    } else {
        assert(d.take(k) =~= d);
    }
}

/// Parses the bytes of `text` from `start` up to `end` as a `usize`.
pub fn parse_usize(text: &Vec<u8>, start: usize, end: usize) -> (r: Option<usize>)
    requires
        start <= end <= text@.len(),
    ensures
        match r {
            Some(v) => parse_usize_spec(text@.subrange(start as int, end as int)) == Some(v as nat),
            None => parse_usize_spec(text@.subrange(start as int, end as int)) is None,
        },
{
    let ghost t = text@.subrange(start as int, end as int);
    let mut i = start;
    if i < end && text[i] == 0x2b {
        i = i + 1;
    }
    let first = i;
    let ghost d = text@.subrange(first as int, end as int);
    proof {
        if start < end && text@[start as int] == 0x2b {
            assert(d =~= t.skip(1));
        } else {
            assert(d =~= t);
        }
    }
    if i == end {
        return None;
    }
    let mut value: usize = 0;
    proof {
        assert(text@.subrange(first as int, first as int) =~= Seq::<u8>::empty());
    }
    while i < end
        invariant
            start <= first <= i <= end <= text@.len(),
            first < end,
            t == text@.subrange(start as int, end as int),
            d == text@.subrange(first as int, end as int),
            parse_usize_spec(t) == parse_digits_spec(d),
            value == decimal(text@.subrange(first as int, i as int)),
            forall|k: int| first <= k < i ==> is_digit(text@[k]),
        decreases end - i,
    {
        let b = text[i];
        if !(0x30 <= b && b <= 0x39) {
            proof {
                assert(!is_digit(d[i - first]));
            }
            return None;
        }
        let ghost pre = text@.subrange(first as int, i as int);
        let ghost next = text@.subrange(first as int, i + 1);
        proof {
            assert(next.drop_last() =~= pre);
            assert(next.last() == b);
            assert(d.take(i + 1 - first) =~= next);
            lemma_decimal_prefix(d, i + 1 - first);
        }
        match value.checked_mul(10) {
            Some(m) => match m.checked_add((b - 0x30) as usize) {
                Some(v) => {
                    value = v;
                },
                None => {
                    return None;
                },
            },
            None => {
                return None;
            },
        }
        i = i + 1;
    }
    proof {
        assert forall|k: int| 0 <= k < d.len() implies is_digit(#[trigger] d[k]) by {
            assert(d[k] == text@[first + k]);
        }
    }
    Some(value)
}

/// Reads a cursor position report's parameters: the row and the column.
pub fn parse_cursor_report(params: &Vec<u8>) -> (r: Option<(usize, usize)>)
    ensures
        match r {
            Some((row, col)) => cursor_report_spec(params@) == Some((row as nat, col as nat)),
            None => cursor_report_spec(params@) is None,
        },
{
    let len = params.len();
    let i = match find_in(params, 0, 0x3b) {
        Some(i) => i,
        None => {
            return None;
        },
    };
    proof {
        lemma_find_from(params@, 0, 0x3b);
    }
    let end = match find_in(params, i + 1, 0x3b) {
        Some(j) => j,
        None => len,
    };
    proof {
        lemma_find_from(params@, i + 1, 0x3b);
    }
    let row = parse_usize(params, 0, i);
    let col = parse_usize(params, i + 1, end);
    match (row, col) {
        (Some(row), Some(col)) => Some((row, col)),
        _ => None,
    }
}

/// The code of the main envelope, as bytes.
fn hongbao_code() -> (v: Vec<u8>)
    ensures
        v@ == hongbao_code_spec(),
{
    let v = vec![0x35, 0x31, 0x31, 0x33, 0x31, 0x37, 0x34, 0x38];
    assert(v@ =~= hongbao_code_spec());
    v
}

/// Shows the picture and prompt for whether the envelopes are open.
pub fn render_hongbao(opened_main: bool, opened_easter: bool) -> (v: Vec<Action>)
    ensures
        actions_view(v@) == render_spec(opened_main, opened_easter),
{
    let v = if !opened_main && !opened_easter {
        vec![Action::Show(Screen::Hongbao), Action::Show(Screen::PromptUnopened)]
    } else if opened_main && !opened_easter {
        vec![Action::Show(Screen::Hongbao), Action::Show(Screen::PromptOpened)]
    } else if !opened_main && opened_easter {
        vec![Action::Show(Screen::HongbaoEasterOpened), Action::Show(Screen::PromptUnopenedEasterOpened)]
    } else {
        vec![Action::Show(Screen::HongbaoEasterOpened), Action::Show(Screen::PromptOpened)]
    };
    assert(actions_view(v@) =~= render_spec(opened_main, opened_easter));
    v
}

impl Session {
    /// A session that has just started.
    pub fn new() -> (s: Self)
        ensures
            s@ == initial_spec(),
            session_wf(s@),
    {
        Session {
            option_neg_sent: false,
            csi: Csi::Idle,
            params: Vec::new(),
            opened_main: false,
            opened_easter: false,
        }
    }

    /// What the session does before it reads anything.
    pub fn start(&self) -> (v: Vec<Action>)
        ensures
            actions_view(v@) == start_spec(),
    {
        let mut v = vec![
            Action::Send(TelnetData::Will(true, TelnetOption::Echo)),
            Action::Pause(OPENING_PAUSE_MILLIS),
        ];
        let mut r = render_hongbao(false, false);
        let ghost a = v@;
        let ghost b = r@;
        v.append(&mut r);
        proof {
            assert(v@ =~= a + b);
            assert(actions_view(v@) =~= actions_view(a) + actions_view(b));
            assert(actions_view(a) =~= seq![
                ActionView::Send(DataView::Will(true, TelnetOption::Echo)),
                ActionView::Pause(OPENING_PAUSE_MILLIS),
            ]);
        }
        v
    }

    /// Handles one byte of data from the peer.
    fn on_byte(&mut self, b: u8, out: &mut Vec<Action>)
        requires
            session_wf(old(self)@),
        ensures
            session_wf(final(self)@),
            final(self)@ == step_byte(old(self)@, b).0,
            actions_view(final(out)@) == actions_view(old(out)@) + step_byte(old(self)@, b).1,
    {
        let ghost a0 = out@;
        if b == ESC {
            self.csi = Csi::Escaped;
            assert(actions_view(out@) =~= actions_view(a0) + Seq::<ActionView>::empty());
            return ;
        }
        if b == 0x0d {
            self.csi = Csi::Idle;
            out.push(Action::Send(TelnetData::Binary(vec![ESC, CSI, 0x36, 0x6e])));
            proof {
                assert(actions_view(out@) =~= actions_view(a0) + seq![
                    ActionView::Send(DataView::Binary(seq![ESC, CSI, 0x36, 0x6e])),
                ]);
            }
            return ;
        }
        match self.csi {
            Csi::Idle => {},
            Csi::Escaped => {
                if b == CSI {
                    self.params = Vec::new();
                    self.csi = Csi::Sequence;
                } else {
                    self.csi = Csi::Idle;
                }
            },
            Csi::Sequence => {
                if 0x20 <= b && b <= 0x3f {
                    self.params.push(b);
                    if self.params.len() == MAX_PARAMS {
                        self.csi = Csi::Idle;
                    }
                } else if 0x40 <= b && b <= 0x7e {
                    self.csi = Csi::Idle;
                    if 0x41 <= b && b <= 0x44 {
                        out.push(Action::Send(TelnetData::Binary(vec![ESC, CSI, b])));
                        proof {
                            assert(actions_view(out@) =~= actions_view(a0) + seq![
                                ActionView::Send(DataView::Binary(seq![ESC, CSI, b])),
                            ]);
                        }
                        return ;
                    } else if b == 0x52 && !self.opened_easter {
                        if let Some((row, col)) = parse_cursor_report(&self.params) {
                            if 12 <= row && row <= 16 && 17 <= col && col <= 24 {
                                self.opened_easter = true;
                                let mut r = render_hongbao(self.opened_main, true);
                                let ghost rv = r@;
                                out.append(&mut r);
                                proof {
                                    assert(out@ =~= a0 + rv);
                                    assert(actions_view(out@) =~= actions_view(a0) + actions_view(
                                        rv,
                                    ));
                                }
                                return ;
                            }
                        }
                    }
                } else {
                    self.csi = Csi::Idle;
                }
            },
        }
        assert(actions_view(out@) =~= actions_view(a0) + Seq::<ActionView>::empty());
    }

    /// Handles one event and says what to do about it.
    pub fn on_event(&mut self, e: Event) -> (v: Vec<Action>)
        requires
            session_wf(old(self)@),
        ensures
            session_wf(final(self)@),
            (final(self)@, actions_view(v@)) == step_event(old(self)@, e@),
    {
        let mut out: Vec<Action> = Vec::new();
        match e {
            Event::Closed | Event::Broken => {
                out.push(Action::Stop);
                assert(actions_view(out@) =~= seq![ActionView::Stop]);
            },
            Event::Timeout => {
                out.push(Action::Show(Screen::PromptTimeout));
                out.push(Action::Stop);
                assert(actions_view(out@) =~= seq![
                    ActionView::Show(Screen::PromptTimeout),
                    ActionView::Stop,
                ]);
            },
            Event::Received(d) => {
                out = self.on_data(d);
            },
        }
        out
    }

    /// Handles one item from the peer.
    fn on_data(&mut self, d: TelnetData) -> (v: Vec<Action>)
        requires
            session_wf(old(self)@),
        ensures
            session_wf(final(self)@),
            (final(self)@, actions_view(v@)) == step_data(old(self)@, d@),
    {
        let mut out: Vec<Action> = Vec::new();
        match d {
            TelnetData::Binary(bs) => {
                let ghost s0 = self@;
                let mut i: usize = 0;
                assert(bs@.take(0) =~= Seq::<u8>::empty());
                assert(actions_view(out@) =~= Seq::<ActionView>::empty());
                while i < bs.len()
                    invariant
                        i <= bs@.len(),
                        session_wf(self@),
                        (self@, actions_view(out@)) == step_bytes(s0, bs@.take(i as int)),
                    decreases bs@.len() - i,
                {
                    proof {
                        assert(bs@.take(i + 1).drop_last() =~= bs@.take(i as int));
                        assert(bs@.take(i + 1).last() == bs@[i as int]);
                    }
                    self.on_byte(bs[i], &mut out);
                    i = i + 1;
                }
                assert(bs@.take(bs@.len() as int) =~= bs@);
            },
            TelnetData::Do(true, TelnetOption::Hongbao2024) => {
                self.opened_main = true;
                out.push(
                    Action::Send(
                        TelnetData::SubnegotiationRequest(TelnetOption::Hongbao2024, hongbao_code()),
                    ),
                );
                let ghost a0 = out@;
                let mut r = render_hongbao(true, self.opened_easter);
                let ghost rv = r@;
                out.append(&mut r);
                proof {
                    assert(out@ =~= a0 + rv);
                    assert(actions_view(out@) =~= actions_view(a0) + actions_view(rv));
                }
            },
            TelnetData::Do(_, _) | TelnetData::Will(_, _) => {
                if !self.option_neg_sent {
                    self.option_neg_sent = true;
                    out = vec![
                        Action::Send(TelnetData::Do(false, TelnetOption::LineMode)),
                        Action::Send(TelnetData::Will(true, TelnetOption::Echo)),
                        Action::Send(TelnetData::Do(false, TelnetOption::Echo)),
                        Action::Send(TelnetData::Will(true, TelnetOption::Hongbao2024)),
                    ];
                    assert(actions_view(out@) =~= negotiation_burst());
                } else {
                    assert(actions_view(out@) =~= Seq::<ActionView>::empty());
                }
            },
            _ => {
                assert(actions_view(out@) =~= Seq::<ActionView>::empty());
            },
        }
        out
    }
}

} // verus!
