//! What holds of a session over a whole connection: the events one after
//! the other, and the actions each of them brings.
use crate::codes::TelnetOption;
use crate::data::DataView;
use crate::service::{
    decimal, initial_spec, is_digit, negotiation_burst, parse_usize_spec, report_in_box, session_wf,
    step_byte, step_bytes, step_data, step_event, ActionView, Csi, EventView, Screen, SessionView, CSI,
    ESC, MAX_PARAMS,
};
use crate::seqs::{find_from, lemma_find_from_at, lemma_find_from_none};
use vstd::prelude::*;

verus! {

/// The state after the events `es` from `s`, and the actions of each event.
pub open spec fn run(s: SessionView, es: Seq<EventView>) -> (SessionView, Seq<Seq<ActionView>>)
    decreases es.len(),
{
    if es.len() == 0 {
        (s, seq![])
    } else {
        let (s1, t) = run(s, es.drop_last());
        let (s2, a) = step_event(s1, es.last());
        (s2, t.push(a))
    }
}

/// The state in which the event at position `j` is handled.
pub open spec fn state_before(s: SessionView, es: Seq<EventView>, j: int) -> SessionView {
    run(s, es.take(j)).0
}

/// A negotiation from the peer other than `DO` for the envelope option.
pub open spec fn is_other_negotiation(e: EventView) -> bool {
    match e {
        EventView::Received(d) => (d is Do || d is Will) && d != DataView::Do(
            true,
            TelnetOption::Hongbao2024,
        ),
        _ => false,
    }
}

/// The event at `j` is the first negotiation other than `DO` for the
/// envelope option.
pub open spec fn first_negotiation_at(es: Seq<EventView>, j: int) -> bool {
    &&& is_other_negotiation(es[j])
    &&& forall|k: int| 0 <= k < j ==> !is_other_negotiation(#[trigger] es[k])
}

/// The request that asks the terminal where its cursor is: `ESC [ 6 n`.
pub open spec fn cursor_request() -> ActionView {
    ActionView::Send(DataView::Binary(seq![ESC, CSI, 0x36, 0x6e]))
}

/// The first action of the negotiation burst, sent nowhere else.
pub open spec fn burst_start() -> ActionView {
    ActionView::Send(DataView::Do(false, TelnetOption::LineMode))
}

/// How many times `b` occurs in `bs`.
pub open spec fn count_byte(bs: Seq<u8>, b: u8) -> nat
    decreases bs.len(),
{
    if bs.len() == 0 {
        0
    } else {
        count_byte(bs.drop_last(), b) + if bs.last() == b {
            1nat
        } else {
            0nat
        }
    }
}

/// Data events, one for each stretch of bytes.
pub open spec fn binary_events(items: Seq<Seq<u8>>) -> Seq<EventView> {
    items.map_values(|bs: Seq<u8>| EventView::Received(DataView::Binary(bs)))
}

/// The stretches of bytes one after the other.
pub open spec fn concat_all(items: Seq<Seq<u8>>) -> Seq<u8>
    decreases items.len(),
{
    if items.len() == 0 {
        seq![]
    } else {
        concat_all(items.drop_last()) + items.last()
    }
}

/// The actions of each event one after the other.
pub open spec fn flatten_actions(t: Seq<Seq<ActionView>>) -> Seq<ActionView>
    decreases t.len(),
{
    if t.len() == 0 {
        seq![]
    } else {
        flatten_actions(t.drop_last()) + t.last()
    }
}

/// What a data byte in state `s` may bring: data to send, or, while the
/// hidden envelope is closed, its picture and the prompt that goes with it.
spec fn byte_action_ok(s: SessionView, a: ActionView) -> bool {
    ||| a matches ActionView::Send(DataView::Binary(_))
    ||| (!s.opened_easter && (a == ActionView::Show(Screen::HongbaoEasterOpened) || a
        == ActionView::Show(
        if s.opened_main {
            Screen::PromptOpened
        } else {
            Screen::PromptUnopenedEasterOpened
        },
    )))
}

/// Data bytes keep a session state that can occur, keep the negotiation
/// flag, and never close an open envelope.
proof fn lemma_step_bytes(s: SessionView, bs: Seq<u8>)
    requires
        session_wf(s),
    ensures
        session_wf(step_bytes(s, bs).0),
        step_bytes(s, bs).0.option_neg_sent == s.option_neg_sent,
        step_bytes(s, bs).0.opened_main == s.opened_main,
        s.opened_easter ==> step_bytes(s, bs).0.opened_easter,
    decreases bs.len(),
{
    if bs.len() > 0 {
        lemma_step_bytes(s, bs.drop_last());
        let s1 = step_bytes(s, bs.drop_last()).0;
        assert(step_byte(s1, bs.last()).0.option_neg_sent == s1.option_neg_sent);
    }
}

/// Every event keeps a session state that can occur: the control sequence
/// parameters never outgrow their 32 bytes.
pub proof fn law_session_stays_wf(s: SessionView, e: EventView)
    requires
        session_wf(s),
    ensures
        session_wf(step_event(s, e).0),
{
    if let EventView::Received(DataView::Binary(bs)) = e {
        lemma_step_bytes(s, bs);
    }
}

/// An envelope once opened stays open, and the negotiation burst once sent is
/// remembered, whatever happens next.
pub proof fn law_progress_is_kept(s: SessionView, e: EventView)
    requires
        session_wf(s),
    ensures
        s.opened_main ==> step_event(s, e).0.opened_main,
        s.opened_easter ==> step_event(s, e).0.opened_easter,
        s.option_neg_sent ==> step_event(s, e).0.option_neg_sent,
{
    if let EventView::Received(DataView::Binary(bs)) = e {
        lemma_step_bytes(s, bs);
    }
}

/// After the negotiation burst was sent, a negotiation from the peer other
/// than `DO` for the envelope option changes nothing and is not answered.
pub proof fn law_negotiation_answered_once(s: SessionView, d: DataView)
    requires
        s.option_neg_sent,
        d is Do || d is Will,
        d != DataView::Do(true, TelnetOption::Hongbao2024),
    ensures
        step_data(s, d) == (s, Seq::<ActionView>::empty()),
{
}

/// What one data byte brings.
proof fn lemma_step_byte_actions(s: SessionView, b: u8)
    ensures
        forall|i: int|
            0 <= i < step_byte(s, b).1.len() ==> byte_action_ok(s, #[trigger] step_byte(s, b).1[i]),
{
}

/// What data bytes bring.
proof fn lemma_step_bytes_actions(s: SessionView, bs: Seq<u8>)
    requires
        session_wf(s),
    ensures
        forall|i: int|
            0 <= i < step_bytes(s, bs).1.len() ==> byte_action_ok(
                s,
                #[trigger] step_bytes(s, bs).1[i],
            ),
    decreases bs.len(),
{
    if bs.len() > 0 {
        lemma_step_bytes_actions(s, bs.drop_last());
        lemma_step_bytes(s, bs.drop_last());
        let (s1, a1) = step_bytes(s, bs.drop_last());
        lemma_step_byte_actions(s1, bs.last());
        let a2 = step_byte(s1, bs.last()).1;
        assert forall|i: int| 0 <= i < (a1 + a2).len() implies byte_action_ok(
            s,
            #[trigger] (a1 + a2)[i],
        ) by {
            if i >= a1.len() {
                assert((a1 + a2)[i] == a2[i - a1.len()]);
                assert(byte_action_ok(s1, a2[i - a1.len()]));
            }
        }
    }
}

/// What one event brings, in a state that can occur.
proof fn lemma_event(s: SessionView, e: EventView)
    requires
        session_wf(s),
    ensures
        session_wf(step_event(s, e).0),
        step_event(s, e).0.option_neg_sent == (s.option_neg_sent || is_other_negotiation(e)),
        s.opened_main ==> step_event(s, e).0.opened_main,
        s.opened_easter ==> step_event(s, e).0.opened_easter,
        !s.option_neg_sent && is_other_negotiation(e) ==> step_event(s, e).1 == negotiation_burst(),
        step_event(s, e).1.contains(burst_start()) ==> !s.option_neg_sent && is_other_negotiation(
            e,
        ),
        step_event(s, e).1.contains(ActionView::Show(Screen::PromptTimeout)) <==> e is Timeout,
        step_event(s, e).1.contains(ActionView::Stop) <==> (e is Timeout || e is Closed
            || e is Broken),
        e is Closed || e is Broken ==> step_event(s, e).1 == seq![ActionView::Stop],
        s.opened_easter ==> !step_event(s, e).1.contains(ActionView::Show(Screen::Hongbao))
            && !step_event(s, e).1.contains(ActionView::Show(Screen::PromptUnopened)),
        s.opened_main ==> !step_event(s, e).1.contains(ActionView::Show(Screen::PromptUnopened))
            && !step_event(s, e).1.contains(ActionView::Show(Screen::PromptUnopenedEasterOpened)),
        (s.opened_easter && (e matches EventView::Received(DataView::Binary(_)))) ==> forall|i: int|
            0 <= i < step_event(s, e).1.len() ==> !(#[trigger] step_event(s, e).1[i] is Show),
{
    let a = step_event(s, e).1;
    match e {
        EventView::Received(DataView::Binary(bs)) => {
            lemma_step_bytes(s, bs);
            lemma_step_bytes_actions(s, bs);
            assert(forall|i: int| 0 <= i < a.len() ==> byte_action_ok(s, #[trigger] a[i]));
        },
        EventView::Timeout => {
            assert(a[0] == ActionView::Show(Screen::PromptTimeout));
            assert(a[1] == ActionView::Stop);
        },
        EventView::Closed | EventView::Broken => {
            assert(a[0] == ActionView::Stop);
        },
        EventView::Received(d) => {
            if !s.option_neg_sent && is_other_negotiation(e) {
                assert(a[0] == burst_start());
            }
        },
    }
}

/// Each event of a run brings one list of actions.
proof fn lemma_run_len(s: SessionView, es: Seq<EventView>)
    ensures
        run(s, es).1.len() == es.len(),
    decreases es.len(),
{
    if es.len() > 0 {
        lemma_run_len(s, es.drop_last());
    }
}

/// The actions of the event at `j` are what it brings in the state before
/// it, and the state after it is the state before the next.
proof fn lemma_run_step(s: SessionView, es: Seq<EventView>, j: int)
    requires
        0 <= j < es.len(),
    ensures
        run(s, es).1[j] == step_event(state_before(s, es, j), es[j]).1,
        state_before(s, es, j + 1) == step_event(state_before(s, es, j), es[j]).0,
    decreases es.len(),
{
    if j < es.len() - 1 {
        lemma_run_step(s, es.drop_last(), j);
        assert(es.drop_last().take(j) =~= es.take(j));
        assert(es.drop_last().take(j + 1) =~= es.take(j + 1));
        lemma_run_len(s, es.drop_last());
    } else {
        assert(es.take(j) =~= es.drop_last());
        assert(es.take(j + 1) =~= es);
        lemma_run_len(s, es.drop_last());
    }
}

/// Every state of a run from a state that can occur can occur; the flags of
/// a run from a state without the negotiation flag say what came before.
proof fn lemma_run_states(s: SessionView, es: Seq<EventView>, j: int)
    requires
        session_wf(s),
        0 <= j <= es.len(),
    ensures
        session_wf(state_before(s, es, j)),
        !s.option_neg_sent ==> (state_before(s, es, j).option_neg_sent <==> exists|k: int|
            0 <= k < j && is_other_negotiation(#[trigger] es[k])),
    decreases j,
{
    if j == 0 {
        assert(es.take(0) =~= Seq::<EventView>::empty());
    } else {
        lemma_run_states(s, es, j - 1);
        lemma_run_step(s, es, j - 1);
        lemma_event(state_before(s, es, j - 1), es[j - 1]);
        if !s.option_neg_sent {
            if state_before(s, es, j).option_neg_sent {
                if !state_before(s, es, j - 1).option_neg_sent {
                    assert(is_other_negotiation(es[j - 1]));
                }
            } else {
                assert forall|k: int| 0 <= k < j implies !is_other_negotiation(#[trigger] es[k]) by {
                    if k == j - 1 {
                    } else {
                        assert(!(exists|k2: int| 0 <= k2 < j - 1 && is_other_negotiation(
                            #[trigger] es[k2],
                        )));
                    }
                }
            }
        }
    }
}

/// The flags only go from false to true along a run.
proof fn lemma_run_monotone(s: SessionView, es: Seq<EventView>, j: int, k: int)
    requires
        session_wf(s),
        0 <= j <= k <= es.len(),
    ensures
        state_before(s, es, j).opened_main ==> state_before(s, es, k).opened_main,
        state_before(s, es, j).opened_easter ==> state_before(s, es, k).opened_easter,
    decreases k - j,
{
    if j < k {
        lemma_run_monotone(s, es, j, k - 1);
        lemma_run_step(s, es, k - 1);
        lemma_run_states(s, es, k - 1);
        lemma_event(state_before(s, es, k - 1), es[k - 1]);
    }
}

/// Over a run from a state where the negotiation burst was not yet sent, the
/// burst is sent once: with the first negotiation from the peer other than
/// `DO` for the envelope option, and with no other event.
pub proof fn law_negotiation_burst_once(s: SessionView, es: Seq<EventView>)
    requires
        session_wf(s),
        !s.option_neg_sent,
    ensures
        run(s, es).1.len() == es.len(),
        forall|j: int|
            0 <= j < es.len() ==> ((#[trigger] run(s, es).1[j]).contains(burst_start())
                <==> first_negotiation_at(es, j)),
        forall|j: int|
            0 <= j < es.len() && first_negotiation_at(es, j) ==> #[trigger] run(s, es).1[j]
                == negotiation_burst(),
{
    lemma_run_len(s, es);
    assert forall|j: int| 0 <= j < es.len() implies ((#[trigger] run(s, es).1[j]).contains(
        burst_start(),
    ) <==> first_negotiation_at(es, j)) && (first_negotiation_at(es, j) ==> run(s, es).1[j]
        == negotiation_burst()) by {
        lemma_run_step(s, es, j);
        lemma_run_states(s, es, j);
        let sj = state_before(s, es, j);
        lemma_event(sj, es[j]);
        if first_negotiation_at(es, j) {
            assert(!sj.option_neg_sent);
            assert(negotiation_burst()[0] == burst_start());
        } else if is_other_negotiation(es[j]) {
            let k = choose|k: int| 0 <= k < j && is_other_negotiation(#[trigger] es[k]);
            assert(sj.option_neg_sent);
        }
    }
}

/// Over a run, once an envelope is open every later screen shows it open:
/// with the hidden one open the closed picture and the first prompt never
/// come again, and data, cursor reports among it, brings no screen at all;
/// with the main one open only the prompt for it comes.
pub proof fn law_open_envelopes_stay_shown(s: SessionView, es: Seq<EventView>)
    requires
        session_wf(s),
    ensures
        run(s, es).1.len() == es.len(),
        forall|j: int, k: int|
            #![trigger state_before(s, es, j), run(s, es).1[k]]
            0 <= j <= k < es.len() && state_before(s, es, j).opened_easter ==> {
                &&& !run(s, es).1[k].contains(ActionView::Show(Screen::Hongbao))
                &&& !run(s, es).1[k].contains(ActionView::Show(Screen::PromptUnopened))
                &&& (es[k] matches EventView::Received(DataView::Binary(_))) ==> forall|i: int|
                    0 <= i < run(s, es).1[k].len() ==> !(run(s, es).1[k][i] is Show)
            },
        forall|j: int, k: int|
            #![trigger state_before(s, es, j), run(s, es).1[k]]
            0 <= j <= k < es.len() && state_before(s, es, j).opened_main ==> {
                &&& !run(s, es).1[k].contains(ActionView::Show(Screen::PromptUnopened))
                &&& !run(s, es).1[k].contains(ActionView::Show(Screen::PromptUnopenedEasterOpened))
            },
{
    lemma_run_len(s, es);
    assert forall|j: int, k: int| 0 <= j <= k < es.len() implies {
        &&& state_before(s, es, j).opened_easter ==> {
            &&& !run(s, es).1[k].contains(ActionView::Show(Screen::Hongbao))
            &&& !run(s, es).1[k].contains(ActionView::Show(Screen::PromptUnopened))
            &&& (es[k] matches EventView::Received(DataView::Binary(_))) ==> forall|i: int|
                0 <= i < run(s, es).1[k].len() ==> !(run(s, es).1[k][i] is Show)
        }
        &&& state_before(s, es, j).opened_main ==> {
            &&& !run(s, es).1[k].contains(ActionView::Show(Screen::PromptUnopened))
            &&& !run(s, es).1[k].contains(ActionView::Show(Screen::PromptUnopenedEasterOpened))
        }
    } by {
        lemma_run_monotone(s, es, j, k);
        lemma_run_step(s, es, k);
        lemma_run_states(s, es, k);
        lemma_event(state_before(s, es, k), es[k]);
    }
}

/// Over a run, the timeout screen comes exactly with a timeout; the session
/// asks to stop exactly on a timeout, a closed connection or a broken one,
/// and on the last two it does nothing else.
pub proof fn law_timeout_screen_only_on_timeout(s: SessionView, es: Seq<EventView>)
    requires
        session_wf(s),
    ensures
        run(s, es).1.len() == es.len(),
        forall|j: int|
            0 <= j < es.len() ==> ((#[trigger] run(s, es).1[j]).contains(
                ActionView::Show(Screen::PromptTimeout),
            ) <==> es[j] is Timeout),
        forall|j: int|
            0 <= j < es.len() ==> ((#[trigger] run(s, es).1[j]).contains(ActionView::Stop) <==> (
            es[j] is Timeout || es[j] is Closed || es[j] is Broken)),
        forall|j: int|
            0 <= j < es.len() && (es[j] is Closed || es[j] is Broken) ==> #[trigger] run(s, es).1[j]
                == seq![ActionView::Stop],
{
    lemma_run_len(s, es);
    assert forall|j: int| 0 <= j < es.len() implies {
        &&& (#[trigger] run(s, es).1[j]).contains(ActionView::Show(Screen::PromptTimeout))
            <==> es[j] is Timeout
        &&& run(s, es).1[j].contains(ActionView::Stop) <==> (es[j] is Timeout || es[j] is Closed
            || es[j] is Broken)
        &&& (es[j] is Closed || es[j] is Broken) ==> run(s, es).1[j] == seq![ActionView::Stop]
    } by {
        lemma_run_step(s, es, j);
        lemma_run_states(s, es, j);
        lemma_event(state_before(s, es, j), es[j]);
    }
}

/// Reading `a` and then `b` is reading them one after the other.
proof fn lemma_step_bytes_concat(s: SessionView, a: Seq<u8>, b: Seq<u8>)
    ensures
        step_bytes(s, a + b) == (
            step_bytes(step_bytes(s, a).0, b).0,
            step_bytes(s, a).1 + step_bytes(step_bytes(s, a).0, b).1,
        ),
    decreases b.len(),
{
    let (s1, a1) = step_bytes(s, a);
    if b.len() == 0 {
        assert(a + b =~= a);
        assert(a1 + Seq::<ActionView>::empty() =~= a1);
    } else {
        lemma_step_bytes_concat(s, a, b.drop_last());
        assert((a + b).drop_last() =~= a + b.drop_last());
        assert((a + b).last() == b.last());
        let (s2, a2) = step_bytes(s1, b.drop_last());
        let (s3, a3) = step_byte(s2, b.last());
        assert(a1 + a2 + a3 =~= a1 + (a2 + a3));
    }
}

/// Data handled as several items does what it does handled as one: the
/// state after and the actions, in order, are the same however the bytes
/// are split.
pub proof fn law_data_split(s: SessionView, items: Seq<Seq<u8>>)
    ensures
        run(s, binary_events(items)).0 == step_bytes(s, concat_all(items)).0,
        flatten_actions(run(s, binary_events(items)).1) == step_bytes(s, concat_all(items)).1,
    decreases items.len(),
{
    let es = binary_events(items);
    if items.len() == 0 {
        assert(es =~= Seq::<EventView>::empty());
        assert(concat_all(items) =~= Seq::<u8>::empty());
    } else {
        law_data_split(s, items.drop_last());
        assert(es.drop_last() =~= binary_events(items.drop_last()));
        assert(es.last() == EventView::Received(DataView::Binary(items.last())));
        lemma_step_bytes_concat(s, concat_all(items.drop_last()), items.last());
        let t = run(s, es.drop_last()).1;
        let a = step_event(run(s, es.drop_last()).0, es.last()).1;
        assert(t.push(a).drop_last() =~= t);
    }
}

/// From a state outside any control sequence, data with no `ESC` brings one
/// cursor position request for each carriage return, in order, and nothing
/// else, and leaves the state as it was.
pub proof fn law_cursor_requests(s: SessionView, bs: Seq<u8>)
    requires
        s.csi == Csi::Idle,
        forall|i: int| 0 <= i < bs.len() ==> bs[i] != ESC,
    ensures
        step_bytes(s, bs) == (s, Seq::new(count_byte(bs, 0x0d), |i: int| cursor_request())),
    decreases bs.len(),
{
    if bs.len() == 0 {
        assert(Seq::new(0, |i: int| cursor_request()) =~= Seq::<ActionView>::empty());
    } else {
        law_cursor_requests(s, bs.drop_last());
        let n = count_byte(bs.drop_last(), 0x0d);
        let (s1, a1) = step_bytes(s, bs.drop_last());
        assert(bs.last() == bs[bs.len() - 1]);
        if bs.last() == 0x0d {
            assert(Seq::new(n + 1, |i: int| cursor_request()) =~= Seq::new(
                n,
                |i: int| cursor_request(),
            ) + seq![cursor_request()]);
        } else {
            assert(Seq::new(n, |i: int| cursor_request()) + Seq::<ActionView>::empty() =~= Seq::new(
                n,
                |i: int| cursor_request(),
            ));
        }
    }
}

/// Inside a control sequence from its start, parameter bytes bring nothing;
/// the sequence goes on while there are fewer than 32 of them and is dropped
/// at 32.
proof fn lemma_params(s0: SessionView, ps: Seq<u8>, k: int)
    requires
        s0.csi == Csi::Sequence,
        s0.params.len() == 0,
        0 <= k <= ps.len(),
        forall|i: int| 0 <= i < ps.len() ==> 0x20 <= #[trigger] ps[i] <= 0x3f,
    ensures
        step_bytes(s0, ps.take(k)).1 == Seq::<ActionView>::empty(),
        step_bytes(s0, ps.take(k)).0.csi == (if k < MAX_PARAMS {
            Csi::Sequence
        } else {
            Csi::Idle
        }),
        k < MAX_PARAMS ==> step_bytes(s0, ps.take(k)).0.params.len() == k,
        k < MAX_PARAMS ==> step_bytes(s0, ps.take(k)).0 == (SessionView { params: ps.take(k), ..s0 }),
        k >= MAX_PARAMS ==> step_bytes(s0, ps.take(k)).0 == (SessionView {
            csi: Csi::Idle,
            params: ps.take(MAX_PARAMS as int),
            ..s0
        }),
    decreases k,
{
    if k == 0 {
        assert(ps.take(0) =~= Seq::<u8>::empty());
        assert(s0.params =~= ps.take(0));
    } else {
        lemma_params(s0, ps, k - 1);
        assert(ps.take(k).drop_last() =~= ps.take(k - 1));
        assert(ps.take(k).last() == ps[k - 1]);
        assert(ps.take(k - 1).push(ps[k - 1]) =~= ps.take(k));
        assert(Seq::<ActionView>::empty() + Seq::<ActionView>::empty() =~= Seq::<ActionView>::empty());
    }
}

/// `ESC [`, then parameter bytes (0x20 to 0x3f), then an arrow key (`A` to
/// `D`): the key is echoed back, without its parameters, when there are
/// fewer than 32 of them; with 32 or more the sequence is dropped and brings
/// nothing.  However the bytes come split into items, the same holds
/// (`law_data_split`).
pub proof fn law_control_sequence(s: SessionView, ps: Seq<u8>, f: u8)
    requires
        forall|i: int| 0 <= i < ps.len() ==> 0x20 <= #[trigger] ps[i] <= 0x3f,
        0x41 <= f <= 0x44,
    ensures
        step_bytes(s, seq![ESC, CSI] + ps + seq![f]).1 == (if ps.len() < MAX_PARAMS {
            seq![ActionView::Send(DataView::Binary(seq![ESC, CSI, f]))]
        } else {
            Seq::<ActionView>::empty()
        }),
{
    let open = seq![ESC, CSI];
    let s0 = SessionView { csi: Csi::Sequence, params: seq![], ..s };
    assert(open.drop_last() =~= seq![ESC]);
    assert(seq![ESC].drop_last() =~= Seq::<u8>::empty());
    let e = Seq::<ActionView>::empty();
    assert(step_bytes(s, Seq::<u8>::empty()) == (s, e));
    assert(step_bytes(s, seq![ESC]) == step_byte(s, ESC)) by {
        assert(seq![ESC].last() == ESC);
        assert(e + step_byte(s, ESC).1 =~= step_byte(s, ESC).1);
    }
    let s_esc = step_byte(s, ESC).0;
    assert(step_bytes(s, open) == (s0, e)) by {
        assert(open.last() == CSI);
        assert(step_byte(s_esc, CSI).0 == s0);
        assert(e + e =~= e);
    }
    lemma_step_bytes_concat(s, open, ps);
    lemma_params(s0, ps, ps.len() as int);
    assert(ps.take(ps.len() as int) =~= ps);
    lemma_step_bytes_concat(s, open + ps, seq![f]);
    assert(seq![f].drop_last() =~= Seq::<u8>::empty());
    let sp = step_bytes(s0, ps).0;
    assert(step_bytes(sp, Seq::<u8>::empty()) == (sp, e));
    assert(step_bytes(sp, seq![f]) == step_byte(sp, f)) by {
        assert(seq![f].last() == f);
        assert(e + step_byte(sp, f).1 =~= step_byte(sp, f).1);
    }
    assert(Seq::<ActionView>::empty() + Seq::<ActionView>::empty() =~= Seq::<ActionView>::empty());
    assert(Seq::<ActionView>::empty() + step_byte(sp, f).1 =~= step_byte(sp, f).1);
}

/// The decimal digits of `n` in ASCII, most significant first, with no
/// leading zero.
pub open spec fn digits(n: nat) -> Seq<u8>
    decreases n,
{
    if n < 10 {
        seq![(0x30 + n) as u8]
    } else {
        digits(n / 10) + seq![(0x30 + n % 10) as u8]
    }
}

/// The digits of `n` are ASCII digits that spell `n`; below 100 there are at
/// most two.
proof fn lemma_digits(n: nat)
    ensures
        digits(n).len() > 0,
        forall|i: int| 0 <= i < digits(n).len() ==> is_digit(#[trigger] digits(n)[i]),
        decimal(digits(n)) == n,
        n < 100 ==> digits(n).len() <= 2,
    decreases n,
{
    let d = digits(n);
    if n < 10 {
        assert(d.drop_last() =~= Seq::<u8>::empty());
        assert(decimal(d.drop_last()) == 0);
        assert(d.last() == (0x30 + n) as u8);
        assert(decimal(d) == decimal(d.drop_last()) * 10 + (d.last() - 0x30) as nat);
    } else {
        lemma_digits(n / 10);
        let h = digits(n / 10);
        assert(d.drop_last() =~= h);
        assert(d.last() == (0x30 + n % 10) as u8);
        assert forall|i: int| 0 <= i < d.len() implies is_digit(#[trigger] d[i]) by {
            if i < h.len() {
                assert(d[i] == h[i]);
            }
        }
        let x = d.last();
        assert(x == (0x30 + n % 10) as u8);
        assert((x - 0x30) as nat == n % 10);
        assert(decimal(d) == decimal(d.drop_last()) * 10 + (x - 0x30) as nat);
        assert(decimal(h) == n / 10);
        assert(n == (n / 10) * 10 + n % 10);
    }
}

/// Parsing the digits of `n` gives `n` back, where it fits in a `usize`.
proof fn lemma_parse_digits(n: nat)
    ensures
        parse_usize_spec(digits(n)) == (if n <= usize::MAX {
            Some(n)
        } else {
            None::<nat>
        }),
{
    lemma_digits(n);
    assert(is_digit(digits(n)[0]));
}

/// The report `row;col` is read as the row and the column.
proof fn lemma_report_parts(row: nat, col: nat)
    ensures
        report_in_box(digits(row) + seq![0x3bu8] + digits(col)) == (12 <= row <= 16 && 17 <= col
            <= 24),
{
    let dr = digits(row);
    let dc = digits(col);
    let p = dr + seq![0x3bu8] + dc;
    lemma_digits(row);
    lemma_digits(col);
    let i = dr.len() as int;
    assert forall|k: int| 0 <= k < i implies p[k] != 0x3b by {
        assert(p[k] == dr[k]);
        assert(is_digit(dr[k]));
    }
    assert(p[i] == 0x3b);
    lemma_find_from_at(p, 0, i, 0x3b);
    assert forall|k: int| i + 1 <= k < p.len() implies p[k] != 0x3b by {
        assert(p[k] == dc[k - i - 1]);
        assert(is_digit(dc[k - i - 1]));
    }
    lemma_find_from_none(p, i + 1, 0x3b);
    assert(p.subrange(0, i) =~= dr);
    assert(p.subrange(i + 1, p.len() as int) =~= dc);
    lemma_parse_digits(row);
    lemma_parse_digits(col);
}

/// `ESC [` starts a control sequence with no parameters and brings nothing.
proof fn lemma_open_sequence(s: SessionView)
    ensures
        step_bytes(s, seq![ESC, CSI]) == (SessionView { csi: Csi::Sequence, params: seq![], ..s },
        Seq::<ActionView>::empty()),
{
    let open = seq![ESC, CSI];
    let s0 = SessionView { csi: Csi::Sequence, params: seq![], ..s };
    let e = Seq::<ActionView>::empty();
    assert(open.drop_last() =~= seq![ESC]);
    lemma_one_byte(s, ESC);
    let s_esc = step_byte(s, ESC).0;
    assert(open.last() == CSI);
    assert(step_byte(s_esc, CSI).0 == s0);
    assert(e + e =~= e);
}

/// One byte as data is that byte.
proof fn lemma_one_byte(s: SessionView, b: u8)
    ensures
        step_bytes(s, seq![b]) == step_byte(s, b),
{
    let e = Seq::<ActionView>::empty();
    assert(seq![b].drop_last() =~= Seq::<u8>::empty());
    assert(step_bytes(s, Seq::<u8>::empty()) == (s, e));
    assert(seq![b].last() == b);
    assert(e + step_byte(s, b).1 =~= step_byte(s, b).1);
}

/// A cursor report `ESC [ row ; col R` at the start of a session opens the
/// hidden envelope, and shows it with the prompt that goes with it, exactly
/// when the row is 12 to 16 and the column 17 to 24; anywhere else it brings
/// nothing.
pub proof fn law_cursor_report_opens_envelope(row: nat, col: nat)
    ensures
        step_bytes(
            initial_spec(),
            seq![ESC, CSI] + digits(row) + seq![0x3bu8] + digits(col) + seq![0x52u8],
        ).1 == (if 12 <= row <= 16 && 17 <= col <= 24 {
            seq![
                ActionView::Show(Screen::HongbaoEasterOpened),
                ActionView::Show(Screen::PromptUnopenedEasterOpened),
            ]
        } else {
            Seq::<ActionView>::empty()
        }),
{
    let s = initial_spec();
    let ps = digits(row) + seq![0x3bu8] + digits(col);
    lemma_digits(row);
    lemma_digits(col);
    lemma_report_parts(row, col);
    assert forall|i: int| 0 <= i < ps.len() implies 0x20 <= #[trigger] ps[i] <= 0x3f by {
        if i < digits(row).len() {
            assert(ps[i] == digits(row)[i]);
            assert(is_digit(digits(row)[i]));
        } else if i > digits(row).len() {
            assert(ps[i] == digits(col)[i - digits(row).len() - 1]);
            assert(is_digit(digits(col)[i - digits(row).len() - 1]));
        }
    }
    let open = seq![ESC, CSI];
    let s0 = SessionView { csi: Csi::Sequence, params: seq![], ..s };
    let e = Seq::<ActionView>::empty();
    lemma_open_sequence(s);
    lemma_step_bytes_concat(s, open, ps);
    lemma_params(s0, ps, ps.len() as int);
    assert(ps.take(ps.len() as int) =~= ps);
    lemma_step_bytes_concat(s, open + ps, seq![0x52u8]);
    let sp = step_bytes(s0, ps).0;
    lemma_one_byte(sp, 0x52);
    assert(e + e =~= e);
    assert(e + step_byte(sp, 0x52).1 =~= step_byte(sp, 0x52).1);
    assert(open + ps + seq![0x52u8] =~= seq![ESC, CSI] + digits(row) + seq![0x3bu8] + digits(col)
        + seq![0x52u8]);
    if 12 <= row <= 16 && 17 <= col <= 24 {
        assert(ps.len() < MAX_PARAMS);
    }
}

} // verus!
