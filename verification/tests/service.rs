use hongbao_telnet::{
    parse_cursor_report, render_hongbao, Action, Event, Screen, Session, TelnetData, TelnetOption,
};

const ESC: u8 = 0x1b;

fn data(bytes: &[u8]) -> Event {
    Event::Received(TelnetData::Binary(bytes.to_vec()))
}

#[test]
fn session_start() {
    let s = Session::new();
    assert_eq!(
        s.start(),
        vec![
            Action::Send(TelnetData::Will(true, TelnetOption::Echo)),
            Action::Pause(666),
            Action::Show(Screen::Hongbao),
            Action::Show(Screen::PromptUnopened),
        ]
    );
}

#[test]
fn render_table() {
    assert_eq!(render_hongbao(false, false), vec![Action::Show(Screen::Hongbao), Action::Show(Screen::PromptUnopened)]);
    assert_eq!(render_hongbao(true, false), vec![Action::Show(Screen::Hongbao), Action::Show(Screen::PromptOpened)]);
    assert_eq!(
        render_hongbao(false, true),
        vec![Action::Show(Screen::HongbaoEasterOpened), Action::Show(Screen::PromptUnopenedEasterOpened)]
    );
    assert_eq!(
        render_hongbao(true, true),
        vec![Action::Show(Screen::HongbaoEasterOpened), Action::Show(Screen::PromptOpened)]
    );
}

#[test]
fn negotiation_burst_once() {
    let mut s = Session::new();
    let burst = vec![
        Action::Send(TelnetData::Do(false, TelnetOption::LineMode)),
        Action::Send(TelnetData::Will(true, TelnetOption::Echo)),
        Action::Send(TelnetData::Do(false, TelnetOption::Echo)),
        Action::Send(TelnetData::Will(true, TelnetOption::Hongbao2024)),
    ];
    assert_eq!(s.on_event(Event::Received(TelnetData::Will(true, TelnetOption::TerminalType))), burst);
    assert_eq!(s.on_event(Event::Received(TelnetData::Do(true, TelnetOption::Echo))), vec![]);
    assert_eq!(s.on_event(Event::Received(TelnetData::Will(false, TelnetOption::Echo))), vec![]);
}

#[test]
fn main_envelope_opens() {
    let mut s = Session::new();
    assert_eq!(
        s.on_event(Event::Received(TelnetData::Do(true, TelnetOption::Hongbao2024))),
        vec![
            Action::Send(TelnetData::SubnegotiationRequest(TelnetOption::Hongbao2024, b"51131748".to_vec())),
            Action::Show(Screen::Hongbao),
            Action::Show(Screen::PromptOpened),
        ]
    );
    // The burst is still owed to the first other negotiation.
    assert_eq!(s.on_event(Event::Received(TelnetData::Do(false, TelnetOption::Hongbao2024))).len(), 4);
}

#[test]
fn arrow_keys_are_echoed() {
    let mut s = Session::new();
    assert_eq!(s.on_event(data(&[ESC, b'[', b'A'])), vec![Action::Send(TelnetData::Binary(vec![ESC, b'[', b'A']))]);
    assert_eq!(s.on_event(data(&[ESC, b'[', b'E'])), vec![]);
    assert_eq!(s.on_event(data(&[ESC, b'O', b'A'])), vec![]);
    assert_eq!(s.on_event(data(b"A")), vec![]);
}

#[test]
fn carriage_return_asks_for_cursor() {
    let mut s = Session::new();
    assert_eq!(s.on_event(data(b"x\r")), vec![Action::Send(TelnetData::Binary(vec![ESC, b'[', b'6', b'n']))]);
}

#[test]
fn cursor_report_in_box_opens_easter_once() {
    let mut s = Session::new();
    let mut report = vec![ESC, b'['];
    report.extend_from_slice(b"14;20R");
    assert_eq!(
        s.on_event(data(&report)),
        vec![Action::Show(Screen::HongbaoEasterOpened), Action::Show(Screen::PromptUnopenedEasterOpened)]
    );
    assert_eq!(s.on_event(data(&report)), vec![]);
    assert_eq!(
        s.on_event(Event::Received(TelnetData::Do(true, TelnetOption::Hongbao2024))),
        vec![
            Action::Send(TelnetData::SubnegotiationRequest(TelnetOption::Hongbao2024, b"51131748".to_vec())),
            Action::Show(Screen::HongbaoEasterOpened),
            Action::Show(Screen::PromptOpened),
        ]
    );
}

#[test]
fn cursor_report_outside_box_does_nothing() {
    let mut s = Session::new();
    let mut report = vec![ESC, b'['];
    report.extend_from_slice(b"11;20R");
    assert_eq!(s.on_event(data(&report)), vec![]);
    let mut report = vec![ESC, b'['];
    report.extend_from_slice(b"16;25R");
    assert_eq!(s.on_event(data(&report)), vec![]);
}

#[test]
fn long_sequence_is_abandoned() {
    let mut s = Session::new();
    let mut bytes = vec![ESC, b'['];
    bytes.extend_from_slice(&[b'1'; 32]);
    bytes.push(b'A');
    assert_eq!(s.on_event(data(&bytes)), vec![]);
    let mut bytes = vec![ESC, b'['];
    bytes.extend_from_slice(&[b'1'; 31]);
    bytes.push(b'A');
    assert_eq!(s.on_event(data(&bytes)), vec![Action::Send(TelnetData::Binary(vec![ESC, b'[', b'A']))]);
}

#[test]
fn session_end_events() {
    let mut s = Session::new();
    assert_eq!(s.on_event(Event::Timeout), vec![Action::Show(Screen::PromptTimeout), Action::Stop]);
    assert_eq!(s.on_event(Event::Closed), vec![Action::Stop]);
    assert_eq!(s.on_event(Event::Broken), vec![Action::Stop]);
    assert_eq!(s.on_event(Event::Received(TelnetData::Command(hongbao_telnet::TelnetCommand::Break))), vec![]);
}

#[test]
fn cursor_report_parsing() {
    assert_eq!(parse_cursor_report(&b"14;20".to_vec()), Some((14, 20)));
    assert_eq!(parse_cursor_report(&b"+14;+20".to_vec()), Some((14, 20)));
    assert_eq!(parse_cursor_report(&b"14;20;3".to_vec()), Some((14, 20)));
    assert_eq!(parse_cursor_report(&b"14".to_vec()), None);
    assert_eq!(parse_cursor_report(&b"14;".to_vec()), None);
    assert_eq!(parse_cursor_report(&b";20".to_vec()), None);
    assert_eq!(parse_cursor_report(&b"+;20".to_vec()), None);
    assert_eq!(parse_cursor_report(&b"1=;2".to_vec()), None);
    assert_eq!(parse_cursor_report(&b"99999999999999999999999;1".to_vec()), None);
    assert_eq!(parse_cursor_report(&b"007;08".to_vec()), Some((7, 8)));
}

#[test]
fn data_split_across_items_acts_the_same() {
    let whole: Vec<u8> = vec![ESC, b'[', b'1', b'4', b';', b'2', b'0', b'R', b'\r', ESC, b'[', b'B'];
    let mut one = Session::new();
    let all_at_once = one.on_event(data(&whole));
    let mut two = Session::new();
    let mut in_parts = Vec::new();
    for part in whole.chunks(3) {
        in_parts.extend(two.on_event(data(part)));
    }
    assert_eq!(all_at_once, in_parts);
    assert_eq!(
        in_parts,
        vec![
            Action::Show(Screen::HongbaoEasterOpened),
            Action::Show(Screen::PromptUnopenedEasterOpened),
            Action::Send(TelnetData::Binary(vec![ESC, b'[', b'6', b'n'])),
            Action::Send(TelnetData::Binary(vec![ESC, b'[', b'B'])),
        ]
    );
}

#[test]
fn one_cursor_request_per_carriage_return() {
    let mut s = Session::new();
    let request = || Action::Send(TelnetData::Binary(vec![ESC, b'[', b'6', b'n']));
    assert_eq!(s.on_event(data(b"a\rb\r\rc")), vec![request(), request(), request()]);
}

#[test]
fn carriage_return_ends_a_sequence() {
    let mut s = Session::new();
    assert_eq!(s.on_event(data(&[ESC, b'[', b'1'])), vec![]);
    assert_eq!(s.on_event(data(b"\rA")).len(), 1);
}

#[test]
fn timeout_screen_only_on_timeout() {
    let mut s = Session::new();
    let events = vec![
        Event::Received(TelnetData::Do(true, TelnetOption::Echo)),
        Event::Received(TelnetData::Do(true, TelnetOption::Hongbao2024)),
        data(b"\r"),
        Event::Timeout,
    ];
    let mut shown = Vec::new();
    for e in events {
        let is_timeout = e == Event::Timeout;
        let actions = s.on_event(e);
        assert_eq!(actions.contains(&Action::Show(Screen::PromptTimeout)), is_timeout);
        shown.push(actions);
    }
    assert_eq!(shown[3], vec![Action::Show(Screen::PromptTimeout), Action::Stop]);
}

#[test]
fn opened_envelopes_stay_shown() {
    let mut s = Session::new();
    s.on_event(Event::Received(TelnetData::Do(true, TelnetOption::Hongbao2024)));
    let mut report = vec![ESC, b'['];
    report.extend_from_slice(b"13;18R");
    assert_eq!(
        s.on_event(data(&report)),
        vec![Action::Show(Screen::HongbaoEasterOpened), Action::Show(Screen::PromptOpened)]
    );
    let again = s.on_event(Event::Received(TelnetData::Do(true, TelnetOption::Hongbao2024)));
    assert!(!again.contains(&Action::Show(Screen::Hongbao)));
    assert!(!again.contains(&Action::Show(Screen::PromptUnopened)));
}
