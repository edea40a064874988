use xi_modal_input::dispatch::event_from_str;
use xi_modal_input::events::{BufferEvent, EditNotification, EventDomain, Movement, ViewEvent};
use xi_modal_input::input::{Action, Mode};
use xi_modal_input::mac::{Mac, Modifiers};
use xi_modal_input::vim::{parse_count, CommandState, Machine};

fn parse_state(a: &Action) -> Option<String> {
    match a {
        Action::ParseState(s) => Some(s.clone()),
        _ => None,
    }
}

#[test]
fn selectors_map_to_requests() {
    assert!(matches!(event_from_str("deleteBackward:"), Some(EditNotification::DeleteBackward)));
    assert!(matches!(event_from_str("deleteWordForward:"), Some(EditNotification::DeleteForward)));
    assert!(matches!(event_from_str("moveToBeginningOfLine:"), Some(EditNotification::MoveToLeftEndOfLine)));
    assert!(matches!(event_from_str("cancelOperation:"), Some(EditNotification::CollapseSelections)));
    assert!(matches!(event_from_str("toggle_comment"), Some(EditNotification::ToggleComment)));
    assert!(event_from_str("scrollPageDown:").is_none());
    assert!(matches!(
        EditNotification::DeleteForward.into_domain(),
        EventDomain::Buffer(BufferEvent::Delete { movement: Movement::Right })
    ));
}

#[test]
fn modifier_mask() {
    let m = Modifiers::from_mask(1 << 18);
    assert!(m.ctrl && !m.opt && !m.cmd);
    assert_eq!(m.canonical_str(), "ctrl");
    assert_eq!(Modifiers::from_mask((1 << 18) | (1 << 19) | (1 << 20)).canonical_str(), "cmd+opt+ctrl");
    assert_eq!(Modifiers::from_mask(0).canonical_str(), "");
}

#[test]
fn mac_bindings() {
    let mut mac = Mac;
    assert_eq!(mac.handle_event(1 << 18, "a"), Some("moveToBeginningOfParagraph:"));
    assert_eq!(mac.handle_event(1 << 18, "t"), Some("transpose:"));
    assert_eq!(mac.handle_event(1 << 18, "z"), None);
    assert_eq!(mac.handle_event((1 << 18) | (1 << 20), "a"), None);
    assert_eq!(mac.handle_event(0, "a"), None);
}

#[test]
fn escape_and_jj_enter_command_mode() {
    let mut m = Machine::new();
    let a = m.handle_insert("x");
    assert!(matches!(a[..], [Action::SendEvent]));
    let a = m.handle_insert("Escape");
    assert!(matches!(a[..], [Action::ModeChange(Mode::Command), Action::FreeEvent]));
    assert_eq!(m.mode, Mode::Command);

    let mut m = Machine::new();
    let a = m.handle_insert("j");
    assert!(matches!(a[..], [Action::ScheduleEvent { delay: 500 }]));
    m.set_pending(7);
    let a = m.handle_insert("j");
    assert!(matches!(a[..], [Action::CancelTimer(7), Action::ModeChange(Mode::Command), Action::FreeEvent]));
    assert_eq!(m.mode, Mode::Command);
    assert!(m.timeout_token.is_none());
}

#[test]
fn command_grammar() {
    let mut m = Machine::new();
    m.mode = Mode::Command;
    let (a, redraw) = m.handle_command("l");
    assert!(redraw);
    assert!(matches!(a[0], Action::Core(EventDomain::View(ViewEvent::Move(Movement::Right)), 1)));
    assert_eq!(parse_state(&a[1]).unwrap(), "l");

    let (a, redraw) = m.handle_command("d");
    assert!(!redraw);
    assert_eq!(parse_state(&a[0]).unwrap(), "d");
    let (a, _) = m.handle_command("3");
    assert_eq!(parse_state(&a[0]).unwrap(), "d3");
    assert_eq!(m.state, CommandState::AwaitMotion(xi_modal_input::vim::CommandType::Delete, 3));
    let (a, redraw) = m.handle_command("w");
    assert!(redraw);
    assert!(matches!(a[0], Action::Core(EventDomain::View(ViewEvent::ModifySelection(Movement::RightWord)), 3)));
    assert!(matches!(a[1], Action::Core(EventDomain::Buffer(BufferEvent::Backspace), 1)));
    assert_eq!(parse_state(&a[2]).unwrap(), "d3w");
    assert_eq!(m.state, CommandState::Ready);

    let (a, redraw) = m.handle_command("q");
    assert!(!redraw);
    assert_eq!(parse_state(&a[0]).unwrap(), "q");
    assert_eq!(m.raw, "");

    let (a, redraw) = m.handle_command("o");
    assert!(redraw);
    assert_eq!(m.mode, Mode::Insert);
    assert!(matches!(a[1], Action::Core(EventDomain::Buffer(BufferEvent::InsertNewline), 1)));
    assert!(matches!(a[2], Action::ModeChange(Mode::Insert)));
}

#[test]
fn counts() {
    assert_eq!(parse_count("12"), Some(12));
    assert_eq!(parse_count("1a"), None);
    assert_eq!(parse_count(""), None);
    assert_eq!(parse_count("99999999999999999999999"), None);
}
