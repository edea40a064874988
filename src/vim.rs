//! A modal, vi-like input handler.
use crate::events::{BufferEvent, EventDomain, Movement, ViewEvent};
use crate::input::{Action, Mode, PendingToken};
use crate::strs::str_eq;
use vstd::prelude::*;
use vstd::string::StrSliceExecFns;
use vstd::string::StringExecFns;

verus! {

/// How long a first `j` waits for a second one, in milliseconds.
pub const KEY_TIMEOUT_MILLIS: u32 = 500;

/// The motion a key names, if any.
pub open spec fn motion_of(c: Seq<char>) -> Option<Movement> {
    if c == "h"@ {
        Some(Movement::Left)
    } else if c == "l"@ {
        Some(Movement::Right)
    } else if c == "j"@ {
        Some(Movement::Down)
    } else if c == "k"@ {
        Some(Movement::Up)
    } else if c == "w"@ {
        Some(Movement::RightWord)
    } else if c == "b"@ {
        Some(Movement::LeftWord)
    } else if c == "0"@ {
        Some(Movement::LeftOfLine)
    } else if c == "$"@ {
        Some(Movement::RightOfLine)
    } else {
        None
    }
}

pub fn movement_from_str(s: &str) -> (r: Option<Movement>)
    ensures
        r == motion_of(s@),
{
    if str_eq(s, "h") {
        Some(Movement::Left)
    } else if str_eq(s, "l") {
        Some(Movement::Right)
    } else if str_eq(s, "j") {
        Some(Movement::Down)
    } else if str_eq(s, "k") {
        Some(Movement::Up)
    } else if str_eq(s, "w") {
        Some(Movement::RightWord)
    } else if str_eq(s, "b") {
        Some(Movement::LeftWord)
    } else if str_eq(s, "0") {
        Some(Movement::LeftOfLine)
    } else if str_eq(s, "$") {
        Some(Movement::RightOfLine)
    } else {
        None
    }
}

/// The kind of a command: a plain motion, or a verb applied over one.
#[derive(PartialEq, Eq, Structural, Clone, Copy, Debug)]
pub enum CommandType {
    Move,
    Delete,
}

impl CommandType {
    pub open spec fn spec_from_char(c: Seq<char>) -> Option<CommandType> {
        if c == "d"@ { Some(CommandType::Delete) } else { None }
    }

    pub fn from_char(chr: &str) -> (r: Option<CommandType>)
        ensures
            r == Self::spec_from_char(chr@),
    {
        if str_eq(chr, "d") {
            Some(CommandType::Delete)
        } else {
            None
        }
    }
}

/// The value of a run of decimal digits.
pub open spec fn digits_value(c: Seq<char>) -> int
    decreases c.len(),
{
    if c.len() == 0 { 0 } else { digits_value(c.drop_last()) * 10 + (c.last() as int - '0' as int) }
}

pub open spec fn all_digits(c: Seq<char>) -> bool {
    forall|i: int| 0 <= i < c.len() ==> '0' <= #[trigger] c[i] <= '9'
}

/// A count typed as a key: one or more digits whose value fits a `usize`.
pub open spec fn count_of(c: Seq<char>) -> Option<usize> {
    if c.len() > 0 && all_digits(c) && digits_value(c) <= usize::MAX {
        Some(digits_value(c) as usize)
    } else {
        None
    }
}

proof fn lemma_digits_value_mono(c: Seq<char>)
    requires
        all_digits(c),
    ensures
        digits_value(c) >= 0,
        c.len() > 0 ==> digits_value(c) >= digits_value(c.drop_last()),
    decreases c.len(),
{
    if c.len() > 0 {
        assert(all_digits(c.drop_last()));
        lemma_digits_value_mono(c.drop_last());
    }
}

pub fn parse_count(s: &str) -> (r: Option<usize>)
    ensures
        r == count_of(s@),
{
    let n = s.unicode_len();
    if n == 0 {
        return None;
    }
    let mut v: usize = 0;
    let mut i: usize = 0;
    while i < n
        invariant
            n == s@.len(),
            0 <= i <= n,
            all_digits(s@.take(i as int)),
            v == digits_value(s@.take(i as int)),
        decreases n - i,
    {
        let c = s.get_char(i);
        proof {
            assert(s@.take(i + 1).drop_last() =~= s@.take(i as int));
        }
        if !('0' <= c && c <= '9') {
            proof {
                assert(!all_digits(s@));
            }
            return None;
        }
        let d = (c as u32 - '0' as u32) as usize;
        if v > (usize::MAX - d) / 10 {
            proof {
                assert(v * 10 + d > usize::MAX) by (nonlinear_arith)
                    requires v > (usize::MAX - d) / 10, d <= 9;
                assert(digits_value(s@.take(i + 1)) == v * 10 + d);
                if all_digits(s@) {
                    lemma_digits_prefix(s@, i + 1);
                }
            }
            return None;
        }
        v = v * 10 + d;
        i = i + 1;
    }
    proof {
        assert(s@.take(i as int) =~= s@);
    }
    Some(v)
}

/// A prefix's value never exceeds the whole run's.
proof fn lemma_digits_prefix(c: Seq<char>, k: int)
    requires
        all_digits(c),
        0 <= k <= c.len(),
    ensures
        digits_value(c.take(k)) <= digits_value(c),
    decreases c.len(),
{
    if k < c.len() {
        assert(c.drop_last().take(k) =~= c.take(k));
        assert(all_digits(c.drop_last()));
        lemma_digits_prefix(c.drop_last(), k);
        lemma_digits_value_mono(c);
    } else {
        assert(c.take(k) =~= c);
    }
}

/// A parsed command: what to do, over which motion, how many times.
#[derive(PartialEq, Eq, Structural, Clone, Copy, Debug)]
pub struct Command {
    pub ty: CommandType,
    pub motion: Movement,
    pub distance: usize,
}

/// Where the command parser stands.
#[derive(PartialEq, Eq, Structural, Clone, Copy, Debug)]
pub enum CommandState {
    Ready,
    AwaitMotion(CommandType, usize),
    Done(Command),
    Failed,
}

/// The parser's next state after key `c` in state `s`. Only `Ready` and
/// `AwaitMotion` take keys; a count digit multiplies the count so far by
/// ten, and a count that would not fit fails the command.
pub open spec fn next_state(s: CommandState, c: Seq<char>) -> CommandState {
    match s {
        CommandState::Ready => {
            if motion_of(c).is_some() {
                CommandState::Done(Command { motion: motion_of(c).unwrap(), ty: CommandType::Move, distance: 1 })
            } else if CommandType::spec_from_char(c).is_some() {
                CommandState::AwaitMotion(CommandType::spec_from_char(c).unwrap(), 0)
            } else if count_of(c).is_some() {
                CommandState::AwaitMotion(CommandType::Move, count_of(c).unwrap())
            } else {
                CommandState::Failed
            }
        },
        CommandState::AwaitMotion(ty, dist) => {
            if motion_of(c).is_some() {
                CommandState::Done(Command { motion: motion_of(c).unwrap(), ty, distance: if dist >= 1 { dist } else { 1 } })
            } else if count_of(c).is_some() && count_of(c).unwrap() + dist * 10 <= usize::MAX {
                CommandState::AwaitMotion(ty, (count_of(c).unwrap() + dist * 10) as usize)
            } else {
                CommandState::Failed
            }
        },
        _ => CommandState::Failed,
    }
}

/// A key that leaves command mode for insert mode from `Ready`.
pub open spec fn is_mode_switch(c: Seq<char>) -> bool {
    c == "i"@ || c == "a"@ || c == "A"@ || c == "o"@ || c == "O"@
}

/// An action, with its text as characters.
pub enum ActionView {
    SendEvent,
    FreeEvent,
    ScheduleEvent { delay: u32 },
    CancelTimer(PendingToken),
    ModeChange(Mode),
    ParseState(Seq<char>),
    Core(EventDomain, usize),
}

pub open spec fn action_view(a: Action) -> ActionView {
    match a {
        Action::SendEvent => ActionView::SendEvent,
        Action::FreeEvent => ActionView::FreeEvent,
        Action::ScheduleEvent { delay } => ActionView::ScheduleEvent { delay },
        Action::CancelTimer(t) => ActionView::CancelTimer(t),
        Action::ModeChange(m) => ActionView::ModeChange(m),
        Action::ParseState(s) => ActionView::ParseState(s@),
        Action::Core(e, n) => ActionView::Core(e, n),
    }
}

pub open spec fn actions_view(a: Seq<Action>) -> Seq<ActionView> {
    a.map_values(|x: Action| action_view(x))
}

pub open spec fn mv(m: Movement) -> EventDomain {
    EventDomain::View(ViewEvent::Move(m))
}

/// The view events a mode-switch key runs before insert mode starts.
pub open spec fn switch_events(c: Seq<char>) -> Seq<ActionView> {
    if c == "a"@ {
        seq![ActionView::Core(mv(Movement::Right), 1)]
    } else if c == "A"@ {
        seq![ActionView::Core(mv(Movement::RightOfLine), 1)]
    } else if c == "o"@ {
        seq![ActionView::Core(mv(Movement::RightOfLine), 1), ActionView::Core(EventDomain::Buffer(BufferEvent::InsertNewline), 1)]
    } else if c == "O"@ {
        seq![
            ActionView::Core(mv(Movement::LeftOfLine), 1),
            ActionView::Core(EventDomain::Buffer(BufferEvent::InsertNewline), 1),
            ActionView::Core(mv(Movement::Up), 1),
        ]
    } else {
        Seq::empty()
    }
}

/// The view events a finished command runs.
pub open spec fn command_events(cmd: Command) -> Seq<ActionView> {
    match cmd.ty {
        CommandType::Delete => seq![
            ActionView::Core(EventDomain::View(ViewEvent::ModifySelection(cmd.motion)), cmd.distance),
            ActionView::Core(EventDomain::Buffer(BufferEvent::Backspace), 1),
        ],
        CommandType::Move => seq![ActionView::Core(mv(cmd.motion), cmd.distance)],
    }
}

/// The actions of a command-mode key `c` in parser state `s`, with `raw`
/// typed so far, and whether the view is redrawn.
pub open spec fn command_actions(s: CommandState, raw: Seq<char>, c: Seq<char>) -> (Seq<ActionView>, bool) {
    if s == CommandState::Ready && is_mode_switch(c) {
        (switch_events(c) + seq![ActionView::ModeChange(Mode::Insert), ActionView::ParseState(Seq::empty())], true)
    } else {
        let ns = next_state(s, c);
        let typed = raw + c;
        if ns is Done {
            (command_events(ns->Done_0) + seq![ActionView::ParseState(typed)], true)
        } else {
            (seq![ActionView::ParseState(typed)], false)
        }
    }
}

/// The actions of an insert-mode key `c` with pending token `token`.
pub open spec fn insert_actions(token: Option<PendingToken>, c: Seq<char>) -> Seq<ActionView> {
    if c == "Escape"@ {
        seq![ActionView::ModeChange(Mode::Command), ActionView::FreeEvent]
    } else if c == "j"@ {
        match token {
            Some(t) => seq![ActionView::CancelTimer(t), ActionView::ModeChange(Mode::Command), ActionView::FreeEvent],
            None => seq![ActionView::ScheduleEvent { delay: KEY_TIMEOUT_MILLIS }],
        }
    } else {
        seq![ActionView::SendEvent]
    }
}

/// The modal handler's state: its mode, the command parser, the keys typed
/// of the pending command, and the token of a scheduled `j`.
pub struct Machine {
    pub mode: Mode,
    pub state: CommandState,
    pub raw: String,
    pub timeout_token: Option<PendingToken>,
}

impl Machine {
    /// The parser rests in `Ready` or `AwaitMotion` between keys.
    pub open spec fn wf(&self) -> bool {
        self.state is Ready || self.state is AwaitMotion
    }

    pub fn new() -> (r: Machine)
        ensures
            r.wf(),
            r.mode == Mode::Insert,
            r.state == CommandState::Ready,
            r.raw@ == Seq::<char>::empty(),
            r.timeout_token.is_none(),
    {
        Machine { mode: Mode::Insert, state: CommandState::Ready, raw: String::new(), timeout_token: None }
    }

    /// Handles a key in command mode. Returns the actions, in order, and
    /// whether the view should be redrawn.
    pub fn handle_command(&mut self, chr: &str) -> (r: (Vec<Action>, bool))
        requires
            old(self).wf(),
        ensures
            final(self).wf(),
            final(self).timeout_token == old(self).timeout_token,
            old(self).state == CommandState::Ready && is_mode_switch(chr@) ==> {
                &&& final(self).mode == Mode::Insert
                &&& final(self).state == old(self).state
                &&& final(self).raw@ == old(self).raw@
                &&& actions_view(r.0@) == switch_events(chr@) + seq![ActionView::ModeChange(Mode::Insert), ActionView::ParseState(Seq::empty())]
                &&& r.1
            },
            !(old(self).state == CommandState::Ready && is_mode_switch(chr@)) ==> {
                let ns = next_state(old(self).state, chr@);
                let typed = old(self).raw@ + chr@;
                &&& final(self).mode == old(self).mode
                &&& ns is Done ==> final(self).state == CommandState::Ready && final(self).raw@ == Seq::<char>::empty()
                    && actions_view(r.0@) == command_events(ns->Done_0) + seq![ActionView::ParseState(typed)] && r.1
                &&& ns is Failed ==> final(self).state == CommandState::Ready && final(self).raw@ == Seq::<char>::empty()
                    && actions_view(r.0@) == seq![ActionView::ParseState(typed)] && !r.1
                &&& ns is AwaitMotion ==> final(self).state == ns && final(self).raw@ == typed
                    && actions_view(r.0@) == seq![ActionView::ParseState(typed)] && !r.1
            },
    {
        let mut actions: Vec<Action> = Vec::new();
        if let CommandState::Ready = self.state {
            let is_a = str_eq(chr, "a");
            let is_big_a = str_eq(chr, "A");
            let is_o = str_eq(chr, "o");
            let is_big_o = str_eq(chr, "O");
            if str_eq(chr, "i") || is_a || is_big_a || is_o || is_big_o {
                self.mode = Mode::Insert;
                if is_a {
                    actions.push(Action::Core(EventDomain::View(ViewEvent::Move(Movement::Right)), 1));
                } else if is_big_a {
                    actions.push(Action::Core(EventDomain::View(ViewEvent::Move(Movement::RightOfLine)), 1));
                } else if is_o {
                    actions.push(Action::Core(EventDomain::View(ViewEvent::Move(Movement::RightOfLine)), 1));
                    actions.push(Action::Core(EventDomain::Buffer(BufferEvent::InsertNewline), 1));
                } else if is_big_o {
                    actions.push(Action::Core(EventDomain::View(ViewEvent::Move(Movement::LeftOfLine)), 1));
                    actions.push(Action::Core(EventDomain::Buffer(BufferEvent::InsertNewline), 1));
                    actions.push(Action::Core(EventDomain::View(ViewEvent::Move(Movement::Up)), 1));
                }
                actions.push(Action::ModeChange(Mode::Insert));
                actions.push(Action::ParseState(String::new()));
                proof {
                    assert(actions_view(actions@) =~= switch_events(chr@) + seq![ActionView::ModeChange(Mode::Insert), ActionView::ParseState(Seq::empty())]);
                }
                return (actions, true);
            }
        }
        let ghost old_state = self.state;
        self.raw.append(chr);
        let new_state = match self.state {
            CommandState::Ready => {
                if let Some(motion) = movement_from_str(chr) {
                    CommandState::Done(Command { motion, ty: CommandType::Move, distance: 1 })
                } else if let Some(cmd) = CommandType::from_char(chr) {
                    CommandState::AwaitMotion(cmd, 0)
                } else if let Some(num) = parse_count(chr) {
                    CommandState::AwaitMotion(CommandType::Move, num)
                } else {
                    CommandState::Failed
                }
            },
            CommandState::AwaitMotion(ty, dist) => {
                if let Some(motion) = movement_from_str(chr) {
                    CommandState::Done(Command { motion, ty, distance: if dist >= 1 { dist } else { 1 } })
                } else if let Some(num) = parse_count(chr) {
                    if dist <= (usize::MAX - num) / 10 {
                        proof {
                            assert(dist * 10 <= usize::MAX - num) by (nonlinear_arith)
                                requires dist <= (usize::MAX - num) / 10;
                        }
                        CommandState::AwaitMotion(ty, num + dist * 10)
                    } else {
                        proof {
                            assert(dist * 10 > usize::MAX - num) by (nonlinear_arith)
                                requires dist > (usize::MAX - num) / 10;
                        }
                        CommandState::Failed
                    }
                } else {
                    CommandState::Failed
                }
            },
            _ => CommandState::Failed,
        };
        self.state = new_state;
        match new_state {
            CommandState::Done(cmd) => {
                match cmd.ty {
                    CommandType::Delete => {
                        actions.push(Action::Core(EventDomain::View(ViewEvent::ModifySelection(cmd.motion)), cmd.distance));
                        actions.push(Action::Core(EventDomain::Buffer(BufferEvent::Backspace), 1));
                    },
                    CommandType::Move => {
                        actions.push(Action::Core(EventDomain::View(ViewEvent::Move(cmd.motion)), cmd.distance));
                    },
                }
                self.change_state(CommandState::Ready, &mut actions);
                proof {
                    assert(actions_view(actions@) =~= command_events(cmd) + seq![ActionView::ParseState(old(self).raw@ + chr@)]);
                }
                (actions, true)
            },
            CommandState::Failed => {
                self.change_state(CommandState::Ready, &mut actions);
                proof {
                    assert(actions_view(actions@) =~= seq![ActionView::ParseState(old(self).raw@ + chr@)]);
                }
                (actions, false)
            },
            _ => {
                actions.push(Action::ParseState(self.raw.clone()));
                proof {
                    assert(actions_view(actions@) =~= seq![ActionView::ParseState(old(self).raw@ + chr@)]);
                }
                (actions, false)
            },
        }
    }

    /// Handles a key in insert mode. `Escape` goes to command mode; a first
    /// `j` is scheduled to come back later, and a second one while it waits
    /// cancels it and goes to command mode; any other key goes on to the
    /// host. Any pending token is dropped.
    pub fn handle_insert(&mut self, chr: &str) -> (r: Vec<Action>)
        ensures
            final(self).state == old(self).state,
            final(self).raw == old(self).raw,
            final(self).timeout_token.is_none(),
            chr@ == "Escape"@ ==> final(self).mode == Mode::Command
                && actions_view(r@) == seq![ActionView::ModeChange(Mode::Command), ActionView::FreeEvent],
            chr@ != "Escape"@ && chr@ == "j"@ && old(self).timeout_token.is_some() ==> final(self).mode == Mode::Command
                && actions_view(r@) == seq![ActionView::CancelTimer(old(self).timeout_token.unwrap()), ActionView::ModeChange(Mode::Command), ActionView::FreeEvent],
            chr@ != "Escape"@ && chr@ == "j"@ && old(self).timeout_token.is_none() ==> final(self).mode == old(self).mode
                && actions_view(r@) == seq![ActionView::ScheduleEvent { delay: KEY_TIMEOUT_MILLIS }],
            chr@ != "Escape"@ && chr@ != "j"@ ==> final(self).mode == old(self).mode
                && actions_view(r@) == seq![ActionView::SendEvent],
    {
        let timeout_token = self.timeout_token;
        self.timeout_token = None;
        let mut actions: Vec<Action> = Vec::new();
        if str_eq(chr, "Escape") {
            self.mode = Mode::Command;
            actions.push(Action::ModeChange(Mode::Command));
            actions.push(Action::FreeEvent);
        } else if str_eq(chr, "j") {
            match timeout_token {
                Some(token) => {
                    actions.push(Action::CancelTimer(token));
                    self.mode = Mode::Command;
                    actions.push(Action::ModeChange(Mode::Command));
                    actions.push(Action::FreeEvent);
                },
                None => {
                    actions.push(Action::ScheduleEvent { delay: KEY_TIMEOUT_MILLIS });
                },
            }
        } else {
            actions.push(Action::SendEvent);
        }
        proof {
            assert(actions_view(actions@) =~= actions@.map_values(|x: Action| action_view(x)));
            if chr@ == "Escape"@ {
                assert(actions_view(actions@) =~= seq![ActionView::ModeChange(Mode::Command), ActionView::FreeEvent]);
            } else if chr@ == "j"@ {
                if old(self).timeout_token.is_some() {
                    assert(actions_view(actions@) =~= seq![ActionView::CancelTimer(old(self).timeout_token.unwrap()), ActionView::ModeChange(Mode::Command), ActionView::FreeEvent]);
                } else {
                    assert(actions_view(actions@) =~= seq![ActionView::ScheduleEvent { delay: KEY_TIMEOUT_MILLIS }]);
                }
            } else {
                assert(actions_view(actions@) =~= seq![ActionView::SendEvent]);
            }
        }
        actions
    }

    /// Handles one key event in the current mode. Returns the actions, in
    /// order, and whether the view should be redrawn. In command and visual
    /// mode the event is freed last.
    pub fn handle_event(&mut self, chr: &str) -> (r: (Vec<Action>, bool))
        requires
            old(self).wf(),
        ensures
            final(self).wf(),
            old(self).mode == Mode::Visual ==> actions_view(r.0@) == seq![ActionView::FreeEvent] && !r.1
                && *final(self) == *old(self),
            old(self).mode == Mode::Insert ==> !r.1 && actions_view(r.0@) == insert_actions(old(self).timeout_token, chr@),
            old(self).mode == Mode::Command ==> actions_view(r.0@) == command_actions(old(self).state, old(self).raw@, chr@).0.push(ActionView::FreeEvent)
                && r.1 == command_actions(old(self).state, old(self).raw@, chr@).1,
    {
        match self.mode {
            Mode::Insert => (self.handle_insert(chr), false),
            Mode::Command => {
                let (mut actions, redraw) = self.handle_command(chr);
                let ghost before = actions@;
                actions.push(Action::FreeEvent);
                proof {
                    assert(actions_view(actions@) =~= actions_view(before).push(ActionView::FreeEvent));
                }
                (actions, redraw)
            },
            Mode::Visual => {
                let mut actions: Vec<Action> = Vec::new();
                actions.push(Action::FreeEvent);
                proof {
                    assert(actions_view(actions@) =~= seq![ActionView::FreeEvent]);
                }
                (actions, false)
            },
        }
    }

    /// Records the token the host gave for a scheduled key.
    pub fn set_pending(&mut self, token: PendingToken)
        ensures
            final(self).timeout_token == Some(token),
            final(self).mode == old(self).mode,
            final(self).state == old(self).state,
            final(self).raw == old(self).raw,
    {
        self.timeout_token = Some(token);
    }

    /// The scheduled key has fired: forget its token.
    pub fn clear_pending(&mut self, _token: PendingToken)
        ensures
            final(self).timeout_token.is_none(),
            final(self).mode == old(self).mode,
            final(self).state == old(self).state,
            final(self).raw == old(self).raw,
    {
        self.timeout_token = None;
    }

    /// Resets the parser, reporting what was typed and clearing it.
    fn change_state(&mut self, new_state: CommandState, actions: &mut Vec<Action>)
        ensures
            final(self).state == new_state,
            final(self).mode == old(self).mode,
            final(self).timeout_token == old(self).timeout_token,
            final(self).raw@ == Seq::<char>::empty(),
            actions_view(final(actions)@) == actions_view(old(actions)@).push(ActionView::ParseState(old(self).raw@)),
    {
        self.state = new_state;
        let mut raw = String::new();
        std::mem::swap(&mut raw, &mut self.raw);
        actions.push(Action::ParseState(raw));
        proof {
            assert(actions_view(actions@) =~= actions_view(old(actions)@).push(ActionView::ParseState(old(self).raw@)));
        }
    }
}

} // verus!
