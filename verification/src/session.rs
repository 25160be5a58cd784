//! The interactive session state machine: screens, input modes, popup
//! messages, menu navigation and player-name collection.
//!
//! The machine consumes one abstract key event per loop turn and mutates
//! the session state; a presentation layer renders read-only views of it.

use crate::text::{pop_char, push_char, spec_trim, trim_string};
use vstd::prelude::*;
use vstd::string::StringExecFns;

verus! {

/// The buttons of the title menu, in display order.
#[derive(Clone, Copy, Debug, PartialEq, Eq, Structural)]
pub enum TitleButtons {
    Start,
    Options,
    Exit,
}

/// The display label of a title button.
pub open spec fn spec_button_label(b: TitleButtons) -> Seq<char> {
    match b {
        TitleButtons::Start => "Start"@,
        TitleButtons::Options => "Options"@,
        TitleButtons::Exit => "Exit"@,
    }
}

impl TitleButtons {
    /// The label shown on the button.
    pub fn label(&self) -> (r: &'static str)
        ensures
            r@ == spec_button_label(*self),
    {
        match self {
            TitleButtons::Start => "Start",
            TitleButtons::Options => "Options",
            TitleButtons::Exit => "Exit",
        }
    }
}

/// The input mode of the two input screens.
#[derive(Clone, Copy, Debug, PartialEq, Eq, Structural)]
pub enum InputMode {
    Normal,
    TextEntry,
}

/// How serious a popup message is.
#[derive(Clone, Copy, Debug, PartialEq, Eq, Structural)]
pub enum PopupSeverity {
    Info,
    Warn,
    Error,
}

/// A transient message shown to the user; it lives until the next input
/// event.
#[derive(Debug)]
pub struct PopupMsg {
    pub msg: String,
    pub severity: PopupSeverity,
}

impl PopupMsg {
    /// A popup with the given text and severity.
    pub fn new(msg: String, severity: PopupSeverity) -> (r: PopupMsg)
        ensures
            r.msg@ == msg@,
            r.severity == severity,
    {
        PopupMsg { msg, severity }
    }

    /// An informational popup.
    pub fn info(msg: String) -> (r: PopupMsg)
        ensures
            r.msg@ == msg@,
            r.severity == PopupSeverity::Info,
    {
        PopupMsg::new(msg, PopupSeverity::Info)
    }

    /// A warning popup.
    pub fn warn(msg: String) -> (r: PopupMsg)
        ensures
            r.msg@ == msg@,
            r.severity == PopupSeverity::Warn,
    {
        PopupMsg::new(msg, PopupSeverity::Warn)
    }

    /// An error popup.
    pub fn err(msg: String) -> (r: PopupMsg)
        ensures
            r.msg@ == msg@,
            r.severity == PopupSeverity::Error,
    {
        PopupMsg::new(msg, PopupSeverity::Error)
    }
}

/// The screens of the session.
#[derive(Clone, Copy, Debug, PartialEq, Eq, Structural)]
pub enum Screen {
    Title,
    PlayerCountInput,
    PlayerNameInput,
    Gameplay,
    Options,
}

/// An abstract key event, one per loop turn.
#[derive(Clone, Copy, Debug, PartialEq, Eq, Structural)]
pub enum KeyEvent {
    Char(char),
    Up,
    Down,
    Left,
    Right,
    Enter,
    Backspace,
    Esc,
    Other,
}

/// What the event loop should do after a step.
#[derive(Clone, Copy, Debug, PartialEq, Eq, Structural)]
pub enum SessionAction {
    Continue,
    Exit,
}

/// Fixed interface data: the title menu buttons.
pub struct UiDefaults {
    pub all_buttons: Vec<TitleButtons>,
}

/// The title buttons in their fixed order.
pub open spec fn spec_default_buttons() -> Seq<TitleButtons> {
    seq![TitleButtons::Start, TitleButtons::Options, TitleButtons::Exit]
}

impl Default for UiDefaults {
    /// The three title buttons.
    fn default() -> (r: UiDefaults)
        ensures
            r.all_buttons@ == spec_default_buttons(),
    {
        let mut all_buttons: Vec<TitleButtons> = Vec::new();
        all_buttons.push(TitleButtons::Start);
        all_buttons.push(TitleButtons::Options);
        all_buttons.push(TitleButtons::Exit);
        proof {
            assert(all_buttons@ =~= spec_default_buttons());
        }
        UiDefaults { all_buttons }
    }
}

/// Variable interface data: the collected player names, in insertion
/// order, each distinct.
pub struct UiVar {
    pub player_names: Vec<String>,
}

impl Default for UiVar {
    /// No names collected yet.
    fn default() -> (r: UiVar)
        ensures
            r.player_names@ == Seq::<String>::empty(),
    {
        let player_names: Vec<String> = Vec::new();
        proof {
            assert(player_names@ =~= Seq::<String>::empty());
        }
        UiVar { player_names }
    }
}

/// The deep view of the name list: each name as its character sequence.
pub open spec fn names_view(names: Seq<String>) -> Seq<Seq<char>> {
    names.map_values(|n: String| n@)
}

/// The warning text for a duplicate name.
pub open spec fn spec_dup_msg(t: Seq<char>) -> Seq<char> {
    "Name \""@ + t + "\" already exists."@
}

/// The session state, seen mathematically.
#[verifier::ext_equal]
pub ghost struct AppState {
    pub input: Seq<char>,
    pub input_mode: InputMode,
    pub popup: Option<(Seq<char>, PopupSeverity)>,
    pub curr_index: int,
    pub curr_index_mod: int,
    pub curr_screen: Screen,
    pub player_names: Seq<Seq<char>>,
}

/// One step of the session state machine: what one key event does to the
/// state, and whether the session goes on.  The stored popup is cleared
/// before the event's own handling, whatever it held.
pub open spec fn spec_step(s: AppState, key: KeyEvent) -> (AppState, SessionAction) {
    let s0 = AppState { popup: None, ..s };
    match s.curr_screen {
        Screen::Title => {
            let s1 = AppState { curr_index_mod: 3, ..s0 };
            match key {
                KeyEvent::Down | KeyEvent::Right => (
                    AppState { curr_index: (s.curr_index + 1) % 3, ..s1 },
                    SessionAction::Continue,
                ),
                KeyEvent::Up | KeyEvent::Left => (
                    AppState { curr_index: (s.curr_index - 1) % 3, ..s1 },
                    SessionAction::Continue,
                ),
                KeyEvent::Enter => {
                    if s.curr_index == 0 {
                        (
                            AppState { curr_screen: Screen::PlayerCountInput, ..s1 },
                            SessionAction::Continue,
                        )
                    } else if s.curr_index == 1 {
                        (AppState { curr_screen: Screen::Options, ..s1 }, SessionAction::Continue)
                    } else {
                        (s1, SessionAction::Exit)
                    }
                },
                _ => (s1, SessionAction::Continue),
            }
        },
        Screen::PlayerCountInput | Screen::PlayerNameInput => match s.input_mode {
            InputMode::Normal => match key {
                KeyEvent::Char(c) => {
                    if c == 'e' {
                        (
                            AppState { input_mode: InputMode::TextEntry, ..s0 },
                            SessionAction::Continue,
                        )
                    } else if c == 'q' {
                        (s0, SessionAction::Exit)
                    } else {
                        (s0, SessionAction::Continue)
                    }
                },
                _ => (s0, SessionAction::Continue),
            },
            InputMode::TextEntry => match key {
                KeyEvent::Enter => {
                    let t = spec_trim(s.input);
                    if t.len() == 0 {
                        (
                            AppState {
                                input: t,
                                popup: Some(("Name is required."@, PopupSeverity::Warn)),
                                ..s0
                            },
                            SessionAction::Continue,
                        )
                    } else if s.player_names.contains(t) {
                        (
                            AppState {
                                input: t,
                                popup: Some((spec_dup_msg(t), PopupSeverity::Warn)),
                                ..s0
                            },
                            SessionAction::Continue,
                        )
                    } else {
                        (
                            AppState {
                                input: Seq::empty(),
                                player_names: s.player_names.push(t),
                                ..s0
                            },
                            SessionAction::Continue,
                        )
                    }
                },
                KeyEvent::Char(c) => (
                    AppState { input: s.input.push(c), ..s0 },
                    SessionAction::Continue,
                ),
                KeyEvent::Backspace => (
                    AppState {
                        input: if s.input.len() == 0 {
                            s.input
                        } else {
                            s.input.drop_last()
                        },
                        ..s0
                    },
                    SessionAction::Continue,
                ),
                KeyEvent::Esc => (
                    AppState { input_mode: InputMode::Normal, ..s0 },
                    SessionAction::Continue,
                ),
                _ => (s0, SessionAction::Continue),
            },
        },
        _ => (s0, SessionAction::Continue),
    }
}

/// The session state as one flat structure: the screen tag plus the
/// fields shared by all screens.
pub struct App {
    pub input: String,
    pub input_mode: InputMode,
    pub popup: Option<PopupMsg>,
    pub curr_index: i8,
    pub curr_index_mod: usize,
    pub curr_screen: Screen,
    pub ui_var: UiVar,
    pub ui_defaults: UiDefaults,
}

impl Default for App {
    /// A fresh session: title screen, normal mode, empty buffer, no
    /// popup, no names.
    fn default() -> (r: App)
        ensures
            r.st() == (AppState {
                input: Seq::<char>::empty(),
                input_mode: InputMode::Normal,
                popup: None,
                curr_index: 0,
                curr_index_mod: 1,
                curr_screen: Screen::Title,
                player_names: Seq::<Seq<char>>::empty(),
            }),
            r.inv(),
    {
        let r = App {
            input: String::new(),
            input_mode: InputMode::Normal,
            popup: None,
            curr_index: 0,
            curr_index_mod: 1,
            curr_screen: Screen::Title,
            ui_var: UiVar::default(),
            ui_defaults: UiDefaults::default(),
        };
        proof {
            assert(names_view(r.ui_var.player_names@) =~= Seq::<Seq<char>>::empty());
        }
        r
    }
}

impl App {
    /// The mathematical view of the session state.
    pub open spec fn st(&self) -> AppState {
        AppState {
            input: self.input@,
            input_mode: self.input_mode,
            popup: match self.popup {
                None => None,
                Some(p) => Some((p.msg@, p.severity)),
            },
            curr_index: self.curr_index as int,
            curr_index_mod: self.curr_index_mod as int,
            curr_screen: self.curr_screen,
            player_names: names_view(self.ui_var.player_names@),
        }
    }

    /// Structural soundness: the title menu holds its three buttons and
    /// the cursor addresses one of them.
    pub open spec fn inv(&self) -> bool {
        &&& self.ui_defaults.all_buttons@ == spec_default_buttons()
        &&& 0 <= self.curr_index < 3
    }

    /// Feeds one key event to the state machine.  Gameplay and Options
    /// are unimplemented placeholder screens and take no events.
    pub fn handle_key(&mut self, key: KeyEvent) -> (r: SessionAction)
        requires
            old(self).inv(),
            old(self).curr_screen == Screen::Title || old(self).curr_screen
                == Screen::PlayerCountInput || old(self).curr_screen == Screen::PlayerNameInput,
        ensures
            final(self).inv(),
            final(self).st() == spec_step(old(self).st(), key).0,
            r == spec_step(old(self).st(), key).1,
            final(self).ui_defaults.all_buttons@ == old(self).ui_defaults.all_buttons@,
    {
        if self.popup.is_some() {
            self.popup = None;
        }
        match self.curr_screen {
            Screen::Title => {
                self.curr_index_mod = self.ui_defaults.all_buttons.len();
                match key {
                    KeyEvent::Down | KeyEvent::Right => {
                        self.curr_index = if self.curr_index >= 2 {
                            0
                        } else {
                            self.curr_index + 1
                        };
                        proof {
                            assert(self.st() =~~= spec_step(old(self).st(), key).0);
                        }
                        SessionAction::Continue
                    },
                    KeyEvent::Up | KeyEvent::Left => {
                        self.curr_index = if self.curr_index == 0 {
                            2
                        } else {
                            self.curr_index - 1
                        };
                        proof {
                            assert(self.st() =~~= spec_step(old(self).st(), key).0);
                        }
                        SessionAction::Continue
                    },
                    KeyEvent::Enter => {
                        match self.ui_defaults.all_buttons[self.curr_index as usize] {
                            TitleButtons::Start => {
                                self.curr_screen = Screen::PlayerCountInput;
                                proof {
                                    assert(self.st() =~~= spec_step(old(self).st(), key).0);
                                }
                                SessionAction::Continue
                            },
                            TitleButtons::Options => {
                                self.curr_screen = Screen::Options;
                                proof {
                                    assert(self.st() =~~= spec_step(old(self).st(), key).0);
                                }
                                SessionAction::Continue
                            },
                            TitleButtons::Exit => {
                                proof {
                                    assert(self.st() =~~= spec_step(old(self).st(), key).0);
                                }
                                SessionAction::Exit
                            },
                        }
                    },
                    _ => {
                        proof {
                            assert(self.st() =~~= spec_step(old(self).st(), key).0);
                        }
                        SessionAction::Continue
                    },
                }
            },
            Screen::PlayerCountInput | Screen::PlayerNameInput => {
                match self.input_mode {
                    InputMode::Normal => {
                        match key {
                            KeyEvent::Char(c) => {
                                if c == 'e' {
                                    self.input_mode = InputMode::TextEntry;
                                    proof {
                                        assert(self.st() =~~= spec_step(old(self).st(), key).0);
                                    }
                                    SessionAction::Continue
                                } else if c == 'q' {
                                    proof {
                                        assert(self.st() =~~= spec_step(old(self).st(), key).0);
                                    }
                                    SessionAction::Exit
                                } else {
                                    proof {
                                        assert(self.st() =~~= spec_step(old(self).st(), key).0);
                                    }
                                    SessionAction::Continue
                                }
                            },
                            _ => {
                                proof {
                                    assert(self.st() =~~= spec_step(old(self).st(), key).0);
                                }
                                SessionAction::Continue
                            },
                        }
                    },
                    InputMode::TextEntry => {
                        match key {
                            KeyEvent::Enter => {
                                let t = trim_string(&self.input);
                                if t.as_str().is_empty() {
                                    self.input = t;
                                    self.popup = Some(
                                        PopupMsg::warn("Name is required.".to_owned()),
                                    );
                                    proof {
                                        assert(self.st() =~~= spec_step(old(self).st(), key).0);
                                    }
                                    SessionAction::Continue
                                } else if contains_name(&self.ui_var.player_names, &t) {
                                    let mut m = "Name \"".to_owned();
                                    m.append(t.as_str());
                                    m.append("\" already exists.");
                                    self.popup = Some(PopupMsg::warn(m));
                                    self.input = t;
                                    proof {
                                        assert(self.st() =~~= spec_step(old(self).st(), key).0);
                                    }
                                    SessionAction::Continue
                                } else {
                                    let ghost names0 = self.ui_var.player_names@;
                                    self.ui_var.player_names.push(t);
                                    self.input = String::new();
                                    proof {
                                        assert(names_view(self.ui_var.player_names@) =~= names_view(
                                            names0,
                                        ).push(spec_trim(old(self).st().input)));
                                        assert(self.st() =~~= spec_step(old(self).st(), key).0);
                                    }
                                    SessionAction::Continue
                                }
                            },
                            KeyEvent::Char(c) => {
                                push_char(&mut self.input, c);
                                proof {
                                    assert(self.st() =~~= spec_step(old(self).st(), key).0);
                                }
                                SessionAction::Continue
                            },
                            KeyEvent::Backspace => {
                                let _popped = pop_char(&mut self.input);
                                proof {
                                    assert(self.st() =~~= spec_step(old(self).st(), key).0);
                                }
                                SessionAction::Continue
                            },
                            KeyEvent::Esc => {
                                self.input_mode = InputMode::Normal;
                                proof {
                                    assert(self.st() =~~= spec_step(old(self).st(), key).0);
                                }
                                SessionAction::Continue
                            },
                            _ => {
                                proof {
                                    assert(self.st() =~~= spec_step(old(self).st(), key).0);
                                }
                                SessionAction::Continue
                            },
                        }
                    },
                }
            },
            _ => {
                proof {
                    assert(false);
                }
                SessionAction::Continue
            },
        }
    }
}

/// A popup is single-event-lifetime: whatever message the state holds,
/// a step behaves exactly as if the popup had already been cleared, so
/// the stored popup never influences the event's own handling.
pub proof fn lemma_popup_single_event(s: AppState, key: KeyEvent)
    ensures
        spec_step(s, key).0 == spec_step(AppState { popup: None, ..s }, key).0,
        spec_step(s, key).1 == spec_step(AppState { popup: None, ..s }, key).1,
{
    let s2 = AppState { popup: None, ..s };
    assert(spec_step(s, key).0 =~~= spec_step(s2, key).0);
}

/// A name enters the player list only through Enter in text-entry mode
/// on an input screen, only once trimmed and non-empty, only when not
/// already present — and then it is appended at the end.
pub proof fn lemma_name_acceptance(s: AppState, key: KeyEvent)
    ensures
        spec_step(s, key).0.player_names != s.player_names ==> {
            let t = spec_trim(s.input);
            &&& (s.curr_screen == Screen::PlayerCountInput || s.curr_screen
                == Screen::PlayerNameInput)
            &&& s.input_mode == InputMode::TextEntry
            &&& key == KeyEvent::Enter
            &&& t.len() > 0
            &&& !s.player_names.contains(t)
            &&& spec_step(s, key).0.player_names == s.player_names.push(t)
        },
{
}

/// Stepping keeps the player names distinct: a list without duplicates
/// stays without duplicates.
pub proof fn lemma_step_keeps_names_distinct(s: AppState, key: KeyEvent)
    requires
        s.player_names.no_duplicates(),
    ensures
        spec_step(s, key).0.player_names.no_duplicates(),
{
    let ns = spec_step(s, key).0.player_names;
    lemma_name_acceptance(s, key);
    if ns != s.player_names {
        let t = spec_trim(s.input);
        assert forall|i: int, j: int|
            0 <= i < ns.len() && 0 <= j < ns.len() && i != j implies ns[i] != ns[j] by {
            if i < s.player_names.len() && j < s.player_names.len() {
                assert(ns[i] == s.player_names[i] && ns[j] == s.player_names[j]);
            } else if j == s.player_names.len() {
                assert(ns[j] == t && ns[i] == s.player_names[i]);
                if ns[i] == t {
                    assert(s.player_names.contains(t));
                }
            } else {
                assert(ns[i] == t && ns[j] == s.player_names[j]);
                if ns[j] == t {
                    assert(s.player_names.contains(t));
                }
            }
        }
    }
}

/// The cursor stays reduced modulo the three title buttons: a step never
/// moves it outside `[0, 3)`.
pub proof fn lemma_cursor_in_range(s: AppState, key: KeyEvent)
    requires
        0 <= s.curr_index < 3,
    ensures
        0 <= spec_step(s, key).0.curr_index < 3,
{
}

/// Whether the list already holds a name with the same characters.
fn contains_name(names: &Vec<String>, t: &String) -> (r: bool)
    ensures
        r == names_view(names@).contains(t@),
{
    let mut i: usize = 0;
    while i < names.len()
        invariant
            i <= names@.len(),
            forall|k: int| 0 <= k < i ==> (#[trigger] names@[k])@ != t@,
        decreases names@.len() - i,
    {
        if names[i] == *t {
            proof {
                assert(names_view(names@)[i as int] == t@);
            }
            return true;
        }
        i = i + 1;
    }
    proof {
        assert forall|k: int| 0 <= k < names_view(names@).len() implies names_view(names@)[k]
            != t@ by {
            assert(names_view(names@)[k] == names@[k]@);
        }
    }
    false
}

} // verus!
