//! The three screens of the program and what a key means on each: the chat,
//! the list of threads, and the choice of a code block to copy.

use vstd::prelude::*;

use crate::decimal::is_ascii_digit;
use crate::decimal::is_digit;
use crate::error::Error;
use crate::tui::InputEvent;
use crate::tui::KeyCode;
use crate::tui::Modifiers;
use crate::tui::to_ascii_uppercase;
use crate::tui::upper;

verus! {

/// The screen that is shown.
#[derive(Debug, Clone, Copy, PartialEq, Eq, Structural)]
pub enum Screen {
    Chat,
    List,
    Copy,
}

impl Default for Screen {
    fn default() -> (s: Screen)
        ensures
            s == Screen::Chat,
    {
        Screen::Chat
    }
}

/// What the user asks for in the chat.
#[derive(Debug, Clone, Copy, PartialEq, Eq, Structural)]
pub enum ChatAction {
    TypeChar(char),
    ScrollUp,
    ScrollDown,
    EnterCopyMode,
    ExitChat,
}

/// What the user asks for in the list of threads.
#[derive(Debug, Clone, Copy, PartialEq, Eq, Structural)]
pub enum ListAction {
    EnterChat,
    NewChat,
    SelectionUp,
    SelectionDown,
}

/// What the user asks for while a code block is chosen.
#[derive(Debug, Clone, Copy, PartialEq, Eq, Structural)]
pub enum CopyAction {
    InputCodeBlockDigit(u8),
    SubmitCopySelection,
    ExitCopyMode,
    ScrollUp,
    ScrollDown,
}

/// What the terminal hands to the program.
#[derive(Debug, Clone, PartialEq, Eq)]
pub enum TermEvent {
    /// Something happened at the keyboard or the mouse.
    Input(InputEvent),
    /// The terminal failed.
    Error(String),
    Tick,
    Render,
    Init,
    Quit,
}

impl TermEvent {
    /// The failure that the event reports, if it reports one.
    pub fn raise_err(&self) -> (r: Result<(), Error>)
        ensures
            r is Err == (self is Error),
            r matches Err(e) ==> (e matches Error::Other(t) && t@ == self->Error_0@),
    {
        match self {
            TermEvent::Error(e) => Err(Error::Other(e.clone())),
            _ => Ok(()),
        }
    }
}

/// What a key means in the chat.
pub open spec fn chat_action(code: KeyCode, modifiers: Modifiers) -> Option<ChatAction> {
    if code == KeyCode::Up && modifiers == Modifiers::Control {
        Some(ChatAction::ScrollUp)
    } else if code == KeyCode::Down && modifiers == Modifiers::Control {
        Some(ChatAction::ScrollDown)
    } else if code == KeyCode::Char(' ') && modifiers == Modifiers::Alt {
        Some(ChatAction::EnterCopyMode)
    } else {
        match code {
            KeyCode::Char(c) => Some(
                ChatAction::TypeChar(
                    if modifiers == Modifiers::Shift {
                        upper(c)
                    } else {
                        c
                    },
                ),
            ),
            KeyCode::Esc => Some(ChatAction::ExitChat),
            _ => None,
        }
    }
}

/// What a key means in the list of threads.
pub open spec fn list_action(code: KeyCode) -> Option<ListAction> {
    match code {
        KeyCode::Enter => Some(ListAction::EnterChat),
        KeyCode::Char(c) => if c == 'n' {
            Some(ListAction::NewChat)
        } else {
            None
        },
        KeyCode::Up => Some(ListAction::SelectionUp),
        KeyCode::Down => Some(ListAction::SelectionDown),
        _ => None,
    }
}

/// What a key means while a code block is chosen.
pub open spec fn copy_action(code: KeyCode) -> Option<CopyAction> {
    match code {
        KeyCode::Char(c) => if is_digit(c) {
            Some(CopyAction::InputCodeBlockDigit((c as u32 - 48) as u8))
        } else {
            None
        },
        KeyCode::Enter => Some(CopyAction::SubmitCopySelection),
        KeyCode::Esc => Some(CopyAction::ExitCopyMode),
        KeyCode::Up => Some(CopyAction::ScrollUp),
        KeyCode::Down => Some(CopyAction::ScrollDown),
        _ => None,
    }
}

/// The key that an event reports, if it reports that one was pressed.
pub open spec fn pressed(event: TermEvent) -> Option<(KeyCode, Modifiers)> {
    match event {
        TermEvent::Input(InputEvent::Key(code, modifiers)) => Some((code, modifiers)),
        _ => None,
    }
}

/// What the state of the program holds beside its threads.
#[derive(Debug, Clone, Copy, PartialEq, Eq, Structural)]
pub struct Modes {
    pub screen: Screen,
    pub should_quit: bool,
    pub count: i32,
}

/// What an action of the chat makes of the state: the choice of a code
/// block and the list of threads are entered, `j` counts down and `k`
/// counts up, as far as the count goes.
pub open spec fn chat_made(m: Modes, action: ChatAction) -> Modes {
    match action {
        ChatAction::EnterCopyMode => Modes { screen: Screen::Copy, ..m },
        ChatAction::ExitChat => Modes { screen: Screen::List, ..m },
        ChatAction::TypeChar(c) => if c == 'j' && m.count > i32::MIN {
            Modes { count: (m.count - 1) as i32, ..m }
        } else if c == 'k' && m.count < i32::MAX {
            Modes { count: (m.count + 1) as i32, ..m }
        } else {
            m
        },
        _ => m,
    }
}

/// What an action of the list of threads makes of the state: the chat is
/// entered.
pub open spec fn list_made(m: Modes, action: ListAction) -> Modes {
    if action == ListAction::EnterChat {
        Modes { screen: Screen::Chat, ..m }
    } else {
        m
    }
}

/// What an action of the choice of a code block makes of the state: the
/// chat is entered again.
pub open spec fn copy_made(m: Modes, action: CopyAction) -> Modes {
    if action == CopyAction::ExitCopyMode {
        Modes { screen: Screen::Chat, ..m }
    } else {
        m
    }
}

/// What a key makes of the state: what the action makes of it that the key
/// means on the screen that is shown; a key that means nothing there
/// changes nothing.
pub open spec fn key_made(m: Modes, code: KeyCode, modifiers: Modifiers) -> Modes {
    match m.screen {
        Screen::Chat => match chat_action(code, modifiers) {
            Some(a) => chat_made(m, a),
            None => m,
        },
        Screen::List => match list_action(code) {
            Some(a) => list_made(m, a),
            None => m,
        },
        Screen::Copy => match copy_action(code) {
            Some(a) => copy_made(m, a),
            None => m,
        },
    }
}

/// What an event makes of the state: the event that ends the program is
/// noted, a key does what it means on the screen that is shown, and any
/// other event changes nothing.
pub open spec fn event_made(m: Modes, event: TermEvent) -> Modes {
    match event {
        TermEvent::Quit => Modes { should_quit: true, ..m },
        TermEvent::Input(InputEvent::Key(code, modifiers)) => key_made(m, code, modifiers),
        _ => m,
    }
}

/// The chat.
pub struct ChatMode {}

/// The list of threads.
pub struct ListMode {}

/// The choice of a code block to copy.
pub struct CopyMode {}

impl ChatMode {
    /// What an event asks for in the chat. An event that reports a failure
    /// is refused; one that reports no key asks for nothing.
    pub fn parse_event(event: &TermEvent) -> (r: Result<Option<ChatAction>, Error>)
        ensures
            r is Err == (event is Error),
            r matches Err(e) ==> (e matches Error::Other(t) && t@ == event->Error_0@),
            r matches Ok(a) ==> a == match pressed(*event) {
                Some((code, modifiers)) => chat_action(code, modifiers),
                None => None,
            },
    {
        match event.raise_err() {
            Err(e) => {
                return Err(e);
            },
            Ok(_) => {},
        }
        let (code, modifiers) = match event {
            TermEvent::Input(InputEvent::Key(code, modifiers)) => (*code, *modifiers),
            _ => {
                return Ok(None);
            },
        };
        let action = if code == KeyCode::Up && modifiers == Modifiers::Control {
            Some(ChatAction::ScrollUp)
        } else if code == KeyCode::Down && modifiers == Modifiers::Control {
            Some(ChatAction::ScrollDown)
        } else if code == KeyCode::Char(' ') && modifiers == Modifiers::Alt {
            Some(ChatAction::EnterCopyMode)
        } else {
            match code {
                KeyCode::Char(c) => if modifiers == Modifiers::Shift {
                    Some(ChatAction::TypeChar(to_ascii_uppercase(c)))
                } else {
                    Some(ChatAction::TypeChar(c))
                },
                KeyCode::Esc => Some(ChatAction::ExitChat),
                _ => None,
            }
        };
        Ok(action)
    }

    /// What an action of the chat makes of the state: the choice of a code
    /// block and the list of threads are entered, `j` counts down and `k`
    /// counts up, as far as the count goes.
    pub fn update(app: &mut Modes, action: ChatAction)
        ensures
            *final(app) == chat_made(*old(app), action),
    {
        match action {
            ChatAction::EnterCopyMode => {
                app.screen = Screen::Copy;
            },
            ChatAction::ExitChat => {
                app.screen = Screen::List;
            },
            ChatAction::TypeChar(c) => {
                if c == 'j' && app.count > i32::MIN {
                    app.count = app.count - 1;
                } else if c == 'k' && app.count < i32::MAX {
                    app.count = app.count + 1;
                }
            },
            _ => {},
        }
    }
}

impl ListMode {
    /// What an event asks for in the list of threads.
    pub fn parse_event(event: &TermEvent) -> (r: Result<Option<ListAction>, Error>)
        ensures
            r is Err == (event is Error),
            r matches Err(e) ==> (e matches Error::Other(t) && t@ == event->Error_0@),
            r matches Ok(a) ==> a == match pressed(*event) {
                Some((code, modifiers)) => list_action(code),
                None => None,
            },
    {
        match event.raise_err() {
            Err(e) => {
                return Err(e);
            },
            Ok(_) => {},
        }
        let code = match event {
            TermEvent::Input(InputEvent::Key(code, _)) => *code,
            _ => {
                return Ok(None);
            },
        };
        let action = match code {
            KeyCode::Enter => Some(ListAction::EnterChat),
            KeyCode::Char(c) => if c == 'n' {
                Some(ListAction::NewChat)
            } else {
                None
            },
            KeyCode::Up => Some(ListAction::SelectionUp),
            KeyCode::Down => Some(ListAction::SelectionDown),
            _ => None,
        };
        Ok(action)
    }

    /// What an action of the list makes of the state: the chat is entered.
    pub fn update(app: &mut Modes, action: ListAction)
        ensures
            *final(app) == list_made(*old(app), action),
    {
        match action {
            ListAction::EnterChat => {
                app.screen = Screen::Chat;
            },
            _ => {},
        }
    }
}

impl CopyMode {
    /// What an event asks for while a code block is chosen.
    pub fn parse_event(event: &TermEvent) -> (r: Result<Option<CopyAction>, Error>)
        ensures
            r is Err == (event is Error),
            r matches Err(e) ==> (e matches Error::Other(t) && t@ == event->Error_0@),
            r matches Ok(a) ==> a == match pressed(*event) {
                Some((code, modifiers)) => copy_action(code),
                None => None,
            },
    {
        match event.raise_err() {
            Err(e) => {
                return Err(e);
            },
            Ok(_) => {},
        }
        let code = match event {
            TermEvent::Input(InputEvent::Key(code, _)) => *code,
            _ => {
                return Ok(None);
            },
        };
        let action = match code {
            KeyCode::Char(c) => if is_ascii_digit(c) {
                Some(CopyAction::InputCodeBlockDigit((c as u32 - 48) as u8))
            } else {
                None
            },
            KeyCode::Enter => Some(CopyAction::SubmitCopySelection),
            KeyCode::Esc => Some(CopyAction::ExitCopyMode),
            KeyCode::Up => Some(CopyAction::ScrollUp),
            KeyCode::Down => Some(CopyAction::ScrollDown),
            _ => None,
        };
        Ok(action)
    }

    /// What an action of the choice makes of the state: the chat is
    /// entered again.
    pub fn update(app: &mut Modes, action: CopyAction)
        ensures
            *final(app) == copy_made(*old(app), action),
    {
        match action {
            CopyAction::ExitCopyMode => {
                app.screen = Screen::Chat;
            },
            _ => {},
        }
    }
}

impl Modes {
    /// The state at the start: the chat, with nothing counted.
    pub fn new() -> (m: Modes)
        ensures
            m == (Modes { screen: Screen::Chat, should_quit: false, count: 0 }),
    {
        Modes { screen: Screen::Chat, should_quit: false, count: 0 }
    }

    /// What an event makes of the state, as `event_made` says: the event
    /// that ends the program is noted; a key goes to the screen that is
    /// shown. An event that reports a failure is refused with the text of
    /// the failure, and nothing changes.
    pub fn update(&mut self, event: &TermEvent) -> (r: Result<(), Error>)
        ensures
            *final(self) == event_made(*old(self), *event),
            r is Err == (event is Error),
            r matches Err(e) ==> (e matches Error::Other(t) && t@ == event->Error_0@),
    {
        match event {
            TermEvent::Quit => {
                self.should_quit = true;
                Ok(())
            },
            _ => match self.screen {
                Screen::Chat => match ChatMode::parse_event(event) {
                    Ok(Some(action)) => {
                        ChatMode::update(self, action);
                        Ok(())
                    },
                    Ok(None) => Ok(()),
                    Err(e) => Err(e),
                },
                Screen::List => match ListMode::parse_event(event) {
                    Ok(Some(action)) => {
                        ListMode::update(self, action);
                        Ok(())
                    },
                    Ok(None) => Ok(()),
                    Err(e) => Err(e),
                },
                Screen::Copy => match CopyMode::parse_event(event) {
                    Ok(Some(action)) => {
                        CopyMode::update(self, action);
                        Ok(())
                    },
                    Ok(None) => Ok(()),
                    Err(e) => Err(e),
                },
            },
        }
    }
}

} // verus!
