//! The state of the screen and what each event makes of it.

use vstd::prelude::*;
use vstd::string::StringExecFns;

use crate::decimal::capped;
use crate::decimal::decimal;
use crate::decimal::decimal_of;
use crate::decimal::is_ascii_digit;
use crate::decimal::is_digit;
use crate::decimal::parse_decimal;
use crate::decimal::parsed_number;
use crate::error::Error;
use crate::lines::lines_of;
use crate::lines::texts;
use crate::message::Message;
use crate::message::MessageModel;
use crate::message::Role;
use crate::message::marker_count;
use crate::message::shown_blocks;
use crate::render::DisplayLine;
use crate::render::RowModel;
use crate::render::SpanModel;
use crate::render::row_spans;
use crate::render::spans_of;
use crate::thread::thread_spans;
use crate::render::display_views;
use crate::session::Session;
use crate::session::SessionModel;
use crate::text::chars_of;
use crate::text::string_of;
use crate::thread::Summary;
use crate::thread::Thread;
use crate::thread::ThreadModel;
use crate::thread::WireBody;
use crate::thread::lemma_shown_list_len;
use crate::thread::shown_list;
use crate::thread::message_block;
use crate::thread::header_model;
use crate::message::BlockModel;
use crate::message::content_rows;
use crate::message::is_marker;
use crate::render::block_rows;
use crate::render::code_rows;
use crate::render::line_rows;
use crate::llm::PromptModel;
use crate::thread::carries;
use crate::thread::on_screen;
use crate::thread::preview;
use crate::thread::shown_before;
use crate::thread::spoken;
use crate::thread::string_preview;
use crate::thread::thread_rows;
use crate::thread::title_text;
use crate::thread::token_sum;
use crate::thread::valid;
use crate::thread::wire_messages;
use crate::thread::wire_origins;

verus! {

/// Tries the terminal: there is nothing to try, and it says so.
pub fn test_tui() -> (r: Result<(), Error>)
    ensures
        r is Ok,
{
    Ok(())
}

/// How many times a second the screen is drawn.
pub const FPS: u64 = 30;

/// How many lines an arrow key moves the history.
pub const SCROLL_STEP: usize = 1;

/// How many lines a turn of the mouse wheel moves the history.
pub const WHEEL_STEP: usize = 2;

/// The keys that are held down together with a key.
#[derive(Debug, Clone, Copy, PartialEq, Eq, Structural)]
pub enum Modifiers {
    /// No other key.
    Bare,
    Control,
    Alt,
    Shift,
    /// Any other key or keys.
    Other,
}

/// A key of the keyboard.
#[derive(Debug, Clone, Copy, PartialEq, Eq, Structural)]
pub enum KeyCode {
    Char(char),
    Up,
    Down,
    Enter,
    Backspace,
    Esc,
    /// Any other key.
    Other,
}

/// What the terminal reports.
#[derive(Debug, Clone, Copy, PartialEq, Eq, Structural)]
pub enum InputEvent {
    /// A key was pressed.
    Key(KeyCode, Modifiers),
    /// The mouse wheel was turned up.
    ScrollUp,
    /// The mouse wheel was turned down.
    ScrollDown,
    /// Anything else.
    Other,
}

/// The state of the screen, apart from the threads.
pub struct ScreenModel {
    pub should_quit: bool,
    pub should_show_editor: bool,
    pub copy_mode: bool,
    pub user_message: Seq<char>,
    pub chat_scroll: nat,
    pub bottom_text: Option<Seq<char>>,
    pub copy_select_buf: Seq<char>,
    pub selected_block_index: Option<nat>,
    pub text_len: nat,
    pub chat_window_height: nat,
}

/// The row below which nothing of the history is left to show: no row
/// where the history fits the window, else what does not fit and two rows.
pub open spec fn max_scroll_of(s: ScreenModel) -> nat {
    if s.chat_window_height >= s.text_len {
        0
    } else {
        capped((s.text_len - s.chat_window_height + 2) as nat)
    }
}

/// A letter of the ASCII alphabet in upper case; any other character as it
/// is.
pub open spec fn upper(c: char) -> char {
    if 97 <= c as u32 <= 122 {
        ((c as u32 - 32) as u8) as char
    } else {
        c
    }
}

/// A letter of the ASCII alphabet in upper case; any other character as it
/// is.
pub fn to_ascii_uppercase(c: char) -> (r: char)
    ensures
        r == upper(c),
{
    let n: u32 = c as u32;
    if 97 <= n && n <= 122 {
        ((n - 32) as u8) as char
    } else {
        c
    }
}

/// The history moved up by `step` rows, as far as there are rows above.
pub open spec fn scrolled_up(s: ScreenModel, step: nat) -> ScreenModel {
    ScreenModel {
        chat_scroll: if s.chat_scroll >= step {
            (s.chat_scroll - step) as nat
        } else {
            0
        },
        ..s
    }
}

/// The history moved down by `step` rows, as far as there are rows below.
pub open spec fn scrolled_down(s: ScreenModel, step: nat) -> ScreenModel {
    ScreenModel {
        chat_scroll: if capped(s.chat_scroll + step) <= max_scroll_of(s) {
            capped(s.chat_scroll + step)
        } else {
            max_scroll_of(s)
        },
        ..s
    }
}

/// The screen once copy mode is left.
pub open spec fn copy_mode_left(s: ScreenModel) -> ScreenModel {
    ScreenModel { copy_mode: false, copy_select_buf: Seq::empty(), ..s }
}

/// What is said when a number names no code block.
pub open spec fn no_selection(n: nat) -> Seq<char> {
    "No selection for '"@ + decimal(n) + "'!"@
}

/// What is said when a code block was copied.
pub open spec fn copied(content: Seq<char>) -> Seq<char> {
    "Copied '"@ + preview(content, 30) + "'"@
}

/// What a key makes of the screen in copy mode, where the thread has the
/// given code blocks. Escape leaves copy mode. A digit is added to the
/// digits typed so far: if they are the number of a code block, counted
/// from 1, the block is selected; if not, copy mode is left and, where the
/// number fits, the user is told that it selects nothing. Enter copies the
/// selected block, if one is selected, and leaves copy mode.
pub open spec fn copy_mode_key(s: ScreenModel, blocks: Seq<Seq<char>>, code: KeyCode) -> ScreenModel {
    match code {
        KeyCode::Esc => copy_mode_left(s),
        KeyCode::Enter => match s.selected_block_index {
            Some(n) => if 1 <= n <= blocks.len() {
                copy_mode_left(ScreenModel { bottom_text: Some(copied(blocks[n - 1])), ..s })
            } else {
                copy_mode_left(ScreenModel { bottom_text: Some(no_selection(n)), ..s })
            },
            None => s,
        },
        KeyCode::Char(c) => if is_digit(c) {
            let digits = s.copy_select_buf.push(c);
            match parsed_number(digits) {
                Some(n) => if 1 <= n <= blocks.len() {
                    ScreenModel {
                        copy_select_buf: digits,
                        selected_block_index: Some(n as nat),
                        bottom_text: None,
                        ..s
                    }
                } else {
                    copy_mode_left(ScreenModel { bottom_text: Some(no_selection(n as nat)), ..s })
                },
                None => copy_mode_left(s),
            }
        } else {
            s
        },
        _ => s,
    }
}

/// The code block that Enter copies in copy mode, if it copies one.
pub open spec fn copy_target(s: ScreenModel, blocks: Seq<Seq<char>>, code: KeyCode) -> Option<Seq<char>> {
    match (code, s.selected_block_index) {
        (KeyCode::Enter, Some(n)) => if 1 <= n <= blocks.len() {
            Some(blocks[n - 1])
        } else {
            None
        },
        _ => None,
    }
}

/// Whether an event sends the message that the user has typed.
pub open spec fn sends(s: ScreenModel, event: InputEvent) -> bool {
    event == InputEvent::Key(KeyCode::Enter, Modifiers::Alt) && !s.copy_mode && s.user_message.len()
        > 0
}

/// What an event makes of the screen while no reply is coming in, where the
/// thread has the given code blocks. An event that sends the message
/// leaves the screen to `sent_screen`.
pub open spec fn idle_event(s: ScreenModel, blocks: Seq<Seq<char>>, event: InputEvent) -> ScreenModel {
    match event {
        InputEvent::Key(code, modifiers) => if code == KeyCode::Char('c') && modifiers
            == Modifiers::Control {
            ScreenModel { should_quit: true, ..s }
        } else if code == KeyCode::Up {
            scrolled_up(s, SCROLL_STEP as nat)
        } else if code == KeyCode::Down {
            scrolled_down(s, SCROLL_STEP as nat)
        } else if s.copy_mode {
            copy_mode_key(s, blocks, code)
        } else if code == KeyCode::Char('w') && modifiers == Modifiers::Control {
            ScreenModel { copy_mode: true, ..s }
        } else if code == KeyCode::Char('e') && modifiers == Modifiers::Control {
            ScreenModel { should_show_editor: true, ..s }
        } else if code == KeyCode::Enter && modifiers == Modifiers::Alt {
            s
        } else {
            match code {
                KeyCode::Enter => ScreenModel { user_message: s.user_message.push('\n'), ..s },
                KeyCode::Char(c) => ScreenModel {
                    user_message: s.user_message.push(
                        if modifiers == Modifiers::Shift {
                            upper(c)
                        } else {
                            c
                        },
                    ),
                    ..s
                },
                KeyCode::Backspace => ScreenModel {
                    user_message: if s.user_message.len() > 0 {
                        s.user_message.drop_last()
                    } else {
                        s.user_message
                    },
                    ..s
                },
                _ => s,
            }
        },
        InputEvent::ScrollUp => scrolled_up(s, WHEEL_STEP as nat),
        InputEvent::ScrollDown => scrolled_down(s, WHEEL_STEP as nat),
        InputEvent::Other => s,
    }
}

/// What the screen keeps between two events.
#[derive(Debug, Clone)]
pub struct Controls {
    should_quit: bool,
    should_show_editor: bool,
    copy_mode: bool,
    user_message: String,
    chat_scroll: usize,
    bottom_text: Option<String>,
    copy_select_buf: String,
    selected_block_index: Option<usize>,
    text_len: usize,
    chat_window_height: u16,
}

impl View for Controls {
    type V = ScreenModel;

    closed spec fn view(&self) -> ScreenModel {
        ScreenModel {
            should_quit: self.should_quit,
            should_show_editor: self.should_show_editor,
            copy_mode: self.copy_mode,
            user_message: self.user_message@,
            chat_scroll: self.chat_scroll as nat,
            bottom_text: match self.bottom_text {
                Some(t) => Some(t@),
                None => None,
            },
            copy_select_buf: self.copy_select_buf@,
            selected_block_index: match self.selected_block_index {
                Some(n) => Some(n as nat),
                None => None,
            },
            text_len: self.text_len as nat,
            chat_window_height: self.chat_window_height as nat,
        }
    }
}

impl Controls {
    /// The screen at the start: nothing typed, nothing selected, the
    /// history at its top.
    pub fn new() -> (c: Controls)
        ensures
            c@ == (ScreenModel {
                should_quit: false,
                should_show_editor: false,
                copy_mode: false,
                user_message: Seq::empty(),
                chat_scroll: 0,
                bottom_text: None,
                copy_select_buf: Seq::empty(),
                selected_block_index: None,
                text_len: 0,
                chat_window_height: 0,
            }),
    {
        Controls {
            should_quit: false,
            should_show_editor: false,
            copy_mode: false,
            user_message: String::new(),
            chat_scroll: 0,
            bottom_text: None,
            copy_select_buf: String::new(),
            selected_block_index: None,
            text_len: 0,
            chat_window_height: 0,
        }
    }

    /// Whether the end of the program was asked for.
    pub fn should_quit(&self) -> (r: bool)
        ensures
            r == self@.should_quit,
    {
        self.should_quit
    }

    /// Whether the editor was asked for.
    pub fn should_show_editor(&self) -> (r: bool)
        ensures
            r == self@.should_show_editor,
    {
        self.should_show_editor
    }

    /// Whether a code block is being chosen.
    pub fn copy_mode(&self) -> (r: bool)
        ensures
            r == self@.copy_mode,
    {
        self.copy_mode
    }

    /// The row from which the history is shown.
    pub fn chat_scroll(&self) -> (r: usize)
        ensures
            r == self@.chat_scroll,
    {
        self.chat_scroll
    }

    /// What the user has typed.
    pub fn user_message(&self) -> (r: &str)
        ensures
            r@ == self@.user_message,
    {
        self.user_message.as_str()
    }

    /// What the user was told last, if anything.
    pub fn bottom_text(&self) -> (r: Option<&str>)
        ensures
            r is Some == self@.bottom_text is Some,
            r matches Some(t) ==> t@ == self@.bottom_text->0,
    {
        match &self.bottom_text {
            Some(t) => Some(t.as_str()),
            None => None,
        }
    }

    /// The number of the code block that is selected, if one is.
    pub fn selected_block_index(&self) -> (r: Option<usize>)
        ensures
            r is Some == self@.selected_block_index is Some,
            r matches Some(n) ==> n == self@.selected_block_index->0,
    {
        self.selected_block_index
    }

    /// The row below which nothing of the history is left to show.
    pub fn max_scroll(&self) -> (r: usize)
        ensures
            r == max_scroll_of(self@),
    {
        let height: usize = self.chat_window_height as usize;
        if height >= self.text_len {
            0
        } else {
            let rest: usize = self.text_len - height;
            if rest > usize::MAX - 2 {
                usize::MAX
            } else {
                rest + 2
            }
        }
    }

    /// Moves the history up by `step` rows.
    pub fn scroll_up(&mut self, step: usize)
        ensures
            final(self)@ == scrolled_up(old(self)@, step as nat),
    {
        self.chat_scroll = if self.chat_scroll >= step {
            self.chat_scroll - step
        } else {
            0
        };
    }

    /// Moves the history down by `step` rows.
    pub fn scroll_down(&mut self, step: usize)
        ensures
            final(self)@ == scrolled_down(old(self)@, step as nat),
    {
        let target: usize = if step > usize::MAX - self.chat_scroll {
            usize::MAX
        } else {
            self.chat_scroll + step
        };
        let limit = self.max_scroll();
        self.chat_scroll = if target <= limit {
            target
        } else {
            limit
        };
    }

    /// Moves the history to its end.
    pub fn scroll_to_end(&mut self)
        ensures
            final(self)@ == (ScreenModel { chat_scroll: max_scroll_of(old(self)@), ..old(self)@ }),
    {
        self.chat_scroll = self.max_scroll();
    }

    /// Leaves copy mode and drops the digits typed so far.
    pub fn exit_copy_mode(&mut self)
        ensures
            final(self)@ == copy_mode_left(old(self)@),
    {
        self.copy_select_buf = String::new();
        self.copy_mode = false;
    }

    /// Shows a text at the bottom of the screen.
    pub fn set_alert(&mut self, text: &str)
        ensures
            final(self)@ == (ScreenModel { bottom_text: Some(text@), ..old(self)@ }),
    {
        self.bottom_text = Some(text.to_owned());
    }

    /// Takes the text that the user has typed; nothing is left typed.
    pub fn take_message(&mut self) -> (r: String)
        ensures
            r@ == old(self)@.user_message,
            final(self)@ == (ScreenModel { user_message: Seq::empty(), ..old(self)@ }),
    {
        let mut taken = String::new();
        std::mem::swap(&mut taken, &mut self.user_message);
        taken
    }

    /// Puts the text that came from the editor in place of what the user
    /// has typed, unless it is empty once the white space around it is
    /// taken away. The editor is not asked for again.
    pub fn editor_done(&mut self, text: Option<&str>)
        ensures
            final(self)@ == (ScreenModel {
                should_show_editor: false,
                user_message: match text {
                    Some(t) => if crate::text::trimmed(t@).len() > 0 {
                        crate::text::trimmed(t@)
                    } else {
                        old(self)@.user_message
                    },
                    None => old(self)@.user_message,
                },
                ..old(self)@
            }),
    {
        self.should_show_editor = false;
        match text {
            Some(t) => {
                let kept = crate::text::trim(&chars_of(t));
                if kept.len() > 0 {
                    self.user_message = string_of(&kept);
                }
            },
            None => {},
        }
    }

    /// Records how many lines the history has and how many rows of it fit
    /// the window.
    pub fn measured(&mut self, text_len: usize, chat_window_height: u16)
        ensures
            final(self)@ == (ScreenModel {
                text_len: text_len as nat,
                chat_window_height: chat_window_height as nat,
                ..old(self)@
            }),
    {
        self.text_len = text_len;
        self.chat_window_height = chat_window_height;
    }

    /// What a key does in copy mode, as `copy_mode_key` says, where
    /// `blocks` holds the text of each code block of the thread. The result
    /// is the text to copy, if the key copies a block.
    pub fn update_copy_mode(&mut self, code: KeyCode, blocks: &Vec<String>) -> (r: Option<String>)
        ensures
            final(self)@ == copy_mode_key(old(self)@, texts(blocks@), code),
            r is Some == copy_target(old(self)@, texts(blocks@), code) is Some,
            r matches Some(t) ==> t@ == copy_target(old(self)@, texts(blocks@), code)->0,
    {
        match code {
            KeyCode::Esc => {
                self.exit_copy_mode();
                None
            },
            KeyCode::Enter => match self.selected_block_index {
                Some(index) => {
                    if 1 <= index && index <= blocks.len() {
                        let content = blocks[index - 1].clone();
                        let mut text = "Copied '".to_owned();
                        text.append(string_preview(content.as_str(), 30).as_str());
                        text.append("'");
                        self.bottom_text = Some(text);
                        self.exit_copy_mode();
                        Some(content)
                    } else {
                        let mut text = "No selection for '".to_owned();
                        text.append(string_of(&decimal_of(index)).as_str());
                        text.append("'!");
                        self.bottom_text = Some(text);
                        self.exit_copy_mode();
                        None
                    }
                },
                None => None,
            },
            KeyCode::Char(c) => {
                if is_ascii_digit(c) {
                    let mut digits = chars_of(self.copy_select_buf.as_str());
                    digits.push(c);
                    match parse_decimal(&digits) {
                        Some(n) => {
                            if 1 <= n && n <= blocks.len() {
                                self.copy_select_buf.push(c);
                                self.selected_block_index = Some(n);
                                self.bottom_text = None;
                            } else {
                                let mut text = "No selection for '".to_owned();
                                text.append(string_of(&decimal_of(n)).as_str());
                                text.append("'!");
                                self.bottom_text = Some(text);
                                self.exit_copy_mode();
                            }
                        },
                        None => {
                            self.exit_copy_mode();
                        },
                    }
                }
                None
            },
            _ => None,
        }
    }
}

/// The text of each code block of a thread that is on the screen, in the
/// order of the numbers that they are shown under: the first of them is
/// shown under 1.
pub open spec fn block_contents(t: ThreadModel) -> Seq<Seq<char>> {
    Seq::new(
        shown_list(on_screen(t)).len(),
        |i: int| shown_list(on_screen(t))[i].content,
    )
}

/// What the screen shows and the threads behind it.
pub struct AppModel {
    pub screen: ScreenModel,
    pub session: SessionModel,
    pub thread_id: u128,
    /// Whether a reply is coming in.
    pub receiving: bool,
    /// Whether a title was asked for and has not arrived.
    pub awaiting_title: bool,
    /// Whether a summary was asked for and has not arrived.
    pub awaiting_summary: bool,
    pub content_line_width: nat,
}

/// The screen, the session and the thread that is shown.
pub struct App {
    controls: Controls,
    session: Session,
    thread_id: u128,
    receiving: bool,
    awaiting_title: bool,
    awaiting_summary: bool,
    content_line_width: u16,
}

impl View for App {
    type V = AppModel;

    closed spec fn view(&self) -> AppModel {
        AppModel {
            screen: self.controls@,
            session: self.session@,
            thread_id: self.thread_id,
            receiving: self.receiving,
            awaiting_title: self.awaiting_title,
            awaiting_summary: self.awaiting_summary,
            content_line_width: self.content_line_width as nat,
        }
    }
}

/// The thread that is shown.
pub open spec fn shown_thread(a: AppModel) -> ThreadModel {
    a.session.threads[a.thread_id]
}

/// Whether a thread uses more than seven tenths of its model's context.
pub open spec fn over_budget(t: ThreadModel) -> bool {
    capped(token_sum(t.messages)) * 10 > t.model.spec_max_context() * 7
}

/// The requests that go out when a message is sent.
#[derive(Debug, Clone)]
pub struct Requests {
    /// The request for the reply.
    pub reply: WireBody,
    /// The request for a title, if one is asked for.
    pub title: Option<WireBody>,
    /// Whether a summary is asked for.
    pub summary: bool,
}

/// Whether the requests are those that go out for a thread to which the
/// user's message was just added: the request for the reply holds the
/// thread as it is sent; a summary is asked for if the thread is over its
/// budget; else a title is asked for, with the transcript of the thread, if
/// the thread has none and at least two messages that are not of the
/// system.
pub open spec fn asks(r: Requests, t: ThreadModel) -> bool {
    &&& r.reply.model@ == t.model.spec_label()
    &&& carries(r.reply.messages@, wire_messages(t, wire_origins(t, 0)))
    &&& r.reply.stream
    &&& r.summary == over_budget(t)
    &&& r.title is Some == (!over_budget(t) && t.title is None && spoken(t.messages).len() >= 2)
    &&& r.title matches Some(b) ==> {
        &&& b.model@ == crate::thread::TITLE_MODEL@
        &&& !b.stream
        &&& b.messages@.len() == 2
        &&& b.messages@[0].role@ == Role::System.spec_wire_name()
        &&& b.messages@[0].content@ == crate::thread::TITLE_PROMPT@
        &&& b.messages@[1].role@ == Role::User.spec_wire_name()
        &&& b.messages@[1].content@ == crate::thread::transcript(t.messages)
    }
}

/// What the caller has to do after an event.
#[derive(Debug, Clone)]
pub enum Outcome {
    Nothing,
    /// Put the text on the clipboard.
    Copy(String),
    /// Send the requests.
    Send(Requests),
}

/// What arrives on the channel of a reply.
#[derive(Debug, Clone, PartialEq, Eq)]
pub enum ReplyItem {
    /// The next piece of the reply.
    Token(String),
    /// The end of the reply.
    End,
    /// The channel was closed before the end of the reply arrived.
    Closed,
}

/// What is said when the channel of a reply is closed before its end.
pub const REPLY_LOST: &'static str = "Channel error: the reply was cut off";

/// What is said when a title or a summary that was asked for cannot
/// arrive any more.
pub const ANSWER_LOST: &'static str = "Channel error: the answer was lost";

/// What is said when the thread to show is not in the session.
pub const NO_THREAD: &'static str = "Could not load active thread";

/// The text that the event of an idle screen copies, if it copies one.
pub open spec fn copies(s: ScreenModel, blocks: Seq<Seq<char>>, event: InputEvent) -> Option<Seq<char>> {
    match event {
        InputEvent::Key(code, modifiers) => if (code == KeyCode::Char('c') && modifiers
            == Modifiers::Control) || code == KeyCode::Up || code == KeyCode::Down || !s.copy_mode {
            None
        } else {
            copy_target(s, blocks, code)
        },
        _ => None,
    }
}

/// The thread with the user's message at its end.
pub open spec fn is_sent(before: ThreadModel, after: ThreadModel, text: Seq<char>) -> bool {
    &&& after.messages.len() == before.messages.len() + 1
    &&& after == (ThreadModel { messages: before.messages.push(after.messages.last()), ..before })
    &&& after.messages.last().role == Role::User
    &&& after.messages.last().content == text
    &&& after.messages.last().token_count is None
    &&& valid(after)
}

impl App {
    /// Whether the session is in order and holds the thread that is shown.
    pub open spec fn wf(&self) -> bool {
        &&& self@.session.threads.contains_key(self@.thread_id)
        &&& forall|id: u128| #[trigger]
            self@.session.threads.contains_key(id) ==> valid(self@.session.threads[id])
                && self@.session.threads[id].id == id
    }

    /// A screen for the given thread of the session. It is refused if the
    /// session does not hold the thread.
    pub fn new(session: Session, thread_id: u128) -> (r: Result<App, Error>)
        requires
            session.wf(),
        ensures
            r is Ok == session@.threads.contains_key(thread_id),
            r matches Ok(app) ==> app.wf() && app@.session == session@ && app@.thread_id == thread_id
                && !app@.receiving && !app@.awaiting_title && !app@.awaiting_summary
                && app@.screen == Controls::new_screen(),
            r matches Err(e) ==> (e matches Error::Other(t) && t@ == NO_THREAD@),
    {
        if session.thread_by_id(thread_id).is_none() {
            return Err(Error::Other(NO_THREAD.to_owned()));
        }
        Ok(
            App {
                controls: Controls::new(),
                session,
                thread_id,
                receiving: false,
                awaiting_title: false,
                awaiting_summary: false,
                content_line_width: 0,
            },
        )
    }

    /// The state of the screen.
    pub fn controls(&self) -> (r: &Controls)
        ensures
            r@ == self@.screen,
    {
        &self.controls
    }

    /// The session.
    pub fn session(&self) -> (r: &Session)
        ensures
            r@ == self@.session,
    {
        &self.session
    }

    /// The thread that is shown.
    pub fn thread(&self) -> (r: &Thread)
        requires
            self.wf(),
        ensures
            r@ == shown_thread(self@),
            *r == self.shown(),
    {
        match self.session.thread_by_id(self.thread_id) {
            Some(t) => t,
            None => {
                proof {
                    assert(false);
                }
                vstd::pervasive::unreached()
            },
        }
    }

    /// Moves the history to its end.
    pub fn scroll_to_end(&mut self)
        ensures
            final(self)@ == (AppModel {
                screen: ScreenModel {
                    chat_scroll: max_scroll_of(old(self)@.screen),
                    ..old(self)@.screen
                },
                ..old(self)@
            }),
    {
        self.controls.scroll_to_end();
    }

    /// Shows a text at the bottom of the screen.
    pub fn alert(&mut self, text: &str)
        ensures
            final(self)@ == (AppModel {
                screen: ScreenModel { bottom_text: Some(text@), ..old(self)@.screen },
                ..old(self)@
            }),
    {
        self.controls.set_alert(text);
    }

    /// Takes in what came from the editor, as `Controls::editor_done` says.
    pub fn editor_done(&mut self, text: Option<&str>)
        ensures
            final(self)@ == (AppModel {
                screen: ScreenModel {
                    should_show_editor: false,
                    user_message: match text {
                        Some(t) => if crate::text::trimmed(t@).len() > 0 {
                            crate::text::trimmed(t@)
                        } else {
                            old(self)@.screen.user_message
                        },
                        None => old(self)@.screen.user_message,
                    },
                    ..old(self)@.screen
                },
                ..old(self)@
            }),
    {
        self.controls.editor_done(text);
    }

    /// The thread that is shown, with what its code blocks keep of their
    /// colours.
    pub closed spec fn shown(&self) -> Thread {
        self.session.held(self.thread_id)
    }

    /// Whether every code block of the thread that is shown was coloured.
    pub open spec fn coloured(&self) -> bool {
        self.shown().coloured()
    }

    /// Colours the code blocks of the thread that is shown, as far as they
    /// were not coloured yet, as `Thread::highlight` does: after that every
    /// code block of the thread is coloured. What the screen and the
    /// threads hold stays as it is.
    pub fn highlight(&mut self, highlighter: &crate::highlight::Highlighter)
        requires
            old(self).wf(),
        ensures
            final(self).wf(),
            final(self)@ == old(self)@,
            final(self).shown().coloured_from(old(self).shown(), highlighter.spec_background()),
            final(self).coloured(),
    {
        let mut thread = self.take_shown();
        thread.highlight(highlighter);
        self.session.put_thread(thread);
        proof {
            assert(self@.session.threads =~= old(self)@.session.threads);
        }
    }

    /// Saves every thread of the session to its store.
    pub fn save(&mut self) -> (r: Result<(), Error>)
        ensures
            r is Ok,
            final(self)@.session.threads == old(self)@.session.threads,
            final(self)@.screen == old(self)@.screen,
            final(self)@.thread_id == old(self)@.thread_id,
            final(self)@.receiving == old(self)@.receiving,
            exists|order: Seq<u128>|
                crate::session::ascending(order) && order.to_set() == old(self)@.session.threads.dom()
                    && final(self)@.session.store == crate::session::saved_all(
                    old(self)@.session.store,
                    old(self)@.session.threads,
                    order,
                ),
    {
        self.session.save_to_db()
    }

    /// Whether a reply is coming in.
    pub fn is_recieving(&self) -> (r: bool)
        ensures
            r == self@.receiving,
    {
        self.receiving
    }

    /// Whether the end of the program was asked for.
    pub fn should_quit(&self) -> (r: bool)
        ensures
            r == self@.screen.should_quit,
    {
        self.controls.should_quit()
    }

    /// Whether the editor was asked for.
    pub fn should_show_editor(&self) -> (r: bool)
        ensures
            r == self@.screen.should_show_editor,
    {
        self.controls.should_show_editor()
    }

    /// Takes the thread that is shown out of the session, to put it back
    /// once it was changed.
    fn take_shown(&mut self) -> (t: Thread)
        requires
            old(self).wf(),
        ensures
            t@ == shown_thread(old(self)@),
            t == old(self).shown(),
            t.wf(),
            final(self)@ == (AppModel {
                session: SessionModel {
                    threads: old(self)@.session.threads.remove(old(self)@.thread_id),
                    ..old(self)@.session
                },
                ..old(self)@
            }),
    {
        match self.session.take_thread(self.thread_id) {
            Some(t) => t,
            None => {
                proof {
                    assert(false);
                }
                vstd::pervasive::unreached()
            },
        }
    }

    /// The text of each code block that is on the screen, in the order of
    /// the numbers that they are shown under.
    fn block_texts(&self) -> (r: Vec<String>)
        requires
            self.wf(),
        ensures
            texts(r@) == block_contents(shown_thread(self@)),
    {
        let blocks = self.thread().shown_code_blocks();
        let mut out: Vec<String> = Vec::new();
        let mut i: usize = 0;
        while i < blocks.len()
            invariant
                i <= blocks.len(),
                out@.len() == i,
                forall|j: int| 0 <= j < i ==> (#[trigger] out@[j])@ == blocks@[j]@.content,
            decreases blocks.len() - i,
        {
            out.push(blocks[i].content().to_owned());
            i += 1;
        }
        proof {
            let t = shown_thread(self@);
            assert(crate::thread::block_ref_views(blocks@) == shown_list(on_screen(t)));
            assert forall|j: int| 0 <= j < out@.len() implies texts(out@)[j] == block_contents(
                t,
            )[j] by {
                assert(crate::thread::block_ref_views(blocks@)[j] == blocks@[j]@);
            }
            assert(texts(out@) =~= block_contents(t));
        }
        out
    }

    /// Sends the message that the user has typed: it becomes the last
    /// message of the thread, nothing is left typed, and a reply is coming
    /// in from now on. The result holds the request for the reply. A
    /// summary is asked for if the thread is over its budget; else a title
    /// is asked for if the thread has none and at least two messages that
    /// are not of the system.
    pub fn send_message(&mut self) -> (r: Requests)
        requires
            old(self).wf(),
        ensures
            final(self).wf(),
            final(self)@.thread_id == old(self)@.thread_id,
            final(self)@.screen == (ScreenModel { user_message: Seq::empty(), ..old(self)@.screen }),
            final(self)@.receiving,
            final(self)@.content_line_width == old(self)@.content_line_width,
            final(self)@.session.store == old(self)@.session.store,
            final(self)@.session.threads == old(self)@.session.threads.insert(
                old(self)@.thread_id,
                shown_thread(final(self)@),
            ),
            is_sent(shown_thread(old(self)@), shown_thread(final(self)@), old(self)@.screen.user_message),
            asks(r, shown_thread(final(self)@)),
            final(self)@.awaiting_summary == (old(self)@.awaiting_summary || r.summary),
            final(self)@.awaiting_title == (old(self)@.awaiting_title || r.title is Some),
    {
        let text = self.controls.take_message();
        let mut thread = self.take_shown();
        thread.add_message(Message::new_user(text.as_str()));
        let (used, room) = thread.token_use();
        let over = (used as u128) * 10 > (room as u128) * 7;
        let mut title: Option<WireBody> = None;
        if over {
            self.awaiting_summary = true;
        } else if thread.thread_title().is_none() {
            let said = thread.non_sys_messages();
            assert(crate::thread::message_ref_views(said@).len() == said@.len());
            if said.len() >= 2 {
                title = Some(thread.title_request());
                self.awaiting_title = true;
            }
        }
        let reply = match crate::client::stream_thread_reply(&thread) {
            Ok(body) => body,
            Err(_) => {
                proof {
                    assert(thread@.messages.last().role == Role::User);
                    assert(false);
                }
                vstd::pervasive::unreached()
            },
        };
        self.session.put_thread(thread);
        self.receiving = true;
        proof {
            assert(final(self)@.session.threads =~= old(self)@.session.threads.insert(
                old(self)@.thread_id,
                shown_thread(final(self)@),
            )) by {
                assert(old(self)@.session.threads.remove(old(self)@.thread_id).insert(
                    old(self)@.thread_id,
                    shown_thread(self@),
                ) =~= old(self)@.session.threads.insert(old(self)@.thread_id, shown_thread(self@)));
            }
        }
        Requests { reply, title, summary: over }
    }
}

impl Controls {
    /// The screen at the start.
    pub open spec fn new_screen() -> ScreenModel {
        ScreenModel {
            should_quit: false,
            should_show_editor: false,
            copy_mode: false,
            user_message: Seq::empty(),
            chat_scroll: 0,
            bottom_text: None,
            copy_select_buf: Seq::empty(),
            selected_block_index: None,
            text_len: 0,
            chat_window_height: 0,
        }
    }
}

/// The lines of the blocks, one after the other.
pub open spec fn flat(blocks: Seq<Seq<RowModel>>) -> Seq<RowModel>
    decreases blocks.len(),
{
    if blocks.len() == 0 {
        Seq::empty()
    } else {
        flat(blocks.drop_last()) + blocks.last()
    }
}

/// The spans of the lines of the blocks, one block after the other.
pub open spec fn flat_spans(blocks: Seq<Seq<Seq<SpanModel>>>) -> Seq<Seq<SpanModel>>
    decreases blocks.len(),
{
    if blocks.len() == 0 {
        Seq::empty()
    } else {
        flat_spans(blocks.drop_last()) + blocks.last()
    }
}

/// The spans of the rows `from..from + height`, as far as there are rows.
pub open spec fn window_spans(all: Seq<Seq<SpanModel>>, from: nat, height: nat) -> Seq<
    Seq<SpanModel>,
> {
    if from >= all.len() {
        Seq::empty()
    } else if from + height >= all.len() {
        all.skip(from as int)
    } else {
        all.subrange(from as int, (from + height) as int)
    }
}

/// The rows `from..from + height` of the lines, as far as there are lines.
pub open spec fn window(all: Seq<RowModel>, from: nat, height: nat) -> Seq<RowModel> {
    if from >= all.len() {
        Seq::empty()
    } else if from + height >= all.len() {
        all.skip(from as int)
    } else {
        all.subrange(from as int, (from + height) as int)
    }
}

/// How wide the text of the history is in a window of the given width:
/// the width without the border and the padding at both sides.
pub open spec fn text_width(width: nat) -> nat {
    if width >= 12 {
        (width - 12) as nat
    } else {
        0
    }
}

/// The nearest whole number to `a / b`; of two that are equally near, the
/// even one.
pub open spec fn rounded(a: nat, b: nat) -> nat {
    let q = a / b;
    let r = a % b;
    if 2 * r > b || (2 * r == b && q % 2 == 1) {
        q + 1
    } else {
        q
    }
}

/// How far the history is scrolled, in hundredths of the way to its end.
pub open spec fn scroll_percent(scroll: nat, max: nat) -> nat {
    if max == 0 {
        100
    } else {
        rounded(100 * scroll, max)
    }
}

/// A share in hundredths as it is shown: with at least two digits and the
/// sign for hundredths.
pub open spec fn percent_label(p: nat) -> Seq<char> {
    (if p < 10 {
        "0"@
    } else {
        Seq::empty()
    }) + decimal(p) + "%"@
}

/// What stands at the bottom of the input window: what the user was told
/// or, without that, the number of the selected code block.
pub open spec fn alert_of(s: ScreenModel) -> Option<Seq<char>> {
    match s.bottom_text {
        Some(t) => Some(t),
        None => match s.selected_block_index {
            Some(n) => Some(decimal(n)),
            None => None,
        },
    }
}

/// What is drawn.
#[derive(Debug, Clone)]
pub struct Frame {
    /// The lines of the history that fit the window.
    pub lines: Vec<DisplayLine>,
    /// The title above the history.
    pub title: String,
    /// How far the history is scrolled.
    pub scroll_label: String,
    /// Whether the border of the history is drawn thick and in magenta.
    pub copy_mode: bool,
    /// Whether the reply is waited for: the status says so in bold red and
    /// the border of the input window is white. If not, the status is green
    /// and the border blue.
    pub receiving: bool,
    /// The status at the bottom of the input window.
    pub status: String,
    /// What the user is told at the bottom of the input window, in cyan.
    pub alert: Option<String>,
    /// What the user has typed.
    pub input: String,
}

/// The status while a reply is coming in.
pub const PLEASE_WAIT: &'static str = "[Please Wait]";

/// The status while no reply is coming in.
pub const READY: &'static str = "[Ready!]";

/// How far the history is scrolled, in hundredths of the way to its end.
fn percent_of(scroll: usize, max: usize) -> (p: usize)
    requires
        scroll <= max,
    ensures
        p == scroll_percent(scroll as nat, max as nat),
        p <= 100,
{
    if max == 0 {
        return 100;
    }
    let a: u128 = (scroll as u128) * 100;
    let b: u128 = max as u128;
    let q: u128 = a / b;
    let r: u128 = a % b;
    assert(q <= 100) by (nonlinear_arith)
        requires
            a <= 100 * b,
            b > 0,
            q == a / b,
    ;
    assert(q == 100 ==> r == 0) by (nonlinear_arith)
        requires
            a <= 100 * b,
            b > 0,
            q == a / b,
            r == a % b,
    ;
    if 2 * r > b || (2 * r == b && q % 2 == 1) {
        (q + 1) as usize
    } else {
        q as usize
    }
}

impl App {
    /// What an event does while no reply is coming in. An event that sends
    /// the message is handled as `send_message` says. Any other event
    /// changes the screen as `idle_event` says, and the result holds the
    /// text to copy where the event copies a code block.
    pub fn update_awaiting_send(&mut self, event: InputEvent) -> (r: Outcome)
        requires
            old(self).wf(),
        ensures
            final(self).wf(),
            sends(old(self)@.screen, event) ==> (r matches Outcome::Send(requests) && asks(
                requests,
                shown_thread(final(self)@),
            )) && is_sent(
                shown_thread(old(self)@),
                shown_thread(final(self)@),
                old(self)@.screen.user_message,
            ) && final(self)@.receiving && final(self)@.screen == (ScreenModel {
                user_message: Seq::empty(),
                ..old(self)@.screen
            }) && final(self)@.thread_id == old(self)@.thread_id && final(self)@.session.store
                == old(self)@.session.store
                && final(self)@.session.threads == old(self)@.session.threads.insert(
                old(self)@.thread_id,
                shown_thread(final(self)@),
            ),
            !sends(old(self)@.screen, event) ==> final(self)@ == (AppModel {
                screen: idle_event(
                    old(self)@.screen,
                    block_contents(shown_thread(old(self)@)),
                    event,
                ),
                ..old(self)@
            }) && !(r is Send) && (r is Copy == copies(
                old(self)@.screen,
                block_contents(shown_thread(old(self)@)),
                event,
            ) is Some) && (r matches Outcome::Copy(t) ==> t@ == copies(
                old(self)@.screen,
                block_contents(shown_thread(old(self)@)),
                event,
            )->0),
    {
        match event {
            InputEvent::Key(code, modifiers) => {
                if code == KeyCode::Char('c') && modifiers == Modifiers::Control {
                    self.controls.should_quit = true;
                    Outcome::Nothing
                } else if code == KeyCode::Up {
                    self.controls.scroll_up(SCROLL_STEP);
                    Outcome::Nothing
                } else if code == KeyCode::Down {
                    self.controls.scroll_down(SCROLL_STEP);
                    Outcome::Nothing
                } else if self.controls.copy_mode {
                    let blocks = self.block_texts();
                    match self.controls.update_copy_mode(code, &blocks) {
                        Some(text) => Outcome::Copy(text),
                        None => Outcome::Nothing,
                    }
                } else if code == KeyCode::Char('w') && modifiers == Modifiers::Control {
                    self.controls.copy_mode = true;
                    Outcome::Nothing
                } else if code == KeyCode::Char('e') && modifiers == Modifiers::Control {
                    self.controls.should_show_editor = true;
                    Outcome::Nothing
                } else if code == KeyCode::Enter && modifiers == Modifiers::Alt {
                    if self.controls.user_message.as_str().is_empty() {
                        Outcome::Nothing
                    } else {
                        Outcome::Send(self.send_message())
                    }
                } else {
                    match code {
                        KeyCode::Enter => {
                            self.controls.user_message.push('\n');
                        },
                        KeyCode::Char(c) => {
                            if modifiers == Modifiers::Shift {
                                self.controls.user_message.push(to_ascii_uppercase(c));
                            } else {
                                self.controls.user_message.push(c);
                            }
                        },
                        KeyCode::Backspace => {
                            let _ = self.controls.user_message.pop();
                        },
                        _ => {},
                    }
                    Outcome::Nothing
                }
            },
            InputEvent::ScrollUp => {
                self.controls.scroll_up(WHEEL_STEP);
                Outcome::Nothing
            },
            InputEvent::ScrollDown => {
                self.controls.scroll_down(WHEEL_STEP);
                Outcome::Nothing
            },
            InputEvent::Other => Outcome::Nothing,
        }
    }

    /// Takes in what arrived on the channel of the reply. The history is
    /// moved to its end. A token goes to the reply that is coming in. The
    /// end of the reply makes it the last message of the thread. If the
    /// channel was closed before the end, the user is told so and what had
    /// come in is dropped. In the last two cases no reply is coming in any
    /// more.
    pub fn update_recieving(&mut self, item: ReplyItem)
        requires
            old(self).wf(),
        ensures
            final(self).wf(),
            final(self)@.thread_id == old(self)@.thread_id,
            final(self)@.session.store == old(self)@.session.store,
            final(self)@.session.threads == old(self)@.session.threads.insert(
                old(self)@.thread_id,
                shown_thread(final(self)@),
            ),
            final(self)@.receiving == (old(self)@.receiving && item is Token),
            final(self)@.screen == (ScreenModel {
                chat_scroll: max_scroll_of(old(self)@.screen),
                bottom_text: if item is Closed {
                    Some(REPLY_LOST@)
                } else {
                    old(self)@.screen.bottom_text
                },
                ..old(self)@.screen
            }),
            item matches ReplyItem::Token(t) ==> shown_thread(final(self)@) == (ThreadModel {
                incoming: shown_thread(final(self)@).incoming,
                ..shown_thread(old(self)@)
            }) && shown_thread(final(self)@).incoming is Some && shown_thread(
                final(self)@,
            ).incoming->0.content == match shown_thread(old(self)@).incoming {
                Some(m) => m.content + t@,
                None => t@,
            },
            item is End ==> shown_thread(final(self)@) == match shown_thread(old(self)@).incoming {
                Some(m) => ThreadModel {
                    messages: shown_thread(old(self)@).messages.push(
                        crate::thread::dated_after(shown_thread(old(self)@).messages, m),
                    ),
                    incoming: None,
                    ..shown_thread(old(self)@)
                },
                None => shown_thread(old(self)@),
            },
            item is Closed ==> shown_thread(final(self)@) == (ThreadModel {
                incoming: None,
                ..shown_thread(old(self)@)
            }),
    {
        self.controls.scroll_to_end();
        let mut thread = self.take_shown();
        match item {
            ReplyItem::Token(s) => {
                thread.update(s.as_str());
            },
            ReplyItem::End => {
                let _ = thread.commit_message();
                self.receiving = false;
            },
            ReplyItem::Closed => {
                thread.clear_incoming_message();
                self.controls.set_alert(REPLY_LOST);
                self.receiving = false;
            },
        }
        let ghost after = thread@;
        self.session.put_thread(thread);
        proof {
            assert(self@.session.threads =~= old(self)@.session.threads.insert(
                old(self)@.thread_id,
                after,
            ));
        }
    }

    /// Takes in the title that was asked for: the thread has it from now
    /// on, and none is waited for any more.
    pub fn title_arrived(&mut self, title: &str)
        requires
            old(self).wf(),
        ensures
            final(self).wf(),
            final(self)@ == (AppModel {
                awaiting_title: false,
                session: SessionModel {
                    threads: old(self)@.session.threads.insert(
                        old(self)@.thread_id,
                        ThreadModel { title: Some(title@), ..shown_thread(old(self)@) },
                    ),
                    ..old(self)@.session
                },
                ..old(self)@
            }),
    {
        let mut thread = self.take_shown();
        thread.set_title(title);
        let ghost after = thread@;
        self.session.put_thread(thread);
        self.awaiting_title = false;
        proof {
            assert(self@.session.threads =~= old(self)@.session.threads.insert(
                old(self)@.thread_id,
                after,
            ));
        }
    }

    /// Notes that the channel of the title, or that of the summary, was
    /// closed before anything arrived: the user is told so, and nothing is
    /// waited for on that channel any more.
    pub fn answer_lost(&mut self, title: bool)
        ensures
            final(self)@ == (AppModel {
                awaiting_title: old(self)@.awaiting_title && !title,
                awaiting_summary: old(self)@.awaiting_summary && title,
                screen: ScreenModel { bottom_text: Some(ANSWER_LOST@), ..old(self)@.screen },
                ..old(self)@
            }),
    {
        if title {
            self.awaiting_title = false;
        } else {
            self.awaiting_summary = false;
        }
        self.controls.set_alert(ANSWER_LOST);
    }

    /// Takes in the summary that was asked for: it is added to the thread
    /// if it stands for messages that the thread holds, and none is waited
    /// for any more.
    pub fn summary_arrived(&mut self, summary: Summary)
        requires
            old(self).wf(),
        ensures
            final(self).wf(),
            final(self)@ == (AppModel {
                awaiting_summary: false,
                session: SessionModel {
                    threads: old(self)@.session.threads.insert(
                        old(self)@.thread_id,
                        if crate::thread::summary_fits(
                            summary@,
                            shown_thread(old(self)@).messages.len(),
                        ) {
                            ThreadModel {
                                summaries: shown_thread(old(self)@).summaries.push(summary@),
                                ..shown_thread(old(self)@)
                            }
                        } else {
                            shown_thread(old(self)@)
                        },
                    ),
                    ..old(self)@.session
                },
                ..old(self)@
            }),
    {
        let mut thread = self.take_shown();
        thread.add_summary(summary);
        let ghost after = thread@;
        self.session.put_thread(thread);
        self.awaiting_summary = false;
        proof {
            assert(self@.session.threads =~= old(self)@.session.threads.insert(
                old(self)@.thread_id,
                after,
            ));
        }
    }

    /// What one turn of the loop does with what the terminal reported. While
    /// a reply is coming in, the keyboard is not listened to. Else a
    /// reported event is handled as `update_awaiting_send` says.
    pub fn update(&mut self, input: Option<InputEvent>) -> (r: Outcome)
        requires
            old(self).wf(),
        ensures
            final(self).wf(),
            (old(self)@.receiving || input is None) ==> r is Nothing && final(self)@ == old(self)@,
            (!old(self)@.receiving && input is Some && !sends(old(self)@.screen, input->0))
                ==> final(self)@ == (AppModel {
                screen: idle_event(
                    old(self)@.screen,
                    block_contents(shown_thread(old(self)@)),
                    input->0,
                ),
                ..old(self)@
            }),
            (!old(self)@.receiving && input is Some && sends(old(self)@.screen, input->0)) ==> (
            r matches Outcome::Send(requests) && asks(requests, shown_thread(final(self)@)))
                && is_sent(
                shown_thread(old(self)@),
                shown_thread(final(self)@),
                old(self)@.screen.user_message,
            ) && final(self)@.receiving,
            (!old(self)@.receiving && input is Some && !sends(old(self)@.screen, input->0)) ==> (r
                is Copy == copies(
                old(self)@.screen,
                block_contents(shown_thread(old(self)@)),
                input->0,
            ) is Some) && !(r is Send),
    {
        if self.receiving {
            return Outcome::Nothing;
        }
        match input {
            Some(event) => self.update_awaiting_send(event),
            None => Outcome::Nothing,
        }
    }

    /// What is drawn in a window whose history is `width` cells wide and
    /// `height` rows high. The history is shown from the row that it is
    /// scrolled to; how many lines it has and how many fit are recorded for
    /// the scrolling.
    pub fn ui(&mut self, width: u16, height: u16) -> (r: Frame)
        requires
            old(self).wf(),
        ensures
            final(self).wf(),
            final(self)@ == (AppModel {
                content_line_width: text_width(width as nat),
                screen: ScreenModel {
                    text_len: flat(
                        thread_rows(
                            shown_thread(old(self)@).prompt,
                            on_screen(shown_thread(old(self)@)),
                            text_width(width as nat),
                        ),
                    ).len(),
                    chat_window_height: height as nat,
                    ..old(self)@.screen
                },
                ..old(self)@
            }),
            display_views(r.lines@) == window(
                flat(
                    thread_rows(
                        shown_thread(old(self)@).prompt,
                        on_screen(shown_thread(old(self)@)),
                        text_width(width as nat),
                    ),
                ),
                old(self)@.screen.chat_scroll,
                height as nat,
            ),
            row_spans(r.lines@) == window_spans(
                flat_spans(
                    thread_spans(old(self).shown().shown_items(), text_width(width as nat)),
                ),
                old(self)@.screen.chat_scroll,
                height as nat,
            ),
            r.copy_mode == old(self)@.screen.copy_mode,
            r.receiving == old(self)@.receiving,
            r.status@ == if old(self)@.receiving {
                PLEASE_WAIT@
            } else {
                READY@
            },
            r.input@ == old(self)@.screen.user_message,
            r.title@ == preview(
                preview(
                    title_text(shown_thread(old(self)@)),
                    if text_width(width as nat) >= 2 {
                        (text_width(width as nat) - 2) as nat
                    } else {
                        0
                    },
                ),
                text_width(width as nat),
            ),
            r.alert is Some == alert_of(old(self)@.screen) is Some,
            r.alert matches Some(t) ==> t@ == preview(
                alert_of(old(self)@.screen)->0,
                text_width(width as nat),
            ),
            old(self)@.screen.chat_scroll <= max_scroll_of(old(self)@.screen) ==> r.scroll_label@
                == percent_label(
                scroll_percent(old(self)@.screen.chat_scroll, max_scroll_of(old(self)@.screen)),
            ),
    {
        let inner: u16 = if width >= 12 {
            width - 12
        } else {
            0
        };
        self.content_line_width = inner;
        let thread = self.thread();
        let blocks = thread.tui_formatted_messages(inner);
        let ghost shown = thread_rows(
            shown_thread(self@).prompt,
            on_screen(shown_thread(self@)),
            inner as nat,
        );
        let ghost styled = thread_spans(self.shown().shown_items(), inner as nat);
        let mut all: Vec<DisplayLine> = Vec::new();
        let mut i: usize = 0;
        assert(shown.take(0) == Seq::<Seq<RowModel>>::empty());
        assert(styled.take(0) == Seq::<Seq<Seq<SpanModel>>>::empty());
        assert(display_views(all@) =~= Seq::<RowModel>::empty());
        assert(row_spans(all@) =~= Seq::<Seq<SpanModel>>::empty());
        while i < blocks.len()
            invariant
                i <= blocks.len(),
                crate::thread::screen_views(blocks@) == shown,
                crate::thread::screen_spans(blocks@) == styled,
                display_views(all@) == flat(shown.take(i as int)),
                row_spans(all@) == flat_spans(styled.take(i as int)),
            decreases blocks.len() - i,
        {
            let block = &blocks[i];
            let ghost before = display_views(all@);
            let ghost spans_before = row_spans(all@);
            let mut j: usize = 0;
            while j < block.len()
                invariant
                    j <= block.len(),
                    display_views(all@) == before + display_views(block@).take(j as int),
                    row_spans(all@) == spans_before + row_spans(block@).take(j as int),
                decreases block.len() - j,
            {
                let row = crate::message::clone_line(&block[j]);
                assert(display_views(all@.push(row)) =~= display_views(all@).push(row@));
                assert(display_views(block@).take(j + 1) =~= display_views(block@).take(j as int).push(
                    block@[j as int]@,
                ));
                assert(row_spans(all@.push(row)) =~= row_spans(all@).push(spans_of(row)));
                assert(row_spans(block@).take(j + 1) =~= row_spans(block@).take(j as int).push(
                    spans_of(block@[j as int]),
                ));
                all.push(row);
                j += 1;
            }
            proof {
                assert(display_views(block@).take(block.len() as int) =~= display_views(block@));
                assert(row_spans(block@).take(block.len() as int) =~= row_spans(block@));
                let after = shown.take(i + 1);
                assert(after.drop_last() == shown.take(i as int));
                assert(after.last() == display_views(blocks@[i as int]@));
                let more = styled.take(i + 1);
                assert(more.drop_last() == styled.take(i as int));
                assert(more.last() == row_spans(blocks@[i as int]@));
            }
            i += 1;
        }
        assert(shown.take(blocks.len() as int) == shown);
        assert(styled.take(blocks.len() as int) == styled);
        let title = string_preview(
            string_preview(
                thread.display_title_text().as_str(),
                if inner >= 2 {
                    (inner - 2) as usize
                } else {
                    0
                },
            ).as_str(),
            inner as usize,
        );
        let text_len = all.len();
        let from = self.controls.chat_scroll;
        let mut lines: Vec<DisplayLine> = Vec::new();
        let ghost rows = display_views(all@);
        let ghost spans = row_spans(all@);
        if from < text_len {
            let until: usize = if height as usize >= text_len - from {
                text_len
            } else {
                from + height as usize
            };
            let mut k: usize = from;
            assert(display_views(lines@) =~= rows.subrange(from as int, k as int));
            assert(row_spans(lines@) =~= spans.subrange(from as int, k as int));
            while k < until
                invariant
                    from <= k <= until <= all.len(),
                    rows == display_views(all@),
                    spans == row_spans(all@),
                    display_views(lines@) == rows.subrange(from as int, k as int),
                    row_spans(lines@) == spans.subrange(from as int, k as int),
                decreases until - k,
            {
                let row = crate::message::clone_line(&all[k]);
                assert(display_views(lines@.push(row)) =~= display_views(lines@).push(row@));
                assert(rows.subrange(from as int, k + 1) =~= rows.subrange(from as int, k as int).push(
                    rows[k as int],
                ));
                assert(row_spans(lines@.push(row)) =~= row_spans(lines@).push(spans_of(row)));
                assert(spans.subrange(from as int, k + 1) =~= spans.subrange(
                    from as int,
                    k as int,
                ).push(spans[k as int]));
                lines.push(row);
                k += 1;
            }
            assert(rows.subrange(from as int, rows.len() as int) =~= rows.skip(from as int));
            assert(spans.subrange(from as int, spans.len() as int) =~= spans.skip(from as int));
        } else {
            assert(display_views(lines@) =~= Seq::<RowModel>::empty());
            assert(row_spans(lines@) =~= Seq::<Seq<SpanModel>>::empty());
        }
        let limit = self.controls.max_scroll();
        let shown_scroll: usize = if from <= limit {
            from
        } else {
            limit
        };
        let percent = percent_of(shown_scroll, limit);
        let mut scroll_label = if percent < 10 {
            "0".to_owned()
        } else {
            String::new()
        };
        scroll_label.append(string_of(&decimal_of(percent)).as_str());
        scroll_label.append("%");
        let alert = match &self.controls.bottom_text {
            Some(t) => Some(string_preview(t.as_str(), inner as usize)),
            None => match self.controls.selected_block_index {
                Some(n) => Some(
                    string_preview(string_of(&decimal_of(n)).as_str(), inner as usize),
                ),
                None => None,
            },
        };
        let frame = Frame {
            lines,
            title,
            scroll_label,
            copy_mode: self.controls.copy_mode,
            receiving: self.receiving,
            status: if self.receiving {
                PLEASE_WAIT.to_owned()
            } else {
                READY.to_owned()
            },
            alert,
            input: self.controls.user_message.clone(),
        };
        self.controls.measured(text_len, height);
        frame
    }
}

/// The number that is shown below the `j`th code block of the `i`th
/// message, both counted from 0: one more than the number of blocks that
/// are shown of the messages before it and of the blocks before it.
pub open spec fn shown_number(msgs: Seq<MessageModel>, i: int, j: int) -> nat {
    capped(capped(1 + shown_before(msgs.take(i))) + j as nat)
}

/// The code blocks that are shown of a message stand in the list of the
/// blocks that are shown after those of the messages before it.
pub proof fn lemma_shown_of_message(msgs: Seq<MessageModel>, i: int, j: int)
    requires
        0 <= i < msgs.len(),
        msgs[i].role != Role::System,
        0 <= j < shown_blocks(lines_of(msgs[i].non_code_content), msgs[i].code_blocks),
    ensures
        shown_before(msgs.take(i)) + j < shown_list(msgs).len(),
        shown_list(msgs)[shown_before(msgs.take(i)) + j] == msgs[i].code_blocks[j],
    decreases msgs.len(),
{
    let front = msgs.drop_last();
    lemma_shown_list_len(front);
    if i == msgs.len() - 1 {
        assert(msgs.take(i) == front);
    } else {
        lemma_shown_of_message(front, i, j);
        assert(front.take(i) == msgs.take(i));
    }
}

/// The number that is shown below a code block is the number that selects
/// that block in copy mode: the number shown below the `j`th block that is
/// shown of the `i`th message on the screen names that block in the list
/// that copy mode selects from, and Enter copies its text. This holds of
/// every thread that shows fewer blocks than the largest number.
pub proof fn lemma_copy_index_is_stable(t: Thread, s: ScreenModel, i: int, j: int)
    requires
        0 <= i < on_screen(t@).len(),
        on_screen(t@)[i].role != Role::System,
        0 <= j < shown_blocks(
            lines_of(on_screen(t@)[i].non_code_content),
            on_screen(t@)[i].code_blocks,
        ),
        shown_before(on_screen(t@)) < usize::MAX,
        s.selected_block_index == Some(shown_number(on_screen(t@), i, j)),
    ensures
        1 <= shown_number(on_screen(t@), i, j) <= block_contents(t@).len(),
        shown_list(on_screen(t@))[shown_number(on_screen(t@), i, j) - 1] == on_screen(
            t@,
        )[i].code_blocks[j],
        copy_target(s, block_contents(t@), KeyCode::Enter) == Some(
            on_screen(t@)[i].code_blocks[j].content,
        ),
{
    let msgs = on_screen(t@);
    lemma_shown_list_len(msgs);
    lemma_shown_of_message(msgs, i, j);
}

/// The numbers that stand below code blocks in the rows, in order.
pub open spec fn numbers_of(rows: Seq<RowModel>) -> Seq<nat>
    decreases rows.len(),
{
    if rows.len() == 0 {
        Seq::empty()
    } else {
        match rows.last() {
            RowModel::Annotation(n) => numbers_of(rows.drop_last()).push(n),
            _ => numbers_of(rows.drop_last()),
        }
    }
}

/// The numbers in rows that follow other rows follow the numbers in those.
pub proof fn lemma_numbers_add(a: Seq<RowModel>, b: Seq<RowModel>)
    ensures
        numbers_of(a + b) == numbers_of(a) + numbers_of(b),
    decreases b.len(),
{
    if b.len() == 0 {
        assert(a + b == a);
        assert(numbers_of(a) + numbers_of(b) =~= numbers_of(a));
    } else {
        lemma_numbers_add(a, b.drop_last());
        assert((a + b).drop_last() == a + b.drop_last());
        assert((a + b).last() == b.last());
        assert(numbers_of(a + b) =~= numbers_of(a) + numbers_of(b));
    }
}

/// The rows of the lines of a code block hold no number.
pub proof fn lemma_numbers_of_code(text: Seq<Seq<Seq<char>>>, width: nat)
    ensures
        numbers_of(code_rows(text, width)) == Seq::<nat>::empty(),
    decreases text.len(),
{
    if text.len() > 0 {
        lemma_numbers_of_code(text.drop_last(), width);
        lemma_numbers_of_line(line_rows(text.last(), width));
        lemma_numbers_add(code_rows(text.drop_last(), width), line_rows(text.last(), width));
    }
}

/// Rows of code hold no number.
pub proof fn lemma_numbers_of_line(rows: Seq<RowModel>)
    requires
        forall|i: int| 0 <= i < rows.len() ==> (#[trigger] rows[i]) is Code,
    ensures
        numbers_of(rows) == Seq::<nat>::empty(),
    decreases rows.len(),
{
    if rows.len() > 0 {
        assert(rows[rows.len() - 1] is Code);
        assert forall|i: int| 0 <= i < rows.drop_last().len() implies (#[trigger] rows.drop_last()[i]) is Code by {
            assert(rows[i] is Code);
        }
        lemma_numbers_of_line(rows.drop_last());
    }
}

/// The numbers below the code blocks of a message as it is shown: one for
/// each block that is shown, counted on from the number of the first.
pub proof fn lemma_numbers_of_content(
    lines: Seq<Seq<char>>,
    blocks: Seq<BlockModel>,
    start: nat,
    width: nat,
)
    ensures
        numbers_of(content_rows(lines, blocks, start, width)) == Seq::new(
            shown_blocks(lines, blocks),
            |j: int| capped(start + j as nat),
        ),
    decreases lines.len(),
{
    let all = content_rows(lines, blocks, start, width);
    let want = Seq::new(shown_blocks(lines, blocks), |j: int| capped(start + j as nat));
    if lines.len() == 0 {
        assert(numbers_of(all) =~= want);
    } else {
        let rest = lines.drop_last();
        lemma_numbers_of_content(rest, blocks, start, width);
        let front = content_rows(rest, blocks, start, width);
        let j = marker_count(rest);
        if !is_marker(lines.last()) {
            assert(all.drop_last() == front);
            assert(numbers_of(all) =~= want);
        } else if j < blocks.len() {
            let rows = block_rows(blocks[j as int].content, capped(start + j), width);
            let code = code_rows(crate::render::segmented(blocks[j as int].content), width);
            lemma_numbers_add(front, rows);
            lemma_numbers_of_code(crate::render::segmented(blocks[j as int].content), width);
            assert(rows.drop_last() == code);
            assert(numbers_of(rows) =~= seq![capped(start + j)]);
            assert(numbers_of(all) =~= want);
        } else {
            assert(numbers_of(all) =~= want);
        }
    }
}

/// The numbers below the code blocks on the screen run from 1 on, without
/// a gap: as many as there are blocks that are shown, the `n`th of them
/// the number `n`, as far as numbers go.
pub proof fn lemma_numbers_run(prompt: PromptModel, msgs: Seq<MessageModel>, width: nat)
    ensures
        numbers_of(flat(thread_rows(prompt, msgs, width))) == Seq::new(
            shown_before(msgs),
            |n: int| capped(n as nat + 1),
        ),
    decreases msgs.len(),
{
    let want = Seq::new(shown_before(msgs), |n: int| capped(n as nat + 1));
    if msgs.len() == 0 {
        assert(numbers_of(flat(thread_rows(prompt, msgs, width))) =~= want);
    } else {
        let front = msgs.drop_last();
        lemma_numbers_run(prompt, front, width);
        if msgs.last().role != Role::System {
            let m = msgs.last();
            let start = capped(1 + shown_before(front));
            let block = message_block(prompt, m, start, width);
            let text = content_rows(lines_of(m.non_code_content), m.code_blocks, start, width);
            let before = flat(thread_rows(prompt, front, width));
            assert(thread_rows(prompt, msgs, width).drop_last() == thread_rows(
                prompt,
                front,
                width,
            ));
            assert(flat(thread_rows(prompt, msgs, width)) == before + block);
            lemma_numbers_add(before, block);
            lemma_numbers_of_content(lines_of(m.non_code_content), m.code_blocks, start, width);
            let head = seq![RowModel::Header(header_model(prompt, m.role))];
            let tail = seq![RowModel::Blank];
            lemma_numbers_add(head + text, tail);
            lemma_numbers_add(head, text);
            assert(head.drop_last() == Seq::<RowModel>::empty());
            assert(tail.drop_last() == Seq::<RowModel>::empty());
            assert(numbers_of(Seq::<RowModel>::empty()) =~= Seq::<nat>::empty());
            assert(head.last() is Header);
            assert(tail.last() is Blank);
            assert(numbers_of(head) =~= Seq::<nat>::empty());
            assert(numbers_of(tail) =~= Seq::<nat>::empty());
            assert(numbers_of(block) =~= numbers_of(text));
            assert(numbers_of(before + block) =~= want);
        }
    }
}

} // verus!
