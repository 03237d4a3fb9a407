//! Conversation threads: their messages, their summaries, and what is sent
//! and shown of them.

use vstd::prelude::*;
use vstd::string::StringExecFns;

use crate::decimal::capped;
use crate::error::Error;
use crate::lines::join;
use crate::lines::joined;
use crate::lines::lines_of;
use crate::lines::views;
use crate::llm::LlmModel;
use crate::llm::PromptModel;
use crate::llm::PromptSetting;
use crate::message::BlockModel;
use crate::message::CodeBlock;
use crate::message::Message;
use crate::message::block_coloured;
use crate::message::message_coloured;
use crate::render::Ink;
use crate::message::MessageModel;
use crate::message::Role;
use crate::message::blocks_of;
use crate::message::content_rows;
use crate::message::derived;
use crate::message::marked_text;
use crate::message::shown_blocks;
use crate::render::DisplayLine;
use crate::render::Header;
use crate::render::HeaderModel;
use crate::render::RowModel;
use crate::render::SpanModel;
use crate::render::row_spans;
use crate::render::spans_of;
use crate::message::content_spans;
use crate::render::display_views;
use crate::text::chars_of;
use crate::text::extend;
use crate::text::string_of;
use crate::text::take;

verus! {

/// The first `n` characters of `s`, or all of `s` if it has fewer.
pub open spec fn first_chars(s: Seq<char>, n: nat) -> Seq<char> {
    if n <= s.len() {
        s.take(n as int)
    } else {
        s
    }
}

/// How many bytes a text takes in UTF-8.
pub open spec fn byte_len(s: Seq<char>) -> nat {
    vstd::utf8::encode_utf8(s).len()
}

/// A text cut to at most `desired_length` characters. A text of no more than
/// `desired_length` bytes is kept whole. Any other is cut three characters
/// short of the limit and ends in three dots, as far as the limit has room
/// for them.
pub open spec fn preview(text: Seq<char>, desired_length: nat) -> Seq<char> {
    if byte_len(text) <= desired_length {
        text
    } else {
        first_chars(
            first_chars(text, if desired_length >= 3 {
                (desired_length - 3) as nat
            } else {
                0
            }) + "..."@,
            desired_length,
        )
    }
}

/// A text cut to at most `desired_length` characters, the three dots that
/// show the cut included.
pub fn string_preview(text: &str, desired_length: usize) -> (r: String)
    ensures
        r@ == preview(text@, desired_length as nat),
{
    if text.as_bytes().len() <= desired_length {
        return text.to_owned();
    }
    let chars = chars_of(text);
    let keep: usize = if desired_length >= 3 {
        desired_length - 3
    } else {
        0
    };
    let mut head = take(&chars, keep);
    let dots = chars_of("...");
    extend(&mut head, &dots);
    string_of(&take(&head, desired_length))
}

/// What a summary is: the thread it belongs to, the messages it stands for,
/// from `start` up to but not including `end`, and its text.
pub struct SummaryModel {
    pub thread_id: u128,
    pub start: nat,
    pub end: nat,
    pub content: Seq<char>,
}

/// A text that stands for a run of messages of a thread.
#[derive(Debug, Clone)]
pub struct Summary {
    _thread_id: u128,
    pub start_index: usize,
    pub end_index: usize,
    pub content: String,
}

impl View for Summary {
    type V = SummaryModel;

    closed spec fn view(&self) -> SummaryModel {
        SummaryModel {
            thread_id: self._thread_id,
            start: self.start_index as nat,
            end: self.end_index as nat,
            content: self.content@,
        }
    }
}

/// What stands before a summary's text when it takes the place of messages.
pub const SUMMARY_PREAMBLE: &'static str = "**Summary of elided messages:** ";

impl Summary {
    /// A summary of the messages `start_index..end_index` of a thread.
    pub fn new(thread_id: u128, start_index: usize, end_index: usize, content: &str) -> (s: Summary)
        ensures
            s@ == (SummaryModel {
                thread_id,
                start: start_index as nat,
                end: end_index as nat,
                content: content@,
            }),
    {
        Summary { _thread_id: thread_id, start_index, end_index, content: content.to_owned() }
    }

    /// The thread that the summary belongs to.
    pub fn thread_id(&self) -> (id: u128)
        ensures
            id == self@.thread_id,
    {
        self._thread_id
    }

    /// The index of the first message that the summary stands for.
    pub fn start(&self) -> (i: usize)
        ensures
            i == self@.start,
    {
        self.start_index
    }

    /// The index after the last message that the summary stands for.
    pub fn end(&self) -> (i: usize)
        ensures
            i == self@.end,
    {
        self.end_index
    }

    /// The text of the summary.
    pub fn text(&self) -> (r: &str)
        ensures
            r@ == self@.content,
    {
        self.content.as_str()
    }

    /// A copy of the summary.
    pub fn duplicate(&self) -> (s: Summary)
        ensures
            s@ == self@,
    {
        Summary {
            _thread_id: self._thread_id,
            start_index: self.start_index,
            end_index: self.end_index,
            content: self.content.clone(),
        }
    }

    /// The system message that takes the place of the summarised messages.
    pub fn as_message(&self, timestamp: i64) -> (m: Message)
        ensures
            m.wf(),
            m@.role == Role::System,
            m@.content == SUMMARY_PREAMBLE@ + self@.content,
            m@.timestamp == timestamp,
            m@.token_count is None,
    {
        let text = SUMMARY_PREAMBLE.to_owned().concat(self.content.as_str());
        Message::new(Role::System, text.as_str(), timestamp)
    }
}

/// The models of a sequence of messages.
pub open spec fn message_views(s: Seq<Message>) -> Seq<MessageModel> {
    Seq::new(s.len(), |i: int| s[i]@)
}

/// The models of the messages that a sequence of references points to.
pub open spec fn message_ref_views(s: Seq<&Message>) -> Seq<MessageModel> {
    Seq::new(s.len(), |i: int| s[i]@)
}

/// The models of the code blocks that a sequence of references points to.
pub open spec fn block_ref_views(s: Seq<&CodeBlock>) -> Seq<BlockModel> {
    Seq::new(s.len(), |i: int| s[i]@)
}

/// The models of a sequence of summaries.
pub open spec fn summary_views(s: Seq<Summary>) -> Seq<SummaryModel> {
    Seq::new(s.len(), |i: int| s[i]@)
}

/// Whether no message is dated before the one it follows.
pub open spec fn sequenced(msgs: Seq<MessageModel>) -> bool {
    forall|i: int, j: int|
        0 <= i <= j < msgs.len() ==> (#[trigger] msgs[i]).timestamp <= (#[trigger] msgs[j]).timestamp
}

/// The message `m` as it is added after `prev`: dated no earlier than the
/// last of them.
pub open spec fn dated_after(prev: Seq<MessageModel>, m: MessageModel) -> MessageModel {
    if prev.len() > 0 && m.timestamp < prev.last().timestamp {
        MessageModel { timestamp: prev.last().timestamp, ..m }
    } else {
        m
    }
}

/// The messages as they are when each is added after those before it.
pub open spec fn in_sequence(msgs: Seq<MessageModel>) -> Seq<MessageModel>
    decreases msgs.len(),
{
    if msgs.len() == 0 {
        Seq::empty()
    } else {
        let head = in_sequence(msgs.drop_last());
        head.push(dated_after(head, msgs.last()))
    }
}

/// Adding messages one after the other keeps their number, their texts and
/// what was derived from them, and leaves them in sequence.
pub proof fn lemma_in_sequence(msgs: Seq<MessageModel>)
    ensures
        in_sequence(msgs).len() == msgs.len(),
        sequenced(in_sequence(msgs)),
        forall|i: int|
            0 <= i < msgs.len() ==> (#[trigger] in_sequence(msgs)[i]) == (MessageModel {
                timestamp: in_sequence(msgs)[i].timestamp,
                ..msgs[i]
            }),
        sequenced(msgs) ==> in_sequence(msgs) == msgs,
    decreases msgs.len(),
{
    if msgs.len() > 0 {
        let front = msgs.drop_last();
        lemma_in_sequence(front);
        let head = in_sequence(front);
        let all = in_sequence(msgs);
        assert forall|i: int, j: int| 0 <= i <= j < all.len() implies (#[trigger] all[i]).timestamp
            <= (#[trigger] all[j]).timestamp by {
            if j < head.len() {
                assert(head[i].timestamp <= head[j].timestamp);
            } else if i < head.len() {
                assert(head[i].timestamp <= head[head.len() - 1].timestamp);
            }
        }
        if sequenced(msgs) {
            assert forall|i: int, j: int| 0 <= i <= j < front.len() implies (
            #[trigger] front[i]).timestamp <= (#[trigger] front[j]).timestamp by {
                assert(msgs[i].timestamp <= msgs[j].timestamp);
            }
            if front.len() > 0 {
                assert(msgs[front.len() - 1].timestamp <= msgs[msgs.len() - 1].timestamp);
            }
            assert(all =~= msgs);
        }
    }
}

/// The messages that are not of the system, in order.
pub open spec fn spoken(msgs: Seq<MessageModel>) -> Seq<MessageModel>
    decreases msgs.len(),
{
    if msgs.len() == 0 {
        Seq::empty()
    } else if msgs.last().role == Role::System {
        spoken(msgs.drop_last())
    } else {
        spoken(msgs.drop_last()).push(msgs.last())
    }
}

/// The first message that is not of the system.
pub open spec fn first_spoken(msgs: Seq<MessageModel>) -> Option<MessageModel> {
    if spoken(msgs).len() > 0 {
        Some(spoken(msgs)[0])
    } else {
        None
    }
}

/// Where every message is of the system, none is spoken.
pub proof fn lemma_none_spoken(msgs: Seq<MessageModel>)
    requires
        forall|j: int| 0 <= j < msgs.len() ==> (#[trigger] msgs[j]).role == Role::System,
    ensures
        spoken(msgs).len() == 0,
    decreases msgs.len(),
{
    if msgs.len() > 0 {
        lemma_none_spoken(msgs.drop_last());
    }
}

/// The first spoken message is the first that is not of the system.
pub proof fn lemma_first_spoken(msgs: Seq<MessageModel>, i: int)
    requires
        0 <= i < msgs.len(),
        forall|j: int| 0 <= j < i ==> (#[trigger] msgs[j]).role == Role::System,
        msgs[i].role != Role::System,
    ensures
        first_spoken(msgs) == Some(msgs[i]),
    decreases msgs.len(),
{
    let front = msgs.drop_last();
    if i == msgs.len() - 1 {
        lemma_none_spoken(front);
    } else {
        lemma_first_spoken(front, i);
    }
}

/// The code blocks of all the messages, in order.
pub open spec fn all_blocks(msgs: Seq<MessageModel>) -> Seq<BlockModel>
    decreases msgs.len(),
{
    if msgs.len() == 0 {
        Seq::empty()
    } else {
        all_blocks(msgs.drop_last()) + msgs.last().code_blocks
    }
}

/// How many tokens a message counts for: what the remote end said, or a
/// quarter of the bytes of its text.
pub open spec fn message_tokens(m: MessageModel) -> nat {
    match m.token_count {
        Some(n) => n,
        None => byte_len(m.content) / 4,
    }
}

/// How many tokens the messages count for together.
pub open spec fn token_sum(msgs: Seq<MessageModel>) -> nat
    decreases msgs.len(),
{
    if msgs.len() == 0 {
        0
    } else {
        token_sum(msgs.drop_last()) + message_tokens(msgs.last())
    }
}

/// What a thread is.
pub struct ThreadModel {
    pub messages: Seq<MessageModel>,
    pub model: LlmModel,
    pub id: u128,
    pub summaries: Seq<SummaryModel>,
    pub prompt: PromptModel,
    pub incoming: Option<MessageModel>,
    pub title: Option<Seq<char>>,
}

/// Whether a summary stands for a run of at least one message of a thread
/// with `len` messages.
pub open spec fn summary_fits(s: SummaryModel, len: nat) -> bool {
    s.start < s.end <= len
}

/// Whether a thread is as it should be: its messages are in sequence and
/// agree with their texts, a reply that is coming in is the assistant's, and
/// each summary stands for messages that are there.
pub open spec fn valid(t: ThreadModel) -> bool {
    &&& forall|i: int| 0 <= i < t.messages.len() ==> derived(#[trigger] t.messages[i])
    &&& sequenced(t.messages)
    &&& t.incoming matches Some(m) ==> m.role == Role::Assistant && derived(m)
    &&& forall|k: int|
        0 <= k < t.summaries.len() ==> summary_fits(#[trigger] t.summaries[k], t.messages.len())
}

/// One conversation: the messages that were exchanged, the reply that is
/// coming in, the persona, the title and the summaries.
#[derive(Debug, Clone)]
pub struct Thread {
    messages: Vec<Message>,
    model: LlmModel,
    id: u128,
    summary_entries: Vec<Summary>,
    prompt: PromptSetting,
    incoming: Option<Message>,
    thread_title: Option<String>,
}

impl View for Thread {
    type V = ThreadModel;

    closed spec fn view(&self) -> ThreadModel {
        ThreadModel {
            messages: message_views(self.messages@),
            model: self.model,
            id: self.id,
            summaries: summary_views(self.summary_entries@),
            prompt: self.prompt@,
            incoming: match self.incoming {
                Some(m) => Some(m@),
                None => None,
            },
            title: match self.thread_title {
                Some(t) => Some(t@),
                None => None,
            },
        }
    }
}

impl Thread {
    /// Whether the thread is as `valid` asks.
    pub open spec fn wf(&self) -> bool {
        valid(self@)
    }

    /// A thread of the given messages, each dated no earlier than the one
    /// before it, with the default persona and no title.
    pub fn new(messages: Vec<Message>, model: LlmModel, id: u128) -> (t: Thread)
        requires
            forall|i: int| 0 <= i < messages@.len() ==> (#[trigger] messages@[i]).wf(),
        ensures
            t.wf(),
            t@ == (ThreadModel {
                messages: in_sequence(message_views(messages@)),
                model,
                id,
                summaries: Seq::empty(),
                prompt: PromptSetting::spec_default(),
                incoming: None,
                title: None,
            }),
    {
        let mut out: Vec<Message> = Vec::new();
        let mut i: usize = 0;
        let ghost given = message_views(messages@);
        assert(given.take(0) == Seq::<MessageModel>::empty());
        while i < messages.len()
            invariant
                i <= messages.len(),
                given == message_views(messages@),
                message_views(out@) == in_sequence(given.take(i as int)),
            decreases messages.len() - i,
        {
            let mut m = messages[i].duplicate();
            if out.len() > 0 {
                m.not_before(out[out.len() - 1].timestamp_millis());
            }
            proof {
                let before = given.take(i as int);
                let after = given.take(i + 1);
                assert(after.drop_last() == before);
                assert(after.last() == messages@[i as int]@);
                assert(message_views(out@.push(m)) == message_views(out@).push(m@));
            }
            out.push(m);
            i += 1;
        }
        proof {
            assert(given.take(messages.len() as int) == given);
            lemma_in_sequence(given);
            assert forall|k: int| 0 <= k < given.len() implies derived(
                #[trigger] in_sequence(given)[k],
            ) by {
                assert(messages@[k].wf());
                assert(given[k] == messages@[k]@);
            }
        }
        let t = Thread {
            messages: out,
            model,
            id,
            summary_entries: Vec::new(),
            prompt: PromptSetting::default(),
            incoming: None,
            thread_title: None,
        };
        assert(summary_views(t.summary_entries@) == Seq::<SummaryModel>::empty());
        t
    }

    /// How many messages the thread holds.
    pub fn len(&self) -> (n: usize)
        ensures
            n == self@.messages.len(),
    {
        self.messages.len()
    }

    /// The model that the thread talks to.
    pub fn model(&self) -> (m: LlmModel)
        ensures
            m == self@.model,
    {
        self.model
    }

    /// The identifier of the thread.
    pub fn id(&self) -> (id: u128)
        ensures
            id == self@.id,
    {
        self.id
    }

    /// The title of the thread, if it has one.
    pub fn thread_title(&self) -> (r: Option<&str>)
        ensures
            r is Some == self@.title is Some,
            r matches Some(t) ==> t@ == self@.title->0,
    {
        match &self.thread_title {
            Some(t) => Some(t.as_str()),
            None => None,
        }
    }

    /// Gives the thread a title.
    pub fn set_title(&mut self, title: &str)
        ensures
            final(self)@ == (ThreadModel { title: Some(title@), ..old(self)@ }),
    {
        self.thread_title = Some(title.to_owned());
    }

    /// The persona that the thread was begun with.
    pub fn prompt(&self) -> (p: &PromptSetting)
        ensures
            p@ == self@.prompt,
    {
        &self.prompt
    }

    /// Sets the persona of the thread.
    pub fn set_prompt(&mut self, prompt: PromptSetting)
        ensures
            final(self)@ == (ThreadModel { prompt: prompt@, ..old(self)@ }),
    {
        self.prompt = prompt;
    }

    /// The messages of the thread, in order.
    pub fn messages(&self) -> (r: Vec<&Message>)
        ensures
            message_ref_views(r@) == self@.messages,
    {
        let mut out: Vec<&Message> = Vec::new();
        let mut i: usize = 0;
        while i < self.messages.len()
            invariant
                i <= self.messages.len(),
                out@.len() == i,
                forall|j: int| 0 <= j < i ==> out@[j]@ == self.messages@[j]@,
            decreases self.messages.len() - i,
        {
            out.push(&self.messages[i]);
            i += 1;
        }
        assert(message_ref_views(out@) =~= message_views(self.messages@));
        out
    }

    /// The messages of the thread that are not of the system, in order.
    pub fn non_sys_messages(&self) -> (r: Vec<&Message>)
        ensures
            message_ref_views(r@) == spoken(self@.messages),
    {
        let mut out: Vec<&Message> = Vec::new();
        let mut i: usize = 0;
        let ghost all = message_views(self.messages@);
        assert(all.take(0) == Seq::<MessageModel>::empty());
        assert(message_ref_views(out@) =~= Seq::<MessageModel>::empty());
        while i < self.messages.len()
            invariant
                i <= self.messages.len(),
                all == message_views(self.messages@),
                message_ref_views(out@) == spoken(all.take(i as int)),
            decreases self.messages.len() - i,
        {
            proof {
                let after = all.take(i + 1);
                assert(after.drop_last() == all.take(i as int));
                assert(after.last() == self.messages@[i as int]@);
            }
            if !self.messages[i].is_system() {
                assert(message_ref_views(out@.push(&self.messages@[i as int])) == message_ref_views(
                    out@,
                ).push(self.messages@[i as int]@));
                out.push(&self.messages[i]);
            }
            i += 1;
        }
        assert(all.take(self.messages.len() as int) == all);
        out
    }

    /// The code blocks that are on the screen, in the order of their
    /// numbers: those that are shown of the messages and of the reply that
    /// is coming in, as `shown_list` says.
    pub fn shown_code_blocks(&self) -> (r: Vec<&CodeBlock>)
        ensures
            block_ref_views(r@) == shown_list(on_screen(self@)),
    {
        let mut out: Vec<&CodeBlock> = Vec::new();
        let mut i: usize = 0;
        let ghost all = message_views(self.messages@);
        assert(all.take(0) == Seq::<MessageModel>::empty());
        assert(block_ref_views(out@) =~= Seq::<BlockModel>::empty());
        while i < self.messages.len()
            invariant
                i <= self.messages.len(),
                all == message_views(self.messages@),
                block_ref_views(out@) == shown_list(all.take(i as int)),
            decreases self.messages.len() - i,
        {
            proof {
                let after = all.take(i + 1);
                assert(after.drop_last() == all.take(i as int));
                assert(after.last() == self.messages@[i as int]@);
            }
            Self::push_shown(&mut out, &self.messages[i]);
            i += 1;
        }
        assert(all.take(self.messages.len() as int) == all);
        match &self.incoming {
            Some(m) => {
                assert(all.push(m@).drop_last() == all);
                Self::push_shown(&mut out, m);
            },
            None => {},
        }
        out
    }

    /// Adds the code blocks that are shown of a message to a list.
    fn push_shown<'a>(out: &mut Vec<&'a CodeBlock>, m: &'a Message)
        ensures
            block_ref_views(final(out)@) == block_ref_views(old(out)@) + (if m@.role == Role::System {
                Seq::<BlockModel>::empty()
            } else {
                m@.code_blocks.take(
                    shown_blocks(lines_of(m@.non_code_content), m@.code_blocks) as int,
                )
            }),
    {
        let ghost before = block_ref_views(out@);
        if m.role() == Role::System {
            assert(before + Seq::<BlockModel>::empty() =~= before);
            return ;
        }
        let blocks = m.code_blocks();
        let shown = m.shown_count();
        let mut j: usize = 0;
        assert(block_ref_views(out@) =~= before + m@.code_blocks.take(0));
        while j < shown
            invariant
                j <= shown <= blocks.len(),
                block_ref_views(blocks@) =~= m@.code_blocks,
                block_ref_views(out@) == before + m@.code_blocks.take(j as int),
            decreases shown - j,
        {
            assert(block_ref_views(out@.push(blocks@[j as int])) =~= block_ref_views(out@).push(
                blocks@[j as int]@,
            ));
            assert(m@.code_blocks.take(j + 1) =~= m@.code_blocks.take(j as int).push(
                blocks@[j as int]@,
            )) by {
                assert(block_ref_views(blocks@)[j as int] == blocks@[j as int]@);
            }
            out.push(blocks[j]);
            j += 1;
        }
    }

    /// The code blocks of the messages of the thread, in order.
    pub fn code_blocks(&self) -> (r: Vec<&CodeBlock>)
        ensures
            block_ref_views(r@) == all_blocks(self@.messages),
    {
        let mut out: Vec<&CodeBlock> = Vec::new();
        let mut i: usize = 0;
        let ghost all = message_views(self.messages@);
        assert(all.take(0) == Seq::<MessageModel>::empty());
        assert(block_ref_views(out@) =~= Seq::<BlockModel>::empty());
        while i < self.messages.len()
            invariant
                i <= self.messages.len(),
                all == message_views(self.messages@),
                block_ref_views(out@) == all_blocks(all.take(i as int)),
            decreases self.messages.len() - i,
        {
            let blocks = self.messages[i].code_blocks();
            let ghost before = block_ref_views(out@);
            let mut j: usize = 0;
            while j < blocks.len()
                invariant
                    j <= blocks.len(),
                    block_ref_views(out@) == before + block_ref_views(blocks@).take(j as int),
                decreases blocks.len() - j,
            {
                assert(block_ref_views(out@.push(blocks@[j as int])) == block_ref_views(out@).push(
                    blocks@[j as int]@,
                ));
                assert(block_ref_views(blocks@).take(j + 1) == block_ref_views(blocks@).take(
                    j as int,
                ).push(blocks@[j as int]@));
                out.push(blocks[j]);
                j += 1;
            }
            proof {
                let after = all.take(i + 1);
                assert(after.drop_last() == all.take(i as int));
                assert(after.last() == self.messages@[i as int]@);
                assert(block_ref_views(blocks@).take(blocks.len() as int) == block_ref_views(
                    blocks@,
                ));
                assert(block_ref_views(blocks@) =~= self.messages@[i as int]@.code_blocks);
            }
            i += 1;
        }
        assert(all.take(self.messages.len() as int) == all);
        out
    }

    /// The first message that is not of the system.
    pub fn first_message(&self) -> (r: Option<&Message>)
        ensures
            r is Some == first_spoken(self@.messages) is Some,
            r matches Some(m) ==> Some(m@) == first_spoken(self@.messages),
    {
        let mut i: usize = 0;
        while i < self.messages.len()
            invariant
                i <= self.messages.len(),
                forall|j: int| 0 <= j < i ==> (#[trigger] self.messages@[j])@.role == Role::System,
            decreases self.messages.len() - i,
        {
            if !self.messages[i].is_system() {
                proof {
                    lemma_first_spoken(message_views(self.messages@), i as int);
                }
                return Some(&self.messages[i]);
            }
            i += 1;
        }
        proof {
            lemma_none_spoken(message_views(self.messages@));
        }
        None
    }

    /// The last message, whoever wrote it.
    pub fn last_message(&self) -> (r: Option<&Message>)
        ensures
            r is Some == (self@.messages.len() > 0),
            r matches Some(m) ==> m@ == self@.messages.last(),
    {
        if self.messages.len() > 0 {
            Some(&self.messages[self.messages.len() - 1])
        } else {
            None
        }
    }

    /// When the first message that is not of the system was written.
    pub fn init_time(&self) -> (r: Option<i64>)
        ensures
            r is Some == first_spoken(self@.messages) is Some,
            r matches Some(t) ==> t == first_spoken(self@.messages)->0.timestamp,
    {
        match self.first_message() {
            Some(m) => Some(m.timestamp_millis()),
            None => None,
        }
    }

    /// Adds a message at the end of the thread, dated no earlier than the
    /// message before it.
    pub fn add_message(&mut self, msg: Message)
        requires
            old(self).wf(),
            msg.wf(),
        ensures
            final(self).wf(),
            final(self)@ == (ThreadModel {
                messages: old(self)@.messages.push(dated_after(old(self)@.messages, msg@)),
                ..old(self)@
            }),
    {
        let mut msg = msg;
        if self.messages.len() > 0 {
            msg.not_before(self.messages[self.messages.len() - 1].timestamp_millis());
        }
        proof {
            let before = message_views(self.messages@);
            assert(message_views(self.messages@.push(msg)) == before.push(msg@));
            let after = before.push(msg@);
            assert forall|i: int, j: int| 0 <= i <= j < after.len() implies (
            #[trigger] after[i]).timestamp <= (#[trigger] after[j]).timestamp by {
                if j < before.len() {
                    assert(before[i].timestamp <= before[j].timestamp);
                } else if i < before.len() {
                    assert(before[i].timestamp <= before[before.len() - 1].timestamp);
                }
            }
            assert forall|k: int| 0 <= k < old(self)@.summaries.len() implies summary_fits(
                #[trigger] old(self)@.summaries[k],
                after.len(),
            ) by {
                assert(summary_fits(old(self)@.summaries[k], before.len()));
            }
        }
        self.messages.push(msg);
    }

    /// Begins a reply of the assistant with the given text, in place of any
    /// that was coming in.
    pub fn set_incoming_message(&mut self, text: &str)
        requires
            old(self).wf(),
        ensures
            final(self).wf(),
            final(self)@.incoming is Some,
            final(self)@.incoming->0.role == Role::Assistant,
            final(self)@.incoming->0.content == text@,
            final(self)@.incoming->0.token_count is None,
            final(self)@ == (ThreadModel { incoming: final(self)@.incoming, ..old(self)@ }),
    {
        self.incoming = Some(Message::new_asst(text));
    }

    /// Takes in the next piece of the assistant's reply: it is added to the
    /// reply that is coming in, or begins one.
    pub fn update(&mut self, incoming_text: &str)
        requires
            old(self).wf(),
        ensures
            final(self).wf(),
            final(self)@ == (ThreadModel { incoming: final(self)@.incoming, ..old(self)@ }),
            final(self)@.incoming is Some,
            final(self)@.incoming->0.role == Role::Assistant,
            final(self)@.incoming->0.content == match old(self)@.incoming {
                Some(m) => m.content + incoming_text@,
                None => incoming_text@,
            },
            old(self)@.incoming matches Some(m) ==> final(self)@.incoming->0.timestamp
                == m.timestamp && final(self)@.incoming->0.token_count == m.token_count,
            old(self)@.incoming is None ==> final(self)@.incoming->0.token_count is None,
    {
        match self.incoming.take() {
            Some(m) => {
                let mut m = m;
                m.update(incoming_text);
                self.incoming = Some(m);
            },
            None => {
                self.incoming = Some(Message::new_asst(incoming_text));
            },
        }
    }

    /// Ends the reply that is coming in: it becomes the last message of the
    /// thread, dated no earlier than the message before it. Without such a
    /// reply nothing changes.
    pub fn commit_message(&mut self) -> (r: Result<(), Error>)
        requires
            old(self).wf(),
        ensures
            r is Ok,
            final(self).wf(),
            final(self)@ == match old(self)@.incoming {
                Some(m) => ThreadModel {
                    messages: old(self)@.messages.push(dated_after(old(self)@.messages, m)),
                    incoming: None,
                    ..old(self)@
                },
                None => old(self)@,
            },
    {
        match self.incoming.take() {
            Some(msg) => {
                self.add_message(msg);
            },
            None => {},
        }
        Ok(())
    }

    /// The messages of the thread, with what their code blocks keep of
    /// their colours.
    pub closed spec fn items(&self) -> Seq<Message> {
        self.messages@
    }

    /// The reply that is coming in, with what its code blocks keep of their
    /// colours.
    pub closed spec fn arriving(&self) -> Option<Message> {
        self.incoming
    }

    /// The messages that are on the screen, with what their code blocks
    /// keep of their colours: those of the thread and, after them, the
    /// reply that is coming in.
    pub open spec fn shown_items(&self) -> Seq<Message> {
        match self.arriving() {
            Some(m) => self.items().push(m),
            None => self.items(),
        }
    }

    /// Whether every code block of the thread was coloured.
    pub open spec fn coloured(&self) -> bool {
        &&& forall|i: int| 0 <= i < self.items().len() ==> (#[trigger] self.items()[i]).coloured()
        &&& self.arriving() matches Some(m) ==> m.coloured()
    }

    /// Whether the thread is what another has become when its code blocks
    /// were coloured on the given background: those of its messages and
    /// those of the reply that is coming in.
    pub open spec fn coloured_from(&self, before: Thread, background: Ink) -> bool {
        &&& self@ == before@
        &&& self.items().len() == before.items().len()
        &&& forall|i: int|
            0 <= i < before.items().len() ==> message_coloured(
                before.items()[i],
                #[trigger] self.items()[i],
                background,
            )
        &&& match before.arriving() {
            Some(m) => self.arriving() matches Some(n) && message_coloured(m, n, background),
            None => self.arriving() is None,
        }
    }

    /// Colours the code blocks that were not coloured yet: those of the
    /// messages and those of the reply that is coming in. What the thread
    /// holds stays as it is.
    pub fn highlight(&mut self, highlighter: &crate::highlight::Highlighter)
        ensures
            final(self).coloured_from(*old(self), highlighter.spec_background()),
            final(self)@ == old(self)@,
            final(self).coloured(),
    {
        let mut i: usize = 0;
        while i < self.messages.len()
            invariant
                i <= self.messages.len(),
                self.messages@.len() == old(self).messages@.len(),
                forall|j: int| 0 <= j < i ==> (#[trigger] self.messages@[j]).coloured(),
                forall|j: int|
                    0 <= j < i ==> message_coloured(
                        old(self).messages@[j],
                        #[trigger] self.messages@[j],
                        highlighter.spec_background(),
                    ),
                forall|j: int|
                    i <= j < self.messages@.len() ==> (#[trigger] self.messages@[j]) == old(
                        self,
                    ).messages@[j],
                message_views(self.messages@) == message_views(old(self).messages@),
                self.model == old(self).model,
                self.id == old(self).id,
                self.summary_entries == old(self).summary_entries,
                self.prompt == old(self).prompt,
                self.incoming == old(self).incoming,
                self.thread_title == old(self).thread_title,
            decreases self.messages.len() - i,
        {
            if !self.messages[i].is_styled() {
                let ghost before = self.messages@;
                self.messages[i].highlight(highlighter);
                assert(message_views(self.messages@) =~= message_views(before));
            } else {
                proof {
                    let m = self.messages@[i as int];
                    assert forall|k: int| 0 <= k < m.blocks().len() implies block_coloured(
                        m.blocks()[k],
                        #[trigger] m.blocks()[k],
                        highlighter.spec_background(),
                    ) by {
                        assert(m.blocks()[k].coloured());
                    }
                }
            }
            i += 1;
        }
        match self.incoming.take() {
            Some(m) => {
                let mut m = m;
                m.highlight(highlighter);
                self.incoming = Some(m);
            },
            None => {},
        }
    }

    /// Drops the reply that is coming in.
    pub fn clear_incoming_message(&mut self)
        ensures
            final(self)@ == (ThreadModel { incoming: None, ..old(self)@ }),
    {
        self.incoming = None;
    }
}

/// The character that stands for a hexadecimal digit, in lower case.
pub open spec fn hex_digit(d: nat) -> char {
    if d < 10 {
        crate::decimal::digit_char(d)
    } else if d == 10 {
        'a'
    } else if d == 11 {
        'b'
    } else if d == 12 {
        'c'
    } else if d == 13 {
        'd'
    } else if d == 14 {
        'e'
    } else {
        'f'
    }
}

/// The last `digits` hexadecimal digits of `n`, with leading zeros.
pub open spec fn hex_text(n: nat, digits: nat) -> Seq<char>
    decreases digits,
{
    if digits == 0 {
        Seq::empty()
    } else {
        hex_text(n / 16, (digits - 1) as nat).push(hex_digit(n % 16))
    }
}

/// Calls `uuid::Uuid::from_u128` and writes the identifier in the simple
/// form: its 32 hexadecimal digits in lower case, the most significant
/// first, with no hyphen.
#[verifier::external_body]
fn simple_id(id: u128) -> (r: String)
    ensures
        r@ == hex_text(id as nat, 32),
{
    uuid::Uuid::from_u128(id).as_simple().to_string()
}

/// The first instant that the calendar holds, in milliseconds since the
/// Unix epoch: the beginning of the year -262143.
pub const FIRST_INSTANT: i64 = -8_334_601_228_800_000;

/// The last instant that the calendar holds, in milliseconds since the
/// Unix epoch: the end of the year 262142.
pub const LAST_INSTANT: i64 = 8_210_266_876_799_999;

/// Whether the calendar holds an instant that is given in milliseconds
/// since the Unix epoch.
pub open spec fn in_calendar(millis: int) -> bool {
    FIRST_INSTANT <= millis <= LAST_INSTANT
}

/// How the time stands in the line that lists a thread: year, month, day,
/// hour and minute.
pub const LIST_TIME_FORMAT: &'static str = "%Y-%m-%d %H:%M";

/// Calls `chrono::DateTime::from_timestamp_millis` and writes the instant in
/// the machine's time zone, in the given format, which has to be that of
/// the list of threads. The wrapper says that there is a text exactly for
/// the instants that the calendar holds: from the first day of the year
/// -262143 to the last day of the year 262142, the range of
/// `chrono::NaiveDate`. Nothing is said of the text: it depends on the time
/// zone.
#[verifier::external_body]
fn local_minute(millis: i64, format: &str) -> (r: Option<String>)
    requires
        format@ == LIST_TIME_FORMAT@,
    ensures
        r is Some == in_calendar(millis as int),
{
    chrono::DateTime::from_timestamp_millis(millis).map(
        |t| t.with_timezone(&chrono::Local).format(format).to_string(),
    )
}

/// The text that a thread is listed under: its title, else the text of its
/// first message that is not of the system, else three dots.
pub open spec fn title_text(t: ThreadModel) -> Seq<char> {
    match t.title {
        Some(x) => x,
        None => match first_spoken(t.messages) {
            Some(m) => m.content,
            None => "..."@,
        },
    }
}

/// What stands after the time in the line that lists a thread.
pub open spec fn listed_text(t: ThreadModel) -> Seq<char> {
    match t.title {
        Some(x) => x,
        None => match first_spoken(t.messages) {
            Some(m) => preview(m.content, 200),
            None => Seq::empty(),
        },
    }
}

/// The header above a message of the given role, for a thread with the given
/// persona.
pub open spec fn header_text(prompt: PromptModel, role: Role) -> Seq<char> {
    match role {
        Role::User => "User"@,
        Role::Assistant => prompt.label,
        Role::System => "System"@,
    }
}

/// The colour of the header above a message of the given role.
pub open spec fn header_color(prompt: PromptModel, role: Role) -> Seq<char> {
    match role {
        Role::User => "green"@,
        Role::Assistant => match prompt.color {
            Some(c) => c,
            None => "blue"@,
        },
        Role::System => "magenta"@,
    }
}

/// The summary that stands for the messages from `at` on, among the first
/// `n` summaries: of those that begin at `at`, the one that reaches furthest,
/// and of several that reach equally far the last.
pub open spec fn chosen_among(summaries: Seq<SummaryModel>, at: nat, n: nat) -> Option<int>
    decreases n,
{
    if n == 0 {
        None
    } else {
        let prev = chosen_among(summaries, at, (n - 1) as nat);
        let s = summaries[n - 1];
        if s.start == at && (prev is None || summaries[prev->0].end <= s.end) {
            Some(n - 1)
        } else {
            prev
        }
    }
}

/// The summary that stands for the messages from `at` on, if there is one.
pub open spec fn chosen(summaries: Seq<SummaryModel>, at: nat) -> Option<int> {
    chosen_among(summaries, at, summaries.len())
}

/// A chosen summary is one of the summaries and begins where it was asked for.
pub proof fn lemma_chosen(summaries: Seq<SummaryModel>, at: nat, n: nat)
    requires
        n <= summaries.len(),
    ensures
        chosen_among(summaries, at, n) matches Some(k) ==> 0 <= k < n && summaries[k].start == at,
    decreases n,
{
    if n > 0 {
        lemma_chosen(summaries, at, (n - 1) as nat);
    }
}

/// Where an item of the payload comes from: a message of the thread, by its
/// index, or a summary of the thread, by its index.
pub enum WireItem {
    Kept(int),
    Elided(int),
}

/// Where the items of the payload come from, for the messages from `from`
/// on. At a message where a summary begins stands the chosen summary, and
/// the messages it stands for are left out; any other message is kept.
pub open spec fn wire_origins(t: ThreadModel, from: nat) -> Seq<WireItem>
    decreases t.messages.len() - from,
{
    if from >= t.messages.len() {
        Seq::empty()
    } else {
        match chosen(t.summaries, from) {
            Some(k) => if from < t.summaries[k].end <= t.messages.len() {
                seq![WireItem::Elided(k)] + wire_origins(t, t.summaries[k].end)
            } else {
                seq![WireItem::Kept(from as int)] + wire_origins(t, from + 1)
            },
            None => seq![WireItem::Kept(from as int)] + wire_origins(t, from + 1),
        }
    }
}

/// The system message that takes the place of the messages that the `k`th
/// summary stands for. It is dated as the last of them.
pub open spec fn summary_message(t: ThreadModel, k: int) -> MessageModel {
    let content = SUMMARY_PREAMBLE@ + t.summaries[k].content;
    MessageModel {
        role: Role::System,
        content,
        timestamp: t.messages[t.summaries[k].end - 1].timestamp,
        token_count: None,
        code_blocks: blocks_of(content),
        non_code_content: marked_text(content),
    }
}

/// The message that an item of the payload stands for.
pub open spec fn wire_message(t: ThreadModel, item: WireItem) -> MessageModel {
    match item {
        WireItem::Kept(i) => t.messages[i],
        WireItem::Elided(k) => summary_message(t, k),
    }
}

/// The messages that a run of items stands for.
pub open spec fn wire_messages(t: ThreadModel, items: Seq<WireItem>) -> Seq<MessageModel> {
    Seq::new(items.len(), |j: int| wire_message(t, items[j]))
}

/// One message as the remote endpoint takes it.
#[derive(Debug, Clone, PartialEq, Eq)]
pub struct WireMessage {
    pub role: String,
    pub content: String,
}

/// The body of a request to the remote endpoint.
#[derive(Debug, Clone, PartialEq, Eq)]
pub struct WireBody {
    pub model: String,
    pub messages: Vec<WireMessage>,
    /// Whether the reply is asked for as a stream.
    pub stream: bool,
}

/// Whether a payload holds the given messages, each by the wire name of its
/// role and by its text.
pub open spec fn carries(payload: Seq<WireMessage>, msgs: Seq<MessageModel>) -> bool {
    &&& payload.len() == msgs.len()
    &&& forall|j: int|
        0 <= j < payload.len() ==> (#[trigger] payload[j]).role@ == msgs[j].role.spec_wire_name()
            && payload[j].content@ == msgs[j].content
}

/// What the model is told when it is asked for a title.
pub const TITLE_PROMPT: &'static str =
    "\n        Your task is to provide brief descriptive titles to message threads. \n        Each title should be no more than 100 characters in length.\n        Your response should consist of the title and nothing else.";

/// The model that is asked for titles.
pub const TITLE_MODEL: &'static str = "gpt-3.5-turbo";

/// One message as it stands in the text that a title is asked for.
pub open spec fn transcript_entry(m: MessageModel) -> Seq<char> {
    (if m.role == Role::Assistant {
        "Assistant"@
    } else {
        "User"@
    }) + ":\n"@ + m.content + "\n"@
}

/// The text that a title is asked for: the messages that are not of the
/// system, each under the name of its writer, with a line feed between each
/// two.
pub open spec fn transcript(msgs: Seq<MessageModel>) -> Seq<char> {
    joined(Seq::new(spoken(msgs).len(), |i: int| transcript_entry(spoken(msgs)[i])), "\n"@)
}

impl Thread {
    /// The summaries of the thread.
    pub fn summaries(&self) -> (r: &Vec<Summary>)
        ensures
            summary_views(r@) == self@.summaries,
    {
        &self.summary_entries
    }

    /// Adds a summary to the thread, if it stands for a run of at least one
    /// message that the thread holds.
    pub fn add_summary(&mut self, summary: Summary)
        requires
            old(self).wf(),
        ensures
            final(self).wf(),
            final(self)@ == if summary_fits(summary@, old(self)@.messages.len()) {
                ThreadModel { summaries: old(self)@.summaries.push(summary@), ..old(self)@ }
            } else {
                old(self)@
            },
    {
        if summary.start() < summary.end() && summary.end() <= self.messages.len() {
            assert(summary_views(self.summary_entries@.push(summary)) == summary_views(
                self.summary_entries@,
            ).push(summary@));
            self.summary_entries.push(summary);
        }
    }

    /// How many tokens the thread counts for: the sum over its messages of
    /// what the remote end counted or, where it counted nothing, of a quarter
    /// of the bytes of the text. The largest number that fits stands for any
    /// larger sum.
    pub fn total_tokens(&self) -> (n: usize)
        ensures
            n == capped(token_sum(self@.messages)),
    {
        let mut acc: usize = 0;
        let mut i: usize = 0;
        let ghost all = message_views(self.messages@);
        assert(all.take(0) == Seq::<MessageModel>::empty());
        while i < self.messages.len()
            invariant
                i <= self.messages.len(),
                all == message_views(self.messages@),
                acc == capped(token_sum(all.take(i as int))),
            decreases self.messages.len() - i,
        {
            let m = &self.messages[i];
            let t: usize = match m.token_count() {
                Some(n) => n,
                None => m.content().as_bytes().len() / 4,
            };
            proof {
                let after = all.take(i + 1);
                assert(after.drop_last() == all.take(i as int));
                assert(after.last() == self.messages@[i as int]@);
                assert(t == message_tokens(after.last()));
            }
            acc = if t > usize::MAX - acc {
                usize::MAX
            } else {
                acc + t
            };
            i += 1;
        }
        assert(all.take(self.messages.len() as int) == all);
        acc
    }

    /// How much of the model's context the thread uses: the tokens it counts
    /// for, and the tokens that fit in one request to the thread's own model.
    pub fn token_use(&self) -> (r: (usize, usize))
        ensures
            r.0 == capped(token_sum(self@.messages)),
            r.1 == self@.model.spec_max_context(),
    {
        (self.total_tokens(), self.model.max_context())
    }

    /// The text that the thread is listed under, as `title_text` says.
    pub fn display_title_text(&self) -> (r: String)
        ensures
            r@ == title_text(self@),
    {
        match &self.thread_title {
            Some(t) => t.clone(),
            None => match self.first_message() {
                Some(m) => m.content().to_owned(),
                None => "...".to_owned(),
            },
        }
    }

    /// The title under which the thread is shown, cut to 100 characters.
    pub fn display_title(&self) -> (r: String)
        ensures
            r@ == preview(title_text(self@), 100),
    {
        match &self.thread_title {
            Some(t) => string_preview(t.as_str(), 100),
            None => match self.first_message() {
                Some(m) => string_preview(m.content(), 100),
                None => string_preview("...", 100),
            },
        }
    }

    /// The line that lists the thread, for a given text of the time at which
    /// it began: the time, a space, and the title or the beginning of the
    /// first message. A thread in which nothing was said has no such line.
    pub fn list_preview_at(&self, time: &str) -> (r: Option<String>)
        ensures
            r is Some == first_spoken(self@.messages) is Some,
            r matches Some(line) ==> line@ == time@ + " "@ + listed_text(self@),
    {
        let first = match self.first_message() {
            Some(m) => m,
            None => {
                return None;
            },
        };
        let shown = match &self.thread_title {
            Some(t) => t.clone(),
            None => string_preview(first.content(), 200),
        };
        let mut line = time.to_owned();
        line.append(" ");
        line.append(shown.as_str());
        Some(line)
    }

    /// The line that lists the thread: the local time at which it began, to
    /// the minute, and what `listed_text` gives. There is such a line for
    /// every thread in which something was said, unless it began at an
    /// instant that the calendar does not hold.
    pub fn list_preview(&self) -> (r: Option<String>)
        ensures
            r is Some == (first_spoken(self@.messages) matches Some(m) && in_calendar(m.timestamp)),
            r matches Some(line) ==> exists|time: Seq<char>|
                line@ == time + " "@ + listed_text(self@),
    {
        let began = match self.init_time() {
            Some(t) => t,
            None => {
                return None;
            },
        };
        match local_minute(began, LIST_TIME_FORMAT) {
            Some(time) => self.list_preview_at(time.as_str()),
            None => None,
        }
    }

    /// The header above a message of the given role.
    pub fn message_display_header(&self, role: Role) -> (h: Header)
        ensures
            h.text@ == header_text(self@.prompt, role),
            h.color@ == header_color(self@.prompt, role),
            h.bold == (role == Role::System),
            h.underlined,
    {
        match role {
            Role::User => Header {
                text: "User".to_owned(),
                color: "green".to_owned(),
                bold: false,
                underlined: true,
            },
            Role::Assistant => Header {
                text: self.prompt.label.clone(),
                color: match &self.prompt.color {
                    Some(c) => c.clone(),
                    None => "blue".to_owned(),
                },
                bold: false,
                underlined: true,
            },
            Role::System => Header {
                text: "System".to_owned(),
                color: "magenta".to_owned(),
                bold: true,
                underlined: true,
            },
        }
    }

    /// The identifier of the thread as 32 hexadecimal digits.
    pub fn str_id(&self) -> (r: String)
        ensures
            r@ == hex_text(self@.id as nat, 32),
    {
        simple_id(self.id)
    }

    /// The index of the summary that stands for the messages from `at` on.
    fn chosen_summary(&self, at: usize) -> (r: Option<usize>)
        ensures
            r is Some == chosen(self@.summaries, at as nat) is Some,
            r matches Some(k) ==> k == chosen(self@.summaries, at as nat)->0,
    {
        let mut best: Option<usize> = None;
        let mut n: usize = 0;
        let ghost all = summary_views(self.summary_entries@);
        while n < self.summary_entries.len()
            invariant
                n <= self.summary_entries.len(),
                all == summary_views(self.summary_entries@),
                best is Some == chosen_among(all, at as nat, n as nat) is Some,
                best matches Some(k) ==> k == chosen_among(all, at as nat, n as nat)->0 && k < n,
            decreases self.summary_entries.len() - n,
        {
            let s = &self.summary_entries[n];
            let better = match best {
                Some(k) => self.summary_entries[k].end() <= s.end(),
                None => true,
            };
            if s.start() == at && better {
                best = Some(n);
            }
            n += 1;
        }
        best
    }

    /// The messages of the thread as they are sent: each run of messages
    /// that a chosen summary stands for is replaced by one system message
    /// with the summary's text, and every other message is kept.
    pub fn minified_messages(&self) -> (r: Vec<Message>)
        requires
            self.wf(),
        ensures
            message_views(r@) == wire_messages(self@, wire_origins(self@, 0)),
            forall|j: int| 0 <= j < r@.len() ==> (#[trigger] r@[j]).wf(),
    {
        let mut out: Vec<Message> = Vec::new();
        let mut i: usize = 0;
        let ghost t = self@;
        assert(message_views(out@) + wire_messages(t, wire_origins(t, 0)) =~= wire_messages(
            t,
            wire_origins(t, 0),
        ));
        while i < self.messages.len()
            invariant
                i <= self.messages.len(),
                t == self@,
                valid(t),
                message_views(out@) + wire_messages(t, wire_origins(t, i as nat)) == wire_messages(
                    t,
                    wire_origins(t, 0),
                ),
                forall|j: int| 0 <= j < out@.len() ==> (#[trigger] out@[j]).wf(),
            decreases self.messages.len() - i,
        {
            let ghost before = message_views(out@);
            let ghost rest = wire_origins(t, i as nat);
            let pick = self.chosen_summary(i);
            proof {
                lemma_chosen(t.summaries, i as nat, t.summaries.len());
            }
            let mut next: usize = i + 1;
            let mut elided: Option<usize> = None;
            match pick {
                Some(k) => {
                    assert(summary_fits(t.summaries[k as int], t.messages.len()));
                    if i < self.summary_entries[k].end() {
                        next = self.summary_entries[k].end();
                        elided = Some(k);
                    }
                },
                None => {},
            }
            let m = match elided {
                Some(k) => {
                    let dated = self.messages[next - 1].timestamp_millis();
                    self.summary_entries[k].as_message(dated)
                },
                None => self.messages[i].duplicate(),
            };
            proof {
                let item = match elided {
                    Some(k) => WireItem::Elided(k as int),
                    None => WireItem::Kept(i as int),
                };
                assert(rest == seq![item] + wire_origins(t, next as nat));
                assert(m@ == wire_message(t, item)) by {
                    if elided is None {
                        assert(t.messages[i as int] == self.messages@[i as int]@);
                    } else {
                        assert(t.messages[next - 1] == self.messages@[next - 1]@);
                        assert(derived(m@));
                    }
                }
                assert(m.wf()) by {
                    assert(derived(t.messages[i as int]));
                }
                assert(wire_messages(t, rest) =~= seq![m@] + wire_messages(
                    t,
                    wire_origins(t, next as nat),
                ));
                assert(message_views(out@.push(m)) =~= before.push(m@));
                assert(before.push(m@) + wire_messages(t, wire_origins(t, next as nat)) =~= before
                    + wire_messages(t, rest));
            }
            out.push(m);
            i = next;
        }
        assert(wire_messages(t, wire_origins(t, i as nat)) =~= Seq::<MessageModel>::empty());
        assert(message_views(out@) + Seq::<MessageModel>::empty() =~= message_views(out@));
        out
    }

    /// The body of the request for a reply: the name of the thread's model,
    /// the messages as `minified_messages` gives them, and the wish for a
    /// stream.
    pub fn as_json_body(&self) -> (r: WireBody)
        requires
            self.wf(),
        ensures
            r.model@ == self@.model.spec_label(),
            carries(r.messages@, wire_messages(self@, wire_origins(self@, 0))),
            r.stream,
    {
        let msgs = self.minified_messages();
        let mut payload: Vec<WireMessage> = Vec::new();
        let mut i: usize = 0;
        while i < msgs.len()
            invariant
                i <= msgs.len(),
                carries(payload@, message_views(msgs@).take(i as int)),
            decreases msgs.len() - i,
        {
            payload.push(
                WireMessage { role: msgs[i].role().wire_name(), content: msgs[i].content().to_owned() },
            );
            i += 1;
        }
        assert(message_views(msgs@).take(msgs.len() as int) == message_views(msgs@));
        WireBody { model: self.model.label(), messages: payload, stream: true }
    }

    /// The text that a title is asked for.
    pub fn transcript(&self) -> (r: String)
        ensures
            r@ == transcript(self@.messages),
    {
        let msgs = self.non_sys_messages();
        let mut parts: Vec<Vec<char>> = Vec::new();
        let mut i: usize = 0;
        while i < msgs.len()
            invariant
                i <= msgs.len(),
                parts@.len() == i,
                forall|j: int| 0 <= j < i ==> (#[trigger] parts@[j])@ == transcript_entry(msgs@[j]@),
            decreases msgs.len() - i,
        {
            let mut entry = if msgs[i].is_assistant() {
                "Assistant".to_owned()
            } else {
                "User".to_owned()
            };
            entry.append(":\n");
            entry.append(msgs[i].content());
            entry.append("\n");
            parts.push(chars_of(entry.as_str()));
            i += 1;
        }
        assert(views(parts@) =~= Seq::new(
            spoken(self@.messages).len(),
            |i: int| transcript_entry(spoken(self@.messages)[i]),
        )) by {
            assert(message_ref_views(msgs@) == spoken(self@.messages));
            assert forall|j: int| 0 <= j < parts@.len() implies views(parts@)[j] == transcript_entry(
                spoken(self@.messages)[j],
            ) by {
                assert(message_ref_views(msgs@)[j] == msgs@[j]@);
            }
        }
        let sep = chars_of("\n");
        string_of(&join(&parts, &sep))
    }

    /// The body of the request for a title: the model that titles are asked
    /// of, what it is told to do, and the thread's transcript as the user's
    /// message. No stream is asked for.
    pub fn title_request(&self) -> (r: WireBody)
        ensures
            r.model@ == TITLE_MODEL@,
            r.messages@.len() == 2,
            r.messages@[0].role@ == Role::System.spec_wire_name(),
            r.messages@[0].content@ == TITLE_PROMPT@,
            r.messages@[1].role@ == Role::User.spec_wire_name(),
            r.messages@[1].content@ == transcript(self@.messages),
            !r.stream,
    {
        let mut payload: Vec<WireMessage> = Vec::new();
        payload.push(
            WireMessage { role: Role::System.wire_name(), content: TITLE_PROMPT.to_owned() },
        );
        payload.push(WireMessage { role: Role::User.wire_name(), content: self.transcript() });
        WireBody { model: TITLE_MODEL.to_owned(), messages: payload, stream: false }
    }
}

/// How many code blocks are shown of the messages: those of the messages
/// that are not of the system.
pub open spec fn shown_before(msgs: Seq<MessageModel>) -> nat
    decreases msgs.len(),
{
    if msgs.len() == 0 {
        0
    } else if msgs.last().role == Role::System {
        shown_before(msgs.drop_last())
    } else {
        shown_before(msgs.drop_last()) + shown_blocks(
            lines_of(msgs.last().non_code_content),
            msgs.last().code_blocks,
        )
    }
}

/// The code blocks that are shown of the messages, in the order in which
/// they are shown: of each message that is not of the system the first so
/// many as it has lines that stand for a code block.
pub open spec fn shown_list(msgs: Seq<MessageModel>) -> Seq<BlockModel>
    decreases msgs.len(),
{
    if msgs.len() == 0 {
        Seq::empty()
    } else if msgs.last().role == Role::System {
        shown_list(msgs.drop_last())
    } else {
        shown_list(msgs.drop_last()) + msgs.last().code_blocks.take(
            shown_blocks(lines_of(msgs.last().non_code_content), msgs.last().code_blocks) as int,
        )
    }
}

/// As many code blocks are shown as `shown_before` counts.
pub proof fn lemma_shown_list_len(msgs: Seq<MessageModel>)
    ensures
        shown_list(msgs).len() == shown_before(msgs),
    decreases msgs.len(),
{
    if msgs.len() > 0 {
        lemma_shown_list_len(msgs.drop_last());
    }
}

/// The header above a message of the given role.
pub open spec fn header_model(prompt: PromptModel, role: Role) -> HeaderModel {
    HeaderModel {
        text: header_text(prompt, role),
        color: header_color(prompt, role),
        bold: role == Role::System,
        underlined: true,
    }
}

/// A message as it is shown: the header that names its writer, its text
/// with its code blocks numbered from `start` on, and an empty line.
pub open spec fn message_block(prompt: PromptModel, m: MessageModel, start: nat, width: nat) -> Seq<
    RowModel,
> {
    seq![RowModel::Header(header_model(prompt, m.role))] + content_rows(
        lines_of(m.non_code_content),
        m.code_blocks,
        start,
        width,
    ) + seq![RowModel::Blank]
}

/// The messages as they are shown, one block of lines for each message
/// that is not of the system. The code blocks are numbered from 1 on
/// through all the messages.
pub open spec fn thread_rows(prompt: PromptModel, msgs: Seq<MessageModel>, width: nat) -> Seq<
    Seq<RowModel>,
>
    decreases msgs.len(),
{
    if msgs.len() == 0 {
        Seq::empty()
    } else if msgs.last().role == Role::System {
        thread_rows(prompt, msgs.drop_last(), width)
    } else {
        thread_rows(prompt, msgs.drop_last(), width).push(
            message_block(
                prompt,
                msgs.last(),
                capped(1 + shown_before(msgs.drop_last())),
                width,
            ),
        )
    }
}

/// There is one block of lines for each message that is not of the system,
/// in the order of the messages.
pub proof fn lemma_one_block_per_message(prompt: PromptModel, msgs: Seq<MessageModel>, width: nat)
    ensures
        thread_rows(prompt, msgs, width).len() == spoken(msgs).len(),
    decreases msgs.len(),
{
    if msgs.len() > 0 {
        lemma_one_block_per_message(prompt, msgs.drop_last(), width);
    }
}

/// The messages that are on the screen: those of the thread and, after
/// them, the reply that is coming in.
pub open spec fn on_screen(t: ThreadModel) -> Seq<MessageModel> {
    match t.incoming {
        Some(m) => t.messages.push(m),
        None => t.messages,
    }
}

/// The spans of each line of a message as it is shown: none for the
/// header, those of its text, and none for the empty line.
pub open spec fn message_spans(m: Message, width: nat) -> Seq<Seq<SpanModel>> {
    seq![Seq::<SpanModel>::empty()] + content_spans(
        lines_of(m@.non_code_content),
        m.blocks(),
        width,
    ) + seq![Seq::<SpanModel>::empty()]
}

/// The spans of each line of the messages as they are shown, one block
/// of lines for each message that is not of the system.
pub open spec fn thread_spans(msgs: Seq<Message>, width: nat) -> Seq<Seq<Seq<SpanModel>>>
    decreases msgs.len(),
{
    if msgs.len() == 0 {
        Seq::empty()
    } else if msgs.last()@.role == Role::System {
        thread_spans(msgs.drop_last(), width)
    } else {
        thread_spans(msgs.drop_last(), width).push(message_spans(msgs.last(), width))
    }
}

/// The spans of each line of each block of lines.
pub open spec fn screen_spans(blocks: Seq<Vec<DisplayLine>>) -> Seq<Seq<Seq<SpanModel>>> {
    Seq::new(blocks.len(), |i: int| row_spans(blocks[i]@))
}

/// What a sequence of blocks of lines holds.
pub open spec fn screen_views(blocks: Seq<Vec<DisplayLine>>) -> Seq<Seq<RowModel>> {
    Seq::new(blocks.len(), |i: int| display_views(blocks[i]@))
}

impl Thread {
    /// A message as it is shown, with its code blocks numbered from
    /// `counter` on; `counter` is moved on by the number of blocks shown.
    fn show_message(&self, m: &Message, counter: &mut usize, line_width: u16) -> (r: Vec<DisplayLine>)
        ensures
            display_views(r@) == message_block(
                self@.prompt,
                m@,
                *old(counter) as nat,
                line_width as nat,
            ),
            *final(counter) == capped(
                *old(counter) as nat + shown_blocks(lines_of(m@.non_code_content), m@.code_blocks),
            ),
            row_spans(r@) == message_spans(*m, line_width as nat),
    {
        let mut out: Vec<DisplayLine> = Vec::new();
        let head = DisplayLine::Header(self.message_display_header(m.role()));
        out.push(head);
        let ghost first = display_views(out@);
        let ghost first_spans = row_spans(out@);
        assert(first =~= seq![RowModel::Header(header_model(self@.prompt, m@.role))]);
        assert(first_spans =~= seq![Seq::<SpanModel>::empty()]);
        let text = m.formatted_content(counter, line_width);
        let mut j: usize = 0;
        while j < text.len()
            invariant
                j <= text.len(),
                display_views(out@) == first + display_views(text@).take(j as int),
                row_spans(out@) == first_spans + row_spans(text@).take(j as int),
            decreases text.len() - j,
        {
            let row = crate::message::clone_line(&text[j]);
            assert(display_views(out@.push(row)) =~= display_views(out@).push(row@));
            assert(display_views(text@).take(j + 1) =~= display_views(text@).take(j as int).push(
                text@[j as int]@,
            ));
            assert(row_spans(out@.push(row)) =~= row_spans(out@).push(spans_of(row)));
            assert(row_spans(text@).take(j + 1) =~= row_spans(text@).take(j as int).push(
                spans_of(text@[j as int]),
            ));
            out.push(row);
            j += 1;
        }
        assert(display_views(text@).take(text.len() as int) =~= display_views(text@));
        assert(row_spans(text@).take(text.len() as int) =~= row_spans(text@));
        let last = DisplayLine::Blank;
        assert(display_views(out@.push(last)) =~= display_views(out@) + seq![RowModel::Blank]);
        assert(row_spans(out@.push(last)) =~= row_spans(out@) + seq![Seq::<SpanModel>::empty()]);
        out.push(last);
        out
    }

    /// The messages as they are shown, as `thread_rows` says: those of the
    /// thread and, after them, the reply that is coming in.
    pub fn tui_formatted_messages(&self, line_width: u16) -> (r: Vec<Vec<DisplayLine>>)
        ensures
            screen_views(r@) == thread_rows(self@.prompt, on_screen(self@), line_width as nat),
            r@.len() == spoken(on_screen(self@)).len(),
            screen_spans(r@) == thread_spans(self.shown_items(), line_width as nat),
    {
        proof {
            lemma_one_block_per_message(self@.prompt, on_screen(self@), line_width as nat);
        }
        let mut msgs_buf: Vec<Vec<DisplayLine>> = Vec::new();
        let mut block_counter: usize = 1;
        let mut i: usize = 0;
        let ghost all = message_views(self.messages@);
        let ghost prompt = self@.prompt;
        let ghost width = line_width as nat;
        assert(all.take(0) == Seq::<MessageModel>::empty());
        assert(self.messages@.take(0) == Seq::<Message>::empty());
        assert(screen_views(msgs_buf@) =~= Seq::<Seq<RowModel>>::empty());
        assert(screen_spans(msgs_buf@) =~= Seq::<Seq<Seq<SpanModel>>>::empty());
        while i < self.messages.len()
            invariant
                i <= self.messages.len(),
                all == message_views(self.messages@),
                prompt == self@.prompt,
                width == line_width as nat,
                block_counter == capped(1 + shown_before(all.take(i as int))),
                screen_views(msgs_buf@) == thread_rows(prompt, all.take(i as int), width),
                screen_spans(msgs_buf@) == thread_spans(self.messages@.take(i as int), width),
            decreases self.messages.len() - i,
        {
            let m = &self.messages[i];
            proof {
                let after = all.take(i + 1);
                assert(after.drop_last() == all.take(i as int));
                assert(after.last() == m@);
                let more = self.messages@.take(i + 1);
                assert(more.drop_last() == self.messages@.take(i as int));
                assert(more.last() == *m);
            }
            if !m.is_system() {
                let block = self.show_message(m, &mut block_counter, line_width);
                assert(screen_views(msgs_buf@.push(block)) =~= screen_views(msgs_buf@).push(
                    display_views(block@),
                ));
                assert(screen_spans(msgs_buf@.push(block)) =~= screen_spans(msgs_buf@).push(
                    row_spans(block@),
                ));
                msgs_buf.push(block);
            }
            i += 1;
        }
        assert(all.take(self.messages.len() as int) == all);
        assert(self.messages@.take(self.messages.len() as int) == self.messages@);
        match &self.incoming {
            Some(m) => {
                proof {
                    let shown = all.push(m@);
                    assert(shown.drop_last() == all);
                    assert(shown.last() == m@);
                    let items = self.messages@.push(*m);
                    assert(items.drop_last() == self.messages@);
                    assert(items.last() == *m);
                }
                if !m.is_system() {
                    let block = self.show_message(m, &mut block_counter, line_width);
                    assert(screen_views(msgs_buf@.push(block)) =~= screen_views(msgs_buf@).push(
                        display_views(block@),
                    ));
                    assert(screen_spans(msgs_buf@.push(block)) =~= screen_spans(msgs_buf@).push(
                        row_spans(block@),
                    ));
                    msgs_buf.push(block);
                }
            },
            None => {},
        }
        msgs_buf
    }
}

/// Whether no message that is kept lies within the run of messages that
/// a chosen summary stands for.
pub open spec fn kept_clear_of_elided(t: ThreadModel, items: Seq<WireItem>) -> bool {
    forall|a: int, b: int|
        0 <= a < items.len() && 0 <= b < items.len() ==> match (
            #[trigger] items[a],
            #[trigger] items[b],
        ) {
            (WireItem::Kept(i), WireItem::Elided(k)) => !(t.summaries[k].start <= i
                < t.summaries[k].end),
            _ => true,
        }
}

/// Whether every item comes from the messages from `from` on: a kept
/// message is one of them, and a summary stands for a run of them.
pub open spec fn from_on(t: ThreadModel, items: Seq<WireItem>, from: nat) -> bool {
    forall|a: int|
        0 <= a < items.len() ==> match #[trigger] items[a] {
            WireItem::Kept(i) => from <= i < t.messages.len(),
            WireItem::Elided(k) => 0 <= k < t.summaries.len() && from <= t.summaries[k].start
                < t.summaries[k].end <= t.messages.len(),
        }
}

/// What is sent of the messages from `from` on comes from those messages,
/// and no message that is kept lies within a run that a chosen summary
/// stands for.
pub proof fn lemma_wire_origins(t: ThreadModel, from: nat)
    requires
        valid(t),
    ensures
        from_on(t, wire_origins(t, from), from),
        kept_clear_of_elided(t, wire_origins(t, from)),
    decreases t.messages.len() - from,
{
    if from < t.messages.len() {
        lemma_chosen(t.summaries, from, t.summaries.len());
        let pick = chosen(t.summaries, from);
        let elides = pick is Some && from < t.summaries[pick->0].end <= t.messages.len();
        let next: nat = if elides {
            t.summaries[pick->0].end
        } else {
            from + 1
        };
        let first = if elides {
            WireItem::Elided(pick->0)
        } else {
            WireItem::Kept(from as int)
        };
        lemma_wire_origins(t, next);
        let rest = wire_origins(t, next);
        let items = wire_origins(t, from);
        assert(items == seq![first] + rest);
        assert forall|a: int| 0 <= a < items.len() implies match #[trigger] items[a] {
            WireItem::Kept(i) => from <= i < t.messages.len(),
            WireItem::Elided(k) => 0 <= k < t.summaries.len() && from <= t.summaries[k].start
                < t.summaries[k].end <= t.messages.len(),
        } by {
            if a > 0 {
                assert(items[a] == rest[a - 1]);
            }
        }
        assert forall|a: int, b: int| 0 <= a < items.len() && 0 <= b < items.len() implies match (
            #[trigger] items[a],
            #[trigger] items[b],
        ) {
            (WireItem::Kept(i), WireItem::Elided(k)) => !(t.summaries[k].start <= i
                < t.summaries[k].end),
            _ => true,
        } by {
            if a > 0 {
                assert(items[a] == rest[a - 1]);
            }
            if b > 0 {
                assert(items[b] == rest[b - 1]);
            }
        }
    }
}

/// Of the messages as they are sent, none that is kept lies within a run of
/// messages that a summary was put in place of.
pub proof fn lemma_kept_messages_lie_outside_summaries(t: Thread)
    requires
        t.wf(),
    ensures
        kept_clear_of_elided(t@, wire_origins(t@, 0)),
{
    lemma_wire_origins(t@, 0);
}

/// In a thread no message is dated before the one it follows.
pub proof fn lemma_timestamps_never_decrease(t: Thread, i: int)
    requires
        t.wf(),
        0 <= i < t@.messages.len() - 1,
    ensures
        t@.messages[i].timestamp <= t@.messages[i + 1].timestamp,
{
}

} // verus!
