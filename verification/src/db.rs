//! The store: the rows that keep threads between two runs, and the rules by
//! which a thread is written to them and read back.

use vstd::prelude::*;

use crate::error::Error;
use crate::llm::LlmModel;
use crate::llm::PromptSetting;
use crate::message::Message;
use crate::message::MessageModel;
use crate::message::Role;
use crate::message::blocks_of;
use crate::message::derived;
use crate::message::marked_text;
use crate::thread::Summary;
use crate::thread::SummaryModel;
use crate::thread::Thread;
use crate::thread::ThreadModel;
use crate::thread::in_sequence;
use crate::thread::lemma_in_sequence;
use crate::thread::message_ref_views;
use crate::thread::message_views;
use crate::thread::summary_fits;
use crate::thread::summary_views;
use crate::thread::valid;

verus! {

/// A row of a table that is keyed by a thread: the thread's identifier and a
/// text, which is the name of the model in one table and the title in another.
#[derive(Debug, Clone, PartialEq, Eq)]
pub struct TextRow {
    pub id: u128,
    pub content: String,
}

/// A row of the table of messages.
#[derive(Debug, Clone, PartialEq, Eq)]
pub struct MessageRow {
    pub thread_id: u128,
    /// The number that stands for the role of the writer.
    pub role: i64,
    pub content: String,
    /// Milliseconds since the Unix epoch, UTC.
    pub timestamp: i64,
    pub tokens: Option<usize>,
}

/// What a row of the table of messages holds.
pub struct MessageRowModel {
    pub thread_id: u128,
    pub role: int,
    pub content: Seq<char>,
    pub timestamp: int,
    pub tokens: Option<nat>,
}

impl View for MessageRow {
    type V = MessageRowModel;

    open spec fn view(&self) -> MessageRowModel {
        MessageRowModel {
            thread_id: self.thread_id,
            role: self.role as int,
            content: self.content@,
            timestamp: self.timestamp as int,
            tokens: match self.tokens {
                Some(n) => Some(n as nat),
                None => None,
            },
        }
    }
}

impl View for TextRow {
    type V = (u128, Seq<char>);

    open spec fn view(&self) -> (u128, Seq<char>) {
        (self.id, self.content@)
    }
}

/// What the store holds: the rows of its four tables, each in the order in
/// which the rows were written.
pub struct StoreModel {
    pub threads: Seq<(u128, Seq<char>)>,
    pub messages: Seq<MessageRowModel>,
    pub titles: Seq<(u128, Seq<char>)>,
    pub summaries: Seq<SummaryModel>,
}

/// The tables that keep threads between two runs.
#[derive(Debug, Clone)]
pub struct Store {
    pub threads: Vec<TextRow>,
    pub messages: Vec<MessageRow>,
    pub titles: Vec<TextRow>,
    pub summaries: Vec<Summary>,
}

/// What a sequence of keyed rows holds.
pub open spec fn text_rows(rows: Seq<TextRow>) -> Seq<(u128, Seq<char>)> {
    Seq::new(rows.len(), |i: int| rows[i]@)
}

/// What a sequence of message rows holds.
pub open spec fn message_rows(rows: Seq<MessageRow>) -> Seq<MessageRowModel> {
    Seq::new(rows.len(), |i: int| rows[i]@)
}

impl View for Store {
    type V = StoreModel;

    open spec fn view(&self) -> StoreModel {
        StoreModel {
            threads: text_rows(self.threads@),
            messages: message_rows(self.messages@),
            titles: text_rows(self.titles@),
            summaries: summary_views(self.summaries@),
        }
    }
}

/// Whether a table that is keyed by a thread has a row for the thread.
pub open spec fn has_key(rows: Seq<(u128, Seq<char>)>, id: u128) -> bool {
    exists|i: int| 0 <= i < rows.len() && (#[trigger] rows[i]).0 == id
}

/// The table with the given text for the thread: each row of the thread
/// holds the text in place of what it held, and a table without a row for
/// the thread has one at its end.
pub open spec fn with_key(rows: Seq<(u128, Seq<char>)>, id: u128, content: Seq<char>) -> Seq<
    (u128, Seq<char>),
> {
    if has_key(rows, id) {
        Seq::new(
            rows.len(),
            |i: int|
                if rows[i].0 == id {
                    (id, content)
                } else {
                    rows[i]
                },
        )
    } else {
        rows.push((id, content))
    }
}

/// The time of the newest message that the table holds for the thread.
pub open spec fn newest(rows: Seq<MessageRowModel>, id: u128) -> Option<int>
    decreases rows.len(),
{
    if rows.len() == 0 {
        None
    } else {
        let before = newest(rows.drop_last(), id);
        let r = rows.last();
        if r.thread_id == id && (before is None || before->0 < r.timestamp) {
            Some(r.timestamp)
        } else {
            before
        }
    }
}

/// The row that keeps a message of the thread.
pub open spec fn message_row(id: u128, m: MessageModel) -> MessageRowModel {
    MessageRowModel {
        thread_id: id,
        role: m.role.spec_to_num() as int,
        content: m.content,
        timestamp: m.timestamp,
        tokens: m.token_count,
    }
}

/// Whether a message is newer than the newest that the store holds.
pub open spec fn is_news(m: MessageModel, newest: Option<int>) -> bool {
    match newest {
        Some(t) => m.timestamp > t,
        None => true,
    }
}

/// The rows of the messages that are newer than `newest`, in order.
pub open spec fn news(id: u128, msgs: Seq<MessageModel>, newest: Option<int>) -> Seq<MessageRowModel>
    decreases msgs.len(),
{
    if msgs.len() == 0 {
        Seq::empty()
    } else {
        let before = news(id, msgs.drop_last(), newest);
        if is_news(msgs.last(), newest) {
            before.push(message_row(id, msgs.last()))
        } else {
            before
        }
    }
}

/// Whether the table of summaries has a row for the run of messages.
pub open spec fn has_summary(rows: Seq<SummaryModel>, id: u128, start: nat, end: nat) -> bool {
    exists|i: int|
        0 <= i < rows.len() && (#[trigger] rows[i]).thread_id == id && rows[i].start == start
            && rows[i].end == end
}

/// The table of summaries after the thread's summaries were written: each
/// in turn is added at the end, under the thread's identifier, unless the
/// table has a row for the same run of messages of the thread.
pub open spec fn with_summaries(rows: Seq<SummaryModel>, id: u128, summaries: Seq<SummaryModel>) -> Seq<
    SummaryModel,
>
    decreases summaries.len(),
{
    if summaries.len() == 0 {
        rows
    } else {
        let before = with_summaries(rows, id, summaries.drop_last());
        let s = summaries.last();
        if has_summary(before, id, s.start, s.end) {
            before
        } else {
            before.push(SummaryModel { thread_id: id, ..s })
        }
    }
}

/// The store after a thread was saved. The thread's row holds its model and
/// the row of its title, where it has one, the title, whatever the store
/// held for the thread before. Of the messages those are written
/// that are newer than the newest that the store holds for the thread. Each
/// summary is written unless the store has one for the same messages.
pub open spec fn saved(s: StoreModel, t: ThreadModel) -> StoreModel {
    StoreModel {
        threads: with_key(s.threads, t.id, t.model.spec_label()),
        titles: match t.title {
            Some(title) => with_key(s.titles, t.id, title),
            None => s.titles,
        },
        messages: s.messages + news(t.id, t.messages, newest(s.messages, t.id)),
        summaries: with_summaries(s.summaries, t.id, t.summaries),
    }
}

impl Store {
    /// A store without rows.
    pub fn new() -> (s: Store)
        ensures
            s@ == (StoreModel {
                threads: Seq::empty(),
                messages: Seq::empty(),
                titles: Seq::empty(),
                summaries: Seq::empty(),
            }),
    {
        let s = Store {
            threads: Vec::new(),
            messages: Vec::new(),
            titles: Vec::new(),
            summaries: Vec::new(),
        };
        assert(s@.threads =~= Seq::empty());
        assert(s@.messages =~= Seq::empty());
        assert(s@.titles =~= Seq::empty());
        assert(s@.summaries =~= Seq::empty());
        s
    }

    /// The time of the newest message that the store holds for a thread.
    pub fn newest_timestamp(&self, id: u128) -> (r: Option<i64>)
        ensures
            r is Some == newest(self@.messages, id) is Some,
            r matches Some(t) ==> t == newest(self@.messages, id)->0,
    {
        let mut best: Option<i64> = None;
        let mut i: usize = 0;
        let ghost rows = message_rows(self.messages@);
        assert(rows.take(0) == Seq::<MessageRowModel>::empty());
        while i < self.messages.len()
            invariant
                i <= self.messages.len(),
                rows == message_rows(self.messages@),
                best is Some == newest(rows.take(i as int), id) is Some,
                best matches Some(t) ==> t == newest(rows.take(i as int), id)->0,
            decreases self.messages.len() - i,
        {
            let r = &self.messages[i];
            proof {
                let after = rows.take(i + 1);
                assert(after.drop_last() == rows.take(i as int));
                assert(after.last() == self.messages@[i as int]@);
            }
            let newer = match best {
                Some(t) => t < r.timestamp,
                None => true,
            };
            if r.thread_id == id && newer {
                best = Some(r.timestamp);
            }
            i += 1;
        }
        assert(rows.take(self.messages.len() as int) == rows);
        best
    }
}

/// Whether a table that is keyed by a thread has a row for the thread.
fn holds_key(rows: &Vec<TextRow>, id: u128) -> (r: bool)
    ensures
        r == has_key(text_rows(rows@), id),
{
    let mut i: usize = 0;
    while i < rows.len()
        invariant
            i <= rows.len(),
            forall|j: int| 0 <= j < i ==> (#[trigger] text_rows(rows@)[j]).0 != id,
        decreases rows.len() - i,
    {
        if rows[i].id == id {
            assert(text_rows(rows@)[i as int].0 == id);
            return true;
        }
        i += 1;
    }
    false
}

/// Gives a table that is keyed by a thread the text for the thread: in the
/// thread's row where the table has one, else in a new row at its end.
fn insert_key(rows: &mut Vec<TextRow>, id: u128, content: String)
    ensures
        text_rows(final(rows)@) == with_key(text_rows(old(rows)@), id, content@),
{
    let ghost before = text_rows(rows@);
    let mut found = false;
    let mut i: usize = 0;
    while i < rows.len()
        invariant
            i <= rows.len(),
            rows.len() == before.len(),
            found == has_key(before.take(i as int), id),
            forall|j: int|
                0 <= j < i ==> (#[trigger] text_rows(rows@)[j]) == if before[j].0 == id {
                    (id, content@)
                } else {
                    before[j]
                },
            forall|j: int| i <= j < rows.len() ==> (#[trigger] text_rows(rows@)[j]) == before[j],
        decreases rows.len() - i,
    {
        proof {
            let front = before.take(i as int);
            let more = before.take(i + 1);
            assert(text_rows(rows@)[i as int] == before[i as int]);
            if has_key(front, id) {
                let j = choose|j: int| 0 <= j < front.len() && (#[trigger] front[j]).0 == id;
                assert(more[j].0 == id);
            }
            if before[i as int].0 == id {
                assert(more[i as int].0 == id);
            }
            if has_key(more, id) && before[i as int].0 != id {
                let j = choose|j: int| 0 <= j < more.len() && (#[trigger] more[j]).0 == id;
                assert(front[j].0 == id);
            }
        }
        if rows[i].id == id {
            let row = TextRow { id, content: content.clone() };
            let ghost was = text_rows(rows@);
            rows.set(i, row);
            found = true;
            assert forall|j: int| 0 <= j < rows.len() && j != i implies (#[trigger] text_rows(
                rows@,
            )[j]) == was[j] by {}
        }
        i += 1;
    }
    assert(before.take(rows.len() as int) == before);
    if !found {
        let row = TextRow { id, content };
        assert(text_rows(rows@.push(row)) =~= text_rows(rows@).push(row@));
        assert(text_rows(rows@) =~= before);
        rows.push(row);
    } else {
        assert(text_rows(rows@) =~= with_key(before, id, content@));
    }
}

/// Whether the table of summaries has a row for the run of messages.
fn holds_summary(rows: &Vec<Summary>, id: u128, start: usize, end: usize) -> (r: bool)
    ensures
        r == has_summary(summary_views(rows@), id, start as nat, end as nat),
{
    let mut i: usize = 0;
    while i < rows.len()
        invariant
            i <= rows.len(),
            forall|j: int|
                0 <= j < i ==> !((#[trigger] summary_views(rows@)[j]).thread_id == id
                    && summary_views(rows@)[j].start == start && summary_views(rows@)[j].end == end),
        decreases rows.len() - i,
    {
        if rows[i].thread_id() == id && rows[i].start() == start && rows[i].end() == end {
            assert(summary_views(rows@)[i as int] == rows@[i as int]@);
            return true;
        }
        assert(summary_views(rows@)[i as int] == rows@[i as int]@);
        i += 1;
    }
    false
}

/// The text of the first row that a keyed table has for the thread.
pub open spec fn first_text(rows: Seq<(u128, Seq<char>)>, id: u128) -> Option<Seq<char>>
    decreases rows.len(),
{
    if rows.len() == 0 {
        None
    } else {
        let before = first_text(rows.drop_last(), id);
        if before is Some {
            before
        } else if rows.last().0 == id {
            Some(rows.last().1)
        } else {
            None
        }
    }
}

/// A table has a text for a thread exactly if it has a row for it.
pub proof fn lemma_first_text_is_there(rows: Seq<(u128, Seq<char>)>, id: u128)
    ensures
        first_text(rows, id) is Some == has_key(rows, id),
    decreases rows.len(),
{
    if rows.len() > 0 {
        let front = rows.drop_last();
        lemma_first_text_is_there(front, id);
        if has_key(front, id) {
            let i = choose|i: int| 0 <= i < front.len() && (#[trigger] front[i]).0 == id;
            assert(rows[i].0 == id);
        }
        if has_key(rows, id) && !has_key(front, id) {
            let i = choose|i: int| 0 <= i < rows.len() && (#[trigger] rows[i]).0 == id;
            if i < front.len() {
                assert(front[i].0 == id);
            }
        }
        if rows.last().0 == id {
            assert(rows[rows.len() - 1].0 == id);
        }
    }
}

/// The first row for a thread gives the thread's text.
pub proof fn lemma_first_text(rows: Seq<(u128, Seq<char>)>, id: u128, i: int)
    requires
        0 <= i < rows.len(),
        forall|j: int| 0 <= j < i ==> (#[trigger] rows[j]).0 != id,
        rows[i].0 == id,
    ensures
        first_text(rows, id) == Some(rows[i].1),
    decreases rows.len(),
{
    let front = rows.drop_last();
    if i == rows.len() - 1 {
        lemma_first_text_is_there(front, id);
        if has_key(front, id) {
            let j = choose|j: int| 0 <= j < front.len() && (#[trigger] front[j]).0 == id;
            assert(rows[j].0 == id);
        }
    } else {
        lemma_first_text(front, id, i);
    }
}

/// The message rows of a thread, in the order of the table.
pub open spec fn owned(rows: Seq<MessageRowModel>, id: u128) -> Seq<MessageRowModel>
    decreases rows.len(),
{
    if rows.len() == 0 {
        Seq::empty()
    } else if rows.last().thread_id == id {
        owned(rows.drop_last(), id).push(rows.last())
    } else {
        owned(rows.drop_last(), id)
    }
}

/// Rows that are ordered by time, with one more: it stands after every row
/// that is no newer than it.
pub open spec fn insert_by_time(sorted: Seq<MessageRowModel>, r: MessageRowModel) -> Seq<
    MessageRowModel,
>
    decreases sorted.len(),
{
    if sorted.len() == 0 || sorted.last().timestamp <= r.timestamp {
        sorted.push(r)
    } else {
        insert_by_time(sorted.drop_last(), r).push(sorted.last())
    }
}

/// The rows ordered by time, the oldest first. Rows of the same time keep
/// their order.
pub open spec fn by_time(rows: Seq<MessageRowModel>) -> Seq<MessageRowModel>
    decreases rows.len(),
{
    if rows.len() == 0 {
        Seq::empty()
    } else {
        insert_by_time(by_time(rows.drop_last()), rows.last())
    }
}

/// A row that is inserted by time stands at the place before which no row
/// is newer than it and from which on every row is.
pub proof fn lemma_insert_by_time(sorted: Seq<MessageRowModel>, r: MessageRowModel, pos: int)
    requires
        0 <= pos <= sorted.len(),
        forall|j: int| pos <= j < sorted.len() ==> (#[trigger] sorted[j]).timestamp > r.timestamp,
        pos == 0 || sorted[pos - 1].timestamp <= r.timestamp,
    ensures
        insert_by_time(sorted, r) == sorted.insert(pos, r),
    decreases sorted.len(),
{
    if pos == sorted.len() {
        assert(sorted.push(r) =~= sorted.insert(pos, r));
    } else {
        assert(sorted[sorted.len() - 1].timestamp > r.timestamp);
        lemma_insert_by_time(sorted.drop_last(), r, pos);
        assert(sorted.drop_last().insert(pos, r).push(sorted.last()) =~= sorted.insert(pos, r));
    }
}

/// The role that a number of the store stands for.
pub open spec fn role_of(n: int) -> Option<Role> {
    if n == 1 {
        Some(Role::System)
    } else if n == 2 {
        Some(Role::User)
    } else if n == 3 {
        Some(Role::Assistant)
    } else {
        None
    }
}

/// The message that a row keeps.
pub open spec fn loaded_message(r: MessageRowModel) -> MessageModel {
    MessageModel {
        role: role_of(r.role)->0,
        content: r.content,
        timestamp: r.timestamp,
        token_count: r.tokens,
        code_blocks: blocks_of(r.content),
        non_code_content: marked_text(r.content),
    }
}

/// The messages that rows keep.
pub open spec fn loaded_messages(rows: Seq<MessageRowModel>) -> Seq<MessageModel> {
    Seq::new(rows.len(), |i: int| loaded_message(rows[i]))
}

/// The summaries that the table keeps for a thread with `len` messages, in
/// the order of the table: those that stand for messages that are there.
pub open spec fn taken(rows: Seq<SummaryModel>, id: u128, len: nat) -> Seq<SummaryModel>
    decreases rows.len(),
{
    if rows.len() == 0 {
        Seq::empty()
    } else if rows.last().thread_id == id && summary_fits(rows.last(), len) {
        taken(rows.drop_last(), id, len).push(rows.last())
    } else {
        taken(rows.drop_last(), id, len)
    }
}

/// Whether a thread can be read from the store: the store has a row for it
/// that names a model, and each of its message rows names a role.
pub open spec fn loadable(s: StoreModel, id: u128) -> bool {
    &&& first_text(s.threads, id) matches Some(label) && LlmModel::spec_from_label(label) is Some
    &&& forall|i: int|
        0 <= i < by_time(owned(s.messages, id)).len() ==> role_of(
            (#[trigger] by_time(owned(s.messages, id))[i]).role,
        ) is Some
}

/// The thread as it is read from the store: its messages ordered by time,
/// its model, its title if the store has one, and its summaries. It has the
/// default persona, and no reply is coming in.
pub open spec fn loaded(s: StoreModel, id: u128) -> ThreadModel {
    let msgs = in_sequence(loaded_messages(by_time(owned(s.messages, id))));
    ThreadModel {
        messages: msgs,
        model: LlmModel::spec_from_label(first_text(s.threads, id)->0)->0,
        id,
        summaries: taken(s.summaries, id, msgs.len()),
        prompt: PromptSetting::spec_default(),
        incoming: None,
        title: first_text(s.titles, id),
    }
}

/// The thread's text in a keyed table.
fn find_text(rows: &Vec<TextRow>, id: u128) -> (r: Option<&str>)
    ensures
        r is Some == first_text(text_rows(rows@), id) is Some,
        r matches Some(t) ==> t@ == first_text(text_rows(rows@), id)->0,
{
    let mut i: usize = 0;
    while i < rows.len()
        invariant
            i <= rows.len(),
            forall|j: int| 0 <= j < i ==> (#[trigger] text_rows(rows@)[j]).0 != id,
        decreases rows.len() - i,
    {
        if rows[i].id == id {
            proof {
                lemma_first_text(text_rows(rows@), id, i as int);
            }
            return Some(rows[i].content.as_str());
        }
        i += 1;
    }
    proof {
        lemma_first_text_is_there(text_rows(rows@), id);
    }
    None
}

impl MessageRow {
    /// A copy of the row.
    pub fn duplicate(&self) -> (r: MessageRow)
        ensures
            r@ == self@,
    {
        MessageRow {
            thread_id: self.thread_id,
            role: self.role,
            content: self.content.clone(),
            timestamp: self.timestamp,
            tokens: self.tokens,
        }
    }
}

impl Store {
    /// The message rows of a thread, ordered by time.
    pub fn rows_by_time(&self, id: u128) -> (r: Vec<MessageRow>)
        ensures
            message_rows(r@) == by_time(owned(self@.messages, id)),
    {
        let mut out: Vec<MessageRow> = Vec::new();
        let mut i: usize = 0;
        let ghost rows = message_rows(self.messages@);
        assert(rows.take(0) == Seq::<MessageRowModel>::empty());
        assert(message_rows(out@) =~= Seq::<MessageRowModel>::empty());
        while i < self.messages.len()
            invariant
                i <= self.messages.len(),
                rows == message_rows(self.messages@),
                message_rows(out@) == by_time(owned(rows.take(i as int), id)),
            decreases self.messages.len() - i,
        {
            let r = &self.messages[i];
            proof {
                let after = rows.take(i + 1);
                assert(after.drop_last() == rows.take(i as int));
                assert(after.last() == self.messages@[i as int]@);
            }
            if r.thread_id == id {
                let mut pos: usize = out.len();
                while pos > 0 && out[pos - 1].timestamp > r.timestamp
                    invariant
                        pos <= out.len(),
                        forall|j: int|
                            pos <= j < out.len() ==> (#[trigger] message_rows(out@)[j]).timestamp
                                > r.timestamp,
                    decreases pos,
                {
                    pos -= 1;
                }
                let row = r.duplicate();
                proof {
                    let sorted = message_rows(out@);
                    if pos > 0 {
                        assert(sorted[pos - 1].timestamp <= r.timestamp);
                    }
                    lemma_insert_by_time(sorted, row@, pos as int);
                    assert(message_rows(out@.insert(pos as int, row)) =~= sorted.insert(
                        pos as int,
                        row@,
                    ));
                    let so_far = owned(rows.take(i as int), id);
                    assert(owned(rows.take(i + 1), id) == so_far.push(row@));
                    assert(so_far.push(row@).drop_last() == so_far);
                }
                out.insert(pos, row);
            }
            i += 1;
        }
        assert(rows.take(self.messages.len() as int) == rows);
        out
    }
}

/// A keyed table without the rows of a thread.
pub open spec fn without_key(rows: Seq<(u128, Seq<char>)>, id: u128) -> Seq<(u128, Seq<char>)>
    decreases rows.len(),
{
    if rows.len() == 0 {
        Seq::empty()
    } else if rows.last().0 == id {
        without_key(rows.drop_last(), id)
    } else {
        without_key(rows.drop_last(), id).push(rows.last())
    }
}

/// The table of messages without the rows of a thread.
pub open spec fn without_messages(rows: Seq<MessageRowModel>, id: u128) -> Seq<MessageRowModel>
    decreases rows.len(),
{
    if rows.len() == 0 {
        Seq::empty()
    } else if rows.last().thread_id == id {
        without_messages(rows.drop_last(), id)
    } else {
        without_messages(rows.drop_last(), id).push(rows.last())
    }
}

/// The table of summaries without the rows of a thread.
pub open spec fn without_summaries(rows: Seq<SummaryModel>, id: u128) -> Seq<SummaryModel>
    decreases rows.len(),
{
    if rows.len() == 0 {
        Seq::empty()
    } else if rows.last().thread_id == id {
        without_summaries(rows.drop_last(), id)
    } else {
        without_summaries(rows.drop_last(), id).push(rows.last())
    }
}

/// The store without any row of a thread.
pub open spec fn deleted(s: StoreModel, id: u128) -> StoreModel {
    StoreModel {
        threads: without_key(s.threads, id),
        messages: without_messages(s.messages, id),
        titles: without_key(s.titles, id),
        summaries: without_summaries(s.summaries, id),
    }
}

/// Takes the rows of a thread out of a keyed table.
fn remove_key(rows: &mut Vec<TextRow>, id: u128)
    ensures
        text_rows(final(rows)@) == without_key(text_rows(old(rows)@), id),
{
    let mut out: Vec<TextRow> = Vec::new();
    let mut i: usize = 0;
    let ghost all = text_rows(rows@);
    assert(all.take(0) == Seq::<(u128, Seq<char>)>::empty());
    assert(text_rows(out@) =~= Seq::<(u128, Seq<char>)>::empty());
    while i < rows.len()
        invariant
            i <= rows.len(),
            all == text_rows(rows@),
            text_rows(out@) == without_key(all.take(i as int), id),
        decreases rows.len() - i,
    {
        proof {
            let after = all.take(i + 1);
            assert(after.drop_last() == all.take(i as int));
            assert(after.last() == rows@[i as int]@);
        }
        if rows[i].id != id {
            let row = TextRow { id: rows[i].id, content: rows[i].content.clone() };
            assert(text_rows(out@.push(row)) =~= text_rows(out@).push(row@));
            out.push(row);
        }
        i += 1;
    }
    assert(all.take(rows.len() as int) == all);
    *rows = out;
}

/// Takes the rows of a thread out of the table of messages.
fn remove_messages(rows: &mut Vec<MessageRow>, id: u128)
    ensures
        message_rows(final(rows)@) == without_messages(message_rows(old(rows)@), id),
{
    let mut out: Vec<MessageRow> = Vec::new();
    let mut i: usize = 0;
    let ghost all = message_rows(rows@);
    assert(all.take(0) == Seq::<MessageRowModel>::empty());
    assert(message_rows(out@) =~= Seq::<MessageRowModel>::empty());
    while i < rows.len()
        invariant
            i <= rows.len(),
            all == message_rows(rows@),
            message_rows(out@) == without_messages(all.take(i as int), id),
        decreases rows.len() - i,
    {
        proof {
            let after = all.take(i + 1);
            assert(after.drop_last() == all.take(i as int));
            assert(after.last() == rows@[i as int]@);
        }
        if rows[i].thread_id != id {
            let row = rows[i].duplicate();
            assert(message_rows(out@.push(row)) =~= message_rows(out@).push(row@));
            out.push(row);
        }
        i += 1;
    }
    assert(all.take(rows.len() as int) == all);
    *rows = out;
}

/// Takes the rows of a thread out of the table of summaries.
fn remove_summaries(rows: &mut Vec<Summary>, id: u128)
    ensures
        summary_views(final(rows)@) == without_summaries(summary_views(old(rows)@), id),
{
    let mut out: Vec<Summary> = Vec::new();
    let mut i: usize = 0;
    let ghost all = summary_views(rows@);
    assert(all.take(0) == Seq::<SummaryModel>::empty());
    assert(summary_views(out@) =~= Seq::<SummaryModel>::empty());
    while i < rows.len()
        invariant
            i <= rows.len(),
            all == summary_views(rows@),
            summary_views(out@) == without_summaries(all.take(i as int), id),
        decreases rows.len() - i,
    {
        proof {
            let after = all.take(i + 1);
            assert(after.drop_last() == all.take(i as int));
            assert(after.last() == rows@[i as int]@);
        }
        if rows[i].thread_id() != id {
            let row = rows[i].duplicate();
            assert(summary_views(out@.push(row)) =~= summary_views(out@).push(row@));
            out.push(row);
        }
        i += 1;
    }
    assert(all.take(rows.len() as int) == all);
    *rows = out;
}

/// What can be kept in the store.
pub trait DbStore: Sized {
    /// What goes wrong when a value is written or read.
    type Error;

    /// What a value is found by.
    type Key: Sized;

    /// Reads the value that is kept under a key.
    fn from_db(store: &Store, id: Self::Key) -> Result<Self, Self::Error>;

    /// Writes the value to the store.
    fn to_db(&self, store: &mut Store) -> Result<(), Self::Error>;

    /// Reads every value that the store keeps.
    fn get_all(store: &Store) -> Result<Vec<Self>, Self::Error>;

    /// Takes the value out of the store; says whether the store kept it.
    fn drop_from_db(&self, store: &mut Store) -> Result<bool, Self::Error>;
}

impl DbStore for Thread {
    type Error = Error;

    type Key = u128;

    /// Saves the thread to the store, as `saved` says.
    fn to_db(&self, store: &mut Store) -> (r: Result<(), Error>)
        ensures
            r is Ok,
            final(store)@ == saved(old(store)@, self@),
    {
        let id = self.id();
        insert_key(&mut store.threads, id, self.model().label());
        match self.thread_title() {
            Some(title) => {
                insert_key(&mut store.titles, id, title.to_owned());
            },
            None => {},
        }
        let last = store.newest_timestamp(id);
        let ghost last_model: Option<int> = match last {
            Some(t) => Some(t as int),
            None => None,
        };
        assert(last_model == newest(old(store)@.messages, id));
        let msgs = self.messages();
        let ghost all = message_ref_views(msgs@);
        let ghost stored = message_rows(store.messages@);
        let mut i: usize = 0;
        assert(all.take(0) == Seq::<MessageModel>::empty());
        assert(stored + news(id, all.take(0), last_model) =~= stored);
        while i < msgs.len()
            invariant
                i <= msgs.len(),
                all == message_ref_views(msgs@),
                last_model == match last {
                    Some(t) => Some(t as int),
                    None => None,
                },
                message_rows(store.messages@) == stored + news(id, all.take(i as int), last_model),
                text_rows(store.threads@) == with_key(
                    text_rows(old(store).threads@),
                    id,
                    self@.model.spec_label(),
                ),
                text_rows(store.titles@) == match self@.title {
                    Some(title) => with_key(text_rows(old(store).titles@), id, title),
                    None => text_rows(old(store).titles@),
                },
                summary_views(store.summaries@) == summary_views(old(store).summaries@),
            decreases msgs.len() - i,
        {
            let m = msgs[i];
            proof {
                let after = all.take(i + 1);
                assert(after.drop_last() == all.take(i as int));
                assert(after.last() == msgs@[i as int]@);
            }
            let fresh = match last {
                Some(t) => m.timestamp_millis() > t,
                None => true,
            };
            if fresh {
                let row = MessageRow {
                    thread_id: id,
                    role: m.role().to_num() as i64,
                    content: m.content().to_owned(),
                    timestamp: m.timestamp_millis(),
                    tokens: m.token_count(),
                };
                assert(row@ == message_row(id, m@));
                assert(message_rows(store.messages@.push(row)) =~= message_rows(
                    store.messages@,
                ).push(row@));
                store.messages.push(row);
            }
            i += 1;
        }
        assert(all.take(msgs.len() as int) == all);
        let summaries = self.summaries();
        let ghost given = summary_views(summaries@);
        let ghost kept = summary_views(store.summaries@);
        let mut k: usize = 0;
        assert(given.take(0) == Seq::<SummaryModel>::empty());
        while k < summaries.len()
            invariant
                k <= summaries.len(),
                given == summary_views(summaries@),
                summary_views(store.summaries@) == with_summaries(kept, id, given.take(k as int)),
                message_rows(store.messages@) == stored + news(id, all, last_model),
                text_rows(store.threads@) == with_key(
                    text_rows(old(store).threads@),
                    id,
                    self@.model.spec_label(),
                ),
                text_rows(store.titles@) == match self@.title {
                    Some(title) => with_key(text_rows(old(store).titles@), id, title),
                    None => text_rows(old(store).titles@),
                },
            decreases summaries.len() - k,
        {
            let s = &summaries[k];
            proof {
                let after = given.take(k + 1);
                assert(after.drop_last() == given.take(k as int));
                assert(after.last() == summaries@[k as int]@);
            }
            if !holds_summary(&store.summaries, id, s.start(), s.end()) {
                let row = Summary::new(id, s.start(), s.end(), s.text());
                assert(row@ == (SummaryModel { thread_id: id, ..s@ }));
                assert(summary_views(store.summaries@.push(row)) =~= summary_views(
                    store.summaries@,
                ).push(row@));
                store.summaries.push(row);
            }
            k += 1;
        }
        assert(given.take(summaries.len() as int) == given);
        Ok(())
    }

    /// Reads a thread from the store, as `loaded` says. A thread that the
    /// store has no row for, a row that names no model and a message row
    /// that names no role are refused.
    fn from_db(store: &Store, id: u128) -> (r: Result<Thread, Error>)
        ensures
            r is Ok == loadable(store@, id),
            r matches Ok(t) ==> t.wf() && t@ == loaded(store@, id),
            r matches Err(e) ==> e is DbRetrievalError,
    {
        let label = match find_text(&store.threads, id) {
            Some(l) => l,
            None => {
                return Err(Error::DbRetrievalError("the store holds no such thread".to_owned()));
            },
        };
        let model = match LlmModel::from_label(label) {
            Some(m) => m,
            None => {
                let mut text = label.to_owned();
                text.append(" is not a valid model");
                return Err(Error::DbRetrievalError(text));
            },
        };
        let rows = store.rows_by_time(id);
        let ghost kept = message_rows(rows@);
        let mut messages: Vec<Message> = Vec::new();
        let mut i: usize = 0;
        assert(message_views(messages@) =~= loaded_messages(kept.take(0)));
        while i < rows.len()
            invariant
                i <= rows.len(),
                kept == message_rows(rows@),
                kept == by_time(owned(store@.messages, id)),
                forall|j: int| 0 <= j < i ==> role_of((#[trigger] kept[j]).role) is Some,
                message_views(messages@) == loaded_messages(kept.take(i as int)),
                forall|j: int| 0 <= j < messages@.len() ==> (#[trigger] messages@[j]).wf(),
            decreases rows.len() - i,
        {
            let row = &rows[i];
            assert(kept[i as int] == row@);
            if row.role < 1 || row.role > 3 {
                return Err(Error::DbRetrievalError("Role value must be 1, 2, or 3".to_owned()));
            }
            let role = match Role::from_num(row.role as usize) {
                Ok(role) => role,
                Err(e) => {
                    return Err(Error::DbRetrievalError(e.message()));
                },
            };
            let m = Message::new_from_db(role, row.content.clone(), row.timestamp, row.tokens);
            assert(m@ == loaded_message(row@));
            proof {
                let before = kept.take(i as int);
                assert(message_views(messages@.push(m)) =~= message_views(messages@).push(m@));
                assert(kept.take(i + 1) =~= before.push(row@));
                assert(loaded_messages(before.push(row@)) =~= loaded_messages(before).push(
                    loaded_message(row@),
                ));
            }
            messages.push(m);
            i += 1;
        }
        assert(kept.take(rows.len() as int) == kept);
        let mut thread = Thread::new(messages, model, id);
        match find_text(&store.titles, id) {
            Some(title) => {
                thread.set_title(title);
            },
            None => {},
        }
        let ghost base = thread@;
        let ghost table = summary_views(store.summaries@);
        let mut k: usize = 0;
        assert(table.take(0) == Seq::<SummaryModel>::empty());
        while k < store.summaries.len()
            invariant
                k <= store.summaries.len(),
                table == summary_views(store.summaries@),
                base.summaries == Seq::<SummaryModel>::empty(),
                thread.wf(),
                thread@ == (ThreadModel {
                    summaries: taken(table.take(k as int), id, base.messages.len()),
                    ..base
                }),
            decreases store.summaries.len() - k,
        {
            let s = &store.summaries[k];
            proof {
                let after = table.take(k + 1);
                assert(after.drop_last() == table.take(k as int));
                assert(after.last() == store.summaries@[k as int]@);
            }
            if s.thread_id() == id {
                thread.add_summary(s.duplicate());
            }
            k += 1;
        }
        assert(table.take(store.summaries.len() as int) == table);
        Ok(thread)
    }

    /// Reads every thread that the store has a row for, in the order of the
    /// rows. One thread that cannot be read fails the whole.
    fn get_all(store: &Store) -> (r: Result<Vec<Thread>, Error>)
        ensures
            r is Ok == (forall|i: int|
                0 <= i < store@.threads.len() ==> loadable(store@, (#[trigger] store@.threads[i]).0)),
            r matches Ok(v) ==> v@.len() == store@.threads.len() && forall|i: int|
                0 <= i < v@.len() ==> (#[trigger] v@[i]).wf() && v@[i]@ == loaded(
                    store@,
                    store@.threads[i].0,
                ),
            r matches Err(e) ==> e is DbRetrievalError,
    {
        let mut out: Vec<Thread> = Vec::new();
        let mut i: usize = 0;
        while i < store.threads.len()
            invariant
                i <= store.threads.len(),
                out@.len() == i,
                forall|j: int| 0 <= j < i ==> loadable(store@, (#[trigger] store@.threads[j]).0),
                forall|j: int|
                    0 <= j < i ==> (#[trigger] out@[j]).wf() && out@[j]@ == loaded(
                        store@,
                        store@.threads[j].0,
                    ),
            decreases store.threads.len() - i,
        {
            let id = store.threads[i].id;
            assert(store@.threads[i as int].0 == id);
            match Thread::from_db(store, id) {
                Ok(t) => {
                    out.push(t);
                },
                Err(e) => {
                    return Err(e);
                },
            }
            i += 1;
        }
        Ok(out)
    }

    /// Takes every row of the thread out of the store: its messages, its
    /// title, its summaries and its own row. Says whether the store had a
    /// row for the thread.
    fn drop_from_db(&self, store: &mut Store) -> (r: Result<bool, Error>)
        ensures
            r == Ok::<bool, Error>(has_key(old(store)@.threads, self@.id)),
            final(store)@ == deleted(old(store)@, self@.id),
    {
        let id = self.id();
        let known = holds_key(&store.threads, id);
        remove_messages(&mut store.messages, id);
        remove_key(&mut store.titles, id);
        remove_summaries(&mut store.summaries, id);
        remove_key(&mut store.threads, id);
        Ok(known)
    }
}

/// A keyed table that was given a text for a thread is not changed by
/// giving it the same text again.
pub proof fn lemma_with_key_twice(rows: Seq<(u128, Seq<char>)>, id: u128, content: Seq<char>)
    ensures
        with_key(with_key(rows, id, content), id, content) == with_key(rows, id, content),
{
    let once = with_key(rows, id, content);
    lemma_with_key_holds(rows, id, content);
    assert(with_key(once, id, content) =~= once);
}

/// A table with a row for a thread has a first row for it.
pub proof fn lemma_first_row(rows: Seq<(u128, Seq<char>)>, id: u128)
    requires
        has_key(rows, id),
    ensures
        exists|i: int|
            0 <= i < rows.len() && (#[trigger] rows[i]).0 == id && forall|j: int|
                0 <= j < i ==> (#[trigger] rows[j]).0 != id,
    decreases rows.len(),
{
    let k = choose|k: int| 0 <= k < rows.len() && (#[trigger] rows[k]).0 == id;
    let front = rows.drop_last();
    if has_key(front, id) {
        lemma_first_row(front, id);
        let i = choose|i: int|
            0 <= i < front.len() && (#[trigger] front[i]).0 == id && forall|j: int|
                0 <= j < i ==> (#[trigger] front[j]).0 != id;
        assert(rows[i].0 == id);
        assert forall|j: int| 0 <= j < i implies (#[trigger] rows[j]).0 != id by {
            assert(front[j].0 != id);
        }
    } else {
        let i = rows.len() - 1;
        if k < i {
            assert(front[k].0 == id);
        }
        assert forall|j: int| 0 <= j < i implies (#[trigger] rows[j]).0 != id by {
            assert(front[j].0 == rows[j].0);
        }
    }
}

/// Giving a keyed table a text for one thread leaves what it has for
/// another.
pub proof fn lemma_with_key_others(
    rows: Seq<(u128, Seq<char>)>,
    id: u128,
    content: Seq<char>,
    other: u128,
)
    requires
        other != id,
    ensures
        has_key(with_key(rows, id, content), other) == has_key(rows, other),
        first_text(with_key(rows, id, content), other) == first_text(rows, other),
{
    let after = with_key(rows, id, content);
    if has_key(rows, other) {
        let i = choose|i: int| 0 <= i < rows.len() && (#[trigger] rows[i]).0 == other;
        assert(after[i].0 == other);
    }
    if has_key(after, other) {
        let i = choose|i: int| 0 <= i < after.len() && (#[trigger] after[i]).0 == other;
        if i < rows.len() {
            assert(rows[i].0 == other);
        }
    }
    if has_key(rows, other) {
        lemma_first_row(rows, other);
        let i = choose|i: int|
            0 <= i < rows.len() && (#[trigger] rows[i]).0 == other && forall|j: int|
                0 <= j < i ==> (#[trigger] rows[j]).0 != other;
        lemma_first_text(rows, other, i);
        assert(after[i] == rows[i]);
        assert forall|j: int| 0 <= j < i implies (#[trigger] after[j]).0 != other by {
            assert(rows[j].0 != other);
        }
        lemma_first_text(after, other, i);
    } else {
        lemma_first_text_is_there(rows, other);
        lemma_first_text_is_there(after, other);
    }
}

/// A keyed table that was given a text for a thread has that text for the
/// thread, in every row of the thread.
pub proof fn lemma_with_key_holds(rows: Seq<(u128, Seq<char>)>, id: u128, content: Seq<char>)
    ensures
        has_key(with_key(rows, id, content), id),
        first_text(with_key(rows, id, content), id) == Some(content),
        forall|i: int|
            0 <= i < with_key(rows, id, content).len() && (#[trigger] with_key(
                rows,
                id,
                content,
            )[i]).0 == id ==> with_key(rows, id, content)[i].1 == content,
{
    let after = with_key(rows, id, content);
    if has_key(rows, id) {
        let i = choose|i: int| 0 <= i < rows.len() && (#[trigger] rows[i]).0 == id;
        assert(after[i].0 == id);
    } else {
        assert(after[rows.len() as int].0 == id);
        assert forall|i: int| 0 <= i < after.len() && (#[trigger] after[i]).0 == id implies after[i].1
            == content by {
            if i < rows.len() {
                assert(rows[i].0 == id);
            }
        }
    }
    lemma_first_row(after, id);
    let i = choose|i: int|
        0 <= i < after.len() && (#[trigger] after[i]).0 == id && forall|j: int|
            0 <= j < i ==> (#[trigger] after[j]).0 != id;
    lemma_first_text(after, id, i);
}

/// No row of a thread is newer than the newest of the thread.
pub proof fn lemma_newest_bounds(rows: Seq<MessageRowModel>, id: u128, i: int)
    requires
        0 <= i < rows.len(),
        rows[i].thread_id == id,
    ensures
        newest(rows, id) is Some,
        rows[i].timestamp <= newest(rows, id)->0,
    decreases rows.len(),
{
    if i < rows.len() - 1 {
        lemma_newest_bounds(rows.drop_last(), id, i);
    }
}

/// The newest time of a thread is the time of one of its rows.
pub proof fn lemma_newest_is_a_row(rows: Seq<MessageRowModel>, id: u128)
    ensures
        newest(rows, id) matches Some(t) ==> exists|i: int|
            0 <= i < rows.len() && (#[trigger] rows[i]).thread_id == id && rows[i].timestamp == t,
    decreases rows.len(),
{
    if rows.len() > 0 {
        let front = rows.drop_last();
        lemma_newest_is_a_row(front, id);
        let r = rows.last();
        let before = newest(front, id);
        if r.thread_id == id && (before is None || before->0 < r.timestamp) {
            assert(rows[rows.len() - 1].thread_id == id);
        } else if before is Some {
            let i = choose|i: int|
                0 <= i < front.len() && (#[trigger] front[i]).thread_id == id && front[i].timestamp
                    == before->0;
            assert(rows[i].thread_id == id);
        }
    }
}

/// Each message that is news has a row among the news, and every such row
/// is of the thread.
pub proof fn lemma_news_rows(id: u128, msgs: Seq<MessageModel>, last: Option<int>)
    ensures
        forall|k: int|
            0 <= k < news(id, msgs, last).len() ==> (#[trigger] news(id, msgs, last)[k]).thread_id
                == id,
        forall|j: int|
            0 <= j < msgs.len() && is_news(#[trigger] msgs[j], last) ==> exists|k: int|
                0 <= k < news(id, msgs, last).len() && (#[trigger] news(id, msgs, last)[k])
                    == message_row(id, msgs[j]),
    decreases msgs.len(),
{
    if msgs.len() > 0 {
        let front = msgs.drop_last();
        lemma_news_rows(id, front, last);
        let all = news(id, msgs, last);
        let before = news(id, front, last);
        assert forall|j: int| 0 <= j < msgs.len() && is_news(#[trigger] msgs[j], last) implies exists|
            k: int,
        |
            0 <= k < all.len() && (#[trigger] all[k]) == message_row(id, msgs[j]) by {
            if j < front.len() {
                assert(is_news(front[j], last));
                let k = choose|k: int|
                    0 <= k < before.len() && (#[trigger] before[k]) == message_row(id, front[j]);
                assert(all[k] == message_row(id, msgs[j]));
            } else {
                assert(all[all.len() - 1] == message_row(id, msgs[j]));
            }
        }
    }
}

/// Where no message is news, no row is written.
pub proof fn lemma_no_news(id: u128, msgs: Seq<MessageModel>, last: Option<int>)
    requires
        forall|j: int| 0 <= j < msgs.len() ==> !is_news(#[trigger] msgs[j], last),
    ensures
        news(id, msgs, last) == Seq::<MessageRowModel>::empty(),
    decreases msgs.len(),
{
    if msgs.len() > 0 {
        let front = msgs.drop_last();
        assert forall|j: int| 0 <= j < front.len() implies !is_news(#[trigger] front[j], last) by {
            assert(!is_news(msgs[j], last));
        }
        lemma_no_news(id, front, last);
        assert(!is_news(msgs[msgs.len() - 1], last));
    }
}

/// Writing summaries takes no row away.
pub proof fn lemma_with_summaries_keeps(
    rows: Seq<SummaryModel>,
    id: u128,
    summaries: Seq<SummaryModel>,
    start: nat,
    end: nat,
)
    requires
        has_summary(rows, id, start, end),
    ensures
        has_summary(with_summaries(rows, id, summaries), id, start, end),
    decreases summaries.len(),
{
    if summaries.len() > 0 {
        lemma_with_summaries_keeps(rows, id, summaries.drop_last(), start, end);
        let before = with_summaries(rows, id, summaries.drop_last());
        let after = with_summaries(rows, id, summaries);
        let i = choose|i: int|
            0 <= i < before.len() && (#[trigger] before[i]).thread_id == id && before[i].start
                == start && before[i].end == end;
        assert(after[i].thread_id == id && after[i].start == start && after[i].end == end);
    }
}

/// Once the summaries were written, the table has a row for each.
pub proof fn lemma_with_summaries_has(
    rows: Seq<SummaryModel>,
    id: u128,
    summaries: Seq<SummaryModel>,
    j: int,
)
    requires
        0 <= j < summaries.len(),
    ensures
        has_summary(with_summaries(rows, id, summaries), id, summaries[j].start, summaries[j].end),
    decreases summaries.len(),
{
    let front = summaries.drop_last();
    let before = with_summaries(rows, id, front);
    let after = with_summaries(rows, id, summaries);
    let s = summaries.last();
    if j < front.len() {
        lemma_with_summaries_has(rows, id, front, j);
        let i = choose|i: int|
            0 <= i < before.len() && (#[trigger] before[i]).thread_id == id && before[i].start
                == summaries[j].start && before[i].end == summaries[j].end;
        assert(after[i].thread_id == id && after[i].start == summaries[j].start && after[i].end
            == summaries[j].end);
    } else if !has_summary(before, id, s.start, s.end) {
        assert(after[after.len() - 1].thread_id == id && after[after.len() - 1].start == s.start
            && after[after.len() - 1].end == s.end);
    }
}

/// Where the table has a row for each summary, writing them changes nothing.
pub proof fn lemma_with_summaries_fixed(rows: Seq<SummaryModel>, id: u128, summaries: Seq<SummaryModel>)
    requires
        forall|j: int|
            0 <= j < summaries.len() ==> has_summary(
                rows,
                id,
                (#[trigger] summaries[j]).start,
                summaries[j].end,
            ),
    ensures
        with_summaries(rows, id, summaries) == rows,
    decreases summaries.len(),
{
    if summaries.len() > 0 {
        let front = summaries.drop_last();
        assert forall|j: int| 0 <= j < front.len() implies has_summary(
            rows,
            id,
            (#[trigger] front[j]).start,
            front[j].end,
        ) by {
            assert(has_summary(rows, id, summaries[j].start, summaries[j].end));
        }
        lemma_with_summaries_fixed(rows, id, front);
        assert(has_summary(
            rows,
            id,
            summaries[summaries.len() - 1].start,
            summaries[summaries.len() - 1].end,
        ));
    }
}

/// Saving a thread a second time changes nothing: the store after two saves
/// is the store after one. No row is written twice.
pub proof fn lemma_save_is_idempotent(s: StoreModel, t: ThreadModel)
    ensures
        saved(saved(s, t), t) == saved(s, t),
{
    let once = saved(s, t);
    let twice = saved(once, t);
    lemma_with_key_twice(s.threads, t.id, t.model.spec_label());
    if t.title is Some {
        lemma_with_key_twice(s.titles, t.id, t.title->0);
    }
    let first = newest(s.messages, t.id);
    let written = news(t.id, t.messages, first);
    let second = newest(once.messages, t.id);
    lemma_news_rows(t.id, t.messages, first);
    lemma_newest_is_a_row(s.messages, t.id);
    assert forall|j: int| 0 <= j < t.messages.len() implies !is_news(
        #[trigger] t.messages[j],
        second,
    ) by {
        if is_news(t.messages[j], first) {
            let k = choose|k: int|
                0 <= k < written.len() && (#[trigger] written[k]) == message_row(
                    t.id,
                    t.messages[j],
                );
            assert(once.messages[s.messages.len() + k] == written[k]);
            lemma_newest_bounds(once.messages, t.id, s.messages.len() + k);
        } else {
            let i = choose|i: int|
                0 <= i < s.messages.len() && (#[trigger] s.messages[i]).thread_id == t.id
                    && s.messages[i].timestamp == first->0;
            assert(once.messages[i] == s.messages[i]);
            lemma_newest_bounds(once.messages, t.id, i);
        }
    }
    lemma_no_news(t.id, t.messages, second);
    assert(twice.messages =~= once.messages);
    assert forall|j: int| 0 <= j < t.summaries.len() implies has_summary(
        once.summaries,
        t.id,
        (#[trigger] t.summaries[j]).start,
        t.summaries[j].end,
    ) by {
        lemma_with_summaries_has(s.summaries, t.id, t.summaries, j);
    }
    lemma_with_summaries_fixed(once.summaries, t.id, t.summaries);
}

/// Whether the store holds no message and no summary of a thread, and no
/// title of it where the thread has none.
pub open spec fn new_to(s: StoreModel, t: ThreadModel) -> bool {
    &&& t.title is None ==> !has_key(s.titles, t.id)
    &&& forall|i: int| 0 <= i < s.messages.len() ==> (#[trigger] s.messages[i]).thread_id != t.id
    &&& forall|i: int| 0 <= i < s.summaries.len() ==> (#[trigger] s.summaries[i]).thread_id != t.id
}

/// Whether the summaries belong to the thread and no two of them stand for
/// the same run of messages.
pub open spec fn own_runs(summaries: Seq<SummaryModel>, id: u128) -> bool {
    &&& forall|i: int| 0 <= i < summaries.len() ==> (#[trigger] summaries[i]).thread_id == id
    &&& forall|i: int, j: int|
        0 <= i < j < summaries.len() ==> !((#[trigger] summaries[i]).start == (
        #[trigger] summaries[j]).start && summaries[i].end == summaries[j].end)
}

/// The rows that keep the messages of a thread.
pub open spec fn rows_for(id: u128, msgs: Seq<MessageModel>) -> Seq<MessageRowModel> {
    Seq::new(msgs.len(), |i: int| message_row(id, msgs[i]))
}

/// Where the table holds no row of the thread, there is no newest message.
pub proof fn lemma_newest_of_none(rows: Seq<MessageRowModel>, id: u128)
    requires
        forall|i: int| 0 <= i < rows.len() ==> (#[trigger] rows[i]).thread_id != id,
    ensures
        newest(rows, id) is None,
        owned(rows, id) == Seq::<MessageRowModel>::empty(),
    decreases rows.len(),
{
    if rows.len() > 0 {
        let front = rows.drop_last();
        assert forall|i: int| 0 <= i < front.len() implies (#[trigger] front[i]).thread_id != id by {
            assert(front[i] == rows[i]);
        }
        lemma_newest_of_none(front, id);
        assert(rows[rows.len() - 1].thread_id != id);
    }
}

/// Where the store holds no message of the thread, every message is news.
pub proof fn lemma_all_news(id: u128, msgs: Seq<MessageModel>)
    ensures
        news(id, msgs, None) == rows_for(id, msgs),
    decreases msgs.len(),
{
    if msgs.len() > 0 {
        lemma_all_news(id, msgs.drop_last());
        assert(rows_for(id, msgs.drop_last()).push(message_row(id, msgs.last())) =~= rows_for(
            id,
            msgs,
        ));
    } else {
        assert(rows_for(id, msgs) =~= Seq::<MessageRowModel>::empty());
    }
}

/// The rows of a thread in a table to which rows were added are its rows
/// in the table and, after them, its rows among those added.
pub proof fn lemma_owned_add(a: Seq<MessageRowModel>, b: Seq<MessageRowModel>, id: u128)
    ensures
        owned(a + b, id) == owned(a, id) + owned(b, id),
    decreases b.len(),
{
    if b.len() == 0 {
        assert(a + b =~= a);
        assert(owned(a, id) + owned(b, id) =~= owned(a, id));
    } else {
        lemma_owned_add(a, b.drop_last(), id);
        assert((a + b).drop_last() =~= a + b.drop_last());
        assert((a + b).last() == b.last());
        if b.last().thread_id == id {
            assert((owned(a, id) + owned(b.drop_last(), id)).push(b.last()) =~= owned(a, id) + owned(
                b.drop_last(),
                id,
            ).push(b.last()));
        }
    }
}

/// The rows that keep the messages of a thread are all rows of the thread.
pub proof fn lemma_owned_rows(id: u128, msgs: Seq<MessageModel>)
    ensures
        owned(rows_for(id, msgs), id) == rows_for(id, msgs),
    decreases msgs.len(),
{
    let rows = rows_for(id, msgs);
    if msgs.len() > 0 {
        lemma_owned_rows(id, msgs.drop_last());
        assert(rows.drop_last() =~= rows_for(id, msgs.drop_last()));
        assert(rows.last().thread_id == id);
        assert(rows.drop_last().push(rows.last()) =~= rows);
    }
}

/// Rows that stand in the order of their times stay as they are when they
/// are ordered by time.
pub proof fn lemma_by_time_of_ordered(rows: Seq<MessageRowModel>)
    requires
        forall|i: int, j: int|
            0 <= i <= j < rows.len() ==> (#[trigger] rows[i]).timestamp <= (
            #[trigger] rows[j]).timestamp,
    ensures
        by_time(rows) == rows,
    decreases rows.len(),
{
    if rows.len() > 0 {
        let front = rows.drop_last();
        assert forall|i: int, j: int| 0 <= i <= j < front.len() implies (
        #[trigger] front[i]).timestamp <= (#[trigger] front[j]).timestamp by {
            assert(rows[i].timestamp <= rows[j].timestamp);
        }
        lemma_by_time_of_ordered(front);
        if front.len() > 0 {
            assert(rows[front.len() - 1].timestamp <= rows[rows.len() - 1].timestamp);
        }
        assert(front.push(rows.last()) =~= rows);
    }
}

/// Writing the summaries of a thread to a table that holds none of the
/// thread adds them in order, where no two of them stand for the same run.
pub proof fn lemma_with_own_runs(rows: Seq<SummaryModel>, id: u128, summaries: Seq<SummaryModel>)
    requires
        forall|i: int| 0 <= i < rows.len() ==> (#[trigger] rows[i]).thread_id != id,
        own_runs(summaries, id),
    ensures
        with_summaries(rows, id, summaries) == rows + summaries,
    decreases summaries.len(),
{
    if summaries.len() == 0 {
        assert(rows + summaries =~= rows);
    } else {
        let front = summaries.drop_last();
        let s = summaries.last();
        assert(own_runs(front, id)) by {
            assert forall|i: int| 0 <= i < front.len() implies (#[trigger] front[i]).thread_id
                == id by {
                assert(front[i] == summaries[i]);
            }
            assert forall|i: int, j: int| 0 <= i < j < front.len() implies !((
            #[trigger] front[i]).start == (#[trigger] front[j]).start && front[i].end
                == front[j].end) by {
                assert(front[i] == summaries[i]);
                assert(front[j] == summaries[j]);
            }
        }
        lemma_with_own_runs(rows, id, front);
        let before = rows + front;
        if has_summary(before, id, s.start, s.end) {
            let i = choose|i: int|
                0 <= i < before.len() && (#[trigger] before[i]).thread_id == id && before[i].start
                    == s.start && before[i].end == s.end;
            if i < rows.len() {
                assert(before[i] == rows[i]);
            } else {
                assert(before[i] == summaries[i - rows.len()]);
                assert(summaries[summaries.len() - 1] == s);
            }
            assert(false);
        }
        assert(summaries[summaries.len() - 1].thread_id == id);
        assert((SummaryModel { thread_id: id, ..s }) == s);
        assert((rows + front).push(s) =~= rows + summaries);
    }
}

/// What is read of the summaries from a table to which rows were added is
/// what is read from the table and, after that, from the rows added.
pub proof fn lemma_taken_add(a: Seq<SummaryModel>, b: Seq<SummaryModel>, id: u128, len: nat)
    ensures
        taken(a + b, id, len) == taken(a, id, len) + taken(b, id, len),
    decreases b.len(),
{
    if b.len() == 0 {
        assert(a + b =~= a);
        assert(taken(a, id, len) + taken(b, id, len) =~= taken(a, id, len));
    } else {
        lemma_taken_add(a, b.drop_last(), id, len);
        assert((a + b).drop_last() =~= a + b.drop_last());
        assert((a + b).last() == b.last());
        if b.last().thread_id == id && summary_fits(b.last(), len) {
            assert((taken(a, id, len) + taken(b.drop_last(), id, len)).push(b.last()) =~= taken(
                a,
                id,
                len,
            ) + taken(b.drop_last(), id, len).push(b.last()));
        }
    }
}

/// Of a table that holds no row of the thread nothing is read; of the
/// summaries of the thread that fit, all are read.
pub proof fn lemma_taken_all(rows: Seq<SummaryModel>, id: u128, len: nat)
    ensures
        (forall|i: int| 0 <= i < rows.len() ==> (#[trigger] rows[i]).thread_id != id) ==> taken(
            rows,
            id,
            len,
        ) == Seq::<SummaryModel>::empty(),
        (forall|i: int|
            0 <= i < rows.len() ==> (#[trigger] rows[i]).thread_id == id && summary_fits(
                rows[i],
                len,
            )) ==> taken(rows, id, len) == rows,
    decreases rows.len(),
{
    if rows.len() > 0 {
        let front = rows.drop_last();
        lemma_taken_all(front, id, len);
        if forall|i: int| 0 <= i < rows.len() ==> (#[trigger] rows[i]).thread_id != id {
            assert forall|i: int| 0 <= i < front.len() implies (#[trigger] front[i]).thread_id
                != id by {
                assert(front[i] == rows[i]);
            }
            assert(rows[rows.len() - 1].thread_id != id);
        }
        if forall|i: int|
            0 <= i < rows.len() ==> (#[trigger] rows[i]).thread_id == id && summary_fits(
                rows[i],
                len,
            ) {
            assert forall|i: int| 0 <= i < front.len() implies (#[trigger] front[i]).thread_id
                == id && summary_fits(front[i], len) by {
                assert(front[i] == rows[i]);
            }
            assert(rows[rows.len() - 1].thread_id == id);
            assert(front.push(rows.last()) =~= rows);
        }
    }
}

/// A thread that is saved to a store that held no message and no summary
/// of it is read back as it was: with the same messages, the same model,
/// the same title and the same summaries, whatever model and title the
/// store held for it before. The summaries have to belong to the thread,
/// and no two of them may stand for the same run of messages.
pub proof fn lemma_load_after_save(s: StoreModel, t: ThreadModel)
    requires
        valid(t),
        new_to(s, t),
        own_runs(t.summaries, t.id),
    ensures
        loadable(saved(s, t), t.id),
        loaded(saved(s, t), t.id).messages == t.messages,
        loaded(saved(s, t), t.id).model == t.model,
        loaded(saved(s, t), t.id).title == t.title,
        loaded(saved(s, t), t.id).summaries == t.summaries,
        loaded(saved(s, t), t.id).id == t.id,
{
    let after = saved(s, t);
    let id = t.id;
    lemma_with_key_holds(s.threads, id, t.model.spec_label());
    crate::llm::lemma_label_round_trip(t.model);
    match t.title {
        Some(title) => {
            lemma_with_key_holds(s.titles, id, title);
        },
        None => {
            lemma_first_text_is_there(s.titles, id);
        },
    }
    lemma_newest_of_none(s.messages, id);
    lemma_all_news(id, t.messages);
    let rows = rows_for(id, t.messages);
    assert(after.messages == s.messages + rows);
    lemma_owned_add(s.messages, rows, id);
    lemma_owned_rows(id, t.messages);
    assert(owned(after.messages, id) =~= rows);
    assert forall|i: int, j: int| 0 <= i <= j < rows.len() implies (#[trigger] rows[i]).timestamp
        <= (#[trigger] rows[j]).timestamp by {
        assert(t.messages[i].timestamp <= t.messages[j].timestamp);
    }
    lemma_by_time_of_ordered(rows);
    assert forall|i: int| 0 <= i < rows.len() implies role_of((#[trigger] rows[i]).role) is Some by {
        crate::message::lemma_role_num_round_trip(t.messages[i].role);
    }
    assert(loaded_messages(rows) =~= t.messages) by {
        assert forall|i: int| 0 <= i < rows.len() implies loaded_messages(rows)[i]
            == t.messages[i] by {
            assert(derived(t.messages[i]));
            crate::message::lemma_role_num_round_trip(t.messages[i].role);
        }
    }
    lemma_in_sequence(t.messages);
    lemma_with_own_runs(s.summaries, id, t.summaries);
    lemma_taken_add(s.summaries, t.summaries, id, t.messages.len());
    lemma_taken_all(s.summaries, id, t.messages.len());
    lemma_taken_all(t.summaries, id, t.messages.len());
    assert(taken(after.summaries, id, t.messages.len()) =~= t.summaries);
}

/// The newest time of a thread in a table is the newest among the rows of
/// the thread.
pub proof fn lemma_newest_of_owned(rows: Seq<MessageRowModel>, id: u128)
    ensures
        newest(rows, id) == newest(owned(rows, id), id),
    decreases rows.len(),
{
    if rows.len() > 0 {
        lemma_newest_of_owned(rows.drop_last(), id);
        if rows.last().thread_id == id {
            let mine = owned(rows.drop_last(), id).push(rows.last());
            assert(mine.drop_last() =~= owned(rows.drop_last(), id));
            assert(mine.last() == rows.last());
        }
    }
}

/// The newest of the rows that keep messages in the order of their times
/// is the time of the last message.
pub proof fn lemma_newest_of_rows(id: u128, msgs: Seq<MessageModel>)
    requires
        msgs.len() > 0,
        forall|i: int, j: int|
            0 <= i <= j < msgs.len() ==> (#[trigger] msgs[i]).timestamp <= (
            #[trigger] msgs[j]).timestamp,
    ensures
        newest(rows_for(id, msgs), id) == Some(msgs.last().timestamp),
    decreases msgs.len(),
{
    let rows = rows_for(id, msgs);
    let front = msgs.drop_last();
    assert(rows.drop_last() =~= rows_for(id, front));
    assert(rows.last() == message_row(id, msgs.last()));
    if front.len() > 0 {
        assert forall|i: int, j: int| 0 <= i <= j < front.len() implies (
        #[trigger] front[i]).timestamp <= (#[trigger] front[j]).timestamp by {
            assert(msgs[i].timestamp <= msgs[j].timestamp);
        }
        lemma_newest_of_rows(id, front);
        assert(front.last() == msgs[msgs.len() - 2]);
        assert(msgs[msgs.len() - 2].timestamp <= msgs[msgs.len() - 1].timestamp);
    } else {
        assert(rows_for(id, front) =~= Seq::<MessageRowModel>::empty());
    }
}

/// Where the first `k` messages are no newer than a time and the others
/// are newer, the others are the news.
pub proof fn lemma_news_after(id: u128, msgs: Seq<MessageModel>, k: int, time: int)
    requires
        0 <= k <= msgs.len(),
        forall|i: int| 0 <= i < k ==> (#[trigger] msgs[i]).timestamp <= time,
        forall|i: int| k <= i < msgs.len() ==> (#[trigger] msgs[i]).timestamp > time,
    ensures
        news(id, msgs, Some(time)) == rows_for(id, msgs.skip(k)),
    decreases msgs.len(),
{
    if msgs.len() == k {
        assert forall|j: int| 0 <= j < msgs.len() implies !is_news(#[trigger] msgs[j], Some(time)) by {}
        lemma_no_news(id, msgs, Some(time));
        assert(rows_for(id, msgs.skip(k)) =~= Seq::<MessageRowModel>::empty());
    } else {
        let front = msgs.drop_last();
        assert forall|i: int| 0 <= i < k implies (#[trigger] front[i]).timestamp <= time by {
            assert(front[i] == msgs[i]);
        }
        assert forall|i: int| k <= i < front.len() implies (#[trigger] front[i]).timestamp > time by {
            assert(front[i] == msgs[i]);
        }
        lemma_news_after(id, front, k, time);
        assert(msgs[msgs.len() - 1].timestamp > time);
        assert(rows_for(id, front.skip(k)).push(message_row(id, msgs.last())) =~= rows_for(
            id,
            msgs.skip(k),
        ));
    }
}

/// Whether the store holds, of the messages of a thread, the first `k` and
/// no other, the messages after them are newer than they are, and the
/// store holds no summary of the thread, and no title of it where the
/// thread has none.
pub open spec fn holds_first(s: StoreModel, t: ThreadModel, k: int) -> bool {
    &&& 0 <= k <= t.messages.len()
    &&& owned(s.messages, t.id) == rows_for(t.id, t.messages.take(k))
    &&& 0 < k < t.messages.len() ==> t.messages[k - 1].timestamp < t.messages[k].timestamp
    &&& t.title is None ==> !has_key(s.titles, t.id)
    &&& forall|i: int| 0 <= i < s.summaries.len() ==> (#[trigger] s.summaries[i]).thread_id != t.id
}

/// A thread that is saved to a store that held its first messages is read
/// back as it is now: with all its messages, its model, its title and its
/// summaries. The messages that the store did not hold have to be newer
/// than those it held: one that is as old as the newest of them is not
/// written.
pub proof fn lemma_load_after_later_save(s: StoreModel, t: ThreadModel, k: int)
    requires
        valid(t),
        holds_first(s, t, k),
        own_runs(t.summaries, t.id),
    ensures
        loadable(saved(s, t), t.id),
        loaded(saved(s, t), t.id).messages == t.messages,
        loaded(saved(s, t), t.id).model == t.model,
        loaded(saved(s, t), t.id).title == t.title,
        loaded(saved(s, t), t.id).summaries == t.summaries,
        loaded(saved(s, t), t.id).id == t.id,
{
    let after = saved(s, t);
    let id = t.id;
    let msgs = t.messages;
    lemma_with_key_holds(s.threads, id, t.model.spec_label());
    crate::llm::lemma_label_round_trip(t.model);
    match t.title {
        Some(title) => {
            lemma_with_key_holds(s.titles, id, title);
        },
        None => {
            lemma_first_text_is_there(s.titles, id);
        },
    }
    lemma_in_sequence(msgs);
    lemma_newest_of_owned(s.messages, id);
    let held = msgs.take(k);
    let added = msgs.skip(k);
    if k == 0 {
        assert(rows_for(id, held) =~= Seq::<MessageRowModel>::empty());
        lemma_all_news(id, msgs);
        assert(added =~= msgs);
    } else {
        assert forall|i: int, j: int| 0 <= i <= j < held.len() implies (
        #[trigger] held[i]).timestamp <= (#[trigger] held[j]).timestamp by {
            assert(msgs[i].timestamp <= msgs[j].timestamp);
        }
        lemma_newest_of_rows(id, held);
        let time = msgs[k - 1].timestamp;
        assert(held.last() == msgs[k - 1]);
        assert forall|i: int| 0 <= i < k implies (#[trigger] msgs[i]).timestamp <= time by {
            assert(msgs[i].timestamp <= msgs[k - 1].timestamp);
        }
        assert forall|i: int| k <= i < msgs.len() implies (#[trigger] msgs[i]).timestamp > time by {
            assert(msgs[k].timestamp <= msgs[i].timestamp);
        }
        lemma_news_after(id, msgs, k, time);
    }
    let written = rows_for(id, added);
    assert(after.messages == s.messages + written);
    lemma_owned_add(s.messages, written, id);
    lemma_owned_rows(id, added);
    let rows = rows_for(id, msgs);
    assert(rows_for(id, held) + written =~= rows);
    assert(owned(after.messages, id) =~= rows);
    assert forall|i: int, j: int| 0 <= i <= j < rows.len() implies (#[trigger] rows[i]).timestamp
        <= (#[trigger] rows[j]).timestamp by {
        assert(msgs[i].timestamp <= msgs[j].timestamp);
    }
    lemma_by_time_of_ordered(rows);
    assert forall|i: int| 0 <= i < rows.len() implies role_of((#[trigger] rows[i]).role) is Some by {
        crate::message::lemma_role_num_round_trip(msgs[i].role);
    }
    assert(loaded_messages(rows) =~= msgs) by {
        assert forall|i: int| 0 <= i < rows.len() implies loaded_messages(rows)[i] == msgs[i] by {
            assert(derived(msgs[i]));
            crate::message::lemma_role_num_round_trip(msgs[i].role);
        }
    }
    lemma_with_own_runs(s.summaries, id, t.summaries);
    lemma_taken_add(s.summaries, t.summaries, id, msgs.len());
    lemma_taken_all(s.summaries, id, msgs.len());
    lemma_taken_all(t.summaries, id, msgs.len());
    assert(taken(after.summaries, id, msgs.len()) =~= t.summaries);
}

/// A thread that is saved twice to such a store is read back as it was,
/// as after one save.
pub proof fn lemma_load_after_two_saves(s: StoreModel, t: ThreadModel)
    requires
        valid(t),
        new_to(s, t),
        own_runs(t.summaries, t.id),
    ensures
        loadable(saved(saved(s, t), t), t.id),
        loaded(saved(saved(s, t), t), t.id).messages == t.messages,
        loaded(saved(saved(s, t), t), t.id).model == t.model,
        loaded(saved(saved(s, t), t), t.id).title == t.title,
        loaded(saved(saved(s, t), t), t.id).summaries == t.summaries,
{
    lemma_save_is_idempotent(s, t);
    lemma_load_after_save(s, t);
}

/// A later title takes the place of an earlier one: a thread that is saved
/// under one title and then under another is read back under the other.
pub proof fn lemma_title_is_replaced(s: StoreModel, t: ThreadModel, title: Seq<char>)
    ensures
        first_text(saved(saved(s, t), ThreadModel { title: Some(title), ..t }).titles, t.id)
            == Some(title),
{
    lemma_with_key_holds(saved(s, t).titles, t.id, title);
}

} // verus!
