//! The reply stream: from the bytes that the remote endpoint sends to the
//! tokens of the reply.

use vstd::prelude::*;
use vstd::string::StringExecFns;

use crate::error::Error;
use crate::json::JsonFailure;
use crate::json::JsonNode;
use crate::json::NodeModel;
use crate::json::json_node;
use crate::json::json_nodes;
use crate::json::json_parsed;
use crate::json::json_value;
use crate::json::node_at;
use crate::lines::join;
use crate::lines::joined;
use crate::lines::lines;
use crate::lines::lines_of;
use crate::lines::views;
use crate::message::Role;
use crate::text::chars_of;
use crate::text::string_of;
use crate::text::strip_prefixes;
use crate::text::trim;
use crate::text::trimmed;
use crate::text::without_prefixes;
use crate::thread::Thread;
use crate::thread::WireBody;
use crate::thread::carries;
use crate::thread::wire_messages;
use crate::thread::wire_origins;

verus! {

/// What a choice of a completion chunk adds to the reply.
#[derive(Debug, Clone, PartialEq, Eq)]
pub struct CompletionDelta {
    pub content: Option<String>,
}

/// One choice of a completion chunk.
#[derive(Debug, Clone, PartialEq, Eq)]
pub struct CompletionChoice {
    pub delta: CompletionDelta,
}

/// One record of the reply stream. Of its choices it holds the first, the
/// only one that is read.
#[derive(Debug, Clone, PartialEq, Eq)]
pub struct CompletionChunk {
    pub id: String,
    pub created: u64,
    pub choices: Vec<CompletionChoice>,
}

/// What a completion chunk holds: its identifier, when it was made, and the
/// text that each of its choices adds.
pub struct ChunkModel {
    pub id: Seq<char>,
    pub created: u64,
    pub contents: Seq<Option<Seq<char>>>,
}

/// The text that a choice adds.
pub open spec fn choice_content(c: CompletionChoice) -> Option<Seq<char>> {
    match c.delta.content {
        Some(s) => Some(s@),
        None => None,
    }
}

impl View for CompletionChunk {
    type V = ChunkModel;

    open spec fn view(&self) -> ChunkModel {
        ChunkModel {
            id: self.id@,
            created: self.created,
            contents: Seq::new(self.choices@.len(), |i: int| choice_content(self.choices@[i])),
        }
    }
}

/// The token that a chunk yields: the text that its first choice adds.
pub open spec fn token_of(c: ChunkModel) -> Option<Seq<char>> {
    if c.contents.len() > 0 {
        c.contents[0]
    } else {
        None
    }
}

impl CompletionChunk {
    /// The token that the chunk yields, if it yields one.
    pub fn token(&self) -> (r: Option<String>)
        ensures
            r is Some == token_of(self@) is Some,
            r matches Some(t) ==> t@ == token_of(self@)->0,
    {
        if self.choices.len() > 0 {
            match &self.choices[0].delta.content {
                Some(s) => Some(s.clone()),
                None => None,
            }
        } else {
            None
        }
    }
}

/// The completion chunk that a JSON document is: an object with a text
/// under `id`, a whole number under `created` and an array of at least one
/// item under `choices`. The content of the first choice's delta is its
/// token if it is a text; it has no token if the content is absent or null.
/// A document of any other shape is no chunk.
pub open spec fn chunk_of(nodes: Map<Seq<char>, NodeModel>) -> Option<ChunkModel> {
    if node_at(nodes, ""@) == Some(NodeModel::Object) {
        match (node_at(nodes, "/id"@), node_at(nodes, "/created"@), node_at(nodes, "/choices"@)) {
            (
                Some(NodeModel::Text(id)),
                Some(NodeModel::Number(Some(created))),
                Some(NodeModel::Array(n)),
            ) => if n > 0 {
                match node_at(nodes, "/choices/0/delta/content"@) {
                    None => Some(ChunkModel { id, created, contents: seq![None] }),
                    Some(NodeModel::Null) => Some(ChunkModel { id, created, contents: seq![None] }),
                    Some(NodeModel::Text(t)) => Some(
                        ChunkModel { id, created, contents: seq![Some(t)] },
                    ),
                    _ => None,
                }
            } else {
                None
            },
            _ => None,
        }
    } else {
        None
    }
}

/// The completion chunk that a JSON document is, if it is one.
pub fn chunk_from_value(v: &serde_json::Value) -> (r: Option<CompletionChunk>)
    ensures
        r is Some == chunk_of(json_nodes(*v)) is Some,
        r matches Some(c) ==> c@ == chunk_of(json_nodes(*v))->0,
{
    match json_node(v, "") {
        Some(JsonNode::Object) => {},
        _ => {
            return None;
        },
    }
    let id = match json_node(v, "/id") {
        Some(JsonNode::Text(id)) => id,
        _ => {
            return None;
        },
    };
    let created = match json_node(v, "/created") {
        Some(JsonNode::Number(Some(n))) => n,
        _ => {
            return None;
        },
    };
    match json_node(v, "/choices") {
        Some(JsonNode::Array(n)) => {
            if n == 0 {
                return None;
            }
        },
        _ => {
            return None;
        },
    }
    let content = match json_node(v, "/choices/0/delta/content") {
        None => None,
        Some(JsonNode::Null) => None,
        Some(JsonNode::Text(t)) => Some(t),
        _ => {
            return None;
        },
    };
    let mut choices: Vec<CompletionChoice> = Vec::new();
    choices.push(CompletionChoice { delta: CompletionDelta { content } });
    let chunk = CompletionChunk { id, created, choices };
    assert(chunk@.contents =~= seq![choice_content(chunk.choices@[0])]);
    Some(chunk)
}

/// What one line of the stream is.
pub enum LineModel {
    /// A completion chunk.
    Record(ChunkModel),
    /// The beginning of a document whose end has not arrived.
    Incomplete,
    /// The mark that ends the stream.
    Done,
    /// Anything else.
    Invalid,
}

/// What one line of the stream was found to be.
#[derive(Debug, Clone, PartialEq, Eq)]
pub enum Line {
    Record(CompletionChunk),
    Incomplete,
    Done,
    Invalid,
}

impl View for Line {
    type V = LineModel;

    open spec fn view(&self) -> LineModel {
        match self {
            Line::Record(c) => LineModel::Record(c@),
            Line::Incomplete => LineModel::Incomplete,
            Line::Done => LineModel::Done,
            Line::Invalid => LineModel::Invalid,
        }
    }
}

/// The mark that ends the stream.
pub const DONE_MARK: &'static str = "[DONE]";

/// What stands before the document on each line of the stream.
pub const DATA_TAG: &'static str = "data:";

/// What a line is, given what the JSON reader made of it: a record if it is
/// a document in the shape of a completion chunk, incomplete if the text
/// ends before the document does, the end of the stream if it is the mark
/// and no valid JSON, and invalid in any other case.
pub open spec fn classified(
    line: Seq<char>,
    parsed: Result<Map<Seq<char>, NodeModel>, JsonFailure>,
) -> LineModel {
    match parsed {
        Ok(nodes) => match chunk_of(nodes) {
            Some(c) => LineModel::Record(c),
            None => LineModel::Invalid,
        },
        Err(JsonFailure::Eof) => LineModel::Incomplete,
        Err(JsonFailure::Syntax) => if line == DONE_MARK@ {
            LineModel::Done
        } else {
            LineModel::Invalid
        },
        Err(_) => LineModel::Invalid,
    }
}

/// What a line of the stream is.
pub open spec fn line_outcome(line: Seq<char>) -> LineModel {
    classified(line, json_parsed(line))
}

/// What a line is, given what the JSON reader made of it.
pub fn classify_line(line: &str, parsed: Result<serde_json::Value, JsonFailure>) -> (r: Line)
    ensures
        r@ == classified(
            line@,
            match parsed {
                Ok(v) => Ok(json_nodes(v)),
                Err(f) => Err(f),
            },
        ),
{
    match parsed {
        Ok(v) => match chunk_from_value(&v) {
            Some(c) => Line::Record(c),
            None => Line::Invalid,
        },
        Err(JsonFailure::Eof) => Line::Incomplete,
        Err(JsonFailure::Syntax) => if crate::text::str_eq(line, DONE_MARK) {
            Line::Done
        } else {
            Line::Invalid
        },
        Err(_) => Line::Invalid,
    }
}

/// What a line of the stream is.
pub fn decode_line(line: &str) -> (r: Line)
    ensures
        r@ == line_outcome(line@),
{
    classify_line(line, json_value(line))
}

/// A line of the stream without the white space around it and without the
/// tag before the document.
pub open spec fn frame_of(line: Seq<char>) -> Seq<char> {
    trimmed(without_prefixes(trimmed(line), DATA_TAG@))
}

/// The lines of the stream that are not empty once their tag and the white
/// space around them are taken away, each without them.
pub open spec fn frames(lines: Seq<Seq<char>>) -> Seq<Seq<char>>
    decreases lines.len(),
{
    if lines.len() == 0 {
        Seq::empty()
    } else if frame_of(lines.last()).len() == 0 {
        frames(lines.drop_last())
    } else {
        frames(lines.drop_last()).push(frame_of(lines.last()))
    }
}

/// What a piece of the stream holds.
pub struct ParsedModel {
    /// The records that were read, in order.
    pub records: Seq<ChunkModel>,
    /// The lines from the first incomplete one on, if there is one.
    pub remainder: Option<Seq<char>>,
    /// Whether a line was found that is neither a record, nor incomplete,
    /// nor the end of the stream.
    pub failed: bool,
}

/// What the lines from `from` on hold. The records are read in order up to
/// the first line that is none. If that line is incomplete, it and the
/// lines after it are what remains, with a line feed between each two.
pub open spec fn parse_frames(lines: Seq<Seq<char>>, from: nat) -> ParsedModel
    decreases lines.len() - from,
{
    if from >= lines.len() {
        ParsedModel { records: Seq::empty(), remainder: None, failed: false }
    } else {
        match line_outcome(lines[from as int]) {
            LineModel::Record(c) => {
                let rest = parse_frames(lines, from + 1);
                ParsedModel { records: seq![c] + rest.records, ..rest }
            },
            LineModel::Incomplete => ParsedModel {
                records: Seq::empty(),
                remainder: Some(joined(lines.skip(from as int), "\n"@)),
                failed: false,
            },
            LineModel::Done => ParsedModel { records: Seq::empty(), remainder: None, failed: false },
            LineModel::Invalid => ParsedModel {
                records: Seq::empty(),
                remainder: None,
                failed: true,
            },
        }
    }
}

/// What a piece of the stream holds.
pub open spec fn parsed(input: Seq<char>) -> ParsedModel {
    parse_frames(frames(lines_of(input)), 0)
}

/// The models of a sequence of chunks.
pub open spec fn chunk_views(chunks: Seq<CompletionChunk>) -> Seq<ChunkModel> {
    Seq::new(chunks.len(), |i: int| chunks[i]@)
}

/// The lines of a piece of the stream that hold something, each without
/// its tag and the white space around it.
pub fn frames_of(input: &str) -> (r: Vec<Vec<char>>)
    ensures
        views(r@) == frames(lines_of(input@)),
{
    let text = chars_of(input);
    let all = lines(&text);
    let tag = chars_of(DATA_TAG);
    let mut out: Vec<Vec<char>> = Vec::new();
    let mut i: usize = 0;
    let ghost given = views(all@);
    assert(given.take(0) == Seq::<Seq<char>>::empty());
    assert(views(out@) =~= Seq::<Seq<char>>::empty());
    while i < all.len()
        invariant
            i <= all.len(),
            given == views(all@),
            tag@ == DATA_TAG@,
            views(out@) == frames(given.take(i as int)),
        decreases all.len() - i,
    {
        let frame = trim(&strip_prefixes(&trim(&all[i]), &tag));
        proof {
            let after = given.take(i + 1);
            assert(after.drop_last() == given.take(i as int));
            assert(after.last() == all@[i as int]@);
        }
        if frame.len() > 0 {
            assert(views(out@.push(frame)) =~= views(out@).push(frame@));
            out.push(frame);
        }
        i += 1;
    }
    assert(given.take(all.len() as int) == given);
    out
}

/// Reads the records of a piece of the stream. The result holds the records,
/// if there is at least one, and what remains for the next piece, if a line
/// is incomplete. A line that is neither a record, nor incomplete, nor the
/// end of the stream fails the whole.
pub fn try_parse_chunks(input: &str) -> (r: Result<
    (Option<Vec<CompletionChunk>>, Option<String>),
    Error,
>)
    ensures
        r is Err == parsed(input@).failed,
        r matches Err(e) ==> e is JsonParseError,
        r matches Ok((chunks, rest)) ==> {
            &&& chunks is Some == (parsed(input@).records.len() > 0)
            &&& chunks matches Some(c) ==> chunk_views(c@) == parsed(input@).records
            &&& rest is Some == parsed(input@).remainder is Some
            &&& rest matches Some(t) ==> t@ == parsed(input@).remainder->0
        },
{
    let input_lines = frames_of(input);
    let ghost all = views(input_lines@);
    let ghost total = parse_frames(all, 0);
    let mut valid_chunks: Vec<CompletionChunk> = Vec::new();
    let mut remainder: Option<String> = None;
    let mut i: usize = 0;
    let mut open = true;
    assert(chunk_views(valid_chunks@) + total.records =~= total.records);
    while open && i < input_lines.len()
        invariant
            i <= input_lines.len(),
            all == views(input_lines@),
            all == frames(lines_of(input@)),
            total == parse_frames(all, 0),
            open ==> remainder is None && total.records == chunk_views(valid_chunks@)
                + parse_frames(all, i as nat).records && total.remainder == parse_frames(
                all,
                i as nat,
            ).remainder && total.failed == parse_frames(all, i as nat).failed,
            !open ==> !total.failed && total.records == chunk_views(valid_chunks@) && (
            remainder is Some == total.remainder is Some) && (remainder matches Some(t) ==> t@
                == total.remainder->0),
        decreases input_lines.len() - i + (if open { 1int } else { 0int }),
    {
        let line = string_of(&input_lines[i]);
        assert(line@ == all[i as int]);
        match decode_line(line.as_str()) {
            Line::Record(chunk) => {
                proof {
                    let rest = parse_frames(all, (i + 1) as nat);
                    assert(chunk_views(valid_chunks@.push(chunk)) =~= chunk_views(
                        valid_chunks@,
                    ).push(chunk@));
                    assert(chunk_views(valid_chunks@).push(chunk@) + rest.records =~= chunk_views(
                        valid_chunks@,
                    ) + (seq![chunk@] + rest.records));
                }
                valid_chunks.push(chunk);
                i += 1;
            },
            Line::Incomplete => {
                let mut rest: Vec<Vec<char>> = Vec::new();
                let mut j: usize = i;
                while j < input_lines.len()
                    invariant
                        i <= j <= input_lines.len(),
                        all == views(input_lines@),
                        views(rest@) == all.subrange(i as int, j as int),
                    decreases input_lines.len() - j,
                {
                    let copy = crate::text::slice(&input_lines[j], 0, input_lines[j].len());
                    proof {
                        assert(copy@ == all[j as int]);
                        assert(views(rest@.push(copy)) =~= views(rest@).push(copy@));
                        assert(all.subrange(i as int, j as int).push(all[j as int]) =~= all.subrange(
                            i as int,
                            j + 1,
                        ));
                    }
                    rest.push(copy);
                    j += 1;
                }
                assert(all.subrange(i as int, input_lines.len() as int) =~= all.skip(i as int));
                let sep = chars_of("\n");
                remainder = Some(string_of(&join(&rest, &sep)));
                assert(chunk_views(valid_chunks@) + Seq::<ChunkModel>::empty() =~= chunk_views(
                    valid_chunks@,
                ));
                open = false;
            },
            Line::Done => {
                assert(chunk_views(valid_chunks@) + Seq::<ChunkModel>::empty() =~= chunk_views(
                    valid_chunks@,
                ));
                open = false;
            },
            Line::Invalid => {
                let mut text = "no completion chunk: ".to_owned();
                text.append(line.as_str());
                return Err(Error::JsonParseError(text));
            },
        }
    }
    if open {
        assert(chunk_views(valid_chunks@) + Seq::<ChunkModel>::empty() =~= chunk_views(
            valid_chunks@,
        ));
    }
    let return_chunks = if valid_chunks.len() == 0 {
        None
    } else {
        Some(valid_chunks)
    };
    Ok((return_chunks, remainder))
}

/// Where the completions are asked for.
pub const OPENAI_URL: &'static str = "https://api.openai.com/v1/chat/completions";

/// How many items the channel of a reply holds before the sender waits.
pub const REPLY_CHANNEL_CAPACITY: usize = 100;

/// The channel of a reply is bounded: it holds at least 16 items and at
/// most 1024.
pub proof fn lemma_channel_is_bounded()
    ensures
        16 <= REPLY_CHANNEL_CAPACITY <= 1024,
{
}

/// What a client of the remote endpoint has to offer.
pub trait HttpClient: Sized {
    /// A client that is ready to send requests.
    fn init() -> Result<Self, Error>;
}

/// A client of the kind that is asked for, ready to send requests: what
/// the kind's own `init` gives. Whether there is one is for the kind to
/// say, so nothing is promised of the result.
pub fn create_client<T: HttpClient>() -> Result<T, Error> {
    T::init()
}

/// What is said when a reply is asked for in a thread whose last message
/// is not the user's.
pub const NOT_AFTER_USER: &'static str = "The most recent messege in the thread must be from a user";

/// Whether a reply can be asked for: the last message of the thread is the
/// user's.
pub open spec fn awaits_reply(t: crate::thread::ThreadModel) -> bool {
    t.messages.len() > 0 && t.messages.last().role == Role::User
}

/// The request for a reply to a thread. It is refused unless the last
/// message of the thread is the user's. The body of the request holds the
/// thread as it is sent.
pub fn stream_thread_reply(thread: &Thread) -> (r: Result<WireBody, Error>)
    requires
        thread.wf(),
    ensures
        r is Ok == awaits_reply(thread@),
        r matches Ok(body) ==> body.model@ == thread@.model.spec_label() && carries(
            body.messages@,
            wire_messages(thread@, wire_origins(thread@, 0)),
        ) && body.stream,
        r matches Err(e) ==> (e matches Error::Other(t) && t@ == NOT_AFTER_USER@),
{
    let ready = match thread.last_message() {
        Some(m) => m.is_user(),
        None => false,
    };
    if !ready {
        return Err(Error::Other(NOT_AFTER_USER.to_owned()));
    }
    Ok(thread.as_json_body())
}

/// The tokens that records yield, in order.
pub open spec fn tokens_of(records: Seq<ChunkModel>) -> Seq<Seq<char>>
    decreases records.len(),
{
    if records.len() == 0 {
        Seq::empty()
    } else {
        match token_of(records.last()) {
            Some(t) => tokens_of(records.drop_last()).push(t),
            None => tokens_of(records.drop_last()),
        }
    }
}

/// The items that are sent for tokens: each token as it is.
pub open spec fn sent(tokens: Seq<Seq<char>>) -> Seq<Option<Seq<char>>> {
    Seq::new(tokens.len(), |i: int| Some(tokens[i]))
}

/// What a sequence of channel items holds.
pub open spec fn item_views(items: Seq<Option<String>>) -> Seq<Option<Seq<char>>> {
    Seq::new(
        items.len(),
        |i: int|
            match items[i] {
                Some(t) => Some(t@),
                None => None,
            },
    )
}

/// The tokens that records yield, each as an item of the channel.
pub fn items_of(chunks: &Vec<CompletionChunk>) -> (r: Vec<Option<String>>)
    ensures
        item_views(r@) == sent(tokens_of(chunk_views(chunks@))),
{
    let mut out: Vec<Option<String>> = Vec::new();
    let mut i: usize = 0;
    let ghost all = chunk_views(chunks@);
    assert(all.take(0) == Seq::<ChunkModel>::empty());
    assert(item_views(out@) =~= sent(Seq::<Seq<char>>::empty()));
    while i < chunks.len()
        invariant
            i <= chunks.len(),
            all == chunk_views(chunks@),
            item_views(out@) == sent(tokens_of(all.take(i as int))),
        decreases chunks.len() - i,
    {
        proof {
            let after = all.take(i + 1);
            assert(after.drop_last() == all.take(i as int));
            assert(after.last() == chunks@[i as int]@);
        }
        match chunks[i].token() {
            Some(t) => {
                let ghost before = tokens_of(all.take(i as int));
                let item = Some(t);
                proof {
                    assert(item_views(out@.push(item)) =~= item_views(out@).push(Some(t@)));
                    assert(sent(before).push(Some(t@)) =~= sent(before.push(t@)));
                }
                out.push(item);
            },
            None => {},
        }
        i += 1;
    }
    assert(all.take(chunks.len() as int) == all);
    out
}

/// What has arrived of a reply and was not read yet.
#[derive(Debug, Clone)]
pub struct ReplyStream {
    buf: String,
}

impl View for ReplyStream {
    type V = Seq<char>;

    closed spec fn view(&self) -> Seq<char> {
        self.buf@
    }
}

/// What is left for the next piece once a piece of the stream was read.
pub open spec fn left_over(p: ParsedModel) -> Seq<char> {
    match p.remainder {
        Some(t) => t,
        None => Seq::empty(),
    }
}

/// What is said when a reply ends within a record.
pub const CUT_SHORT: &'static str = "the reply ended within a record";

impl ReplyStream {
    /// A stream of which nothing has arrived.
    pub fn new() -> (s: ReplyStream)
        ensures
            s@ == Seq::<char>::empty(),
    {
        ReplyStream { buf: String::new() }
    }

    /// Takes in the next piece of the reply. What was left of the pieces
    /// before and the new piece are read together; the result holds the
    /// tokens of the records found, each as an item for the channel, and
    /// what could not be read yet is kept for the next piece. If a line is no
    /// record, the whole fails and everything that arrived is kept.
    pub fn feed(&mut self, chunk: &str) -> (r: Result<Vec<Option<String>>, Error>)
        ensures
            r is Err == parsed(old(self)@ + chunk@).failed,
            r matches Err(e) ==> e is JsonParseError && final(self)@ == old(self)@ + chunk@,
            r matches Ok(items) ==> item_views(items@) == sent(
                tokens_of(parsed(old(self)@ + chunk@).records),
            ) && final(self)@ == left_over(parsed(old(self)@ + chunk@)),
    {
        self.buf.append(chunk);
        let (found, remainder) = match try_parse_chunks(self.buf.as_str()) {
            Ok(p) => p,
            Err(e) => {
                return Err(e);
            },
        };
        self.buf = match remainder {
            Some(t) => t,
            None => String::new(),
        };
        match found {
            Some(chunks) => Ok(items_of(&chunks)),
            None => {
                let out: Vec<Option<String>> = Vec::new();
                assert(item_views(out@) =~= sent(tokens_of(Seq::<ChunkModel>::empty())));
                Ok(out)
            },
        }
    }

    /// Ends the reply. If nothing is left unread, the result is the one
    /// item that ends the reply on the channel. If the reply ended within a
    /// record, it fails.
    pub fn finish(&self) -> (r: Result<Vec<Option<String>>, Error>)
        ensures
            r is Ok == (self@.len() == 0),
            r matches Ok(items) ==> item_views(items@) == seq![None::<Seq<char>>],
            r matches Err(e) ==> (e matches Error::ChannelError(t) && t@ == CUT_SHORT@),
    {
        if self.buf.as_str().is_empty() {
            let mut out: Vec<Option<String>> = Vec::new();
            out.push(None);
            assert(item_views(out@) =~= seq![None::<Seq<char>>]);
            Ok(out)
        } else {
            Err(Error::ChannelError(CUT_SHORT.to_owned()))
        }
    }
}

/// How far a reply has come: the tokens that were sent and what is left
/// unread.
pub struct Progress {
    pub tokens: Seq<Seq<char>>,
    pub left: Seq<char>,
}

/// The state of a reply after the given pieces arrived. There is none if a
/// piece failed.
pub open spec fn streamed(pieces: Seq<Seq<char>>) -> Option<Progress>
    decreases pieces.len(),
{
    if pieces.len() == 0 {
        Some(Progress { tokens: Seq::empty(), left: Seq::empty() })
    } else {
        match streamed(pieces.drop_last()) {
            Some(before) => {
                let p = parsed(before.left + pieces.last());
                if p.failed {
                    None
                } else {
                    Some(
                        Progress {
                            tokens: before.tokens + tokens_of(p.records),
                            left: left_over(p),
                        },
                    )
                }
            },
            None => None,
        }
    }
}

/// Everything that is sent on the channel of a reply whose body arrives in
/// the given pieces: the tokens in order and, last, the one item that ends
/// the reply. It fails if a piece fails or if the body ends within a record.
pub fn reply_items(pieces: &Vec<String>) -> (r: Result<Vec<Option<String>>, Error>)
    ensures
        r is Ok == (streamed(crate::lines::texts(pieces@)) matches Some(s) && s.left.len() == 0),
        r matches Ok(items) ==> item_views(items@) == sent(
            streamed(crate::lines::texts(pieces@))->0.tokens,
        ).push(None),
        r matches Ok(items) ==> items@.len() > 0 && items@.last() is None && forall|i: int|
            0 <= i < items@.len() - 1 ==> (#[trigger] items@[i]) is Some,
{
    let mut stream = ReplyStream::new();
    let mut out: Vec<Option<String>> = Vec::new();
    let mut i: usize = 0;
    let ghost all = crate::lines::texts(pieces@);
    assert(all.take(0) == Seq::<Seq<char>>::empty());
    assert(item_views(out@) =~= sent(Seq::<Seq<char>>::empty()));
    while i < pieces.len()
        invariant
            i <= pieces.len(),
            all == crate::lines::texts(pieces@),
            streamed(all.take(i as int)) is Some,
            streamed(all.take(i as int))->0.left == stream@,
            item_views(out@) == sent(streamed(all.take(i as int))->0.tokens),
        decreases pieces.len() - i,
    {
        proof {
            let after = all.take(i + 1);
            assert(after.drop_last() == all.take(i as int));
            assert(after.last() == pieces@[i as int]@);
        }
        let ghost before = streamed(all.take(i as int))->0.tokens;
        match stream.feed(pieces[i].as_str()) {
            Ok(items) => {
                let ghost added = tokens_of(parsed(old_left(all, i as int) + pieces@[i as int]@).records);
                let mut j: usize = 0;
                let ghost start = item_views(out@);
                while j < items.len()
                    invariant
                        j <= items.len(),
                        item_views(out@) == start + item_views(items@).take(j as int),
                    decreases items.len() - j,
                {
                    let item = match &items[j] {
                        Some(t) => Some(t.clone()),
                        None => None,
                    };
                    assert(item_views(out@.push(item)) =~= item_views(out@).push(
                        item_views(items@)[j as int],
                    ));
                    assert(item_views(items@).take(j + 1) =~= item_views(items@).take(j as int).push(
                        item_views(items@)[j as int],
                    ));
                    out.push(item);
                    j += 1;
                }
                assert(item_views(items@).take(items.len() as int) =~= item_views(items@));
                assert(sent(before) + sent(added) =~= sent(before + added));
            },
            Err(e) => {
                proof {
                    lemma_failed_stays(all, i + 1);
                }
                return Err(e);
            },
        }
        i += 1;
    }
    assert(all.take(pieces.len() as int) == all);
    match stream.finish() {
        Ok(_) => {
            assert(item_views(out@.push(None)) =~= item_views(out@).push(None));
            out.push(None);
            proof {
                let items = out@;
                assert forall|k: int| 0 <= k < items.len() - 1 implies (#[trigger] items[k]) is Some by {
                    assert(item_views(items)[k] is Some);
                }
            }
            Ok(out)
        },
        Err(e) => Err(e),
    }
}

/// What was left unread before the `i`th piece.
pub open spec fn old_left(pieces: Seq<Seq<char>>, i: int) -> Seq<char> {
    streamed(pieces.take(i))->0.left
}

/// Once a piece has failed, the reply has failed for good.
pub proof fn lemma_failed_stays(pieces: Seq<Seq<char>>, n: int)
    requires
        0 <= n <= pieces.len(),
        streamed(pieces.take(n)) is None,
    ensures
        streamed(pieces) is None,
    decreases pieces.len() - n,
{
    if n < pieces.len() {
        assert(pieces.take(n + 1).drop_last() == pieces.take(n));
        lemma_failed_stays(pieces, n + 1);
    } else {
        assert(pieces.take(n) == pieces);
    }
}

/// What is said when the reply to a request for a title holds no title.
pub const NO_TITLE: &'static str = "Could not parse JSON response";

/// The title in the reply to a request for one, given what the JSON reader
/// made of the reply: the text of the first choice's message.
pub open spec fn title_in(parsed: Result<Map<Seq<char>, NodeModel>, JsonFailure>) -> Option<Seq<char>> {
    match parsed {
        Ok(nodes) => match node_at(nodes, "/choices/0/message/content"@) {
            Some(NodeModel::Text(t)) => Some(t),
            _ => None,
        },
        Err(_) => None,
    }
}

/// The title in a JSON document that is the reply to a request for one.
pub fn title_from_value(v: &serde_json::Value) -> (r: Result<String, Error>)
    ensures
        r is Ok == title_in(Ok(json_nodes(*v))) is Some,
        r matches Ok(t) ==> t@ == title_in(Ok(json_nodes(*v)))->0,
        r matches Err(e) ==> (e matches Error::Other(t) && t@ == NO_TITLE@),
{
    match json_node(v, "/choices/0/message/content") {
        Some(JsonNode::Text(t)) => Ok(t),
        _ => Err(Error::Other(NO_TITLE.to_owned())),
    }
}

/// The title in the reply to a request for one. A reply that is no JSON
/// document, or that holds no text where the title is looked for, is
/// refused.
pub fn title_from_response(text: &str) -> (r: Result<String, Error>)
    ensures
        r is Ok == title_in(json_parsed(text@)) is Some,
        r matches Ok(t) ==> t@ == title_in(json_parsed(text@))->0,
        r matches Err(e) ==> e.detail() == NO_TITLE@ && (if json_parsed(text@) is Err {
            e is JsonParseError
        } else {
            e is Other
        }),
{
    match json_value(text) {
        Ok(v) => title_from_value(&v),
        Err(_) => Err(Error::JsonParseError(NO_TITLE.to_owned())),
    }
}

} // verus!
