//! One turn of a conversation, and the fenced code blocks found in its text.

use vstd::prelude::*;
use vstd::string::StringExecFns;

use crate::decimal::capped;
use crate::error::Error;
use crate::highlight::Highlighter;
use crate::highlight::StyledBlock;
use crate::highlight::holds_lines;
use crate::highlight::lines_hold;
use crate::highlight::styled_as;
use crate::lines::join;
use crate::lines::joined;
use crate::lines::lines;
use crate::lines::lines_of;
use crate::lines::texts;
use crate::lines::views;
use crate::render::DisplayLine;
use crate::render::Header;
use crate::render::RowModel;
use crate::render::CellModel;
use crate::render::Ink;
use crate::render::block_rows;
use crate::render::pad_of;
use crate::render::plain_cells;
use crate::render::SpanModel;
use crate::render::row_spans;
use crate::render::spans_of;
use crate::render::row_views;
use crate::render::segment;
use crate::render::segmented;
use crate::render::styled_rows;
use crate::render::display_views;
use crate::render::pad_cell;
use crate::render::show_block;
use crate::render::show_lines;
use crate::text::chars_of;
use crate::text::same;
use crate::text::slice;
use crate::text::starts_with;
use crate::text::string_of;
use crate::text::trim;
use crate::text::trimmed;

verus! {

/// Who wrote a message.
#[derive(Debug, Clone, Copy, PartialEq, Eq, Structural)]
pub enum Role {
    User,
    System,
    Assistant,
}

impl Role {
    /// The number that stands for the role in the store.
    pub open spec fn spec_to_num(self) -> nat {
        match self {
            Role::System => 1,
            Role::User => 2,
            Role::Assistant => 3,
        }
    }

    /// The name that stands for the role on the wire.
    pub open spec fn spec_wire_name(self) -> Seq<char> {
        match self {
            Role::System => "system"@,
            Role::User => "user"@,
            Role::Assistant => "assistant"@,
        }
    }

    /// The number that stands for the role in the store.
    pub fn to_num(&self) -> (n: usize)
        ensures
            n == self.spec_to_num(),
    {
        match self {
            Role::System => 1,
            Role::User => 2,
            Role::Assistant => 3,
        }
    }

    /// The role that a number of the store stands for. Any number but 1, 2
    /// and 3 is refused.
    pub fn from_num(num: usize) -> (r: Result<Role, Error>)
        ensures
            num == 1 ==> r == Ok::<Role, Error>(Role::System),
            num == 2 ==> r == Ok::<Role, Error>(Role::User),
            num == 3 ==> r == Ok::<Role, Error>(Role::Assistant),
            !(1 <= num <= 3) ==> (r matches Err(Error::Other(m)) && m@
                == "Role value must be 1, 2, or 3"@),
    {
        if num == 1 {
            Ok(Role::System)
        } else if num == 2 {
            Ok(Role::User)
        } else if num == 3 {
            Ok(Role::Assistant)
        } else {
            Err(Error::Other("Role value must be 1, 2, or 3".to_owned()))
        }
    }

    /// The header above a message of the role where no persona is known:
    /// the user in green, the assistant in blue, the system in bold magenta,
    /// each underlined.
    pub fn tui_display_header(&self) -> (h: Header)
        ensures
            h.text@ == match self {
                Role::User => "User"@,
                Role::Assistant => "Assistant"@,
                Role::System => "System"@,
            },
            h.color@ == match self {
                Role::User => "green"@,
                Role::Assistant => "blue"@,
                Role::System => "magenta"@,
            },
            h.bold == (*self == Role::System),
            h.underlined,
    {
        match self {
            Role::User => Header {
                text: "User".to_owned(),
                color: "green".to_owned(),
                bold: false,
                underlined: true,
            },
            Role::Assistant => Header {
                text: "Assistant".to_owned(),
                color: "blue".to_owned(),
                bold: false,
                underlined: true,
            },
            Role::System => Header {
                text: "System".to_owned(),
                color: "magenta".to_owned(),
                bold: true,
                underlined: true,
            },
        }
    }

    /// The name that stands for the role on the wire.
    pub fn wire_name(&self) -> (s: String)
        ensures
            s@ == self.spec_wire_name(),
    {
        match self {
            Role::System => "system".to_owned(),
            Role::User => "user".to_owned(),
            Role::Assistant => "assistant".to_owned(),
        }
    }
}

impl Default for Role {
    fn default() -> (r: Role)
        ensures
            r == Role::User,
    {
        Role::User
    }
}

/// Each role is found again by its number.
pub proof fn lemma_role_num_round_trip(role: Role)
    ensures
        1 <= role.spec_to_num() <= 3,
        forall|other: Role| other.spec_to_num() == role.spec_to_num() ==> other == role,
{
}

/// What stands in a message's text where a code block was taken out.
pub const BLOCK_MARKER: &'static str = "```__<BLOCK>__```";

/// The pattern of a fenced code block: three backticks, a language of word
/// characters or none, a line feed, the block's text, a line feed and three
/// backticks. The text is the shortest that lets the pattern match.
pub const FENCE_PATTERN: &'static str = "```(?<header>\\w+)?\\n(?<content>.*?)\\n```";

/// What `regex::Regex::split` yields for a haystack: the pieces of the
/// haystack that lie before, between and after the matches of the pattern, in
/// order. The pattern is compiled with `dot_matches_new_line`; the result is
/// `None` if it does not compile.
pub uninterp spec fn regex_gaps(pattern: Seq<char>, haystack: Seq<char>) -> Option<Seq<Seq<char>>>;

/// What `regex::Regex::captures_iter` yields for a haystack: for each match of
/// the pattern, in order, the text of the whole match and the text of its
/// first and of its second group, each `None` where the group took no part
/// in the match. The pattern is compiled with `dot_matches_new_line`; the
/// result is `None` if it does not compile.
pub uninterp spec fn regex_groups(pattern: Seq<char>, haystack: Seq<char>) -> Option<
    Seq<(Seq<char>, Option<Seq<char>>, Option<Seq<char>>)>,
>;

/// A match and its first two groups, by their text.
pub open spec fn group_texts(g: Seq<(String, Option<String>, Option<String>)>) -> Seq<
    (Seq<char>, Option<Seq<char>>, Option<Seq<char>>),
> {
    Seq::new(
        g.len(),
        |i: int|
            (
                g[i].0@,
                match g[i].1 {
                    Some(s) => Some(s@),
                    None => None,
                },
                match g[i].2 {
                    Some(s) => Some(s@),
                    None => None,
                },
            ),
    )
}

/// The text of each whole match.
pub open spec fn whole_texts(g: Seq<(Seq<char>, Option<Seq<char>>, Option<Seq<char>>)>) -> Seq<
    Seq<char>,
> {
    Seq::new(g.len(), |i: int| g[i].0)
}

/// The pieces in order, with the next of the texts `between` after each
/// piece but the last.
pub open spec fn woven(pieces: Seq<Seq<char>>, between: Seq<Seq<char>>) -> Seq<char>
    decreases pieces.len(),
{
    if pieces.len() == 0 {
        Seq::empty()
    } else if pieces.len() == 1 {
        pieces[0]
    } else {
        woven(pieces.drop_last(), between) + between[pieces.len() - 2] + pieces.last()
    }
}

/// Calls `regex::Regex::split`. The wrapper says that the pieces are those
/// that `regex_gaps` names, that the pattern compiles for splitting exactly
/// when it does for capturing, and that there is one piece more than there
/// are matches.
#[verifier::external_body]
fn split_by(pattern: &str, haystack: &str) -> (r: Option<Vec<String>>)
    ensures
        r is Some == regex_gaps(pattern@, haystack@) is Some,
        r is Some == regex_groups(pattern@, haystack@) is Some,
        r matches Some(g) ==> texts(g@) == regex_gaps(pattern@, haystack@)->0,
        r matches Some(g) ==> g@.len() == regex_groups(pattern@, haystack@)->0.len() + 1,
{
    match regex::RegexBuilder::new(pattern).dot_matches_new_line(true).build() {
        Ok(re) => Some(re.split(haystack).map(|s| s.to_owned()).collect()),
        Err(_) => None,
    }
}

/// Calls `regex::Regex::captures_iter`. The wrapper says that the matches
/// and their groups are those that `regex_groups` names, and that the
/// matches are what `regex::Regex::split` cuts the haystack at: the pieces
/// that `regex_gaps` names and the matches, taken in turn, make up the
/// haystack.
#[verifier::external_body]
fn captures_of(pattern: &str, haystack: &str) -> (r: Option<
    Vec<(String, Option<String>, Option<String>)>,
>)
    ensures
        r is Some == regex_groups(pattern@, haystack@) is Some,
        r matches Some(g) ==> group_texts(g@) == regex_groups(pattern@, haystack@)->0,
        r matches Some(g) ==> (regex_gaps(pattern@, haystack@) matches Some(gaps) && woven(
            gaps,
            whole_texts(group_texts(g@)),
        ) == haystack@),
{
    match regex::RegexBuilder::new(pattern).dot_matches_new_line(true).build() {
        Ok(re) => Some(
            re.captures_iter(haystack).map(
                |c|
                    (
                        c[0].to_owned(),
                        c.get(1).map(|m| m.as_str().to_owned()),
                        c.get(2).map(|m| m.as_str().to_owned()),
                    ),
            ).collect(),
        ),
        Err(_) => None,
    }
}

/// Calls `chrono::Utc::now` and reads the instant as milliseconds since the
/// Unix epoch. Nothing is promised of the result: it depends on the clock.
#[verifier::external_body]
pub(crate) fn now_millis() -> i64 {
    chrono::Utc::now().timestamp_millis()
}

/// What a fenced code block begins and ends with.
pub const FENCE: &'static str = "```";

/// Whether a text begins and ends with a fence.
pub open spec fn fenced(f: Seq<char>) -> bool {
    &&& f.len() >= FENCE@.len()
    &&& f.take(FENCE@.len() as int) == FENCE@
    &&& f.skip(f.len() - FENCE@.len()) == FENCE@
}

/// Whether the code blocks of a text can be told: the pattern of a fenced
/// code block can be used, and each match of it begins and ends with a
/// fence.
pub open spec fn usable(content: Seq<char>) -> bool {
    &&& regex_gaps(FENCE_PATTERN@, content) is Some
    &&& regex_groups(FENCE_PATTERN@, content) matches Some(g) && forall|i: int|
        0 <= i < g.len() ==> fenced(#[trigger] g[i].0)
}

/// The pieces of a message's text that lie outside its code blocks. Where
/// the code blocks cannot be told the whole text is one piece.
pub open spec fn fence_gaps(content: Seq<char>) -> Seq<Seq<char>> {
    if usable(content) {
        regex_gaps(FENCE_PATTERN@, content)->0
    } else {
        seq![content]
    }
}

/// The language and the text of each code block of a message's text.
pub open spec fn fence_groups(content: Seq<char>) -> Seq<(Option<Seq<char>>, Option<Seq<char>>)> {
    if usable(content) {
        let g = regex_groups(FENCE_PATTERN@, content)->0;
        Seq::new(g.len(), |i: int| (g[i].1, g[i].2))
    } else {
        Seq::empty()
    }
}

/// Each code block of a message's text as it stands there, with its fence.
pub open spec fn fences(content: Seq<char>) -> Seq<Seq<char>> {
    if usable(content) {
        whole_texts(regex_groups(FENCE_PATTERN@, content)->0)
    } else {
        Seq::empty()
    }
}

/// Whether each match begins and ends with a fence.
pub fn all_fenced(groups: &Vec<(String, Option<String>, Option<String>)>) -> (r: bool)
    ensures
        r == forall|i: int| 0 <= i < groups@.len() ==> fenced(#[trigger] group_texts(groups@)[i].0),
{
    let fence = chars_of(FENCE);
    proof {
        reveal_strlit("```");
    }
    let mut i: usize = 0;
    while i < groups.len()
        invariant
            i <= groups.len(),
            fence@ == FENCE@,
            fence@.len() == 3,
            forall|j: int| 0 <= j < i ==> fenced(#[trigger] group_texts(groups@)[j].0),
        decreases groups.len() - i,
    {
        let whole = chars_of(groups[i].0.as_str());
        assert(whole@ == group_texts(groups@)[i as int].0);
        if whole.len() < 3 || !starts_with(&whole, &fence) {
            return false;
        }
        let end = slice(&whole, whole.len() - 3, whole.len());
        assert(end@ =~= whole@.skip(whole@.len() - 3));
        if !same(&end, &fence) {
            return false;
        }
        i += 1;
    }
    true
}

/// A message's text with each code block replaced by the marker.
pub open spec fn marked_text(content: Seq<char>) -> Seq<char> {
    joined(fence_gaps(content), BLOCK_MARKER@)
}

/// What a code block is: its language, if the fence names one, and its text.
pub struct BlockModel {
    pub language: Option<Seq<char>>,
    pub content: Seq<char>,
}

/// The code block that a match of the fence pattern stands for.
pub open spec fn block_of(g: (Option<Seq<char>>, Option<Seq<char>>)) -> BlockModel {
    BlockModel {
        language: g.0,
        content: match g.1 {
            Some(c) => c,
            None => Seq::empty(),
        },
    }
}

/// The code blocks of a message's text, in order.
pub open spec fn blocks_of(content: Seq<char>) -> Seq<BlockModel> {
    Seq::new(fence_groups(content).len(), |i: int| block_of(fence_groups(content)[i]))
}

/// A fenced segment of a message's text.
#[derive(Debug, Clone, PartialEq, Eq)]
pub struct CodeBlock {
    pub language: Option<String>,
    pub content: String,
    /// The lines of the block as they were coloured, if they were.
    styled: Option<StyledBlock>,
}

impl View for CodeBlock {
    type V = BlockModel;

    closed spec fn view(&self) -> BlockModel {
        BlockModel {
            language: match self.language {
                Some(l) => Some(l@),
                None => None,
            },
            content: self.content@,
        }
    }
}

/// Whether a code block is what another has become when it was coloured
/// on the given background: it holds what the other held; where the other
/// was coloured, its coloured lines are those of the other; where not, it
/// has coloured lines, which hold the lines of its text, one symbol to a
/// cell, and stand on the background.
pub open spec fn block_coloured(before: CodeBlock, after: CodeBlock, background: Ink) -> bool {
    &&& after@ == before@
    &&& match before.cache() {
        Some(c) => after.cache() == Some(c),
        None => after.cache() matches Some(c) && styled_as(c, before@.content, background),
    }
}

/// Whether the code blocks are what the others have become, one by one,
/// when they were coloured on the given background.
pub open spec fn blocks_coloured(before: Seq<CodeBlock>, after: Seq<CodeBlock>, background: Ink) -> bool {
    &&& after.len() == before.len()
    &&& forall|i: int| 0 <= i < before.len() ==> block_coloured(before[i], #[trigger] after[i], background)
}

/// Whether a message is what another has become when its code blocks were
/// coloured on the given background.
pub open spec fn message_coloured(before: Message, after: Message, background: Ink) -> bool {
    &&& after@ == before@
    &&& blocks_coloured(before.blocks(), after.blocks(), background)
}

/// The models of a sequence of code blocks.
pub open spec fn block_views(blocks: Seq<CodeBlock>) -> Seq<BlockModel> {
    Seq::new(blocks.len(), |i: int| blocks[i]@)
}

impl CodeBlock {
    /// A code block with the given language and text. It is not coloured.
    pub fn new(language: Option<String>, content: String) -> (b: CodeBlock)
        ensures
            b@ == (BlockModel {
                language: match language {
                    Some(l) => Some(l@),
                    None => None,
                },
                content: content@,
            }),
            b.cache() is None,
    {
        CodeBlock { language, content, styled: None }
    }

    /// The language that the fence names, if it names one.
    pub fn language(&self) -> (r: Option<&str>)
        ensures
            r is Some == self@.language is Some,
            r matches Some(l) ==> l@ == self@.language->0,
    {
        match &self.language {
            Some(l) => Some(l.as_str()),
            None => None,
        }
    }

    /// The text of the block.
    pub fn content(&self) -> (r: &str)
        ensures
            r@ == self@.content,
    {
        self.content.as_str()
    }

    /// The lines of the block as they were coloured and the background
    /// they stand on, if the block was coloured.
    pub closed spec fn cache(&self) -> Option<StyledBlock> {
        self.styled
    }

    /// Whether the block was coloured.
    pub open spec fn coloured(&self) -> bool {
        self.cache() is Some
    }

    /// Whether the block is shown in its colours: whether it was coloured
    /// and the coloured lines hold the lines of its text.
    pub open spec fn shows_colours(&self) -> bool {
        self.cache() matches Some(c) && holds_lines(c, self@.content)
    }

    /// The cells of the lines of the block as they are shown: the coloured
    /// lines where the block is shown in its colours, else the symbols
    /// of its lines in the plain style.
    pub open spec fn shown_cells(&self) -> Seq<Seq<CellModel>> {
        if self.shows_colours() {
            row_views(self.cache()->0.lines@)
        } else {
            plain_cells(segmented(self@.content))
        }
    }

    /// The background of the block as it is shown: that of the theme where
    /// the block is shown in its colours, else none.
    pub open spec fn shown_background(&self) -> Ink {
        if self.shows_colours() {
            self.cache()->0.background
        } else {
            Ink::Plain
        }
    }

    /// Whether the block was coloured.
    pub fn is_styled(&self) -> (r: bool)
        ensures
            r == self.coloured(),
    {
        self.styled.is_some()
    }

    /// Colours the block by its syntax, anew if it was coloured before.
    /// What the block holds stays as it is. The coloured lines hold the
    /// lines of its text, one symbol to a cell, and stand on the
    /// background of the highlighter's theme, so the block is shown in its
    /// colours from now on.
    pub fn highlight(&mut self, highlighter: &Highlighter)
        ensures
            final(self)@ == old(self)@,
            final(self).cache() matches Some(c) && styled_as(
                c,
                old(self)@.content,
                highlighter.spec_background(),
            ),
            final(self).shows_colours(),
            final(self).shown_background() == highlighter.spec_background(),
    {
        let language = match &self.language {
            Some(l) => Some(l.as_str()),
            None => None,
        };
        let styled = highlighter.styled_lines(language, self.content.as_str());
        self.styled = Some(styled);
    }

    /// A copy of the block.
    pub fn duplicate(&self) -> (b: CodeBlock)
        ensures
            b@ == self@,
    {
        CodeBlock {
            language: match &self.language {
                Some(l) => Some(l.clone()),
                None => None,
            },
            content: self.content.clone(),
            styled: match &self.styled {
                Some(s) => Some(s.clone()),
                None => None,
            },
        }
    }

    /// The block as it stood in the message: between two fences, the first of
    /// which names the language.
    pub open spec fn spec_as_raw(b: BlockModel) -> Seq<char> {
        "```"@ + (match b.language {
            Some(l) => l,
            None => Seq::empty(),
        }) + "\n"@ + b.content + "\n```"@
    }

    /// The block as it stood in the message: between two fences, the first of
    /// which names the language.
    pub fn as_raw(&self) -> (r: String)
        ensures
            r@ == CodeBlock::spec_as_raw(self@),
    {
        let mut out = "```".to_owned();
        match &self.language {
            Some(l) => {
                out.append(l.as_str());
            },
            None => {
                assert(out@ + Seq::<char>::empty() == out@);
            },
        }
        out.append("\n");
        out.append(self.content.as_str());
        out.append("\n```");
        out
    }
}

/// The marker between each two neighbours of the given pieces.
pub fn mark_gaps(gaps: &Vec<String>) -> (r: String)
    ensures
        r@ == joined(texts(gaps@), BLOCK_MARKER@),
{
    let mut parts: Vec<Vec<char>> = Vec::new();
    let mut i: usize = 0;
    while i < gaps.len()
        invariant
            i <= gaps.len(),
            parts@.len() == i,
            forall|j: int| 0 <= j < i ==> parts@[j]@ == gaps@[j]@,
        decreases gaps.len() - i,
    {
        parts.push(chars_of(gaps[i].as_str()));
        i += 1;
    }
    assert(views(parts@) == texts(gaps@));
    let marker = chars_of(BLOCK_MARKER);
    string_of(&join(&parts, &marker))
}

/// The code blocks that the matches of the fence pattern stand for.
pub fn blocks_from(groups: Vec<(String, Option<String>, Option<String>)>) -> (r: Vec<CodeBlock>)
    ensures
        r@.len() == groups@.len(),
        forall|i: int|
            0 <= i < r@.len() ==> r@[i]@ == block_of(
                ((#[trigger] group_texts(groups@)[i]).1, group_texts(groups@)[i].2),
            ),
{
    let mut out: Vec<CodeBlock> = Vec::new();
    let mut i: usize = 0;
    while i < groups.len()
        invariant
            i <= groups.len(),
            out@.len() == i,
            forall|j: int|
                0 <= j < i ==> out@[j]@ == block_of(
                    ((#[trigger] group_texts(groups@)[j]).1, group_texts(groups@)[j].2),
                ),
        decreases groups.len() - i,
    {
        let language = match &groups[i].1 {
            Some(l) => Some(l.clone()),
            None => None,
        };
        let content = match &groups[i].2 {
            Some(c) => c.clone(),
            None => String::new(),
        };
        out.push(CodeBlock::new(language, content));
        i += 1;
    }
    out
}

/// What a message is: who wrote it, its text, when it was written, in
/// milliseconds since the Unix epoch, how many tokens the remote end counted
/// for it, and what was derived from the text.
pub struct MessageModel {
    pub role: Role,
    pub content: Seq<char>,
    pub timestamp: int,
    pub token_count: Option<nat>,
    pub code_blocks: Seq<BlockModel>,
    pub non_code_content: Seq<char>,
}

/// One turn of a conversation.
#[derive(Debug, Clone)]
pub struct Message {
    role: Role,
    content: String,
    /// Milliseconds since the Unix epoch, UTC.
    timestamp: i64,
    token_count: Option<usize>,
    code_blocks: Vec<CodeBlock>,
    non_code_content: String,
}

impl View for Message {
    type V = MessageModel;

    closed spec fn view(&self) -> MessageModel {
        MessageModel {
            role: self.role,
            content: self.content@,
            timestamp: self.timestamp as int,
            token_count: match self.token_count {
                Some(n) => Some(n as nat),
                None => None,
            },
            code_blocks: block_views(self.code_blocks@),
            non_code_content: self.non_code_content@,
        }
    }
}

/// Whether what was derived from a message's text is what the text gives:
/// the code blocks in order, and the text with a marker in place of each.
/// The pieces outside the code blocks and the code blocks with their
/// fences, taken in turn, make up the text.
pub open spec fn derived(m: MessageModel) -> bool {
    &&& m.code_blocks == blocks_of(m.content)
    &&& m.non_code_content == marked_text(m.content)
    &&& fence_gaps(m.content).len() == m.code_blocks.len() + 1
    &&& woven(fence_gaps(m.content), fences(m.content)) == m.content
}

impl Message {
    /// Whether the derived parts of the message agree with its text.
    pub open spec fn wf(&self) -> bool {
        derived(self@)
    }

    /// Who wrote the message.
    pub fn role(&self) -> (r: Role)
        ensures
            r == self@.role,
    {
        self.role
    }

    /// The text of the message.
    pub fn content(&self) -> (r: &str)
        ensures
            r@ == self@.content,
    {
        self.content.as_str()
    }

    /// How many tokens the remote end counted for the message, if it said so.
    pub fn token_count(&self) -> (r: Option<usize>)
        ensures
            r is Some == self@.token_count is Some,
            r matches Some(n) ==> self@.token_count == Some(n as nat),
    {
        self.token_count
    }

    /// The code blocks of the message, in the order in which they stand in
    /// its text.
    pub fn code_blocks(&self) -> (r: Vec<&CodeBlock>)
        ensures
            r@.len() == self@.code_blocks.len(),
            forall|i: int| 0 <= i < r@.len() ==> r@[i]@ == self@.code_blocks[i],
    {
        let mut out: Vec<&CodeBlock> = Vec::new();
        let mut i: usize = 0;
        while i < self.code_blocks.len()
            invariant
                i <= self.code_blocks.len(),
                out@.len() == i,
                forall|j: int| 0 <= j < i ==> out@[j]@ == self.code_blocks@[j]@,
            decreases self.code_blocks.len() - i,
        {
            out.push(&self.code_blocks[i]);
            i += 1;
        }
        out
    }

    /// The text of the message with a marker in place of each code block.
    pub fn non_code_content(&self) -> (r: &str)
        ensures
            r@ == self@.non_code_content,
    {
        self.non_code_content.as_str()
    }

    /// A message with the given writer, text and time.
    pub fn new(role: Role, content: &str, timestamp: i64) -> (m: Message)
        ensures
            m.wf(),
            m@.role == role,
            m@.content == content@,
            m@.timestamp == timestamp,
            m@.token_count is None,
    {
        let mut m = Message {
            role,
            content: content.to_owned(),
            timestamp,
            token_count: None,
            code_blocks: Vec::new(),
            non_code_content: String::new(),
        };
        m.update_blocks();
        m
    }

    /// A message of the user, written now.
    pub fn new_user(text: &str) -> (m: Message)
        ensures
            m.wf(),
            m@.role == Role::User,
            m@.content == text@,
            m@.token_count is None,
    {
        Message::new(Role::User, text, now_millis())
    }

    /// A message of the assistant, written now.
    pub fn new_asst(text: &str) -> (m: Message)
        ensures
            m.wf(),
            m@.role == Role::Assistant,
            m@.content == text@,
            m@.token_count is None,
    {
        Message::new(Role::Assistant, text, now_millis())
    }

    /// Appends `text` to the message and derives its code blocks anew.
    pub fn update(&mut self, text: &str)
        ensures
            final(self).wf(),
            final(self)@.content == old(self)@.content + text@,
            final(self)@.role == old(self)@.role,
            final(self)@.timestamp == old(self)@.timestamp,
            final(self)@.token_count == old(self)@.token_count,
    {
        self.content.append(text);
        self.update_blocks();
    }

    /// A message as the store holds it.
    pub fn new_from_db(role: Role, content: String, timestamp: i64, token_count: Option<usize>) -> (m:
        Message)
        ensures
            m.wf(),
            m@.role == role,
            m@.content == content@,
            m@.timestamp == timestamp,
            m@.token_count == match token_count {
                Some(n) => Some(n as nat),
                None => None,
            },
    {
        let mut m = Message::new(role, content.as_str(), timestamp);
        m.token_count = token_count;
        m
    }

    /// Dates the message at `earliest` if it was dated before that.
    pub fn not_before(&mut self, earliest: i64)
        ensures
            final(self)@ == (MessageModel {
                timestamp: if old(self)@.timestamp < earliest {
                    earliest as int
                } else {
                    old(self)@.timestamp
                },
                ..old(self)@
            }),
    {
        if self.timestamp < earliest {
            self.timestamp = earliest;
        }
    }

    /// When the message was written, in milliseconds since the Unix epoch.
    pub fn timestamp_millis(&self) -> (t: i64)
        ensures
            t == self@.timestamp,
    {
        self.timestamp
    }

    /// Whether the user wrote the message.
    pub fn is_user(&self) -> (b: bool)
        ensures
            b == (self@.role == Role::User),
    {
        self.role == Role::User
    }

    /// Whether the assistant wrote the message.
    pub fn is_assistant(&self) -> (b: bool)
        ensures
            b == (self@.role == Role::Assistant),
    {
        self.role == Role::Assistant
    }

    /// Whether the message is of the system.
    pub fn is_system(&self) -> (b: bool)
        ensures
            b == (self@.role == Role::System),
    {
        self.role == Role::System
    }

    /// Derives the code blocks and the marked text from the message's text.
    pub fn update_blocks(&mut self)
        ensures
            final(self).wf(),
            final(self)@.content == old(self)@.content,
            final(self)@.role == old(self)@.role,
            final(self)@.timestamp == old(self)@.timestamp,
            final(self)@.token_count == old(self)@.token_count,
    {
        let gaps = split_by(FENCE_PATTERN, self.content.as_str());
        let groups = match captures_of(FENCE_PATTERN, self.content.as_str()) {
            Some(c) => if all_fenced(&c) {
                Some(c)
            } else {
                None
            },
            None => None,
        };
        match (gaps, groups) {
            (Some(g), Some(c)) => {
                self.non_code_content = mark_gaps(&g);
                let ghost matches = group_texts(c@);
                self.code_blocks = blocks_from(c);
                assert(block_views(self.code_blocks@) =~= blocks_of(self.content@)) by {
                    assert forall|i: int| 0 <= i < self.code_blocks@.len() implies block_views(
                        self.code_blocks@,
                    )[i] == blocks_of(self.content@)[i] by {
                        assert(self.code_blocks@[i]@ == block_of((matches[i].1, matches[i].2)));
                    }
                }
            },
            _ => {
                self.non_code_content = self.content.clone();
                self.code_blocks = Vec::new();
                assert(block_views(self.code_blocks@) =~= blocks_of(self.content@));
            },
        }
    }

    /// The code blocks of the message, with what they keep of their
    /// colours.
    pub closed spec fn blocks(&self) -> Seq<CodeBlock> {
        self.code_blocks@
    }

    /// Whether every code block of the message was coloured.
    pub open spec fn coloured(&self) -> bool {
        forall|i: int| 0 <= i < self.blocks().len() ==> (#[trigger] self.blocks()[i]).coloured()
    }

    /// Whether every code block of the message was coloured.
    pub fn is_styled(&self) -> (r: bool)
        ensures
            r == self.coloured(),
    {
        let mut i: usize = 0;
        while i < self.code_blocks.len()
            invariant
                i <= self.code_blocks.len(),
                forall|j: int| 0 <= j < i ==> (#[trigger] self.code_blocks@[j]).coloured(),
            decreases self.code_blocks.len() - i,
        {
            if !self.code_blocks[i].is_styled() {
                assert(!self.blocks()[i as int].coloured());
                return false;
            }
            i += 1;
        }
        true
    }

    /// Colours the code blocks of the message that were not coloured yet,
    /// as `CodeBlock::highlight` does, and leaves the others as they are.
    /// What the message holds stays as it is.
    pub fn highlight(&mut self, highlighter: &Highlighter)
        ensures
            message_coloured(*old(self), *final(self), highlighter.spec_background()),
            final(self)@ == old(self)@,
            final(self).coloured(),
    {
        let mut i: usize = 0;
        while i < self.code_blocks.len()
            invariant
                i <= self.code_blocks.len(),
                forall|j: int| 0 <= j < i ==> (#[trigger] self.code_blocks@[j]).coloured(),
                forall|j: int|
                    0 <= j < i ==> block_coloured(
                        old(self).code_blocks@[j],
                        #[trigger] self.code_blocks@[j],
                        highlighter.spec_background(),
                    ),
                forall|j: int|
                    i <= j < self.code_blocks@.len() ==> (#[trigger] self.code_blocks@[j])
                        == old(self).code_blocks@[j],
                self.code_blocks@.len() == old(self).code_blocks@.len(),
                block_views(self.code_blocks@) == block_views(old(self).code_blocks@),
                self.role == old(self).role,
                self.content == old(self).content,
                self.timestamp == old(self).timestamp,
                self.token_count == old(self).token_count,
                self.non_code_content == old(self).non_code_content,
            decreases self.code_blocks.len() - i,
        {
            if !self.code_blocks[i].is_styled() {
                let ghost before = self.code_blocks@;
                self.code_blocks[i].highlight(highlighter);
                assert(block_views(self.code_blocks@) =~= block_views(before));
            }
            i += 1;
        }
    }

    /// How many lines of the marked text stand for a code block.
    pub fn marker_lines(&self) -> (r: usize)
        ensures
            r == marker_count(lines_of(self@.non_code_content)),
    {
        let text = lines(&chars_of(self.non_code_content.as_str()));
        let marker = chars_of(BLOCK_MARKER);
        let ghost all = views(text@);
        let mut count: usize = 0;
        let mut i: usize = 0;
        assert(all.take(0) == Seq::<Seq<char>>::empty());
        while i < text.len()
            invariant
                i <= text.len(),
                all == views(text@),
                marker@ == BLOCK_MARKER@,
                count == marker_count(all.take(i as int)),
                count <= i,
            decreases text.len() - i,
        {
            proof {
                let after = all.take(i + 1);
                assert(after.drop_last() == all.take(i as int));
                assert(after.last() == text@[i as int]@);
            }
            if same(&trim(&text[i]), &marker) {
                count += 1;
            }
            i += 1;
        }
        assert(all.take(text.len() as int) == all);
        count
    }

    /// How many code blocks of the message are shown: the first so many, as
    /// `shown_blocks` says.
    pub fn shown_count(&self) -> (r: usize)
        ensures
            r == shown_blocks(lines_of(self@.non_code_content), self@.code_blocks),
            r <= self@.code_blocks.len(),
    {
        let marked = self.marker_lines();
        if marked <= self.code_blocks.len() {
            marked
        } else {
            self.code_blocks.len()
        }
    }

    /// Whether the message shows all its code blocks: whether its marked
    /// text has exactly one line that stands for a code block for each of
    /// them.
    pub fn shows_all_blocks(&self) -> (r: bool)
        ensures
            r == (marker_count(lines_of(self@.non_code_content)) == self@.code_blocks.len()),
    {
        self.marker_lines() == self.code_blocks.len()
    }

    /// A copy of the message.
    pub fn duplicate(&self) -> (m: Message)
        ensures
            m@ == self@,
    {
        let mut blocks: Vec<CodeBlock> = Vec::new();
        let mut i: usize = 0;
        while i < self.code_blocks.len()
            invariant
                i <= self.code_blocks.len(),
                blocks@.len() == i,
                forall|j: int| 0 <= j < i ==> blocks@[j]@ == self.code_blocks@[j]@,
            decreases self.code_blocks.len() - i,
        {
            blocks.push(self.code_blocks[i].duplicate());
            i += 1;
        }
        assert(block_views(blocks@) =~= block_views(self.code_blocks@));
        Message {
            role: self.role,
            content: self.content.clone(),
            timestamp: self.timestamp,
            token_count: self.token_count,
            code_blocks: blocks,
            non_code_content: self.non_code_content.clone(),
        }
    }
}

/// What is derived from a message depends on its text alone: two messages
/// with the same text have the same code blocks and the same marked text.
pub proof fn lemma_derivation_is_a_function(a: Message, b: Message)
    requires
        a.wf(),
        b.wf(),
        a@.content == b@.content,
    ensures
        a@.code_blocks == b@.code_blocks,
        a@.non_code_content == b@.non_code_content,
{
}

/// The marked text of a message is its pieces outside the code blocks with
/// one marker between each two: as many markers were put in as there are
/// code blocks.
pub proof fn lemma_one_marker_per_block(m: Message)
    requires
        m.wf(),
    ensures
        m@.non_code_content == joined(fence_gaps(m@.content), BLOCK_MARKER@),
        fence_gaps(m@.content).len() == m@.code_blocks.len() + 1,
{
}

/// Pieces with one text between each two neighbours are the pieces woven
/// with that text.
pub proof fn lemma_joined_is_woven(pieces: Seq<Seq<char>>, sep: Seq<char>, between: Seq<Seq<char>>)
    requires
        between.len() + 1 >= pieces.len(),
        forall|i: int| 0 <= i < between.len() ==> between[i] == sep,
    ensures
        joined(pieces, sep) == woven(pieces, between),
    decreases pieces.len(),
{
    if pieces.len() > 1 {
        lemma_joined_is_woven(pieces.drop_last(), sep, between);
    }
}

/// The marked text of a message is its text with the marker in place of
/// each code block and its fence: the text is made up of the pieces
/// outside the code blocks and the fenced blocks between them, and the
/// marked text of the same pieces and a marker in place of each block.
pub proof fn lemma_marker_takes_the_place_of_each_block(m: Message)
    requires
        m.wf(),
    ensures
        fences(m@.content).len() == m@.code_blocks.len(),
        m@.content == woven(fence_gaps(m@.content), fences(m@.content)),
        m@.non_code_content == woven(
            fence_gaps(m@.content),
            Seq::new(m@.code_blocks.len(), |i: int| BLOCK_MARKER@),
        ),
{
    lemma_joined_is_woven(
        fence_gaps(m@.content),
        BLOCK_MARKER@,
        Seq::new(m@.code_blocks.len(), |i: int| BLOCK_MARKER@),
    );
}

/// The spans of each row of a code block as it is shown: those of its
/// cells cut to the width and filled up with spaces on its background,
/// and none for the line that shows its number.
pub open spec fn block_spans(b: CodeBlock, width: nat) -> Seq<Seq<SpanModel>> {
    styled_rows(b.shown_cells(), width, pad_of(b.shown_background())).push(Seq::empty())
}

impl CodeBlock {
    /// The block as it is shown: its lines cut to the width, and below
    /// them the number to copy it by. Each row of code is filled up to the
    /// width with spaces on the background of the block, and holds the
    /// cells of the block in spans of one style each.
    pub fn highlighted_text(&self, index: usize, line_width: u16) -> (r: Vec<DisplayLine>)
        ensures
            display_views(r@) == block_rows(self@.content, index as nat, line_width as nat),
            row_spans(r@) == block_spans(*self, line_width as nat),
    {
        match &self.styled {
            Some(styled) => {
                let wanted = segment(self.content.as_str());
                if lines_hold(&styled.lines, &wanted) {
                    let pad = pad_cell(styled.background);
                    return show_lines(&styled.lines, &pad, index, line_width as usize);
                }
            },
            None => {},
        }
        show_block(self.content.as_str(), index, line_width as usize)
    }
}

/// Whether a line of a message's marked text stands for a code block.
pub open spec fn is_marker(line: Seq<char>) -> bool {
    trimmed(line) == BLOCK_MARKER@
}

/// How many of the lines stand for a code block.
pub open spec fn marker_count(lines: Seq<Seq<char>>) -> nat
    decreases lines.len(),
{
    if lines.len() == 0 {
        0
    } else if is_marker(lines.last()) {
        marker_count(lines.drop_last()) + 1
    } else {
        marker_count(lines.drop_last())
    }
}

/// How many code blocks are shown of a message with the given lines: one
/// for each line that stands for a code block, as far as there are blocks.
pub open spec fn shown_blocks(lines: Seq<Seq<char>>, blocks: Seq<BlockModel>) -> nat {
    if marker_count(lines) <= blocks.len() {
        marker_count(lines)
    } else {
        blocks.len()
    }
}

/// The text of a message as it is shown. A line that stands for a code
/// block is replaced by the next block that was not shown yet, under the
/// next number from `start` on; where no block is left it is dropped. Any
/// other line is shown as it is.
pub open spec fn content_rows(
    lines: Seq<Seq<char>>,
    blocks: Seq<BlockModel>,
    start: nat,
    width: nat,
) -> Seq<RowModel>
    decreases lines.len(),
{
    if lines.len() == 0 {
        Seq::empty()
    } else {
        let front = content_rows(lines.drop_last(), blocks, start, width);
        let line = lines.last();
        let j = marker_count(lines.drop_last());
        if !is_marker(line) {
            front.push(RowModel::Plain(line))
        } else if j < blocks.len() {
            front + block_rows(blocks[j as int].content, capped(start + j), width)
        } else {
            front
        }
    }
}

/// The spans of each line of the text of a message as it is shown: those
/// of the rows of the code blocks that are shown, and none for any other
/// line.
pub open spec fn content_spans(lines: Seq<Seq<char>>, blocks: Seq<CodeBlock>, width: nat) -> Seq<
    Seq<SpanModel>,
>
    decreases lines.len(),
{
    if lines.len() == 0 {
        Seq::empty()
    } else {
        let front = content_spans(lines.drop_last(), blocks, width);
        let j = marker_count(lines.drop_last());
        if !is_marker(lines.last()) {
            front.push(Seq::empty())
        } else if j < blocks.len() {
            front + block_spans(blocks[j as int], width)
        } else {
            front
        }
    }
}

impl Message {
    /// The text of the message as it is shown, as `content_rows` says. The
    /// blocks are numbered from `index` on, and `index` is moved on by the
    /// number of blocks that are shown.
    pub fn formatted_content(&self, index: &mut usize, line_width: u16) -> (r: Vec<DisplayLine>)
        ensures
            display_views(r@) == content_rows(
                lines_of(self@.non_code_content),
                self@.code_blocks,
                *old(index) as nat,
                line_width as nat,
            ),
            *final(index) == capped(
                *old(index) as nat + shown_blocks(
                    lines_of(self@.non_code_content),
                    self@.code_blocks,
                ),
            ),
            row_spans(r@) == content_spans(
                lines_of(self@.non_code_content),
                self.blocks(),
                line_width as nat,
            ),
    {
        let text = lines(&chars_of(self.non_code_content.as_str()));
        let marker = chars_of(BLOCK_MARKER);
        let mut out: Vec<DisplayLine> = Vec::new();
        let mut block_index: usize = 0;
        let mut i: usize = 0;
        let ghost all = views(text@);
        let ghost blocks = block_views(self.code_blocks@);
        let ghost start = *index as nat;
        let ghost width = line_width as nat;
        assert(all.take(0) == Seq::<Seq<char>>::empty());
        assert(display_views(out@) =~= Seq::<RowModel>::empty());
        assert(row_spans(out@) =~= Seq::<Seq<SpanModel>>::empty());
        while i < text.len()
            invariant
                i <= text.len(),
                all == views(text@),
                blocks == block_views(self.code_blocks@),
                marker@ == BLOCK_MARKER@,
                width == line_width as nat,
                block_index == shown_blocks(all.take(i as int), blocks),
                *index == capped(start + block_index as nat),
                display_views(out@) == content_rows(all.take(i as int), blocks, start, width),
                row_spans(out@) == content_spans(all.take(i as int), self.code_blocks@, width),
            decreases text.len() - i,
        {
            let line = &text[i];
            proof {
                let after = all.take(i + 1);
                assert(after.drop_last() == all.take(i as int));
                assert(after.last() == line@);
            }
            if same(&trim(line), &marker) {
                if block_index < self.code_blocks.len() {
                    let rows = self.code_blocks[block_index].highlighted_text(*index, line_width);
                    assert(blocks[block_index as int] == self.code_blocks@[block_index as int]@);
                    let ghost before = display_views(out@);
                    let ghost spans_before = row_spans(out@);
                    let mut j: usize = 0;
                    while j < rows.len()
                        invariant
                            j <= rows.len(),
                            display_views(out@) == before + display_views(rows@).take(j as int),
                            row_spans(out@) == spans_before + row_spans(rows@).take(j as int),
                        decreases rows.len() - j,
                    {
                        let row = clone_line(&rows[j]);
                        assert(display_views(out@.push(row)) =~= display_views(out@).push(row@));
                        assert(display_views(rows@).take(j + 1) =~= display_views(rows@).take(
                            j as int,
                        ).push(rows@[j as int]@));
                        assert(row_spans(out@.push(row)) =~= row_spans(out@).push(spans_of(row)));
                        assert(row_spans(rows@).take(j + 1) =~= row_spans(rows@).take(j as int).push(
                            spans_of(rows@[j as int]),
                        ));
                        out.push(row);
                        j += 1;
                    }
                    assert(display_views(rows@).take(rows.len() as int) =~= display_views(rows@));
                    assert(row_spans(rows@).take(rows.len() as int) =~= row_spans(rows@));
                    block_index += 1;
                    if *index < usize::MAX {
                        *index += 1;
                    }
                }
            } else {
                let row = DisplayLine::Plain(string_of(line));
                assert(display_views(out@.push(row)) =~= display_views(out@).push(row@));
                assert(row_spans(out@.push(row)) =~= row_spans(out@).push(Seq::empty()));
                out.push(row);
            }
            i += 1;
        }
        assert(all.take(text.len() as int) == all);
        out
    }
}

/// A copy of a line of the history.
pub fn clone_line(line: &DisplayLine) -> (r: DisplayLine)
    ensures
        r@ == line@,
        spans_of(r) == spans_of(*line),
{
    match line {
        DisplayLine::Header(h) => DisplayLine::Header(
            crate::render::Header {
                text: h.text.clone(),
                color: h.color.clone(),
                bold: h.bold,
                underlined: h.underlined,
            },
        ),
        DisplayLine::Plain(s) => DisplayLine::Plain(s.clone()),
        DisplayLine::Code(spans) => {
            let mut out: Vec<crate::render::Span> = Vec::new();
            let mut i: usize = 0;
            while i < spans.len()
                invariant
                    i <= spans.len(),
                    out@.len() == i,
                    forall|j: int| 0 <= j < i ==> (#[trigger] out@[j])@ == spans@[j]@,
                decreases spans.len() - i,
            {
                out.push(crate::render::Span { text: spans[i].text.clone(), style: spans[i].style });
                i += 1;
            }
            assert(crate::render::span_views(out@) =~= crate::render::span_views(spans@));
            DisplayLine::Code(out)
        },
        DisplayLine::Annotation(n) => DisplayLine::Annotation(*n),
        DisplayLine::Blank => DisplayLine::Blank,
    }
}

/// Whether the fences of a message stand on lines of their own, by the
/// pieces of its text that lie outside its code blocks: before a code block
/// the text has ended with a line feed, unless the block begins the message;
/// after a code block the text goes on with a line feed, unless the block
/// ends the message; and no line of the text outside the blocks is the
/// marker.
pub open spec fn fences_on_own_lines(gaps: Seq<Seq<char>>) -> bool {
    &&& forall|i: int|
        0 <= i < gaps.len() - 1 ==> (#[trigger] gaps[i]).len() == 0 && i == 0 || gaps[i].len() > 0
            && gaps[i].last() == '\n'
    &&& forall|i: int|
        1 <= i < gaps.len() ==> (#[trigger] gaps[i]).len() == 0 && i == gaps.len() - 1
            || gaps[i].len() > 0 && gaps[i][0] == '\n'
    &&& forall|i: int| 0 <= i < gaps.len() ==> marker_count(lines_of(#[trigger] gaps[i])) == 0
}

/// The lines that stand for a code block among lines that are followed by
/// more lines are those among the ones and those among the others.
pub proof fn lemma_marker_count_add(x: Seq<Seq<char>>, y: Seq<Seq<char>>)
    ensures
        marker_count(x + y) == marker_count(x) + marker_count(y),
    decreases y.len(),
{
    if y.len() == 0 {
        assert(x + y =~= x);
    } else {
        lemma_marker_count_add(x, y.drop_last());
        assert((x + y).drop_last() =~= x + y.drop_last());
        assert((x + y).last() == y.last());
    }
}

/// The marker holds no line feed and no white space, so a line that holds
/// the marker and nothing else stands for a code block.
pub proof fn lemma_marker_is_a_marker()
    ensures
        BLOCK_MARKER@.len() == 17,
        forall|i: int| 0 <= i < BLOCK_MARKER@.len() ==> BLOCK_MARKER@[i] != '\n',
        BLOCK_MARKER@.last() == '`',
        is_marker(BLOCK_MARKER@),
        marker_count(seq![BLOCK_MARKER@]) == 1,
{
    reveal_strlit("```__<BLOCK>__```");
    let m = BLOCK_MARKER@;
    crate::text::lemma_leading_ws(m, 0);
    crate::text::lemma_trailing_ws(m, m.len() as int);
    assert(trimmed(m) =~= m);
    assert(seq![m].drop_last() =~= Seq::<Seq<char>>::empty());
    assert(seq![m].last() == m);
    assert(marker_count(Seq::<Seq<char>>::empty()) == 0);
}

/// The marker, followed by text that goes on with a line feed or is at its
/// end, is one line that stands for a code block, and then the lines of
/// the text.
pub proof fn lemma_marker_line(g: Seq<char>)
    requires
        g.len() == 0 || g[0] == '\n',
        marker_count(lines_of(g)) == 0,
    ensures
        marker_count(lines_of(BLOCK_MARKER@ + g)) == 1,
{
    lemma_marker_is_a_marker();
    let m = BLOCK_MARKER@;
    crate::lines::lemma_lines_of_partial(m, g);
    crate::lines::lemma_first_newline_is_first(g);
    if g.len() == 0 {
        assert(m + g =~= m);
        crate::lines::lemma_first_newline(g, 0);
    } else {
        crate::lines::lemma_first_newline(g, 0);
        assert(g.take(0) =~= Seq::<char>::empty());
        assert(m + g.take(0) =~= m);
        assert(crate::lines::without_cr(m) == m);
        let rest = lines_of(g.skip(1));
        // the text begins with an empty line, which stands for no block
        let empty = Seq::<char>::empty();
        assert(crate::lines::without_cr(empty) == empty);
        assert(lines_of(g) == seq![empty] + rest);
        lemma_marker_count_add(seq![empty], rest);
        lemma_marker_count_add(seq![m], rest);
        assert(marker_count(rest) == 0);
    }
}

/// Where the fences stand on lines of their own, the text with a marker in
/// place of each code block has one line that stands for a code block for
/// each of the blocks.
pub proof fn lemma_markers_on_own_lines(gaps: Seq<Seq<char>>)
    requires
        gaps.len() > 0,
        fences_on_own_lines(gaps),
    ensures
        marker_count(lines_of(joined(gaps, BLOCK_MARKER@))) == gaps.len() - 1,
    decreases gaps.len(),
{
    if gaps.len() > 1 {
        let front = gaps.drop_last();
        let g = gaps.last();
        let m = BLOCK_MARKER@;
        assert(fences_on_own_lines(front)) by {
            assert forall|i: int| 0 <= i < front.len() - 1 implies (#[trigger] front[i]).len() == 0
                && i == 0 || front[i].len() > 0 && front[i].last() == '\n' by {
                assert(front[i] == gaps[i]);
            }
            assert forall|i: int| 1 <= i < front.len() implies (#[trigger] front[i]).len() == 0
                && i == front.len() - 1 || front[i].len() > 0 && front[i][0] == '\n' by {
                assert(front[i] == gaps[i]);
            }
            assert forall|i: int| 0 <= i < front.len() implies marker_count(
                lines_of(#[trigger] front[i]),
            ) == 0 by {
                assert(front[i] == gaps[i]);
            }
        }
        lemma_markers_on_own_lines(front);
        let before = joined(front, m);
        assert(joined(gaps, m) =~= before + (m + g));
        // what stands before the marker has ended with a line feed
        let last_gap = gaps[gaps.len() - 2];
        assert(front.last() == last_gap);
        if front.len() == 1 {
            assert(before == last_gap);
        } else {
            assert(last_gap.len() > 0);
            assert(before =~= joined(front.drop_last(), m) + m + last_gap);
            assert(before.last() == last_gap.last());
        }
        assert(gaps[gaps.len() - 1] == g);
        crate::lines::lemma_lines_after_newline(before, m + g);
        lemma_marker_line(g);
        lemma_marker_count_add(lines_of(before), lines_of(m + g));
    } else {
        assert(joined(gaps, BLOCK_MARKER@) == gaps[0]);
    }
}

/// In a message whose fences stand on lines of their own, the marked text
/// has exactly one line that stands for a code block for each code block:
/// the count of the markers equals the number of the blocks.
pub proof fn lemma_marker_lines_match_blocks(m: Message)
    requires
        m.wf(),
        fences_on_own_lines(fence_gaps(m@.content)),
    ensures
        marker_count(lines_of(m@.non_code_content)) == m@.code_blocks.len(),
        shown_blocks(lines_of(m@.non_code_content), m@.code_blocks) == m@.code_blocks.len(),
{
    lemma_markers_on_own_lines(fence_gaps(m@.content));
}

} // verus!
