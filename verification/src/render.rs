//! Rows of styled text: how a line of code is cut to the width of the
//! window and how neighbouring cells of one style become one span.

use vstd::prelude::*;
use vstd::string::StringExecFns;

use crate::lines::lines;
use crate::lines::lines_of;
use crate::lines::one_line;
use crate::lines::texts;
use crate::text::chars_of;
use crate::text::str_eq;
use crate::text::string_of;

verus! {

/// A colour of text or of its background.
#[derive(Debug, Clone, Copy, PartialEq, Eq, Structural)]
pub enum Ink {
    /// The colour that the terminal uses where none is set.
    Plain,
    Rgb(u8, u8, u8),
}

/// How a piece of text is shown.
#[derive(Debug, Clone, Copy, PartialEq, Eq, Structural)]
pub struct Style {
    pub fg: Ink,
    pub bg: Ink,
    pub bold: bool,
    pub italic: bool,
    pub underlined: bool,
}

impl Style {
    /// The style of text that nothing was set for.
    pub open spec fn spec_plain() -> Style {
        Style { fg: Ink::Plain, bg: Ink::Plain, bold: false, italic: false, underlined: false }
    }

    /// The style of text that nothing was set for.
    pub fn plain() -> (s: Style)
        ensures
            s == Style::spec_plain(),
    {
        Style { fg: Ink::Plain, bg: Ink::Plain, bold: false, italic: false, underlined: false }
    }
}

/// What stands in one cell of the screen: a symbol and its style.
#[derive(Debug, Clone, PartialEq, Eq)]
pub struct Cell {
    pub symbol: String,
    pub style: Style,
}

/// What a cell holds.
pub struct CellModel {
    pub symbol: Seq<char>,
    pub style: Style,
}

impl View for Cell {
    type V = CellModel;

    open spec fn view(&self) -> CellModel {
        CellModel { symbol: self.symbol@, style: self.style }
    }
}

impl Cell {
    /// A copy of the cell.
    pub fn duplicate(&self) -> (c: Cell)
        ensures
            c@ == self@,
    {
        Cell { symbol: self.symbol.clone(), style: self.style }
    }
}

/// A run of text in one style.
#[derive(Debug, Clone, PartialEq, Eq)]
pub struct Span {
    pub text: String,
    pub style: Style,
}

/// What a span holds.
pub struct SpanModel {
    pub text: Seq<char>,
    pub style: Style,
}

impl View for Span {
    type V = SpanModel;

    open spec fn view(&self) -> SpanModel {
        SpanModel { text: self.text@, style: self.style }
    }
}

/// What a sequence of spans holds.
pub open spec fn span_views(spans: Seq<Span>) -> Seq<SpanModel> {
    Seq::new(spans.len(), |i: int| spans[i]@)
}

/// What a sequence of cells holds.
pub open spec fn cell_views(cells: Seq<Cell>) -> Seq<CellModel> {
    Seq::new(cells.len(), |i: int| cells[i]@)
}

/// What a sequence of rows of cells holds.
pub open spec fn row_views(rows: Seq<Vec<Cell>>) -> Seq<Seq<CellModel>> {
    Seq::new(rows.len(), |i: int| cell_views(rows[i]@))
}

/// What `ratatui::text::Span::styled_graphemes` cuts a text into: the
/// symbols of the text, each of them what stands in one cell of the
/// screen.
pub uninterp spec fn grapheme_pieces(text: Seq<char>) -> Seq<Seq<char>>;

/// The symbols, one after the other.
pub open spec fn flat_text(parts: Seq<Seq<char>>) -> Seq<char>
    decreases parts.len(),
{
    if parts.len() == 0 {
        Seq::empty()
    } else {
        flat_text(parts.drop_last()) + parts.last()
    }
}

/// Calls `ratatui::text::Span::styled_graphemes` on the text as a span of
/// its own and takes the symbol of each piece. The wrapper says that the
/// symbols are those that `grapheme_pieces` names, and that the symbols of
/// a text without a line feed make up the text: the span is cut where one
/// extended grapheme cluster ends and the next begins, and only a piece
/// that is a line feed is left out.
#[verifier::external_body]
pub(crate) fn graphemes_of(text: &str) -> (r: Vec<String>)
    ensures
        texts(r@) == grapheme_pieces(text@),
        one_line(text@) ==> flat_text(texts(r@)) == text@,
{
    ratatui::text::Span::raw(text).styled_graphemes(ratatui::style::Style::default()).map(
        |g| g.symbol.to_owned(),
    ).collect()
}

/// The cells of symbols in one style, one cell for each symbol.
pub open spec fn cells_of(symbols: Seq<Seq<char>>, style: Style) -> Seq<CellModel> {
    Seq::new(symbols.len(), |i: int| CellModel { symbol: symbols[i], style })
}

/// The cells of symbols in one style, one cell for each symbol.
pub fn cells(symbols: &Vec<String>, style: Style) -> (r: Vec<Cell>)
    ensures
        cell_views(r@) == cells_of(texts(symbols@), style),
{
    let mut out: Vec<Cell> = Vec::new();
    let mut i: usize = 0;
    while i < symbols.len()
        invariant
            i <= symbols.len(),
            out@.len() == i,
            forall|j: int|
                0 <= j < i ==> (#[trigger] out@[j])@ == (CellModel { symbol: symbols@[j]@, style }),
        decreases symbols.len() - i,
    {
        out.push(Cell { symbol: symbols[i].clone(), style });
        i += 1;
    }
    assert(cell_views(out@) =~= cells_of(texts(symbols@), style));
    out
}

/// A row filled up to the width with the given cell.
pub open spec fn padded(row: Seq<CellModel>, width: nat, pad: CellModel) -> Seq<CellModel> {
    if row.len() >= width {
        row
    } else {
        row + Seq::new((width - row.len()) as nat, |i: int| pad)
    }
}

/// A line cut into rows of exactly `width` cells. The last row is filled up
/// with `pad`. A line without cells has no row, and there is no row of no
/// width.
pub open spec fn wrapped(line: Seq<CellModel>, width: nat, pad: CellModel) -> Seq<Seq<CellModel>>
    decreases line.len(),
{
    if line.len() == 0 || width == 0 {
        Seq::empty()
    } else if line.len() <= width {
        seq![padded(line, width, pad)]
    } else {
        seq![line.take(width as int)] + wrapped(line.skip(width as int), width, pad)
    }
}

/// Every row of a wrapped line has exactly the width.
pub proof fn lemma_wrapped_rows(line: Seq<CellModel>, width: nat, pad: CellModel)
    ensures
        forall|i: int|
            0 <= i < wrapped(line, width, pad).len() ==> (#[trigger] wrapped(line, width, pad)[i]).len()
                == width,
    decreases line.len(),
{
    if !(line.len() == 0 || width == 0) {
        if line.len() > width {
            lemma_wrapped_rows(line.skip(width as int), width, pad);
            let rest = wrapped(line.skip(width as int), width, pad);
            let all = wrapped(line, width, pad);
            assert forall|i: int| 0 <= i < all.len() implies (#[trigger] all[i]).len() == width by {
                if i > 0 {
                    assert(all[i] == rest[i - 1]);
                }
            }
        } else {
            assert(wrapped(line, width, pad)[0].len() == width);
        }
    }
}

/// A line cut into rows of exactly `width` cells, the last of them filled
/// up with `pad`.
pub fn wrap(line: &Vec<Cell>, width: usize, pad: &Cell) -> (r: Vec<Vec<Cell>>)
    ensures
        row_views(r@) == wrapped(cell_views(line@), width as nat, pad@),
{
    let mut out: Vec<Vec<Cell>> = Vec::new();
    let ghost all = cell_views(line@);
    if width == 0 || line.len() == 0 {
        assert(row_views(out@) =~= Seq::<Seq<CellModel>>::empty());
        return out;
    }
    let mut start: usize = 0;
    assert(all.skip(0) == all);
    assert(row_views(out@) + wrapped(all, width as nat, pad@) =~= wrapped(all, width as nat, pad@));
    while line.len() - start > width
        invariant
            start < line.len(),
            width > 0,
            all == cell_views(line@),
            row_views(out@) + wrapped(all.skip(start as int), width as nat, pad@) == wrapped(
                all,
                width as nat,
                pad@,
            ),
        decreases line.len() - start,
    {
        let mut row: Vec<Cell> = Vec::new();
        let mut j: usize = 0;
        while j < width
            invariant
                j <= width,
                start + width < line.len(),
                all == cell_views(line@),
                cell_views(row@) == all.subrange(start as int, start + j),
            decreases width - j,
        {
            let c = line[start + j].duplicate();
            assert(cell_views(row@.push(c)) =~= cell_views(row@).push(c@));
            assert(all.subrange(start as int, start + j + 1) =~= all.subrange(
                start as int,
                start + j,
            ).push(all[start + j]));
            row.push(c);
            j += 1;
        }
        proof {
            let rest = all.skip(start as int);
            let r = cell_views(row@);
            assert(rest.take(width as int) =~= r);
            assert(rest.skip(width as int) =~= all.skip(start + width));
            assert(row_views(out@.push(row)) =~= row_views(out@).push(r));
            assert(row_views(out@).push(r) + wrapped(all.skip(start + width), width as nat, pad@)
                =~= row_views(out@) + (seq![r] + wrapped(
                all.skip(start + width),
                width as nat,
                pad@,
            )));
        }
        out.push(row);
        start += width;
    }
    let mut row: Vec<Cell> = Vec::new();
    let mut j: usize = start;
    while j < line.len()
        invariant
            start <= j <= line.len(),
            all == cell_views(line@),
            cell_views(row@) == all.subrange(start as int, j as int),
        decreases line.len() - j,
    {
        let c = line[j].duplicate();
        assert(cell_views(row@.push(c)) =~= cell_views(row@).push(c@));
        assert(all.subrange(start as int, j + 1) =~= all.subrange(start as int, j as int).push(
            all[j as int],
        ));
        row.push(c);
        j += 1;
    }
    let ghost last = all.skip(start as int);
    assert(cell_views(row@) =~= last);
    while row.len() < width
        invariant
            last.len() <= row@.len() <= width,
            cell_views(row@) == last + Seq::new((row@.len() - last.len()) as nat, |i: int| pad@),
        decreases width - row.len(),
    {
        let c = pad.duplicate();
        assert(cell_views(row@.push(c)) =~= cell_views(row@).push(c@));
        assert(cell_views(row@).push(pad@) =~= last + Seq::new(
            (row@.len() + 1 - last.len()) as nat,
            |i: int| pad@,
        ));
        row.push(c);
    }
    proof {
        let r = cell_views(row@);
        assert(r =~= padded(last, width as nat, pad@));
        assert(row_views(out@.push(row)) =~= row_views(out@).push(r));
        assert(row_views(out@).push(r) =~= row_views(out@) + seq![r]);
    }
    out.push(row);
    out
}

/// The spans of a row: each run of neighbouring cells of one style is one
/// span, with the symbols of the cells as its text.
pub open spec fn coalesced(row: Seq<CellModel>) -> Seq<SpanModel>
    decreases row.len(),
{
    if row.len() == 0 {
        Seq::empty()
    } else {
        let front = coalesced(row.drop_last());
        let c = row.last();
        if front.len() > 0 && front.last().style == c.style {
            front.drop_last().push(SpanModel { text: front.last().text + c.symbol, style: c.style })
        } else {
            front.push(SpanModel { text: c.symbol, style: c.style })
        }
    }
}

/// The spans of a row: each run of neighbouring cells of one style is one
/// span.
pub fn coalesce_graphemes(row: &Vec<Cell>) -> (r: Vec<Span>)
    ensures
        span_views(r@) == coalesced(cell_views(row@)),
{
    let mut out: Vec<Span> = Vec::new();
    let mut i: usize = 0;
    let ghost all = cell_views(row@);
    assert(all.take(0) == Seq::<CellModel>::empty());
    assert(span_views(out@) =~= Seq::<SpanModel>::empty());
    while i < row.len()
        invariant
            i <= row.len(),
            all == cell_views(row@),
            span_views(out@) == coalesced(all.take(i as int)),
        decreases row.len() - i,
    {
        let c = &row[i];
        proof {
            let after = all.take(i + 1);
            assert(after.drop_last() == all.take(i as int));
            assert(after.last() == c@);
        }
        let n = out.len();
        let joins = n > 0 && out[n - 1].style == c.style;
        if joins {
            let ghost before = span_views(out@);
            let mut last = out.pop().unwrap();
            assert(span_views(out@) =~= before.drop_last());
            assert(last@ == before.last());
            last.text.append(c.symbol.as_str());
            assert(span_views(out@.push(last)) =~= span_views(out@).push(last@));
            out.push(last);
        } else {
            let span = Span { text: c.symbol.clone(), style: c.style };
            assert(span_views(out@.push(span)) =~= span_views(out@).push(span@));
            out.push(span);
        }
        i += 1;
    }
    assert(all.take(row.len() as int) == all);
    out
}

/// The symbols of the cells, one after the other.
pub open spec fn glyphs(cells: Seq<CellModel>) -> Seq<char>
    decreases cells.len(),
{
    if cells.len() == 0 {
        Seq::empty()
    } else {
        glyphs(cells.drop_last()) + cells.last().symbol
    }
}

/// The texts of the spans, one after the other.
pub open spec fn span_text(spans: Seq<SpanModel>) -> Seq<char>
    decreases spans.len(),
{
    if spans.len() == 0 {
        Seq::empty()
    } else {
        span_text(spans.drop_last()) + spans.last().text
    }
}

/// The symbol of each cell.
pub open spec fn symbols(cells: Seq<CellModel>) -> Seq<Seq<char>> {
    Seq::new(cells.len(), |i: int| cells[i].symbol)
}

/// The symbols of the cells, one after the other, are their glyphs.
pub proof fn lemma_glyphs_are_symbols(cells: Seq<CellModel>)
    ensures
        glyphs(cells) == flat_text(symbols(cells)),
    decreases cells.len(),
{
    if cells.len() > 0 {
        lemma_glyphs_are_symbols(cells.drop_last());
        assert(symbols(cells).drop_last() =~= symbols(cells.drop_last()));
    }
}

/// The spans of a row hold the symbols of its cells.
pub proof fn lemma_coalesced_text(row: Seq<CellModel>)
    ensures
        span_text(coalesced(row)) == glyphs(row),
    decreases row.len(),
{
    if row.len() > 0 {
        let front = coalesced(row.drop_last());
        let c = row.last();
        lemma_coalesced_text(row.drop_last());
        if front.len() > 0 && front.last().style == c.style {
            let joined = front.drop_last().push(
                SpanModel { text: front.last().text + c.symbol, style: c.style },
            );
            assert(joined.drop_last() =~= front.drop_last());
            assert(span_text(front.drop_last()) + (front.last().text + c.symbol) =~= (span_text(
                front.drop_last(),
            ) + front.last().text) + c.symbol);
        } else {
            let added = front.push(SpanModel { text: c.symbol, style: c.style });
            assert(added.drop_last() =~= front);
        }
    }
}

/// The symbols of cells followed by more cells are the symbols of the ones
/// and then those of the others.
pub proof fn lemma_glyphs_add(a: Seq<CellModel>, b: Seq<CellModel>)
    ensures
        glyphs(a + b) == glyphs(a) + glyphs(b),
    decreases b.len(),
{
    if b.len() == 0 {
        assert(a + b =~= a);
        assert(glyphs(a) + glyphs(b) =~= glyphs(a));
    } else {
        lemma_glyphs_add(a, b.drop_last());
        assert((a + b).drop_last() =~= a + b.drop_last());
        assert((a + b).last() == b.last());
        assert((glyphs(a) + glyphs(b.drop_last())) + b.last().symbol =~= glyphs(a) + (glyphs(
            b.drop_last(),
        ) + b.last().symbol));
    }
}

/// A text of `n` spaces.
pub open spec fn spaces(n: nat) -> Seq<char> {
    Seq::new(n, |i: int| ' ')
}

/// A line of symbols cut into rows of exactly `width` symbols, each row as
/// the text of its symbols. The last row is filled up with spaces. An
/// empty line has no row, and there is no row of no width.
pub open spec fn text_rows(line: Seq<Seq<char>>, width: nat) -> Seq<Seq<char>>
    decreases line.len(),
{
    if line.len() == 0 || width == 0 {
        Seq::empty()
    } else if line.len() <= width {
        seq![flat_text(line) + spaces((width - line.len()) as nat)]
    } else {
        seq![flat_text(line.take(width as int))] + text_rows(line.skip(width as int), width)
    }
}

/// The symbols of each of the rows.
pub open spec fn row_glyphs(rows: Seq<Seq<CellModel>>) -> Seq<Seq<char>> {
    Seq::new(rows.len(), |i: int| glyphs(rows[i]))
}

/// The symbols of `n` cells that hold a space each are `n` spaces.
pub proof fn lemma_glyphs_of_pad(n: nat, pad: CellModel)
    requires
        pad.symbol == seq![' '],
    ensures
        glyphs(Seq::new(n, |i: int| pad)) == spaces(n),
    decreases n,
{
    let cells = Seq::new(n, |i: int| pad);
    if n > 0 {
        lemma_glyphs_of_pad((n - 1) as nat, pad);
        assert(cells.drop_last() =~= Seq::new((n - 1) as nat, |i: int| pad));
        assert(cells.last() == pad);
        assert(spaces((n - 1) as nat) + seq![' '] =~= spaces(n));
    } else {
        assert(spaces(0) =~= Seq::<char>::empty());
    }
}

/// Cells are cut into rows as their symbols are: the rows of the cells
/// hold the rows of the symbols.
pub proof fn lemma_wrapped_text(line: Seq<CellModel>, width: nat, pad: CellModel)
    requires
        pad.symbol == seq![' '],
    ensures
        row_glyphs(wrapped(line, width, pad)) == text_rows(symbols(line), width),
    decreases line.len(),
{
    let syms = symbols(line);
    if line.len() == 0 || width == 0 {
        assert(row_glyphs(wrapped(line, width, pad)) =~= Seq::<Seq<char>>::empty());
    } else if line.len() <= width {
        let fill = Seq::new((width - line.len()) as nat, |i: int| pad);
        lemma_glyphs_add(line, fill);
        lemma_glyphs_of_pad((width - line.len()) as nat, pad);
        lemma_glyphs_are_symbols(line);
        assert(padded(line, width, pad) =~= line + fill);
        assert(row_glyphs(seq![padded(line, width, pad)]) =~= seq![glyphs(line + fill)]);
    } else {
        let first = line.take(width as int);
        let rest = line.skip(width as int);
        lemma_glyphs_are_symbols(first);
        lemma_wrapped_text(rest, width, pad);
        assert(symbols(first) =~= syms.take(width as int));
        assert(symbols(rest) =~= syms.skip(width as int));
        let rows = wrapped(rest, width, pad);
        assert(row_glyphs(seq![first] + rows) =~= seq![glyphs(first)] + row_glyphs(rows));
    }
}

/// How the header above a message is shown.
#[derive(Debug, Clone, PartialEq, Eq)]
pub struct Header {
    pub text: String,
    /// The name of the colour of the text.
    pub color: String,
    pub bold: bool,
    pub underlined: bool,
}

/// What a header holds.
pub struct HeaderModel {
    pub text: Seq<char>,
    pub color: Seq<char>,
    pub bold: bool,
    pub underlined: bool,
}

impl View for Header {
    type V = HeaderModel;

    open spec fn view(&self) -> HeaderModel {
        HeaderModel {
            text: self.text@,
            color: self.color@,
            bold: self.bold,
            underlined: self.underlined,
        }
    }
}

/// One line of the history as it is shown.
#[derive(Debug, Clone, PartialEq, Eq)]
pub enum DisplayLine {
    /// The line above a message that names its writer.
    Header(Header),
    /// A line of a message's text.
    Plain(String),
    /// One row of a code block, in spans of one style each.
    Code(Vec<Span>),
    /// The line below a code block that shows the number to copy it by.
    Annotation(usize),
    /// The empty line after a message.
    Blank,
}

/// What a line of the history holds. Of a row of code it is the text; how
/// the text is coloured is left to the theme.
pub enum RowModel {
    Header(HeaderModel),
    Plain(Seq<char>),
    Code(Seq<char>),
    Annotation(nat),
    Blank,
}

impl View for DisplayLine {
    type V = RowModel;

    open spec fn view(&self) -> RowModel {
        match self {
            DisplayLine::Header(h) => RowModel::Header(h@),
            DisplayLine::Plain(s) => RowModel::Plain(s@),
            DisplayLine::Code(spans) => RowModel::Code(span_text(span_views(spans@))),
            DisplayLine::Annotation(n) => RowModel::Annotation(*n as nat),
            DisplayLine::Blank => RowModel::Blank,
        }
    }
}

/// What a sequence of lines of the history holds.
pub open spec fn display_views(rows: Seq<DisplayLine>) -> Seq<RowModel> {
    Seq::new(rows.len(), |i: int| rows[i]@)
}

/// The rows of one line of code: its symbols cut to the width.
pub open spec fn line_rows(line: Seq<Seq<char>>, width: nat) -> Seq<RowModel> {
    Seq::new(text_rows(line, width).len(), |i: int| RowModel::Code(text_rows(line, width)[i]))
}

/// The rows of the lines of a code block, each line by its symbols.
pub open spec fn code_rows(text: Seq<Seq<Seq<char>>>, width: nat) -> Seq<RowModel>
    decreases text.len(),
{
    if text.len() == 0 {
        Seq::empty()
    } else {
        code_rows(text.drop_last(), width) + line_rows(text.last(), width)
    }
}

/// The symbols of each line of a text.
pub open spec fn segmented(content: Seq<char>) -> Seq<Seq<Seq<char>>> {
    Seq::new(lines_of(content).len(), |i: int| grapheme_pieces(lines_of(content)[i]))
}

/// A code block as it is shown: the rows of its lines, and below them the
/// number to copy it by.
pub open spec fn block_rows(content: Seq<char>, number: nat, width: nat) -> Seq<RowModel> {
    code_rows(segmented(content), width).push(RowModel::Annotation(number))
}

/// The symbols of each line of cells.
pub open spec fn line_symbols(lines: Seq<Vec<Cell>>) -> Seq<Seq<Seq<char>>> {
    Seq::new(lines.len(), |i: int| symbols(cell_views(lines[i]@)))
}

/// The text of each symbol of each line.
pub open spec fn symbol_texts(lines: Seq<Vec<String>>) -> Seq<Seq<Seq<char>>> {
    Seq::new(lines.len(), |i: int| texts(lines[i]@))
}

/// The text of each line of symbols.
pub open spec fn line_texts(lines: Seq<Seq<Seq<char>>>) -> Seq<Seq<char>> {
    Seq::new(lines.len(), |i: int| flat_text(lines[i]))
}

/// The symbols of each line of a text. The symbols of a line make up the
/// line.
pub fn segment(content: &str) -> (r: Vec<Vec<String>>)
    ensures
        symbol_texts(r@) == segmented(content@),
        line_texts(segmented(content@)) == lines_of(content@),
{
    let text = lines(&chars_of(content));
    let mut out: Vec<Vec<String>> = Vec::new();
    let mut i: usize = 0;
    proof {
        crate::lines::lemma_lines_hold_no_line_feed(content@);
    }
    while i < text.len()
        invariant
            i <= text.len(),
            crate::lines::views(text@) == lines_of(content@),
            out@.len() == i,
            forall|j: int|
                0 <= j < i ==> texts((#[trigger] out@[j])@) == grapheme_pieces(lines_of(content@)[j])
                    && flat_text(grapheme_pieces(lines_of(content@)[j])) == lines_of(content@)[j],
            forall|k: int|
                0 <= k < lines_of(content@).len() ==> one_line(#[trigger] lines_of(content@)[k]),
        decreases text.len() - i,
    {
        let line = string_of(&text[i]);
        assert(line@ == crate::lines::views(text@)[i as int]);
        assert(one_line(line@)) by {
            assert(line@ == lines_of(content@)[i as int]);
        }
        out.push(graphemes_of(line.as_str()));
        i += 1;
    }
    assert(symbol_texts(out@) =~= segmented(content@));
    assert(line_texts(segmented(content@)) =~= lines_of(content@));
    out
}

/// Whether the cells hold the symbols, one each.
pub fn holds_symbols(cells: &Vec<Cell>, wanted: &Vec<String>) -> (r: bool)
    ensures
        r == (symbols(cell_views(cells@)) == texts(wanted@)),
{
    if cells.len() != wanted.len() {
        assert(symbols(cell_views(cells@)).len() != texts(wanted@).len());
        return false;
    }
    let mut i: usize = 0;
    while i < cells.len()
        invariant
            i <= cells.len(),
            cells.len() == wanted.len(),
            forall|j: int| 0 <= j < i ==> (#[trigger] cells@[j])@.symbol == wanted@[j]@,
        decreases cells.len() - i,
    {
        if !str_eq(cells[i].symbol.as_str(), wanted[i].as_str()) {
            assert(symbols(cell_views(cells@))[i as int] != texts(wanted@)[i as int]);
            return false;
        }
        i += 1;
    }
    assert(symbols(cell_views(cells@)) =~= texts(wanted@));
    true
}

/// The spans of each row of a line of cells as it is shown: the line cut
/// to the width and filled up with `pad`, each row in spans of one style.
pub open spec fn line_spans(line: Seq<CellModel>, width: nat, pad: CellModel) -> Seq<Seq<SpanModel>> {
    Seq::new(
        wrapped(line, width, pad).len(),
        |i: int| coalesced(wrapped(line, width, pad)[i]),
    )
}

/// The spans of each row of the lines of a code block as they are shown.
pub open spec fn styled_rows(lines: Seq<Seq<CellModel>>, width: nat, pad: CellModel) -> Seq<
    Seq<SpanModel>,
>
    decreases lines.len(),
{
    if lines.len() == 0 {
        Seq::empty()
    } else {
        styled_rows(lines.drop_last(), width, pad) + line_spans(lines.last(), width, pad)
    }
}

/// The spans of each line of the history: those of a row of code, and none
/// for any other line.
pub open spec fn row_spans(rows: Seq<DisplayLine>) -> Seq<Seq<SpanModel>> {
    Seq::new(rows.len(), |i: int| spans_of(rows[i]))
}

/// The spans of a line of the history: those of a row of code, and none
/// for any other line.
pub open spec fn spans_of(line: DisplayLine) -> Seq<SpanModel> {
    match line {
        DisplayLine::Code(spans) => span_views(spans@),
        _ => Seq::empty(),
    }
}

/// The cells of the lines of a text in the plain style, one cell for each
/// symbol.
pub open spec fn plain_cells(text: Seq<Seq<Seq<char>>>) -> Seq<Seq<CellModel>> {
    Seq::new(text.len(), |i: int| cells_of(text[i], Style::spec_plain()))
}

/// The cell that fills up the rows of a code block: a space on the given
/// background.
pub open spec fn pad_of(bg: Ink) -> CellModel {
    CellModel { symbol: seq![' '], style: Style { bg, ..Style::spec_plain() } }
}

/// A code block as it is shown, from the cells of its lines: the lines cut
/// to the width, each row in spans of one style, and below them the number
/// to copy the block by.
pub fn show_lines(lines: &Vec<Vec<Cell>>, pad: &Cell, number: usize, width: usize) -> (r: Vec<
    DisplayLine,
>)
    requires
        pad@.symbol == seq![' '],
    ensures
        display_views(r@) == code_rows(line_symbols(lines@), width as nat).push(
            RowModel::Annotation(number as nat),
        ),
        row_spans(r@) == styled_rows(row_views(lines@), width as nat, pad@).push(Seq::empty()),
{
    let mut out: Vec<DisplayLine> = Vec::new();
    let mut i: usize = 0;
    let ghost all = line_symbols(lines@);
    let ghost cells = row_views(lines@);
    assert(all.take(0) == Seq::<Seq<Seq<char>>>::empty());
    assert(cells.take(0) == Seq::<Seq<CellModel>>::empty());
    assert(display_views(out@) =~= Seq::<RowModel>::empty());
    assert(row_spans(out@) =~= Seq::<Seq<SpanModel>>::empty());
    while i < lines.len()
        invariant
            i <= lines.len(),
            all == line_symbols(lines@),
            cells == row_views(lines@),
            pad@.symbol == seq![' '],
            display_views(out@) == code_rows(all.take(i as int), width as nat),
            row_spans(out@) == styled_rows(cells.take(i as int), width as nat, pad@),
        decreases lines.len() - i,
    {
        let line = &lines[i];
        let rows = wrap(line, width, pad);
        let ghost before = display_views(out@);
        let ghost spans_before = row_spans(out@);
        let ghost expected = line_rows(symbols(cell_views(line@)), width as nat);
        let ghost styled = line_spans(cell_views(line@), width as nat, pad@);
        proof {
            lemma_wrapped_text(cell_views(line@), width as nat, pad@);
        }
        let mut j: usize = 0;
        while j < rows.len()
            invariant
                j <= rows.len(),
                row_views(rows@) == wrapped(cell_views(line@), width as nat, pad@),
                row_glyphs(row_views(rows@)) == text_rows(symbols(cell_views(line@)), width as nat),
                expected == line_rows(symbols(cell_views(line@)), width as nat),
                styled == line_spans(cell_views(line@), width as nat, pad@),
                display_views(out@) == before + expected.take(j as int),
                row_spans(out@) == spans_before + styled.take(j as int),
            decreases rows.len() - j,
        {
            let spans = coalesce_graphemes(&rows[j]);
            let ghost held = span_views(spans@);
            let row = DisplayLine::Code(spans);
            proof {
                lemma_coalesced_text(cell_views(rows@[j as int]@));
                assert(row_views(rows@)[j as int] == cell_views(rows@[j as int]@));
                assert(row_glyphs(row_views(rows@))[j as int] == glyphs(row_views(rows@)[j as int]));
                assert(row@ == expected[j as int]);
                assert(display_views(out@.push(row)) =~= display_views(out@).push(row@));
                assert(expected.take(j + 1) =~= expected.take(j as int).push(expected[j as int]));
                assert(held == styled[j as int]);
                assert(row_spans(out@.push(row)) =~= row_spans(out@).push(held));
                assert(styled.take(j + 1) =~= styled.take(j as int).push(styled[j as int]));
            }
            out.push(row);
            j += 1;
        }
        proof {
            assert(expected.take(rows.len() as int) =~= expected);
            assert(styled.take(rows.len() as int) =~= styled);
            let after = all.take(i + 1);
            assert(after.drop_last() == all.take(i as int));
            assert(after.last() == symbols(cell_views(lines@[i as int]@)));
            let more = cells.take(i + 1);
            assert(more.drop_last() == cells.take(i as int));
            assert(more.last() == cell_views(lines@[i as int]@));
        }
        i += 1;
    }
    assert(all.take(lines.len() as int) == all);
    assert(cells.take(lines.len() as int) == cells);
    let last = DisplayLine::Annotation(number);
    assert(display_views(out@.push(last)) =~= display_views(out@).push(last@));
    assert(row_spans(out@.push(last)) =~= row_spans(out@).push(Seq::empty()));
    out.push(last);
    out
}

/// The cell that fills up the rows of a code block, with the given
/// background.
pub fn pad_cell(bg: Ink) -> (c: Cell)
    ensures
        c@ == pad_of(bg),
{
    let mut symbol = String::new();
    symbol.push(' ');
    let c = Cell {
        symbol,
        style: Style { fg: Ink::Plain, bg, bold: false, italic: false, underlined: false },
    };
    assert(c@.symbol =~= seq![' ']);
    c
}

/// The cells of the lines of a text, in the plain style: one cell for
/// each symbol.
pub fn plain_lines(text: &Vec<Vec<String>>) -> (r: Vec<Vec<Cell>>)
    ensures
        line_symbols(r@) == symbol_texts(text@),
        row_views(r@) == plain_cells(symbol_texts(text@)),
{
    let mut out: Vec<Vec<Cell>> = Vec::new();
    let mut i: usize = 0;
    while i < text.len()
        invariant
            i <= text.len(),
            out@.len() == i,
            forall|j: int|
                0 <= j < i ==> cell_views((#[trigger] out@[j])@) == cells_of(
                    texts(text@[j]@),
                    Style::spec_plain(),
                ),
        decreases text.len() - i,
    {
        let line = cells(&text[i], Style::plain());
        out.push(line);
        i += 1;
    }
    assert(row_views(out@) =~= plain_cells(symbol_texts(text@)));
    assert(line_symbols(out@) =~= symbol_texts(text@)) by {
        assert forall|j: int| 0 <= j < out@.len() implies line_symbols(out@)[j] == symbol_texts(
            text@,
        )[j] by {
            lemma_cells_of(texts(text@[j]@), Style::spec_plain());
        }
    }
    out
}

/// The cells of symbols hold the symbols, one each.
pub proof fn lemma_cells_of(wanted: Seq<Seq<char>>, style: Style)
    ensures
        symbols(cells_of(wanted, style)) == wanted,
{
    assert(symbols(cells_of(wanted, style)) =~= wanted);
}

/// A code block as it is shown in the plain style: its lines cut to the
/// width, and below them the number to copy it by.
pub fn show_block(content: &str, number: usize, width: usize) -> (r: Vec<DisplayLine>)
    ensures
        display_views(r@) == block_rows(content@, number as nat, width as nat),
        row_spans(r@) == styled_rows(
            plain_cells(segmented(content@)),
            width as nat,
            pad_of(Ink::Plain),
        ).push(Seq::empty()),
{
    let text = segment(content);
    let styled = plain_lines(&text);
    let pad = pad_cell(Ink::Plain);
    show_lines(&styled, &pad, number, width)
}

} // verus!
