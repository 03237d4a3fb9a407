//! Colouring code by its syntax.

use vstd::prelude::*;

use crate::lines::lines;
use crate::lines::lines_of;
use crate::lines::texts;
use crate::lines::views;
use crate::render::Cell;
use crate::render::Ink;
use crate::render::Style;
use crate::render::cell_views;
use crate::render::cells;
use crate::render::grapheme_pieces;
use crate::render::graphemes_of;
use crate::render::holds_symbols;
use crate::render::lemma_cells_of;
use crate::render::line_symbols;
use crate::render::segment;
use crate::render::segmented;
use crate::render::symbol_texts;
use crate::render::symbols;
use crate::text::chars_of;
use crate::text::string_of;

verus! {

/// `syntect::parsing::SyntaxSet`: a set of syntaxes. Nothing is known of
/// it.
#[verifier::external_type_specification]
#[verifier::external_body]
pub struct ExSyntaxSet(syntect::parsing::SyntaxSet);

/// `syntect::parsing::SyntaxReference`: one syntax of a set. Nothing is
/// known of it.
#[verifier::external_type_specification]
#[verifier::external_body]
pub struct ExSyntaxReference(syntect::parsing::SyntaxReference);

/// `syntect::highlighting::ThemeSet`: a set of themes. Nothing is known of
/// it.
#[verifier::external_type_specification]
#[verifier::external_body]
pub struct ExThemeSet(syntect::highlighting::ThemeSet);

/// `syntect::highlighting::Theme`: one theme of a set. Nothing is known of
/// it.
#[verifier::external_type_specification]
#[verifier::external_body]
pub struct ExTheme(syntect::highlighting::Theme);

/// `syntect::easy::HighlightLines`: what is kept from one line of a text
/// to the next while the text is coloured. Nothing is known of it.
#[verifier::external_type_specification]
#[verifier::external_body]
pub struct ExHighlightLines<'a>(syntect::easy::HighlightLines<'a>);

/// The theme that code is coloured with.
pub const DEFAULT_THEME: &'static str = "base16-eighties.dark";

/// The syntax of text that is no code.
pub const PLAIN_TEXT: &'static str = "Plain Text";

/// Calls `syntect::parsing::SyntaxSet::load_defaults_nonewlines`: the
/// syntaxes that come with the crate, for lines without their line feeds.
/// Nothing is said of what they hold.
#[verifier::external_body]
fn load_syntaxes() -> syntect::parsing::SyntaxSet {
    syntect::parsing::SyntaxSet::load_defaults_nonewlines()
}

/// The backgrounds of the themes that a `syntect::highlighting::ThemeSet`
/// holds, each under the name of its theme in the map `themes`: the red,
/// green and blue of the theme's `settings.background`, or none where the
/// theme sets no background.
pub uninterp spec fn theme_backgrounds(themes: syntect::highlighting::ThemeSet) -> Map<
    Seq<char>,
    Option<(u8, u8, u8)>,
>;

/// Calls `syntect::highlighting::ThemeSet::load_defaults`: the themes that
/// come with the crate. The wrapper says that the set holds a theme under
/// each of the seven names that the documentation of the call lists.
/// Nothing is said of what the themes hold.
#[verifier::external_body]
fn load_themes() -> (r: syntect::highlighting::ThemeSet)
    ensures
        theme_backgrounds(r).contains_key("base16-ocean.dark"@),
        theme_backgrounds(r).contains_key("base16-eighties.dark"@),
        theme_backgrounds(r).contains_key("base16-mocha.dark"@),
        theme_backgrounds(r).contains_key("base16-ocean.light"@),
        theme_backgrounds(r).contains_key("InspiredGitHub"@),
        theme_backgrounds(r).contains_key("Solarized (dark)"@),
        theme_backgrounds(r).contains_key("Solarized (light)"@),
{
    syntect::highlighting::ThemeSet::load_defaults()
}

/// Looks a theme up by its name in the map that a
/// `syntect::highlighting::ThemeSet` holds. Nothing is said of the result.
#[verifier::external_body]
fn theme_named<'a>(themes: &'a syntect::highlighting::ThemeSet, name: &str) -> Option<
    &'a syntect::highlighting::Theme,
> {
    themes.themes.get(name)
}

/// Looks a theme up by its name in the map that a
/// `syntect::highlighting::ThemeSet` holds and reads the background that the
/// theme sets. The wrapper says that a theme is found exactly where
/// `theme_backgrounds` holds the name, and that the background is the one
/// it holds under the name.
#[verifier::external_body]
fn background_named(themes: &syntect::highlighting::ThemeSet, name: &str) -> (r: Option<
    Option<(u8, u8, u8)>,
>)
    ensures
        r is Some == theme_backgrounds(*themes).contains_key(name@),
        r matches Some(b) ==> b == theme_backgrounds(*themes)[name@],
{
    themes.themes.get(name).map(|t| t.settings.background.map(|c| (c.r, c.g, c.b)))
}

/// The tokens for which `syntect::parsing::SyntaxSet::find_syntax_by_token`
/// finds a syntax in a set.
pub uninterp spec fn syntax_tokens(syntaxes: syntect::parsing::SyntaxSet) -> Set<Seq<char>>;

/// The first lines for which
/// `syntect::parsing::SyntaxSet::find_syntax_by_first_line` finds a syntax
/// in a set.
pub uninterp spec fn syntax_first_lines(syntaxes: syntect::parsing::SyntaxSet) -> Set<Seq<char>>;

/// The names for which `syntect::parsing::SyntaxSet::find_syntax_by_name`
/// finds a syntax in a set.
pub uninterp spec fn syntax_names(syntaxes: syntect::parsing::SyntaxSet) -> Set<Seq<char>>;

/// Calls `syntect::parsing::SyntaxSet::find_syntax_by_token`. The wrapper
/// says that a syntax is found exactly for the tokens that `syntax_tokens`
/// names. Nothing is said of the syntax.
#[verifier::external_body]
fn syntax_by_token<'a>(syntaxes: &'a syntect::parsing::SyntaxSet, token: &str) -> (r: Option<
    &'a syntect::parsing::SyntaxReference,
>)
    ensures
        r is Some == syntax_tokens(*syntaxes).contains(token@),
{
    syntaxes.find_syntax_by_token(token)
}

/// Calls `syntect::parsing::SyntaxSet::find_syntax_by_first_line`. The
/// wrapper says that a syntax is found exactly for the lines that
/// `syntax_first_lines` names. Nothing is said of the syntax.
#[verifier::external_body]
fn syntax_by_first_line<'a>(syntaxes: &'a syntect::parsing::SyntaxSet, line: &str) -> (r: Option<
    &'a syntect::parsing::SyntaxReference,
>)
    ensures
        r is Some == syntax_first_lines(*syntaxes).contains(line@),
{
    syntaxes.find_syntax_by_first_line(line)
}

/// Calls `syntect::parsing::SyntaxSet::find_syntax_by_name`. The wrapper
/// says that a syntax is found exactly for the names that `syntax_names`
/// names. Nothing is said of the syntax.
#[verifier::external_body]
fn syntax_by_name<'a>(syntaxes: &'a syntect::parsing::SyntaxSet, name: &str) -> (r: Option<
    &'a syntect::parsing::SyntaxReference,
>)
    ensures
        r is Some == syntax_names(*syntaxes).contains(name@),
{
    syntaxes.find_syntax_by_name(name)
}

/// Calls `syntect::easy::HighlightLines::new`. Nothing is said of the
/// result: it is a value of the outside crate that is handed on to
/// `highlight_line` and read nowhere else.
#[verifier::external_body]
fn line_highlighter<'a>(
    syntax: &syntect::parsing::SyntaxReference,
    theme: &'a syntect::highlighting::Theme,
) -> syntect::easy::HighlightLines<'a> {
    syntect::easy::HighlightLines::new(syntax, theme)
}

/// Calls `syntect::easy::HighlightLines::highlight_line` with the syntaxes
/// of the given highlighter, which are those that the line highlighter's
/// syntax was found in. The result holds the pieces that the line was cut
/// into, each with the red, green and blue of its colour and of its
/// background; there is none where the call fails. Nothing is said of the
/// pieces: they depend on the lines that the line highlighter was given
/// before, which it keeps to itself.
#[verifier::external_body]
fn highlight_line(
    highlighter: &mut syntect::easy::HighlightLines<'_>,
    line: &str,
    owner: &Highlighter,
) -> Option<Vec<((u8, u8, u8), (u8, u8, u8), String)>> {
    highlighter.highlight_line(line, &owner.syntaxes).ok().map(
        |pieces|
            pieces.into_iter().map(
                |(style, text)|
                    (
                        (style.foreground.r, style.foreground.g, style.foreground.b),
                        (style.background.r, style.background.g, style.background.b),
                        text.to_owned(),
                    ),
            ).collect(),
    )
}

/// The lines of a code block as they are coloured, and the background of
/// the theme.
#[derive(Debug, Clone, PartialEq, Eq)]
pub struct StyledBlock {
    pub lines: Vec<Vec<Cell>>,
    pub background: Ink,
}

/// Whether the coloured lines hold the lines of the text, one symbol to a
/// cell.
pub open spec fn holds_lines(c: StyledBlock, content: Seq<char>) -> bool {
    line_symbols(c.lines@) == segmented(content)
}

/// Whether the coloured lines hold the lines of the text, one symbol to a
/// cell, so that the symbols of each line make up the line of the text,
/// and the background is the given one.
pub open spec fn styled_as(c: StyledBlock, content: Seq<char>, background: Ink) -> bool {
    &&& holds_lines(c, content)
    &&& crate::render::line_texts(line_symbols(c.lines@)) == lines_of(content)
    &&& c.background == background
}

/// The syntaxes and the themes that code is coloured with.
pub struct Highlighter {
    syntaxes: syntect::parsing::SyntaxSet,
    themes: syntect::highlighting::ThemeSet,
}

/// Whether the lines of cells hold the symbols of the lines, one symbol
/// each.
pub fn lines_hold(styled: &Vec<Vec<Cell>>, wanted: &Vec<Vec<String>>) -> (r: bool)
    ensures
        r == (line_symbols(styled@) == symbol_texts(wanted@)),
{
    if styled.len() != wanted.len() {
        assert(line_symbols(styled@).len() != symbol_texts(wanted@).len());
        return false;
    }
    let mut i: usize = 0;
    while i < styled.len()
        invariant
            i <= styled.len(),
            styled.len() == wanted.len(),
            forall|j: int|
                0 <= j < i ==> symbols(cell_views((#[trigger] styled@[j])@)) == texts(wanted@[j]@),
        decreases styled.len() - i,
    {
        if !holds_symbols(&styled[i], &wanted[i]) {
            assert(line_symbols(styled@)[i as int] != symbol_texts(wanted@)[i as int]);
            return false;
        }
        i += 1;
    }
    assert(line_symbols(styled@) =~= symbol_texts(wanted@));
    true
}

/// Whether a name is that of one of the seven themes that come with the
/// highlighter.
pub open spec fn stock_theme(name: Seq<char>) -> bool {
    name == "base16-ocean.dark"@ || name == "base16-eighties.dark"@ || name == "base16-mocha.dark"@
        || name == "base16-ocean.light"@ || name == "InspiredGitHub"@ || name
        == "Solarized (dark)"@ || name == "Solarized (light)"@
}

/// The text of a string that may be there.
pub open spec fn text_of(s: Option<&str>) -> Option<Seq<char>> {
    match s {
        Some(t) => Some(t@),
        None => None,
    }
}

/// What gave the syntax of a code block away.
#[derive(Debug, Clone, Copy, PartialEq, Eq, Structural)]
pub enum SyntaxSource {
    /// The language that the fence names.
    Language,
    /// The first line of the block.
    FirstLine,
    /// Nothing: the block is taken for plain text.
    PlainText,
}

/// The colour of a background that was looked up: the background that the
/// theme sets, and the plain one where there is no such theme or the theme
/// sets none.
pub open spec fn ink_of(found: Option<Option<(u8, u8, u8)>>) -> Ink {
    match found {
        Some(Some(c)) => Ink::Rgb(c.0, c.1, c.2),
        _ => Ink::Plain,
    }
}

/// The colour of a background that was looked up.
pub fn ink_of_background(found: Option<Option<(u8, u8, u8)>>) -> (r: Ink)
    ensures
        r == ink_of(found),
{
    match found {
        Some(Some((r, g, b))) => Ink::Rgb(r, g, b),
        _ => Ink::Plain,
    }
}

/// What gives the syntax of a code block away, by what was found: the
/// language that the fence names comes first, then the first line of the
/// block, then the syntax of plain text. Where nothing is found there is no
/// syntax.
pub open spec fn source_of(by_language: bool, by_first_line: bool, plain: bool) -> Option<
    SyntaxSource,
> {
    if by_language {
        Some(SyntaxSource::Language)
    } else if by_first_line {
        Some(SyntaxSource::FirstLine)
    } else if plain {
        Some(SyntaxSource::PlainText)
    } else {
        None
    }
}

/// The syntax of a code block, given what each way of looking for it
/// found: the first that was found, and the way that found it.
pub fn first_found<'a>(
    named: Option<&'a syntect::parsing::SyntaxReference>,
    guessed: Option<&'a syntect::parsing::SyntaxReference>,
    plain: Option<&'a syntect::parsing::SyntaxReference>,
) -> (r: Option<(SyntaxSource, &'a syntect::parsing::SyntaxReference)>)
    ensures
        r == if let Some(s) = named {
            Some((SyntaxSource::Language, s))
        } else if let Some(s) = guessed {
            Some((SyntaxSource::FirstLine, s))
        } else if let Some(s) = plain {
            Some((SyntaxSource::PlainText, s))
        } else {
            None
        },
{
    match named {
        Some(s) => Some((SyntaxSource::Language, s)),
        None => match guessed {
            Some(s) => Some((SyntaxSource::FirstLine, s)),
            None => match plain {
                Some(s) => Some((SyntaxSource::PlainText, s)),
                None => None,
            },
        },
    }
}

impl Highlighter {
    /// The backgrounds of the themes of the highlighter, by their names.
    pub closed spec fn backgrounds(&self) -> Map<Seq<char>, Option<(u8, u8, u8)>> {
        theme_backgrounds(self.themes)
    }

    /// The background of the theme that code is coloured with.
    pub open spec fn spec_background(&self) -> Ink {
        ink_of(
            if self.backgrounds().contains_key(DEFAULT_THEME@) {
                Some(self.backgrounds()[DEFAULT_THEME@])
            } else {
                None
            },
        )
    }

    /// Whether the highlighter has a syntax for a language.
    pub closed spec fn knows_language(&self, language: Seq<char>) -> bool {
        syntax_tokens(self.syntaxes).contains(language)
    }

    /// Whether the highlighter has a syntax that a first line gives away.
    pub closed spec fn knows_first_line(&self, line: Seq<char>) -> bool {
        syntax_first_lines(self.syntaxes).contains(line)
    }

    /// Whether the highlighter has the syntax of plain text.
    pub closed spec fn knows_plain_text(&self) -> bool {
        syntax_names(self.syntaxes).contains(PLAIN_TEXT@)
    }

    /// What gives away the syntax of a code block with the given language
    /// and first line.
    pub open spec fn spec_source(
        &self,
        language: Option<Seq<char>>,
        first_line: Option<Seq<char>>,
    ) -> Option<SyntaxSource> {
        source_of(
            language matches Some(l) && self.knows_language(l),
            first_line matches Some(f) && self.knows_first_line(f),
            self.knows_plain_text(),
        )
    }

    /// A highlighter with the syntaxes and the themes that come with it.
    /// Among its themes are the seven stock themes, and with them the theme
    /// that code is coloured with. Nothing is said of its syntaxes.
    pub fn new() -> (h: Highlighter)
        ensures
            forall|name: Seq<char>| stock_theme(name) ==> #[trigger] h.backgrounds().contains_key(name),
            h.backgrounds().contains_key(DEFAULT_THEME@),
    {
        Highlighter { syntaxes: load_syntaxes(), themes: load_themes() }
    }

    /// The syntax of a code block: the one that its language names, else
    /// the one that its first line gives away, else that of plain text. The
    /// result says which of them it is.
    fn syntax<'a>(&'a self, language: Option<&str>, first_line: Option<&str>) -> (r: Option<
        (SyntaxSource, &'a syntect::parsing::SyntaxReference),
    >)
        ensures
            r is Some == self.spec_source(text_of(language), text_of(first_line)) is Some,
            r matches Some(found) ==> Some(found.0) == self.spec_source(
                text_of(language),
                text_of(first_line),
            ),
    {
        let named = match language {
            Some(token) => syntax_by_token(&self.syntaxes, token),
            None => None,
        };
        let guessed = if named.is_some() {
            None
        } else {
            match first_line {
                Some(line) => syntax_by_first_line(&self.syntaxes, line),
                None => None,
            }
        };
        let plain = if named.is_some() || guessed.is_some() {
            None
        } else {
            syntax_by_name(&self.syntaxes, PLAIN_TEXT)
        };
        first_found(named, guessed, plain)
    }

    /// What gives away the syntax of a code block with the given language
    /// and first line: the language if the highlighter knows it, else the
    /// first line if it gives a syntax away, else nothing but that the text
    /// is plain.
    pub fn syntax_source(&self, language: Option<&str>, first_line: Option<&str>) -> (r: Option<
        SyntaxSource,
    >)
        ensures
            r == self.spec_source(text_of(language), text_of(first_line)),
    {
        match self.syntax(language, first_line) {
            Some(found) => Some(found.0),
            None => None,
        }
    }

    /// The background of the theme that code is coloured with: the one that
    /// the theme sets, and the plain one where the highlighter has no such
    /// theme or the theme sets none.
    pub fn background(&self) -> (r: Ink)
        ensures
            r == self.spec_background(),
    {
        ink_of_background(background_named(&self.themes, DEFAULT_THEME))
    }

    /// The lines of a code block, coloured by its syntax. Whatever the
    /// colours are, the cells hold the symbols of the lines, one each: a
    /// line whose pieces do not hold its symbols is shown in the plain
    /// style.
    pub fn styled_lines(&self, language: Option<&str>, content: &str) -> (r: StyledBlock)
        ensures
            styled_as(r, content@, self.spec_background()),
    {
        let text = lines(&chars_of(content));
        let wanted = segment(content);
        assert(wanted@.len() == text@.len()) by {
            assert(symbol_texts(wanted@).len() == segmented(content@).len());
            assert(views(text@).len() == lines_of(content@).len());
        }
        let first_line = if text.len() > 0 {
            Some(string_of(&text[0]))
        } else {
            None
        };
        let first = match &first_line {
            Some(s) => Some(s.as_str()),
            None => None,
        };
        let theme = theme_named(&self.themes, DEFAULT_THEME);
        let syntax = self.syntax(language, first);
        let mut out: Vec<Vec<Cell>> = Vec::new();
        match (theme, syntax) {
            (Some(theme), Some(found)) => {
                let mut highlighter = line_highlighter(found.1, theme);
                let mut i: usize = 0;
                while i < text.len()
                    invariant
                        i <= text.len(),
                        wanted@.len() == text@.len(),
                        out@.len() == i,
                        forall|j: int|
                            0 <= j < i ==> symbols(cell_views((#[trigger] out@[j])@)) == texts(
                                wanted@[j]@,
                            ),
                    decreases text.len() - i,
                {
                    let line = string_of(&text[i]);
                    let coloured = match highlight_line(&mut highlighter, line.as_str(), self) {
                        Some(pieces) => cells_of_pieces(&pieces),
                        None => Vec::new(),
                    };
                    if holds_symbols(&coloured, &wanted[i]) {
                        out.push(coloured);
                    } else {
                        proof {
                            lemma_cells_of(texts(wanted@[i as int]@), Style::spec_plain());
                        }
                        out.push(cells(&wanted[i], Style::plain()));
                    }
                    i += 1;
                }
            },
            _ => {
                let mut i: usize = 0;
                while i < text.len()
                    invariant
                        i <= text.len(),
                        wanted@.len() == text@.len(),
                        out@.len() == i,
                        forall|j: int|
                            0 <= j < i ==> symbols(cell_views((#[trigger] out@[j])@)) == texts(
                                wanted@[j]@,
                            ),
                    decreases text.len() - i,
                {
                    proof {
                        lemma_cells_of(texts(wanted@[i as int]@), Style::spec_plain());
                    }
                    out.push(cells(&wanted[i], Style::plain()));
                    i += 1;
                }
            },
        }
        assert(line_symbols(out@) =~= symbol_texts(wanted@));
        StyledBlock { lines: out, background: self.background() }
    }
}

/// The style of a piece of a line: its colour and its background.
pub open spec fn piece_style(piece: ((u8, u8, u8), (u8, u8, u8), String)) -> Style {
    Style {
        fg: Ink::Rgb(piece.0.0, piece.0.1, piece.0.2),
        bg: Ink::Rgb(piece.1.0, piece.1.1, piece.1.2),
        bold: false,
        italic: false,
        underlined: false,
    }
}

/// The cells of the pieces of a line: one for each symbol of each piece,
/// in the style of its piece.
pub open spec fn piece_cells(pieces: Seq<((u8, u8, u8), (u8, u8, u8), String)>) -> Seq<
    crate::render::CellModel,
>
    decreases pieces.len(),
{
    if pieces.len() == 0 {
        Seq::empty()
    } else {
        piece_cells(pieces.drop_last()) + crate::render::cells_of(
            grapheme_pieces(pieces.last().2@),
            piece_style(pieces.last()),
        )
    }
}

/// The cells of the pieces of a line: one for each symbol of each piece,
/// in the colours of its piece.
pub fn cells_of_pieces(pieces: &Vec<((u8, u8, u8), (u8, u8, u8), String)>) -> (r: Vec<Cell>)
    ensures
        cell_views(r@) == piece_cells(pieces@),
{
    let mut out: Vec<Cell> = Vec::new();
    let mut i: usize = 0;
    assert(pieces@.take(0) == Seq::<((u8, u8, u8), (u8, u8, u8), String)>::empty());
    assert(cell_views(out@) =~= Seq::<crate::render::CellModel>::empty());
    while i < pieces.len()
        invariant
            i <= pieces.len(),
            cell_views(out@) == piece_cells(pieces@.take(i as int)),
        decreases pieces.len() - i,
    {
        proof {
            let after = pieces@.take(i + 1);
            assert(after.drop_last() == pieces@.take(i as int));
            assert(after.last() == pieces@[i as int]);
        }
        let ghost before = out@;
        let fg = pieces[i].0;
        let bg = pieces[i].1;
        let style = Style {
            fg: Ink::Rgb(fg.0, fg.1, fg.2),
            bg: Ink::Rgb(bg.0, bg.1, bg.2),
            bold: false,
            italic: false,
            underlined: false,
        };
        let mut piece = cells(&graphemes_of(pieces[i].2.as_str()), style);
        let ghost added = piece@;
        out.append(&mut piece);
        assert(cell_views(before + added) =~= cell_views(before) + cell_views(added));
        i += 1;
    }
    assert(pieces@.take(pieces.len() as int) == pieces@);
    out
}

} // verus!
