//! Syntax-highlighted file contents for the terminal: which syntax to look
//! up for a path, which theme to use, and which terminal colour and text
//! attributes each highlighted piece gets. The highlighting itself is
//! syntect's.

use vstd::prelude::*;
use crate::text::{chars_eq_str, chars_lt, chars_of, range_pieces, split_on, split_ranges};
use syntect::easy::HighlightLines;
use syntect::highlighting::{Theme, ThemeSet};
use syntect::parsing::SyntaxSet;

verus! {

/// A terminal colour.
#[derive(Debug, Clone, Copy, PartialEq, Eq, Structural)]
pub enum TermColor {
    Black,
    Red,
    Green,
    Yellow,
    Blue,
    Magenta,
    Cyan,
    Gray,
    DarkGray,
    LightRed,
    LightGreen,
    LightYellow,
    LightBlue,
    LightMagenta,
    LightCyan,
    White,
    /// An entry of the terminal's 256-colour palette.
    Indexed(u8),
    /// The terminal's default colour.
    Reset,
    Rgb(u8, u8, u8),
}

/// The sixteen named terminal colours, by palette number.
pub open spec fn named_color(n: u8) -> TermColor {
    if n == 0 {
        TermColor::Black
    } else if n == 1 {
        TermColor::Red
    } else if n == 2 {
        TermColor::Green
    } else if n == 3 {
        TermColor::Yellow
    } else if n == 4 {
        TermColor::Blue
    } else if n == 5 {
        TermColor::Magenta
    } else if n == 6 {
        TermColor::Cyan
    } else if n == 7 {
        TermColor::Gray
    } else if n == 8 {
        TermColor::DarkGray
    } else if n == 9 {
        TermColor::LightRed
    } else if n == 10 {
        TermColor::LightGreen
    } else if n == 11 {
        TermColor::LightYellow
    } else if n == 12 {
        TermColor::LightBlue
    } else if n == 13 {
        TermColor::LightMagenta
    } else if n == 14 {
        TermColor::LightCyan
    } else if n == 15 {
        TermColor::White
    } else {
        TermColor::Indexed(n)
    }
}

/// The terminal colour a highlighter colour `(r, g, b, a)` stands for: the
/// alpha byte is a tag, 0 for a palette entry numbered by `r` (the first
/// sixteen by name), 1 for the default colour, anything else true colour.
pub open spec fn color_for(r: u8, g: u8, b: u8, a: u8) -> TermColor {
    if a == 0 {
        named_color(r)
    } else if a == 1 {
        TermColor::Reset
    } else {
        TermColor::Rgb(r, g, b)
    }
}

/// Maps a highlighter colour to a terminal colour.
pub fn terminal_color(r: u8, g: u8, b: u8, a: u8) -> (c: TermColor)
    ensures
        c == color_for(r, g, b, a),
{
    if a == 0 {
        match r {
            0 => TermColor::Black,
            1 => TermColor::Red,
            2 => TermColor::Green,
            3 => TermColor::Yellow,
            4 => TermColor::Blue,
            5 => TermColor::Magenta,
            6 => TermColor::Cyan,
            7 => TermColor::Gray,
            8 => TermColor::DarkGray,
            9 => TermColor::LightRed,
            10 => TermColor::LightGreen,
            11 => TermColor::LightYellow,
            12 => TermColor::LightBlue,
            13 => TermColor::LightMagenta,
            14 => TermColor::LightCyan,
            15 => TermColor::White,
            n => TermColor::Indexed(n),
        }
    } else if a == 1 {
        TermColor::Reset
    } else {
        TermColor::Rgb(r, g, b)
    }
}

/// The extension to look a syntax up by: the text after the last `.` of the
/// path, when the path has a `.` and that text is not empty.
pub open spec fn lookup_extension(path: Seq<char>) -> Option<Seq<char>> {
    let pieces = split_on(path, '.');
    if pieces.len() >= 2 && pieces.last().len() > 0 {
        Some(pieces.last())
    } else {
        None
    }
}

/// The extension to look a syntax up by (see `lookup_extension`); `None`
/// means the plain-text syntax.
pub fn syntax_extension(path: &str) -> (r: Option<String>)
    ensures
        match r {
            Some(e) => lookup_extension(path@) == Some(e@),
            None => lookup_extension(path@) is None,
        },
{
    let pc = chars_of(path);
    let pieces = split_ranges(pc.as_slice(), '.');
    proof {
        crate::text::lemma_split_on_len(path@, '.');
        assert(range_pieces(pc@, pieces@).len() == pieces@.len());
    }
    if pieces.len() < 2 {
        return None;
    }
    let (a, b) = pieces[pieces.len() - 1];
    proof {
        assert(range_pieces(pc@, pieces@)[pieces@.len() - 1] == pc@.subrange(a as int, b as int));
    }
    if a >= b {
        return None;
    }
    Some(String::from_str(path.substring_char(a, b)))
}


/// A line without one `\r` at its end.
pub open spec fn without_cr(line: Seq<char>) -> Seq<char> {
    if line.len() > 0 && line.last() == '\r' {
        line.drop_last()
    } else {
        line
    }
}

/// The lines of a text as `str::lines` gives them: the pieces between
/// `\n`s, each that a `\n` ends without a `\r` before it, and a last piece
/// after the final `\n` only when it is not empty (and then as it stands).
pub open spec fn content_lines(text: Seq<char>) -> Seq<Seq<char>> {
    let pieces = split_on(text, '\n');
    let ended = pieces.drop_last().map_values(|p: Seq<char>| without_cr(p));
    if pieces.last().len() > 0 {
        ended.push(pieces.last())
    } else {
        ended
    }
}

/// Splits a text into lines (see `content_lines`).
pub fn split_lines(text: &str) -> (r: Vec<String>)
    ensures
        names_view(r@) == content_lines(text@),
{
    let cs = chars_of(text);
    let ranges = split_ranges(cs.as_slice(), '\n');
    let ghost pieces = split_on(text@, '\n');
    proof {
        crate::text::lemma_split_on_len(text@, '\n');
        assert(range_pieces(cs@, ranges@).len() == ranges@.len());
    }
    let n = ranges.len();
    let mut out: Vec<String> = Vec::new();
    let mut k: usize = 0;
    while k + 1 < n
        invariant
            n == ranges@.len(),
            n >= 1,
            k < n,
            cs@ == text@,
            pieces == split_on(text@, '\n'),
            range_pieces(cs@, ranges@) == pieces,
            crate::text::ranges_within(cs@, ranges@),
            names_view(out@) =~= pieces.drop_last().subrange(0, k as int).map_values(|p: Seq<char>| without_cr(p)),
        decreases n - k,
    {
        let (a, b) = ranges[k];
        proof {
            assert(pieces[k as int] == cs@.subrange(a as int, b as int));
        }
        let e = if b > a && cs[b - 1] == '\r' {
            b - 1
        } else {
            b
        };
        let line = String::from_str(text.substring_char(a, e));
        proof {
            assert(line@ =~= without_cr(pieces[k as int]));
        }
        let ghost before = out@;
        out.push(line);
        proof {
            let sub = pieces.drop_last().subrange(0, k as int);
            assert(pieces.drop_last().subrange(0, k + 1) =~= sub.push(pieces[k as int]));
            assert(names_view(out@) =~= names_view(before).push(line@));
            assert(sub.push(pieces[k as int]).map_values(|p: Seq<char>| without_cr(p)) =~= sub.map_values(
                |p: Seq<char>| without_cr(p),
            ).push(without_cr(pieces[k as int])));
        }
        k = k + 1;
    }
    proof {
        assert(pieces.drop_last().subrange(0, k as int) =~= pieces.drop_last());
    }
    let (a, b) = ranges[n - 1];
    proof {
        assert(pieces.last() == cs@.subrange(a as int, b as int));
    }
    if a < b {
        let ghost before = out@;
        out.push(String::from_str(text.substring_char(a, b)));
        proof {
            assert(names_view(out@) =~= names_view(before).push(pieces.last()));
        }
    }
    out
}

/// Whether syntect's default syntax set has a syntax for the extension
/// (compared without regard to ASCII case).
pub uninterp spec fn syntect_has_extension(extension: Seq<char>) -> bool;

/// Whether syntect's default theme set has a theme of this name.
pub uninterp spec fn syntect_theme_exists(name: Seq<char>) -> bool;

/// What syntect's `HighlightLines::highlight_line` makes of `lines`, fed
/// one after another to one highlighter: for each line `None` when the call
/// fails, else its pieces, each as the foreground colour's `(r, g, b, a)`,
/// the font-style bits and the text. The syntax is the one found by
/// `extension`, plain text for `None`; the theme is the default theme of
/// that name, syntect's empty default theme for `None`.
pub uninterp spec fn syntect_line_pieces(
    lines: Seq<Seq<char>>,
    extension: Option<Seq<char>>,
    theme: Option<Seq<char>>,
) -> Seq<Option<Seq<(u8, u8, u8, u8, u8, Seq<char>)>>>;

/// The view of an optional string slice.
pub open spec fn opt_str_view(o: Option<&str>) -> Option<Seq<char>> {
    match o {
        Some(s) => Some(s@),
        None => None,
    }
}

/// A piece of a highlighted line as the highlighter gives it: the
/// foreground colour, the font-style bits (1 bold, 2 underline, 4 italic)
/// and the text.
pub struct StyledPiece {
    pub r: u8,
    pub g: u8,
    pub b: u8,
    pub a: u8,
    pub font_style: u8,
    pub text: String,
}

/// A piece as plain values.
pub open spec fn piece_view(p: StyledPiece) -> (u8, u8, u8, u8, u8, Seq<char>) {
    (p.r, p.g, p.b, p.a, p.font_style, p.text@)
}

/// Highlighted lines, each possibly missing, as plain values.
pub open spec fn opt_pieces_view(lines: Seq<Option<Vec<StyledPiece>>>) -> Seq<
    Option<Seq<(u8, u8, u8, u8, u8, Seq<char>)>>,
> {
    lines.map_values(
        |l: Option<Vec<StyledPiece>>|
            match l {
                Some(v) => Some(v@.map_values(|p: StyledPiece| piece_view(p))),
                None => None,
            },
    )
}

/// Highlighted lines with a missing line read as one without pieces.
pub open spec fn or_empty(lines: Seq<Option<Seq<(u8, u8, u8, u8, u8, Seq<char>)>>>) -> Seq<
    Seq<(u8, u8, u8, u8, u8, Seq<char>)>,
> {
    lines.map_values(
        |l: Option<Seq<(u8, u8, u8, u8, u8, Seq<char>)>>|
            match l {
                Some(v) => v,
                None => Seq::empty(),
            },
    )
}

/// The texts of the pieces, joined.
pub open spec fn pieces_text(ps: Seq<(u8, u8, u8, u8, u8, Seq<char>)>) -> Seq<char>
    decreases ps.len(),
{
    if ps.len() == 0 {
        Seq::empty()
    } else {
        pieces_text(ps.drop_last()) + ps.last().5
    }
}

/// Asks syntect whether its default syntax set knows the extension.
#[verifier::external_body]
pub(crate) fn has_syntax_for_extension(extension: &str) -> (r: bool)
    ensures
        r == syntect_has_extension(extension@),
{
    SyntaxSet::load_defaults_newlines().find_syntax_by_extension(extension).is_some()
}

/// The names of syntect's default themes, the keys of
/// `ThemeSet::load_defaults().themes`: each names a theme, every theme is
/// named, and they come in the key order of that `BTreeMap`, ascending by
/// `Ord for String` (by code point).
#[verifier::external_body]
pub(crate) fn default_theme_names() -> (r: Vec<String>)
    ensures
        forall|i: int| 0 <= i < r@.len() ==> syntect_theme_exists(#[trigger] r@[i]@),
        forall|n: Seq<char>| #[trigger] syntect_theme_exists(n) ==> exists|i: int| 0 <= i < r@.len() && r@[i]@ == n,
        forall|i: int, j: int| 0 <= i < j < r@.len() ==> chars_lt(r@[i]@, r@[j]@),
{
    ThemeSet::load_defaults().themes.into_keys().collect()
}

/// Highlights `lines` one after another with one syntect `HighlightLines`
/// (`highlight_line` on each), in the syntax found by `extension` (plain
/// text for `None`) and the default theme named `theme` (the empty default
/// theme for `None`). A failed call gives `None`; the pieces of a line are
/// handed out as plain values. The result is named by
/// `syntect_line_pieces`; as syntect documents, the texts of a line's
/// pieces, joined, make the line.
#[verifier::external_body]
pub(crate) fn highlight_lines_with(lines: &[String], extension: Option<&str>, theme: Option<&str>) -> (r: Vec<
    Option<Vec<StyledPiece>>,
>)
    requires
        extension matches Some(e) ==> syntect_has_extension(e@),
        theme matches Some(t) ==> syntect_theme_exists(t@),
    ensures
        r@.len() == lines@.len(),
        opt_pieces_view(r@) == syntect_line_pieces(names_view(lines@), opt_str_view(extension), opt_str_view(theme)),
        forall|i: int|
            0 <= i < r@.len() ==> (#[trigger] opt_pieces_view(r@)[i] matches Some(ps) ==> pieces_text(ps) == lines@[i]@),
{
    let ss = SyntaxSet::load_defaults_newlines();
    let syntax = match extension { Some(e) => ss.find_syntax_by_extension(e).unwrap(), None => ss.find_syntax_plain_text() };
    let theme = match theme { Some(t) => ThemeSet::load_defaults().themes[t].clone(), None => Theme::default() };
    let mut h = HighlightLines::new(syntax, &theme);
    lines.iter().map(|line| h.highlight_line(line, &ss).ok().map(|ps| ps.into_iter().map(|(s, t)| {
        let c = s.foreground;
        StyledPiece { r: c.r, g: c.g, b: c.b, a: c.a, font_style: s.font_style.bits(), text: t.to_string() }
    }).collect())).collect()
}

/// The theme to highlight with, from the names of the available themes:
/// `base16-ocean.dark` when it is there, else the first one, else none.
pub open spec fn theme_choice(names: Seq<Seq<char>>) -> Option<Seq<char>> {
    if names.contains("base16-ocean.dark"@) {
        Some("base16-ocean.dark"@)
    } else if names.len() > 0 {
        Some(names[0])
    } else {
        None
    }
}

/// The views of a sequence of strings.
pub open spec fn names_view(names: Seq<String>) -> Seq<Seq<char>> {
    names.map_values(|s: String| s@)
}

/// Picks the theme (see `theme_choice`) by its position in `names`.
pub fn pick_theme(names: &[String]) -> (r: Option<usize>)
    ensures
        match r {
            Some(i) => i < names@.len() && theme_choice(names_view(names@)) == Some(names@[i as int]@),
            None => theme_choice(names_view(names@)) is None,
        },
{
    let ghost nv = names_view(names@);
    let mut i: usize = 0;
    while i < names.len()
        invariant
            i <= names@.len(),
            nv == names_view(names@),
            forall|k: int| 0 <= k < i ==> nv[k] != "base16-ocean.dark"@,
        decreases names@.len() - i,
    {
        let c = chars_of(names[i].as_str());
        if chars_eq_str(c.as_slice(), "base16-ocean.dark") {
            proof {
                assert(nv[i as int] == "base16-ocean.dark"@);
                assert(nv.contains("base16-ocean.dark"@));
            }
            return Some(i);
        }
        i = i + 1;
    }
    proof {
        assert(!nv.contains("base16-ocean.dark"@));
    }
    if names.len() > 0 {
        Some(0)
    } else {
        None
    }
}

/// A piece of highlighted text as the terminal shows it.
pub struct TermSpan {
    pub color: TermColor,
    pub bold: bool,
    pub italic: bool,
    pub underlined: bool,
    pub text: String,
}

/// How a highlighted piece is shown: its colour by `color_for`, bold,
/// italic and underlined by font-style bits 1, 4 and 2, and its text.
pub open spec fn span_for(p: (u8, u8, u8, u8, u8, Seq<char>)) -> (TermColor, bool, bool, bool, Seq<char>) {
    (color_for(p.0, p.1, p.2, p.3), p.4 & 1 != 0, p.4 & 4 != 0, p.4 & 2 != 0, p.5)
}

/// A span as plain values.
pub open spec fn span_view(s: TermSpan) -> (TermColor, bool, bool, bool, Seq<char>) {
    (s.color, s.bold, s.italic, s.underlined, s.text@)
}

/// Terminal lines as plain values.
pub open spec fn spans_view(lines: Seq<Vec<TermSpan>>) -> Seq<Seq<(TermColor, bool, bool, bool, Seq<char>)>> {
    lines.map_values(|l: Vec<TermSpan>| l@.map_values(|s: TermSpan| span_view(s)))
}

/// Highlighted lines as the terminal shows them.
pub open spec fn shown_lines(lines: Seq<Seq<(u8, u8, u8, u8, u8, Seq<char>)>>) -> Seq<
    Seq<(TermColor, bool, bool, bool, Seq<char>)>,
> {
    lines.map_values(|l: Seq<(u8, u8, u8, u8, u8, Seq<char>)>| l.map_values(|p: (u8, u8, u8, u8, u8, Seq<char>)| span_for(p)))
}

/// Turns one highlighted piece into a terminal span.
pub fn term_span(piece: StyledPiece) -> (s: TermSpan)
    ensures
        span_view(s) == span_for(piece_view(piece)),
{
    TermSpan {
        color: terminal_color(piece.r, piece.g, piece.b, piece.a),
        bold: piece.font_style & 1 != 0,
        italic: piece.font_style & 4 != 0,
        underlined: piece.font_style & 2 != 0,
        text: piece.text,
    }
}

/// Turns one highlighted line into a terminal line, piece by piece.
fn term_line(line: Vec<StyledPiece>) -> (r: Vec<TermSpan>)
    ensures
        r@.len() == line@.len(),
        forall|k: int| 0 <= k < r@.len() ==> span_view(#[trigger] r@[k]) == span_for(piece_view(line@[k])),
{
    let ghost src = line@;
    let ghost n = src.len();
    let mut rest = line;
    let mut rev: Vec<StyledPiece> = Vec::new();
    while rest.len() > 0
        invariant
            n == src.len(),
            rest@.len() + rev@.len() == n,
            rest@ =~= src.subrange(0, rest@.len() as int),
            forall|k: int| 0 <= k < rev@.len() ==> #[trigger] rev@[k] == src[n - 1 - k],
        decreases rest@.len(),
    {
        let p = rest.pop().unwrap();
        rev.push(p);
    }
    let mut out: Vec<TermSpan> = Vec::new();
    while rev.len() > 0
        invariant
            n == src.len(),
            out@.len() + rev@.len() == n,
            forall|k: int| 0 <= k < rev@.len() ==> #[trigger] rev@[k] == src[n - 1 - k],
            forall|k: int| 0 <= k < out@.len() ==> span_view(#[trigger] out@[k]) == span_for(piece_view(src[k])),
        decreases rev@.len(),
    {
        let p = rev.pop().unwrap();
        out.push(term_span(p));
    }
    out
}

/// The pieces of a highlighted line, none when it is missing.
pub open spec fn line_or_empty(l: Option<Vec<StyledPiece>>) -> Seq<StyledPiece> {
    match l {
        Some(v) => v@,
        None => Seq::empty(),
    }
}

/// Turns highlighted lines into terminal lines, piece by piece; a missing
/// line becomes one without spans.
pub fn term_lines(lines: Vec<Option<Vec<StyledPiece>>>) -> (r: Vec<Vec<TermSpan>>)
    ensures
        spans_view(r@) == shown_lines(or_empty(opt_pieces_view(lines@))),
{
    let ghost src = lines@;
    let ghost n = src.len();
    let mut rest = lines;
    let mut rev: Vec<Option<Vec<StyledPiece>>> = Vec::new();
    while rest.len() > 0
        invariant
            n == src.len(),
            rest@.len() + rev@.len() == n,
            rest@ =~= src.subrange(0, rest@.len() as int),
            forall|k: int| 0 <= k < rev@.len() ==> #[trigger] rev@[k] == src[n - 1 - k],
        decreases rest@.len(),
    {
        let l = rest.pop().unwrap();
        rev.push(l);
    }
    let mut out: Vec<Vec<TermSpan>> = Vec::new();
    while rev.len() > 0
        invariant
            n == src.len(),
            out@.len() + rev@.len() == n,
            forall|k: int| 0 <= k < rev@.len() ==> #[trigger] rev@[k] == src[n - 1 - k],
            forall|k: int| 0 <= k < out@.len() ==> (#[trigger] out@[k])@.len() == line_or_empty(src[k]).len(),
            forall|k: int, j: int| 0 <= k < out@.len() && 0 <= j < out@[k]@.len() ==> span_view(
                #[trigger] out@[k]@[j],
            ) == span_for(piece_view(line_or_empty(src[k])[j])),
        decreases rev@.len(),
    {
        let l = rev.pop().unwrap();
        let spans = match l {
            Some(p) => term_line(p),
            None => Vec::new(),
        };
        out.push(spans);
    }
    proof {
        let a = spans_view(out@);
        let b = shown_lines(or_empty(opt_pieces_view(src)));
        assert(a.len() == b.len());
        assert forall|k: int| 0 <= k < a.len() implies a[k] == b[k] by {
            assert(or_empty(opt_pieces_view(src))[k] =~= line_or_empty(src[k]).map_values(|p: StyledPiece| piece_view(p)));
            assert(a[k] =~= b[k]);
        }
        assert(a =~= b);
    }
    out
}

/// The texts of the spans, joined.
pub open spec fn spans_text(ss: Seq<(TermColor, bool, bool, bool, Seq<char>)>) -> Seq<char>
    decreases ss.len(),
{
    if ss.len() == 0 {
        Seq::empty()
    } else {
        spans_text(ss.drop_last()) + ss.last().4
    }
}

/// Showing pieces as spans keeps their texts.
proof fn lemma_spans_keep_text(ps: Seq<(u8, u8, u8, u8, u8, Seq<char>)>)
    ensures
        spans_text(ps.map_values(|p: (u8, u8, u8, u8, u8, Seq<char>)| span_for(p))) == pieces_text(ps),
    decreases ps.len(),
{
    if ps.len() > 0 {
        lemma_spans_keep_text(ps.drop_last());
        assert(ps.map_values(|p: (u8, u8, u8, u8, u8, Seq<char>)| span_for(p)).drop_last() =~= ps.drop_last().map_values(
            |p: (u8, u8, u8, u8, u8, Seq<char>)| span_for(p),
        ));
    }
}

/// The extension the highlighter's syntax is found by: the lookup extension
/// of the path when the default syntax set knows it, else none (plain text).
pub open spec fn known_extension(path: Seq<char>) -> Option<Seq<char>> {
    match lookup_extension(path) {
        Some(e) => if syntect_has_extension(e) {
            Some(e)
        } else {
            None
        },
        None => None,
    }
}

/// `names` lists the default themes in ascending order: each names one,
/// and each is named.
pub open spec fn lists_all_themes(names: Seq<Seq<char>>) -> bool {
    &&& forall|i: int| 0 <= i < names.len() ==> syntect_theme_exists(#[trigger] names[i])
    &&& forall|n: Seq<char>| #[trigger] syntect_theme_exists(n) ==> names.contains(n)
    &&& forall|i: int, j: int| 0 <= i < j < names.len() ==> chars_lt(names[i], names[j])
}

/// Highlights a file's content for the terminal: one line of spans for
/// each line of the content (`str::lines`), whose texts joined give that
/// line, or no spans where the highlighter fails on it. The syntax is found
/// by the path's extension (plain text when there is none or it is
/// unknown), the theme is `base16-ocean.dark`, else the default theme whose
/// name comes first, else the empty default theme; each piece is shown by
/// `span_for`.
pub fn highlight_content(content: &str, path: &str) -> (r: Vec<Vec<TermSpan>>)
    ensures
        r@.len() == content_lines(content@).len(),
        forall|i: int|
            0 <= i < r@.len() ==> spans_view(r@)[i].len() == 0 || spans_text(spans_view(r@)[i])
                == content_lines(content@)[i],
        syntect_theme_exists("base16-ocean.dark"@) ==> spans_view(r@) == shown_lines(
            or_empty(syntect_line_pieces(content_lines(content@), known_extension(path@), Some("base16-ocean.dark"@))),
        ),
        exists|names: Seq<Seq<char>>|
            #[trigger] lists_all_themes(names) && spans_view(r@) == shown_lines(
                or_empty(syntect_line_pieces(content_lines(content@), known_extension(path@), theme_choice(names))),
            ),
{
    let ext = syntax_extension(path);
    let known: Option<String> = match ext {
        Some(e) => if has_syntax_for_extension(e.as_str()) {
            Some(e)
        } else {
            None
        },
        None => None,
    };
    let names = default_theme_names();
    let choice = pick_theme(names.as_slice());
    let ext_ref: Option<&str> = match &known {
        Some(e) => Some(e.as_str()),
        None => None,
    };
    let theme_ref: Option<&str> = match choice {
        Some(i) => Some(names[i].as_str()),
        None => None,
    };
    let lines = split_lines(content);
    let pieces = highlight_lines_with(lines.as_slice(), ext_ref, theme_ref);
    let ghost opv = opt_pieces_view(pieces@);
    let r = term_lines(pieces);
    proof {
        let nv = names_view(names@);
        assert forall|n: Seq<char>| #[trigger] syntect_theme_exists(n) implies nv.contains(n) by {
            let i = choose|i: int| 0 <= i < names@.len() && names@[i]@ == n;
            assert(nv[i] == n);
        }
        assert forall|i: int| 0 <= i < nv.len() implies syntect_theme_exists(#[trigger] nv[i]) by {
            assert(nv[i] == names@[i]@);
        }
        assert forall|i: int, j: int| 0 <= i < j < nv.len() implies chars_lt(nv[i], nv[j]) by {
            assert(nv[i] == names@[i]@ && nv[j] == names@[j]@);
        }
        assert(lists_all_themes(nv));
        assert(opt_str_view(ext_ref) == known_extension(path@));
        assert(opt_str_view(theme_ref) == theme_choice(nv));
        if syntect_theme_exists("base16-ocean.dark"@) {
            assert(nv.contains("base16-ocean.dark"@));
        }
        let cl = content_lines(content@);
        assert(names_view(lines@) == cl);
        assert(spans_view(r@).len() == r@.len());
        assert(shown_lines(or_empty(opv)).len() == opv.len());
        assert(names_view(lines@).len() == lines@.len());
        assert(r@.len() == cl.len());
        assert forall|i: int| 0 <= i < r@.len() implies spans_view(r@)[i].len() == 0 || spans_text(spans_view(r@)[i])
            == content_lines(content@)[i] by {
            assert(spans_view(r@).len() == r@.len());
            assert(shown_lines(or_empty(opv)).len() == opv.len());
            assert(opv.len() == pieces@.len());
            assert(i < lines@.len());
            assert(spans_view(r@)[i] == shown_lines(or_empty(opv))[i]);
            assert(names_view(lines@)[i] == lines@[i]@);
            if let Some(ps) = opv[i] {
                assert(pieces_text(ps) == lines@[i]@);
                lemma_spans_keep_text(ps);
            }
        }
    }
    r
}

} // verus!
