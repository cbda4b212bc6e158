//! Syntax highlighting of whole source files with syntect and the syntax
//! and theme collections of two-face.

use ratatui::style::Color;
use syntect::easy::HighlightLines;
use syntect::parsing::SyntaxSet;
use two_face::theme::LazyThemeSet;
use vstd::prelude::*;
use vstd::utf8::{encode_utf8, encode_utf8_valid_utf8, valid_utf8};

use crate::diff_row::DiffRow;
use crate::highlight::{
    highlight_rows, lemma_tokens_view_push, lines_view, optional_lines, row_tokens, tokens_view,
    HighlightedDiff, HighlightedFile, Token, TokenView,
};
use crate::text::{chars_of, string_from_chars};
use crate::unicode::{concat, lemma_concat_push};

verus! {

#[verifier::external_type_specification]
#[verifier::external_body]
pub struct ExSyntaxSet(SyntaxSet);

/// The terminal color `Color::Rgb(red, green, blue)`.
pub uninterp spec fn rgb_color(red: u8, green: u8, blue: u8) -> Color;

/// Calls `two_face::syntax::extra_newlines`: the syntax definitions that
/// two-face embeds, for lines that keep their line feed.
#[verifier::external_body]
fn embedded_syntaxes() -> (syntaxes: SyntaxSet) {
    two_face::syntax::extra_newlines()
}

/// The last component of `path` as `Path::file_name` reads it, unless the
/// path ends in `..`.
pub uninterp spec fn path_file_name(path: Seq<char>) -> Option<Seq<char>>;

/// Calls `Path::file_name` on `path`: its last component, unless the path
/// ends in `..`. Which component that is follows the path grammar of std
/// and is left to `path_file_name`.
#[verifier::external_body]
pub(crate) fn file_name_of(path: &str) -> (name: Option<String>)
    ensures
        match name {
            Some(n) => path_file_name(path@) == Some(n@),
            None => path_file_name(path@) is None,
        },
{
    std::path::Path::new(path).file_name().and_then(|name| name.to_str()).map(str::to_owned)
}

/// The position of the last `.` in `name`.
pub open spec fn last_dot(name: Seq<char>) -> Option<int>
    decreases name.len(),
{
    if name.len() == 0 {
        None
    } else if name.last() == '.' {
        Some(name.len() - 1)
    } else {
        last_dot(name.drop_last())
    }
}

/// The extension of a file name as `Path::extension` documents it: none
/// without a dot, or when the only dot begins the name; else the text after
/// the last dot.
pub open spec fn name_extension(name: Seq<char>) -> Option<Seq<char>> {
    match last_dot(name) {
        Some(dot) => if dot > 0 {
            Some(name.skip(dot + 1))
        } else {
            None
        },
        None => None,
    }
}

/// The extension of `path` as `Path::extension` reads it: the extension of
/// its file name, none without a file name.
pub open spec fn path_extension(path: Seq<char>) -> Option<Seq<char>> {
    match path_file_name(path) {
        Some(name) => name_extension(name),
        None => None,
    }
}

/// Calls `Path::extension` on `path`: the part of its file name after the
/// last dot, as `path_extension` states.
#[verifier::external_body]
fn extension_of(path: &str) -> (extension: Option<String>)
    ensures
        match extension {
            Some(e) => path_extension(path@) == Some(e@),
            None => path_extension(path@) is None,
        },
{
    std::path::Path::new(path).extension().and_then(|extension| extension.to_str()).map(
        str::to_owned,
    )
}

/// The syntaxes that a set holds, in order, each as its name and the file
/// extensions that it lists.
pub uninterp spec fn syntax_entries(syntaxes: SyntaxSet) -> Seq<(Seq<char>, Seq<Seq<char>>)>;

/// `c` with an ASCII capital letter made small, as `char::to_ascii_lowercase`
/// documents it.
pub open spec fn ascii_lowercase(c: char) -> char {
    if 'A' <= c <= 'Z' {
        ((c as u32) + 32) as char
    } else {
        c
    }
}

/// Whether two texts match when ASCII case is ignored, as
/// `str::eq_ignore_ascii_case` documents it.
pub open spec fn same_ignoring_ascii_case(a: Seq<char>, b: Seq<char>) -> bool {
    a.len() == b.len() && forall|i: int|
        0 <= i < a.len() ==> ascii_lowercase(#[trigger] a[i]) == ascii_lowercase(b[i])
}

/// Whether the syntax `entry` lists `extension`, ignoring ASCII case.
pub open spec fn entry_lists(entry: (Seq<char>, Seq<Seq<char>>), extension: Seq<char>) -> bool {
    exists|j: int| 0 <= j < entry.1.len() && same_ignoring_ascii_case(#[trigger] entry.1[j], extension)
}

/// The name of the last syntax of `entries` that lists `extension`,
/// ignoring ASCII case.
pub open spec fn last_listing(entries: Seq<(Seq<char>, Seq<Seq<char>>)>, extension: Seq<char>) -> Option<Seq<char>>
    decreases entries.len(),
{
    if entries.len() == 0 {
        None
    } else if entry_lists(entries.last(), extension) {
        Some(entries.last().0)
    } else {
        last_listing(entries.drop_last(), extension)
    }
}

/// The name of the last syntax of `entries` named `name`, ignoring ASCII
/// case.
pub open spec fn last_named(entries: Seq<(Seq<char>, Seq<Seq<char>>)>, name: Seq<char>) -> Option<Seq<char>>
    decreases entries.len(),
{
    if entries.len() == 0 {
        None
    } else if same_ignoring_ascii_case(entries.last().0, name) {
        Some(entries.last().0)
    } else {
        last_named(entries.drop_last(), name)
    }
}

/// `first` where there is one, else `second`.
pub open spec fn or_else(first: Option<Seq<char>>, second: Option<Seq<char>>) -> Option<Seq<char>> {
    if first is Some {
        first
    } else {
        second
    }
}

/// The syntax that a token names: the last one listing it as an extension,
/// else the last one with that name.
pub open spec fn token_syntax(entries: Seq<(Seq<char>, Seq<Seq<char>>)>, token: Seq<char>) -> Option<Seq<char>> {
    or_else(last_listing(entries, token), last_named(entries, token))
}

/// The name of the syntax of `entries` for the file at `path`: the syntax
/// that lists its whole file name, else the one that lists its extension,
/// else the one its file name names as a token.
pub open spec fn chosen_syntax(entries: Seq<(Seq<char>, Seq<Seq<char>>)>, path: Seq<char>) -> Option<Seq<char>> {
    match path_file_name(path) {
        None => None,
        Some(name) => or_else(
            last_listing(entries, name),
            or_else(
                match path_extension(path) {
                    Some(extension) => last_listing(entries, extension),
                    None => None,
                },
                token_syntax(entries, name),
            ),
        ),
    }
}

/// The view of an optional text.
pub open spec fn text_option(text: Option<String>) -> Option<Seq<char>> {
    match text {
        Some(text) => Some(text@),
        None => None,
    }
}

/// Calls `SyntaxSet::find_syntax_by_extension` and gives the name of the
/// syntax found: the set is searched from its end for a syntax that lists
/// the extension, ignoring ASCII case.
#[verifier::external_body]
fn syntax_by_extension(syntaxes: &SyntaxSet, extension: &str) -> (syntax: Option<String>)
    ensures
        text_option(syntax) == last_listing(syntax_entries(*syntaxes), extension@),
{
    syntaxes.find_syntax_by_extension(extension).map(|syntax| syntax.name.clone())
}

/// Calls `SyntaxSet::find_syntax_by_token` and gives the name of the
/// syntax found: the syntax found by extension, else the set searched from
/// its end for a syntax with that name, ignoring ASCII case.
#[verifier::external_body]
fn syntax_by_token(syntaxes: &SyntaxSet, token: &str) -> (syntax: Option<String>)
    ensures
        text_option(syntax) == token_syntax(syntax_entries(*syntaxes), token@),
{
    syntaxes.find_syntax_by_token(token).map(|syntax| syntax.name.clone())
}

/// A highlighted piece of a line as plain values: its foreground red,
/// green and blue, and its text.
pub open spec fn piece_view(piece: (u8, u8, u8, String)) -> (u8, u8, u8, Seq<char>) {
    (piece.0, piece.1, piece.2, piece.3@)
}

/// The views of the pieces of one line.
pub open spec fn line_pieces_view(pieces: Seq<(u8, u8, u8, String)>) -> Seq<(u8, u8, u8, Seq<char>)> {
    pieces.map_values(|piece: (u8, u8, u8, String)| piece_view(piece))
}

/// The views of the pieces of every line.
pub open spec fn file_pieces_view(pieces: Option<Vec<Vec<(u8, u8, u8, String)>>>) -> Option<
    Seq<Seq<(u8, u8, u8, Seq<char>)>>,
> {
    match pieces {
        Some(pieces) => Some(
            pieces@.map_values(|line: Vec<(u8, u8, u8, String)>| line_pieces_view(line@)),
        ),
        None => None,
    }
}

/// The views of strings.
pub open spec fn strings_view(strings: Seq<String>) -> Seq<Seq<char>> {
    strings.map_values(|text: String| text@)
}

/// The pieces that syntect gives for `lines`, highlighted one after the
/// other from the start of a file with the syntax named `syntax` of
/// two-face's embedded syntaxes and its embedded theme named `theme`, or
/// none where the syntax or the theme is missing or syntect fails on a
/// line.
pub uninterp spec fn syntect_file(theme: Seq<char>, syntax: Seq<char>, lines: Seq<Seq<char>>) -> Option<
    Seq<Seq<(u8, u8, u8, Seq<char>)>>,
>;

/// Highlights `lines` with syntect, one after the other from the start of
/// a file: two-face's embedded syntaxes for lines with line feeds
/// (`extra_newlines`) and its embedded themes (`extra`), the syntax found
/// by `find_syntax_by_name`, the theme by `LazyThemeSet::get`, then
/// `HighlightLines::highlight_line` on each line, each piece given as its
/// foreground color and its text. syntect documents that the pieces of a
/// line put together make the line.
#[verifier::external_body]
fn syntect_pieces(theme: &str, syntax: &str, lines: &Vec<String>) -> (pieces: Option<
    Vec<Vec<(u8, u8, u8, String)>>,
>)
    ensures
        file_pieces_view(pieces) == syntect_file(theme@, syntax@, strings_view(lines@)),
        pieces matches Some(pieces) ==> pieces@.len() == lines@.len() && forall|i: int|
            0 <= i < lines@.len() ==> concat(piece_texts(line_pieces_view(#[trigger] pieces@[i]@)))
                == lines@[i]@,
{
    let syntaxes = two_face::syntax::extra_newlines();
    let themes = LazyThemeSet::from(two_face::theme::extra());
    let mut highlighter = HighlightLines::new(syntaxes.find_syntax_by_name(syntax)?, themes.get(theme)?);
    lines.iter().map(
        |line| {
            let pieces = highlighter.highlight_line(line, &syntaxes).ok()?;
            Some(pieces.into_iter().map(|(style, text)| (style.foreground.r, style.foreground.g, style.foreground.b, text.to_owned())).collect())
        },
    ).collect()
}

/// Calls `Color::Rgb`.
#[verifier::external_body]
fn rgb(red: u8, green: u8, blue: u8) -> (color: Color)
    ensures
        color == rgb_color(red, green, blue),
{
    Color::Rgb(red, green, blue)
}

/// Calls `std::str::from_utf8`, which accepts exactly the well-formed
/// UTF-8 byte sequences and reads their characters.
#[verifier::external_body]
fn text_of(bytes: &[u8]) -> (text: Option<&str>)
    ensures
        text is Some <==> valid_utf8(bytes@),
        text matches Some(text) ==> encode_utf8(text@) == bytes@,
{
    std::str::from_utf8(bytes).ok()
}

/// The texts of highlighted pieces.
pub open spec fn piece_texts(pieces: Seq<(u8, u8, u8, Seq<char>)>) -> Seq<Seq<char>> {
    pieces.map_values(|piece: (u8, u8, u8, Seq<char>)| piece.3)
}

/// `text` without the carriage returns and line feeds at its end.
pub open spec fn trim_line_end(text: Seq<char>) -> Seq<char>
    decreases text.len(),
{
    if text.len() > 0 && (text.last() == '\r' || text.last() == '\n') {
        trim_line_end(text.drop_last())
    } else {
        text
    }
}

/// Whether `lines` splits `text` after each line feed: the lines make the
/// text, none is empty, and a line feed only ever ends a line, which every
/// line but the last has.
pub open spec fn splits_lines(text: Seq<char>, lines: Seq<Seq<char>>) -> bool {
    &&& concat(lines) == text
    &&& forall|i: int| 0 <= i < lines.len() ==> (#[trigger] lines[i]).len() > 0
    &&& forall|i: int, j: int|
        0 <= i < lines.len() && 0 <= j < lines[i].len() - 1 ==> #[trigger] lines[i][j] != '\n'
    &&& forall|i: int| 0 <= i < lines.len() - 1 ==> (#[trigger] lines[i]).last() == '\n'
}

/// The tokens of highlighted pieces: each piece's text without a line end,
/// in its color, leaving out pieces with no text left.
pub open spec fn piece_tokens(pieces: Seq<(u8, u8, u8, Seq<char>)>) -> Seq<TokenView>
    decreases pieces.len(),
{
    if pieces.len() == 0 {
        seq![]
    } else {
        let previous = piece_tokens(pieces.drop_last());
        let (red, green, blue, text) = pieces.last();
        let trimmed = trim_line_end(text);
        if trimmed.len() > 0 {
            previous.push((trimmed, rgb_color(red, green, blue)))
        } else {
            previous
        }
    }
}

/// `text` without the carriage returns and line feeds at its end.
pub fn trimmed_line(text: &str) -> (trimmed: String)
    ensures
        trimmed@ == trim_line_end(text@),
{
    let chars = chars_of(text);
    let mut end = chars.len();
    assert(chars@.take(chars@.len() as int) =~= chars@);
    while end > 0 && (chars[end - 1] == '\r' || chars[end - 1] == '\n')
        invariant
            end <= chars@.len(),
            trim_line_end(chars@) == trim_line_end(chars@.take(end as int)),
        decreases end,
    {
        assert(chars@.take(end as int).drop_last() =~= chars@.take(end - 1));
        end -= 1;
    }
    assert(chars@.take(chars@.len() as int) =~= chars@);
    assert(chars@.subrange(0, end as int) =~= chars@.take(end as int));
    string_from_chars(&chars, 0, end)
}

/// The lines of `text`, each with its line feed.
pub fn lines_with_endings(text: &str) -> (lines: Vec<String>)
    ensures
        splits_lines(text@, lines@.map_values(|line: String| line@)),
{
    let chars = chars_of(text);
    let mut lines: Vec<String> = Vec::new();
    let mut start: usize = 0;
    let mut i: usize = 0;
    let ghost mut views: Seq<Seq<char>> = seq![];
    proof {
        assert(concat(views) =~= chars@.take(0));
    }
    while i < chars.len()
        invariant
            start <= i <= chars@.len(),
            views == lines@.map_values(|line: String| line@),
            concat(views) == chars@.take(start as int),
            forall|k: int| 0 <= k < views.len() ==> (#[trigger] views[k]).len() > 0,
            forall|k: int, j: int|
                0 <= k < views.len() && 0 <= j < views[k].len() - 1 ==> #[trigger] views[k][j]
                    != '\n',
            forall|k: int| 0 <= k < views.len() ==> (#[trigger] views[k]).last() == '\n',
            forall|j: int| start <= j < i ==> chars@[j] != '\n',
        decreases chars.len() - i,
    {
        if chars[i] == '\n' {
            let line = string_from_chars(&chars, start, i + 1);
            proof {
                let piece = chars@.subrange(start as int, i + 1);
                lemma_concat_push(views, piece);
                assert(chars@.take(start as int) + piece =~= chars@.take(i + 1));
                views = views.push(piece);
            }
            lines.push(line);
            start = i + 1;
        }
        i += 1;
    }
    if start < chars.len() {
        let line = string_from_chars(&chars, start, chars.len());
        proof {
            let piece = chars@.subrange(start as int, chars@.len() as int);
            lemma_concat_push(views, piece);
            assert(chars@.take(start as int) + piece =~= chars@);
            views = views.push(piece);
        }
        lines.push(line);
    } else {
        assert(chars@.take(start as int) =~= chars@);
    }
    proof {
        assert(views == lines@.map_values(|line: String| line@));
    }
    lines
}

/// The tokens of the pieces of one highlighted line.
fn tokens_of_pieces(pieces: &Vec<(u8, u8, u8, String)>) -> (tokens: Vec<Token>)
    ensures
        tokens_view(tokens@) == piece_tokens(line_pieces_view(pieces@)),
{
    let mut tokens: Vec<Token> = Vec::new();
    let mut i: usize = 0;
    while i < pieces.len()
        invariant
            i <= pieces@.len(),
            tokens_view(tokens@) == piece_tokens(line_pieces_view(pieces@.take(i as int))),
        decreases pieces.len() - i,
    {
        proof {
            assert(line_pieces_view(pieces@.take(i + 1)).drop_last() =~= line_pieces_view(
                pieces@.take(i as int),
            ));
            assert(line_pieces_view(pieces@.take(i + 1)).last() == piece_view(pieces@[i as int]));
        }
        let (red, green, blue, text) = &pieces[i];
        let trimmed = trimmed_line(text.as_str());
        if !trimmed.as_str().is_empty() {
            let token = Token { text: trimmed, color: rgb(*red, *green, *blue) };
            proof {
                lemma_tokens_view_push(tokens@, token);
            }
            tokens.push(token);
        }
        i += 1;
    }
    assert(pieces@.take(pieces@.len() as int) =~= pieces@);
    tokens
}

/// Each line of `split` whole in the color `plain`, its line end left out.
pub open spec fn plain_file(split: Seq<Seq<char>>, plain: Color) -> Seq<Seq<TokenView>> {
    split.map_values(|line: Seq<char>| seq![(trim_line_end(line), plain)])
}

/// The token lines of syntect's pieces, line by line.
pub open spec fn highlighted_file(pieces: Option<Seq<Seq<(u8, u8, u8, Seq<char>)>>>) -> Option<
    Seq<Seq<TokenView>>,
> {
    match pieces {
        Some(pieces) => Some(
            pieces.map_values(|line: Seq<(u8, u8, u8, Seq<char>)>| piece_tokens(line)),
        ),
        None => None,
    }
}

/// The token lines of a text split into `split`, highlighted with the
/// theme named `theme` and the syntax named `syntax`: without a syntax,
/// every line in the color `plain`; with one, no lines for an empty text,
/// else the tokens of syntect's pieces of the lines, or none where syntect
/// gives none.
pub open spec fn file_tokens(
    split: Seq<Seq<char>>,
    plain: Color,
    theme: Seq<char>,
    syntax: Option<Seq<char>>,
) -> Option<Seq<Seq<TokenView>>> {
    match syntax {
        None => Some(plain_file(split, plain)),
        Some(name) => if split.len() == 0 {
            Some(seq![])
        } else {
            highlighted_file(syntect_file(theme, name, split))
        },
    }
}

/// Whether `file` is what highlighting a file of `content` gives with the
/// theme named `theme` and the syntax named `syntax`: no file without
/// content or for bytes that are not UTF-8; else the token lines of the
/// lines of its text (see `file_tokens`).
pub open spec fn highlights_file(
    content: Option<Seq<u8>>,
    file: Option<Vec<Vec<Token>>>,
    plain: Color,
    theme: Seq<char>,
    syntax: Option<Seq<char>>,
) -> bool {
    match content {
        None => file is None,
        Some(bytes) => if !valid_utf8(bytes) {
            file is None
        } else {
            exists|text: Seq<char>, split: Seq<Seq<char>>|
                #![trigger splits_lines(text, split)]
                encode_utf8(text) == bytes && splits_lines(text, split) && optional_lines(file)
                    == file_tokens(split, plain, theme, syntax)
        },
    }
}

pub open spec fn content_view(content: Option<&[u8]>) -> Option<Seq<u8>> {
    match content {
        Some(bytes) => Some(bytes@),
        None => None,
    }
}

/// Applies syntax colors to source files and diff rows.
pub struct SyntaxHighlighter {
    /// The syntaxes in which a file's syntax is looked up.
    pub syntaxes: SyntaxSet,
    /// The name of the embedded theme that gives the syntax colors.
    pub theme: String,
    /// The color of text without a known syntax.
    pub plain: Color,
}

impl SyntaxHighlighter {
    /// A highlighter with the embedded syntaxes and the embedded theme
    /// named `theme` (the name `EmbeddedThemeName::as_name` gives); text
    /// without a known syntax is drawn in `plain`.
    pub fn new(theme: &str, plain: Color) -> (highlighter: Self)
        ensures
            highlighter.theme@ == theme@,
            highlighter.plain == plain,
    {
        SyntaxHighlighter { syntaxes: embedded_syntaxes(), theme: theme.to_owned(), plain }
    }

    /// The name of the syntax the highlighter uses for the file at `path`.
    pub open spec fn syntax_for(&self, path: Seq<char>) -> Option<Seq<char>> {
        chosen_syntax(syntax_entries(self.syntaxes), path)
    }

    /// The name of the syntax of a file: the syntax that lists its whole
    /// file name as an extension, else its extension, else its file name
    /// as a token.
    fn syntax(&self, path: &str) -> (syntax: Option<String>)
        ensures
            text_option(syntax) == self.syntax_for(path@),
    {
        let name = match file_name_of(path) {
            Some(name) => name,
            None => return None,
        };
        if let Some(syntax) = syntax_by_extension(&self.syntaxes, name.as_str()) {
            return Some(syntax);
        }
        if let Some(extension) = extension_of(path) {
            if let Some(syntax) = syntax_by_extension(&self.syntaxes, extension.as_str()) {
                return Some(syntax);
            }
        }
        syntax_by_token(&self.syntaxes, name.as_str())
    }

    /// The token lines of a file with content `content`: each line in
    /// syntax colors when the path names a known syntax, else in the plain
    /// color; none when there is no content, it is not UTF-8, or syntect
    /// gives no pieces for its lines.
    pub fn highlight_file(&self, path: &str, content: Option<&[u8]>) -> (file: Option<Vec<Vec<Token>>>)
        ensures
            highlights_file(content_view(content), file, self.plain, self.theme@, self.syntax_for(path@)),
    {
        let bytes = match content {
            Some(bytes) => bytes,
            None => return None,
        };
        let text = match text_of(bytes) {
            Some(text) => text,
            None => return None,
        };
        let lines = lines_with_endings(text);
        let ghost split = strings_view(lines@);
        proof {
            assert(split =~= lines@.map_values(|line: String| line@));
            assert(splits_lines(text@, split));
        }
        let mut file: Vec<Vec<Token>> = Vec::new();
        match self.syntax(path) {
            None => {
                let mut i: usize = 0;
                while i < lines.len()
                    invariant
                        i <= lines@.len(),
                        split == strings_view(lines@),
                        file@.len() == i,
                        forall|k: int|
                            0 <= k < i ==> tokens_view(#[trigger] file@[k]@) == seq![
                                (trim_line_end(split[k]), self.plain),
                            ],
                    decreases lines.len() - i,
                {
                    let token = Token { text: trimmed_line(lines[i].as_str()), color: self.plain };
                    let mut tokens: Vec<Token> = Vec::new();
                    proof {
                        lemma_tokens_view_push(tokens@, token);
                    }
                    tokens.push(token);
                    file.push(tokens);
                    proof {
                        assert(tokens_view(file@[i as int]@) =~= seq![
                            (trim_line_end(split[i as int]), self.plain),
                        ]);
                    }
                    i += 1;
                }
                proof {
                    assert(lines_view(file@) =~= plain_file(split, self.plain));
                }
                Some(file)
            },
            Some(name) => {
                if lines.len() == 0 {
                    proof {
                        assert(lines_view(file@) =~= seq![]);
                    }
                    return Some(file);
                }
                let pieces = match syntect_pieces(self.theme.as_str(), name.as_str(), &lines) {
                    Some(pieces) => pieces,
                    None => return None,
                };
                let ghost seen = pieces@.map_values(
                    |line: Vec<(u8, u8, u8, String)>| line_pieces_view(line@),
                );
                let mut i: usize = 0;
                while i < pieces.len()
                    invariant
                        i <= pieces@.len(),
                        seen == pieces@.map_values(
                            |line: Vec<(u8, u8, u8, String)>| line_pieces_view(line@),
                        ),
                        file@.len() == i,
                        forall|k: int|
                            0 <= k < i ==> tokens_view(#[trigger] file@[k]@) == piece_tokens(seen[k]),
                    decreases pieces.len() - i,
                {
                    let tokens = tokens_of_pieces(&pieces[i]);
                    file.push(tokens);
                    i += 1;
                }
                proof {
                    assert(lines_view(file@) =~= seen.map_values(
                        |line: Seq<(u8, u8, u8, Seq<char>)>| piece_tokens(line),
                    ));
                }
                Some(file)
            },
        }
    }

    /// Whether `highlighted` is the highlighted diff of `rows` for the file
    /// at `path` with contents `old_content` before and `new_content` after
    /// the change: both files highlighted from their content, and each row
    /// taking its line from the file of its side (see `row_tokens`).
    pub open spec fn highlights_diff(
        &self,
        path: Seq<char>,
        rows: Seq<DiffRow>,
        old_content: Option<Seq<u8>>,
        new_content: Option<Seq<u8>>,
        highlighted: HighlightedDiff,
    ) -> bool {
            exists|old: Option<Vec<Vec<Token>>>, new: Option<Vec<Vec<Token>>>|
                #![trigger highlights_file(old_content, old, self.plain, self.theme@, self.syntax_for(path)), highlights_file(new_content, new, self.plain, self.theme@, self.syntax_for(path))]
                {
                    &&& highlights_file(old_content, old, self.plain, self.theme@, self.syntax_for(path))
                    &&& highlights_file(new_content, new, self.plain, self.theme@, self.syntax_for(path))
                    &&& highlighted.rows@.len() == rows.len()
                    &&& forall|i: int|
                        0 <= i < rows.len() ==> (#[trigger] highlighted.rows@[i]).diff == rows[i]
                            && tokens_view(highlighted.rows@[i].tokens@) == row_tokens(
                            rows[i],
                            crate::highlight::optional_lines(old),
                            crate::highlight::optional_lines(new),
                            self.plain,
                        )
                    &&& highlighted.file == if new_content is Some {
                        match new {
                            Some(lines) => Some(HighlightedFile::AfterChange(lines)),
                            None => None,
                        }
                    } else {
                        match old {
                            Some(lines) => Some(HighlightedFile::BeforeChange(lines)),
                            None => None,
                        }
                    }
                }
    }

    /// The highlighted diff of `rows`: the files before and after the change
    /// are highlighted from their content, and each row takes its line from
    /// the file of its side (see `highlight_rows`).
    pub fn highlight(
        &self,
        path: &str,
        rows: Vec<DiffRow>,
        old_content: Option<&[u8]>,
        new_content: Option<&[u8]>,
    ) -> (highlighted: HighlightedDiff)
        ensures
            self.highlights_diff(
                path@,
                rows@,
                content_view(old_content),
                content_view(new_content),
                highlighted,
            ),
    {
        let old = self.highlight_file(path, old_content);
        let new = self.highlight_file(path, new_content);
        let ghost old_file = old;
        let ghost new_file = new;
        let highlighted = highlight_rows(rows, old, new, new_content.is_some(), self.plain);
        proof {
            assert(highlights_file(content_view(old_content), old_file, self.plain, self.theme@, self.syntax_for(path@)));
            assert(highlights_file(content_view(new_content), new_file, self.plain, self.theme@, self.syntax_for(path@)));
        }
        highlighted
    }

    /// The token lines of a snippet of source code in the syntax named by
    /// `language`, or each line in the plain color where no such syntax is
    /// known; none when syntect fails on a line.
    pub fn highlight_snippet(&self, language: &str, content: &str) -> (lines: Option<Vec<Vec<Token>>>)
        ensures
            highlights_file(Some(encode_utf8(content@)), lines, self.plain, self.theme@, self.syntax_for(language@)),
            self.syntax_for(language@) is None ==> lines is Some,
    {
        let bytes = content.as_bytes();
        proof {
            encode_utf8_valid_utf8(content@);
        }
        self.highlight_file(language, Some(bytes))
    }
}

} // verus!
