//! Syntax-colored tokens of source lines and diff rows.

use ratatui::style::Color;
use vstd::prelude::*;

use crate::diff_row::DiffRow;
use crate::text::{chars_of, string_from_chars};

verus! {

#[verifier::external_type_specification]
#[verifier::external_body]
pub struct ExColor(Color);

/// One syntax-colored part of a source line.
#[derive(Debug, PartialEq, Eq)]
pub struct Token {
    pub text: String,
    pub color: Color,
}

/// The text and color of a token.
pub type TokenView = (Seq<char>, Color);

impl View for Token {
    type V = TokenView;

    open spec fn view(&self) -> TokenView {
        (self.text@, self.color)
    }
}

pub open spec fn tokens_view(tokens: Seq<Token>) -> Seq<TokenView> {
    tokens.map_values(|token: Token| token@)
}

pub open spec fn lines_view(lines: Seq<Vec<Token>>) -> Seq<Seq<TokenView>> {
    lines.map_values(|line: Vec<Token>| tokens_view(line@))
}

pub proof fn lemma_tokens_view_push(tokens: Seq<Token>, token: Token)
    ensures
        tokens_view(tokens.push(token)) == tokens_view(tokens).push(token@),
{
    assert(tokens_view(tokens.push(token)) =~= tokens_view(tokens).push(token@));
}

pub proof fn lemma_lines_view_push(lines: Seq<Vec<Token>>, line: Vec<Token>)
    ensures
        lines_view(lines.push(line)) == lines_view(lines).push(tokens_view(line@)),
{
    assert(lines_view(lines.push(line)) =~= lines_view(lines).push(tokens_view(line@)));
}

impl Token {
    /// A token of `text` in `color`.
    pub fn new(text: &str, color: Color) -> (token: Self)
        ensures
            token@ == (text@, color),
    {
        Token { text: text.to_owned(), color }
    }

    /// A copy of the token.
    pub fn duplicate(&self) -> (copy: Self)
        ensures
            copy@ == self@,
    {
        Token { text: self.text.clone(), color: self.color }
    }
}

impl Clone for Token {
    fn clone(&self) -> (copy: Self)
        ensures
            copy@ == self@,
    {
        self.duplicate()
    }
}

/// A copy of a token list.
pub fn duplicate_tokens(tokens: &Vec<Token>) -> (copy: Vec<Token>)
    ensures
        tokens_view(copy@) == tokens_view(tokens@),
{
    let mut copy: Vec<Token> = Vec::new();
    let mut i: usize = 0;
    while i < tokens.len()
        invariant
            i <= tokens.len(),
            tokens_view(copy@) == tokens_view(tokens@).take(i as int),
        decreases tokens.len() - i,
    {
        let token = tokens[i].duplicate();
        proof {
            lemma_tokens_view_push(copy@, token);
        }
        copy.push(token);
        i += 1;
        assert(tokens_view(copy@) =~= tokens_view(tokens@).take(i as int));
    }
    assert(tokens_view(tokens@).take(tokens.len() as int) =~= tokens_view(tokens@));
    copy
}

/// A copy of a list of token lines.
pub fn duplicate_lines(lines: &Vec<Vec<Token>>, from: usize, to: usize) -> (copy: Vec<Vec<Token>>)
    requires
        from <= to <= lines.len(),
    ensures
        lines_view(copy@) == lines_view(lines@).subrange(from as int, to as int),
{
    let mut copy: Vec<Vec<Token>> = Vec::new();
    let mut i: usize = from;
    while i < to
        invariant
            from <= i <= to <= lines.len(),
            lines_view(copy@) == lines_view(lines@).subrange(from as int, i as int),
        decreases to - i,
    {
        let line = duplicate_tokens(&lines[i]);
        proof {
            lemma_lines_view_push(copy@, line);
        }
        copy.push(line);
        i += 1;
        assert(lines_view(copy@) =~= lines_view(lines@).subrange(from as int, i as int));
    }
    copy
}

/// One diff row and its syntax-colored code.
#[derive(Clone, Debug, PartialEq, Eq)]
pub struct HighlightedRow {
    pub diff: DiffRow,
    pub tokens: Vec<Token>,
}

/// The highlighted lines of the file after the change, or before it when
/// the file no longer exists.
#[derive(Clone, Debug, PartialEq, Eq)]
pub enum HighlightedFile {
    AfterChange(Vec<Vec<Token>>),
    BeforeChange(Vec<Vec<Token>>),
}

impl HighlightedFile {
    /// The lines of the file after the change, when this is that side.
    pub fn after_change_lines(&self) -> (lines: Option<&Vec<Vec<Token>>>)
        ensures
            lines == match self {
                HighlightedFile::AfterChange(lines) => Some(lines),
                HighlightedFile::BeforeChange(_) => None::<&Vec<Vec<Token>>>,
            },
    {
        match self {
            HighlightedFile::AfterChange(lines) => Some(lines),
            HighlightedFile::BeforeChange(_) => None,
        }
    }

    /// The lines of the file, whichever side it shows.
    pub fn into_lines(self) -> (lines: Vec<Vec<Token>>)
        ensures
            lines == match self {
                HighlightedFile::AfterChange(lines) => lines,
                HighlightedFile::BeforeChange(lines) => lines,
            },
    {
        match self {
            HighlightedFile::AfterChange(lines) => lines,
            HighlightedFile::BeforeChange(lines) => lines,
        }
    }
}

/// Highlighted diff rows and, when its source is known, the whole file.
#[derive(Clone, Debug, PartialEq, Eq)]
pub struct HighlightedDiff {
    pub rows: Vec<HighlightedRow>,
    pub file: Option<HighlightedFile>,
}

/// The line `line` (one-based) of a highlighted file, when it has one.
pub open spec fn line_of(lines: Option<Seq<Seq<TokenView>>>, line: u32) -> Option<Seq<TokenView>> {
    match lines {
        Some(lines) => if 1 <= line && line - 1 < lines.len() {
            Some(lines[line - 1])
        } else {
            None
        },
        None => None,
    }
}

/// `text` without a leading space, `-` or `+` marker.
pub open spec fn without_marker(text: Seq<char>) -> Seq<char> {
    if text.len() > 0 && (text[0] == ' ' || text[0] == '-' || text[0] == '+') {
        text.drop_first()
    } else {
        text
    }
}

/// The tokens of a diff row: its line in the highlighted file of its side,
/// else its text without the marker in the plain color; none for other
/// rows.
pub open spec fn row_tokens(
    diff: DiffRow,
    old: Option<Seq<Seq<TokenView>>>,
    new: Option<Seq<Seq<TokenView>>>,
    plain: Color,
) -> Seq<TokenView> {
    match diff {
        DiffRow::Context { new_line, text, .. } => match line_of(new, new_line) {
            Some(tokens) => tokens,
            None => seq![(without_marker(text@), plain)],
        },
        DiffRow::Add { new_line, text } => match line_of(new, new_line) {
            Some(tokens) => tokens,
            None => seq![(without_marker(text@), plain)],
        },
        DiffRow::Delete { old_line, text } => match line_of(old, old_line) {
            Some(tokens) => tokens,
            None => seq![(without_marker(text@), plain)],
        },
        _ => seq![],
    }
}

pub open spec fn optional_lines(lines: Option<Vec<Vec<Token>>>) -> Option<Seq<Seq<TokenView>>> {
    match lines {
        Some(lines) => Some(lines_view(lines@)),
        None => None,
    }
}

/// A copy of line `line` (one-based) of a highlighted file.
pub fn line_tokens(lines: Option<&Vec<Vec<Token>>>, line: u32) -> (tokens: Option<Vec<Token>>)
    ensures
        match tokens {
            Some(tokens) => line_of(
                match lines {
                    Some(lines) => Some(lines_view(lines@)),
                    None => None,
                },
                line,
            ) == Some(tokens_view(tokens@)),
            None => line_of(
                match lines {
                    Some(lines) => Some(lines_view(lines@)),
                    None => None,
                },
                line,
            ) is None,
        },
{
    let lines = match lines {
        Some(lines) => lines,
        None => return None,
    };
    if line < 1 || (line - 1) as usize >= lines.len() {
        return None;
    }
    let index = (line - 1) as usize;
    Some(duplicate_tokens(&lines[index]))
}

/// A diff row's text without its marker, as one token in the plain color.
pub fn plain_diff_line(text: &str, plain: Color) -> (tokens: Vec<Token>)
    ensures
        tokens_view(tokens@) == seq![(without_marker(text@), plain)],
{
    let chars = chars_of(text);
    let start: usize = if chars.len() > 0 && (chars[0] == ' ' || chars[0] == '-' || chars[0]
        == '+') {
        1
    } else {
        0
    };
    let stripped = string_from_chars(&chars, start, chars.len());
    assert(stripped@ == without_marker(text@)) by {
        if start == 1 {
            assert(chars@.subrange(1, chars@.len() as int) =~= text@.drop_first());
        } else {
            assert(chars@.subrange(0, chars@.len() as int) =~= text@);
        }
    }
    let mut tokens: Vec<Token> = Vec::new();
    let token = Token { text: stripped, color: plain };
    tokens.push(token);
    assert(tokens_view(tokens@) =~= seq![(without_marker(text@), plain)]);
    tokens
}

/// The highlighted diff of `rows`: each row with the tokens of its line in
/// the highlighted file of its side, or its plain text; and the whole file
/// after the change when its content is known, else the file before it.
pub fn highlight_rows(
    rows: Vec<DiffRow>,
    old: Option<Vec<Vec<Token>>>,
    new: Option<Vec<Vec<Token>>>,
    new_content_known: bool,
    plain: Color,
) -> (highlighted: HighlightedDiff)
    ensures
        highlighted.rows@.len() == rows@.len(),
        forall|i: int|
            0 <= i < rows@.len() ==> (#[trigger] highlighted.rows@[i]).diff == rows@[i] && tokens_view(
                highlighted.rows@[i].tokens@,
            ) == row_tokens(rows@[i], optional_lines(old), optional_lines(new), plain),
        highlighted.file == if new_content_known {
            match new {
                Some(lines) => Some(HighlightedFile::AfterChange(lines)),
                None => None,
            }
        } else {
            match old {
                Some(lines) => Some(HighlightedFile::BeforeChange(lines)),
                None => None,
            }
        },
{
    let mut highlighted_rows: Vec<HighlightedRow> = Vec::new();
    for diff in it: rows.into_iter()
        invariant
            it.seq() == rows@,
            highlighted_rows@.len() == it.index(),
            forall|i: int|
                0 <= i < it.index() ==> (#[trigger] highlighted_rows@[i]).diff == rows@[i]
                    && tokens_view(highlighted_rows@[i].tokens@) == row_tokens(
                    rows@[i],
                    optional_lines(old),
                    optional_lines(new),
                    plain,
                ),
    {
        let new_lines = match &new {
            Some(lines) => Some(lines),
            None => None,
        };
        let old_lines = match &old {
            Some(lines) => Some(lines),
            None => None,
        };
        let tokens = match &diff {
            DiffRow::Context { new_line, text, .. } | DiffRow::Add { new_line, text } => {
                match line_tokens(new_lines, *new_line) {
                    Some(tokens) => tokens,
                    None => plain_diff_line(text.as_str(), plain),
                }
            },
            DiffRow::Delete { old_line, text } => match line_tokens(old_lines, *old_line) {
                Some(tokens) => tokens,
                None => plain_diff_line(text.as_str(), plain),
            },
            _ => Vec::new(),
        };
        highlighted_rows.push(HighlightedRow { diff, tokens });
    }
    let file = if new_content_known {
        match new {
            Some(lines) => Some(HighlightedFile::AfterChange(lines)),
            None => None,
        }
    } else {
        match old {
            Some(lines) => Some(HighlightedFile::BeforeChange(lines)),
            None => None,
        }
    };
    HighlightedDiff { rows: highlighted_rows, file }
}

} // verus!
