//! Errors of the LNMP text format, with their positions and messages, and
//! the source context shown around them.

use vstd::prelude::*;
use vstd::string::StrSliceExecFns;
use crate::numfmt::{decimal, push_char, push_str, push_decimal, string_of};

verus! {

/// Position of an error with the lines of source around it.
#[derive(Debug, Clone, PartialEq)]
pub struct ErrorContext {
    /// Line of the error.
    pub line: usize,
    /// Column of the error.
    pub column: usize,
    /// Up to three source lines around the error, joined by newlines.
    pub source_snippet: String,
    /// Name of the source file, when known.
    pub source_file: Option<String>,
}

/// Position of the first newline at or after `i`, or the length of `s`.
pub open spec fn next_newline(s: Seq<char>, i: int) -> int
    decreases s.len() - i,
{
    if i >= s.len() {
        s.len() as int
    } else if s[i] == '\n' {
        i
    } else {
        next_newline(s, i + 1)
    }
}

/// `next_newline` never goes back and never passes the end.
pub proof fn lemma_next_newline(s: Seq<char>, i: int)
    requires
        0 <= i <= s.len(),
    ensures
        i <= next_newline(s, i) <= s.len(),
        next_newline(s, i) < s.len() ==> s[next_newline(s, i)] == '\n',
    decreases s.len() - i,
{
    if i < s.len() && s[i] != '\n' {
        lemma_next_newline(s, i + 1);
    }
}

/// The line that starts at `i` and ends at `e`: without its newline, and
/// without a carriage return just before that newline.
pub open spec fn line_at(s: Seq<char>, i: int, e: int) -> Seq<char> {
    let raw = s.subrange(i, e);
    if e < s.len() && raw.len() > 0 && raw.last() == '\r' {
        raw.drop_last()
    } else {
        raw
    }
}

/// The lines of `s` from position `i` on.
pub open spec fn lines_from(s: Seq<char>, i: int) -> Seq<Seq<char>>
    decreases s.len() + 1 - i,
{
    if i < 0 || i >= s.len() {
        Seq::empty()
    } else {
        let e = next_newline(s, i);
        if e < i || e > s.len() {
            Seq::empty()
        } else {
            seq![line_at(s, i, e)] + lines_from(s, e + 1)
        }
    }
}

/// The lines of a text: the pieces between newlines, each without its
/// newline or a carriage return before it, with no empty piece after a final
/// newline.
pub open spec fn text_lines(s: Seq<char>) -> Seq<Seq<char>> {
    lines_from(s, 0)
}

/// Lines joined by newlines.
pub open spec fn join_lines(ls: Seq<Seq<char>>) -> Seq<char>
    decreases ls.len(),
{
    if ls.len() == 0 {
        Seq::empty()
    } else if ls.len() == 1 {
        ls[0]
    } else {
        join_lines(ls.drop_last()) + seq!['\n'] + ls.last()
    }
}

/// The lines shown around an error on `line`: from two lines before it up to
/// the line after it, within the text.
pub open spec fn snippet_of(source: Seq<char>, line: nat) -> Seq<char> {
    let ls = text_lines(source);
    let start: int = if line >= 2 {
        line - 2
    } else {
        0
    };
    let end: int = if line + 1 <= ls.len() {
        line + 1int
    } else {
        ls.len() as int
    };
    join_lines(ls.subrange(start, end))
}

/// The snippet can be cut: the error line is at most two past the last line.
pub open spec fn snippet_in_range(source: Seq<char>, line: nat) -> bool {
    line < usize::MAX && (if line >= 2 {
        line - 2
    } else {
        0
    }) <= text_lines(source).len()
}

/// The characters of `s`.
pub fn chars_of(s: &str) -> (v: Vec<char>)
    ensures
        v@ == s@,
{
    let n = s.unicode_len();
    let mut v: Vec<char> = Vec::new();
    let mut i: usize = 0;
    while i < n
        invariant
            n == s@.len(),
            i <= n,
            v@ == s@.take(i as int),
        decreases n - i,
    {
        v.push(s.get_char(i));
        i = i + 1;
        assert(v@ =~= s@.take(i as int));
    }
    assert(v@ =~= s@);
    v
}

/// The lines of `s`.
fn split_lines(s: &str) -> (ls: Vec<Vec<char>>)
    ensures
        ls@.map_values(|l: Vec<char>| l@) == text_lines(s@),
{
    let cs = chars_of(s);
    let n = cs.len();
    let mut ls: Vec<Vec<char>> = Vec::new();
    let mut i: usize = 0;
    proof {
        assert(ls@.map_values(|l: Vec<char>| l@) + lines_from(s@, 0) =~= text_lines(s@));
    }
    while i < n
        invariant
            n == cs@.len(),
            cs@ == s@,
            i <= n,
            ls@.map_values(|l: Vec<char>| l@) + lines_from(s@, i as int) == text_lines(s@),
        decreases n - i,
    {
        let mut j: usize = i;
        while j < n && cs[j] != '\n'
            invariant
                n == cs@.len(),
                i <= j <= n,
                next_newline(cs@, i as int) == next_newline(cs@, j as int),
            decreases n - j,
        {
            j = j + 1;
        }
        proof {
            lemma_next_newline(cs@, i as int);
        }
        let mut line: Vec<char> = Vec::new();
        let mut k: usize = i;
        while k < j
            invariant
                i <= k <= j <= n,
                n == cs@.len(),
                line@ == cs@.subrange(i as int, k as int),
            decreases j - k,
        {
            line.push(cs[k]);
            k = k + 1;
            assert(line@ =~= cs@.subrange(i as int, k as int));
        }
        if j < n && line.len() > 0 && line[line.len() - 1] == '\r' {
            line.pop();
            assert(line@ =~= cs@.subrange(i as int, j as int).drop_last());
        }
        let ghost before = ls@;
        ls.push(line);
        proof {
            assert(ls@.map_values(|l: Vec<char>| l@) =~= before.map_values(|l: Vec<char>| l@).push(
                line_at(s@, i as int, j as int),
            ));
            assert(lines_from(s@, i as int) == seq![line_at(s@, i as int, j as int)] + lines_from(
                s@,
                j + 1,
            ));
            assert(ls@.map_values(|l: Vec<char>| l@) + lines_from(s@, j + 1) =~= before.map_values(
                |l: Vec<char>| l@,
            ) + lines_from(s@, i as int));
        }
        i = if j < n {
            j + 1
        } else {
            n
        };
        proof {
            if j >= n {
                assert(lines_from(s@, j + 1) =~= Seq::<Seq<char>>::empty());
                assert(lines_from(s@, n as int) =~= Seq::<Seq<char>>::empty());
            }
        }
    }
    proof {
        assert(lines_from(s@, n as int) =~= Seq::<Seq<char>>::empty());
        assert(ls@.map_values(|l: Vec<char>| l@) + lines_from(s@, n as int) =~= ls@.map_values(
            |l: Vec<char>| l@,
        ));
    }
    ls
}

/// Appends the characters of `cs` to `out`.
fn push_chars(out: &mut String, cs: &Vec<char>)
    ensures
        final(out)@ == old(out)@ + cs@,
{
    let mut i: usize = 0;
    while i < cs.len()
        invariant
            i <= cs@.len(),
            out@ == old(out)@ + cs@.take(i as int),
        decreases cs.len() - i,
    {
        push_char(out, cs[i]);
        i = i + 1;
        assert(out@ =~= old(out)@ + cs@.take(i as int));
    }
    assert(cs@.take(cs@.len() as int) =~= cs@);
}

impl ErrorContext {
    /// A context at `line` and `column` with no snippet and no file.
    pub fn new(line: usize, column: usize) -> (c: Self)
        ensures
            c.line == line,
            c.column == column,
            c.source_snippet@ == Seq::<char>::empty(),
            c.source_file is None,
    {
        ErrorContext { line, column, source_snippet: String::new(), source_file: None }
    }

    /// A context at `line` and `column` with the lines of `source` around it.
    pub fn with_snippet(line: usize, column: usize, source: &str) -> (c: Self)
        requires
            snippet_in_range(source@, line as nat),
        ensures
            c.line == line,
            c.column == column,
            c.source_snippet@ == snippet_of(source@, line as nat),
            c.source_file is None,
    {
        let snippet = Self::extract_snippet(source, line);
        ErrorContext { line, column, source_snippet: snippet, source_file: None }
    }

    /// A context at `line` and `column` with the lines of `source` around it
    /// and the name of its file.
    pub fn with_file(line: usize, column: usize, source: &str, file: String) -> (c: Self)
        requires
            snippet_in_range(source@, line as nat),
        ensures
            c.line == line,
            c.column == column,
            c.source_snippet@ == snippet_of(source@, line as nat),
            c.source_file == Some(file),
    {
        let snippet = Self::extract_snippet(source, line);
        ErrorContext { line, column, source_snippet: snippet, source_file: Some(file) }
    }

    /// The lines of `source` from two before `error_line` to the one after
    /// it, joined by newlines.
    fn extract_snippet(source: &str, error_line: usize) -> (s: String)
        requires
            snippet_in_range(source@, error_line as nat),
        ensures
            s@ == snippet_of(source@, error_line as nat),
    {
        let lines = split_lines(source);
        let ghost ls = lines@.map_values(|l: Vec<char>| l@);
        let start = error_line.saturating_sub(2);
        let end = if error_line + 1 < lines.len() {
            error_line + 1
        } else {
            lines.len()
        };
        let mut out = String::new();
        let mut i: usize = start;
        while i < end
            invariant
                start <= i <= end <= lines@.len(),
                ls == lines@.map_values(|l: Vec<char>| l@),
                out@ == join_lines(ls.subrange(start as int, i as int)),
            decreases end - i,
        {
            if i > start {
                push_char(&mut out, '\n');
            }
            push_chars(&mut out, &lines[i]);
            proof {
                let prev = ls.subrange(start as int, i as int);
                let next = ls.subrange(start as int, i + 1);
                assert(next.drop_last() =~= prev);
                assert(next.last() == lines@[i as int]@);
                if i == start {
                    assert(next.len() == 1);
                }
            }
            i = i + 1;
        }
        out
    }
}

/// Error of the LNMP text format.
#[allow(inconsistent_fields)]
#[derive(Debug, Clone, PartialEq)]
pub enum LnmpError {
    /// A character the lexer does not accept.
    InvalidCharacter {
        /// The character.
        char: char,
        /// Line.
        line: usize,
        /// Column.
        column: usize,
    },
    /// A string literal without its closing quote.
    UnterminatedString {
        /// Line where the string starts.
        line: usize,
        /// Column where the string starts.
        column: usize,
    },
    /// A token the parser did not expect.
    UnexpectedToken {
        /// What was expected.
        expected: String,
        /// The token found, as written in messages.
        found: String,
        /// Line.
        line: usize,
        /// Column.
        column: usize,
    },
    /// A field identifier that is not a valid `u16`.
    InvalidFieldId {
        /// The text found.
        value: String,
        /// Line.
        line: usize,
        /// Column.
        column: usize,
    },
    /// An invalid value for a field.
    InvalidValue {
        /// The field.
        field_id: u16,
        /// Why the value is invalid.
        reason: String,
        /// Line.
        line: usize,
        /// Column.
        column: usize,
    },
    /// The input ended too early.
    UnexpectedEof {
        /// Line.
        line: usize,
        /// Column.
        column: usize,
    },
    /// An invalid escape sequence in a string.
    InvalidEscapeSequence {
        /// The sequence.
        sequence: String,
        /// Line.
        line: usize,
        /// Column.
        column: usize,
    },
    /// A rule of strict mode was broken.
    StrictModeViolation {
        /// What was broken.
        reason: String,
        /// Line.
        line: usize,
        /// Column.
        column: usize,
    },
    /// A value that does not match its type hint.
    TypeHintMismatch {
        /// The field.
        field_id: u16,
        /// Type named by the hint.
        expected_type: String,
        /// The value found.
        actual_value: String,
        /// Line.
        line: usize,
        /// Column.
        column: usize,
    },
    /// A type hint that names no type.
    InvalidTypeHint {
        /// The hint.
        hint: String,
        /// Line.
        line: usize,
        /// Column.
        column: usize,
    },
    /// A field whose checksum does not match.
    ChecksumMismatch {
        /// The field.
        field_id: u16,
        /// Checksum expected.
        expected: String,
        /// Checksum found.
        found: String,
        /// Line.
        line: usize,
        /// Column.
        column: usize,
    },
    /// Nesting deeper than allowed.
    NestingTooDeep {
        /// Deepest nesting allowed.
        max_depth: usize,
        /// Depth reached.
        actual_depth: usize,
        /// Line.
        line: usize,
        /// Column.
        column: usize,
    },
    /// A malformed nested structure.
    InvalidNestedStructure {
        /// What is wrong.
        reason: String,
        /// Line.
        line: usize,
        /// Column.
        column: usize,
    },
    /// A nested structure that is never closed.
    UnclosedNestedStructure {
        /// Kind of structure ("record" or "array").
        structure_type: String,
        /// Line where it opens.
        opened_at_line: usize,
        /// Column where it opens.
        opened_at_column: usize,
        /// Line where the error was found.
        line: usize,
        /// Column where the error was found.
        column: usize,
    },
}

/// Line and column of an error.
pub open spec fn error_position(e: LnmpError) -> (usize, usize) {
    match e {
        LnmpError::InvalidCharacter { line, column, .. } => (line, column),
        LnmpError::UnterminatedString { line, column } => (line, column),
        LnmpError::UnexpectedToken { line, column, .. } => (line, column),
        LnmpError::InvalidFieldId { line, column, .. } => (line, column),
        LnmpError::InvalidValue { line, column, .. } => (line, column),
        LnmpError::UnexpectedEof { line, column } => (line, column),
        LnmpError::InvalidEscapeSequence { line, column, .. } => (line, column),
        LnmpError::StrictModeViolation { line, column, .. } => (line, column),
        LnmpError::TypeHintMismatch { line, column, .. } => (line, column),
        LnmpError::InvalidTypeHint { line, column, .. } => (line, column),
        LnmpError::ChecksumMismatch { line, column, .. } => (line, column),
        LnmpError::NestingTooDeep { line, column, .. } => (line, column),
        LnmpError::InvalidNestedStructure { line, column, .. } => (line, column),
        LnmpError::UnclosedNestedStructure { line, column, .. } => (line, column),
    }
}

/// "line L, column C".
pub open spec fn line_col(line: usize, column: usize) -> Seq<char> {
    "line "@ + decimal(line as nat) + ", column "@ + decimal(column as nat)
}

/// The message of an error.
pub open spec fn error_text(e: LnmpError) -> Seq<char> {
    match e {
        LnmpError::InvalidCharacter { char, line, column } => "Invalid character '"@ + seq![char]
            + "' at "@ + line_col(line, column),
        LnmpError::UnterminatedString { line, column } => "Unterminated string at "@ + line_col(
            line,
            column,
        ),
        LnmpError::UnexpectedToken { expected, found, line, column } => "Unexpected token at "@
            + line_col(line, column) + ": expected "@ + expected@ + ", found "@ + found@,
        LnmpError::InvalidFieldId { value, line, column } => "Invalid field ID at "@ + line_col(
            line,
            column,
        ) + ": '"@ + value@ + "'"@,
        LnmpError::InvalidValue { field_id, reason, line, column } => "Invalid value for field "@
            + decimal(field_id as nat) + " at "@ + line_col(line, column) + ": "@ + reason@,
        LnmpError::UnexpectedEof { line, column } => "Unexpected end of file at "@ + line_col(
            line,
            column,
        ),
        LnmpError::InvalidEscapeSequence { sequence, line, column } => "Invalid escape sequence '"@
            + sequence@ + "' at "@ + line_col(line, column),
        LnmpError::StrictModeViolation { reason, line, column } => "Strict mode violation at "@
            + line_col(line, column) + ": "@ + reason@,
        LnmpError::TypeHintMismatch { field_id, expected_type, actual_value, line, column } =>
            "Type hint mismatch for field "@ + decimal(field_id as nat) + " at "@ + line_col(
            line,
            column,
        ) + ": expected type '"@ + expected_type@ + "', got "@ + actual_value@,
        LnmpError::InvalidTypeHint { hint, line, column } => "Invalid type hint '"@ + hint@
            + "' at "@ + line_col(line, column),
        LnmpError::ChecksumMismatch { field_id, expected, found, line, column } =>
            "Checksum mismatch for field "@ + decimal(field_id as nat) + " at "@ + line_col(
            line,
            column,
        ) + ": expected "@ + expected@ + ", found "@ + found@,
        LnmpError::NestingTooDeep { max_depth, actual_depth, line, column } => "Nesting too deep at "@
            + line_col(line, column) + ": maximum depth is "@ + decimal(max_depth as nat)
            + ", but reached "@ + decimal(actual_depth as nat),
        LnmpError::InvalidNestedStructure { reason, line, column } => "Invalid nested structure at "@
            + line_col(line, column) + ": "@ + reason@,
        LnmpError::UnclosedNestedStructure {
            structure_type,
            opened_at_line,
            opened_at_column,
            line,
            column,
        } => "Unclosed "@ + structure_type@ + " at "@ + line_col(line, column) + " (opened at "@
            + line_col(opened_at_line, opened_at_column) + ")"@,
    }
}

/// Appends "line L, column C".
fn push_line_col(out: &mut String, line: usize, column: usize)
    ensures
        final(out)@ == old(out)@ + line_col(line, column),
{
    push_str(out, "line ");
    push_decimal(out, line as u64);
    push_str(out, ", column ");
    push_decimal(out, column as u64);
    proof {
        assert(out@ =~= old(out)@ + line_col(line, column));
    }
}

/// Spaces, `n` of them.
pub open spec fn spaces(n: nat) -> Seq<char> {
    Seq::new(n, |i: int| ' ')
}

/// The source lines shown by `format_with_source` for `lines[i..end]`, each
/// with its number, and a marker under the error line.
pub open spec fn source_block(ls: Seq<Seq<char>>, start: int, end: int, line: nat, column: nat) -> Seq<
    char,
>
    decreases end - start,
{
    if end <= start {
        Seq::empty()
    } else {
        let k = end - 1;
        source_block(ls, start, k, line, column) + decimal((k + 1) as nat) + " | "@ + ls[k] + seq!['\n']
            + (if k + 1 == line {
            "  | "@ + spaces(if column >= 1 {
                (column - 1) as nat
            } else {
                0
            }) + "^ here\n"@
        } else {
            Seq::empty()
        })
    }
}

/// What `format_with_source` shows for an error with message `msg` at
/// `line` and `column` of `source`.
pub open spec fn formatted_with_source(msg: Seq<char>, source: Seq<char>, line: nat, column: nat) -> Seq<
    char,
> {
    let ls = text_lines(source);
    let start: int = if line >= 2 {
        line - 2
    } else {
        0
    };
    let end: int = if line + 1 <= ls.len() {
        line + 1int
    } else {
        ls.len() as int
    };
    "Error: "@ + msg + "\n"@ + "  |\n"@ + source_block(ls, start, end, line, column) + "  |\n"@
}

impl LnmpError {
    /// The error unchanged: its position is already part of it.
    pub fn with_context(self, _context: ErrorContext) -> (e: Self)
        ensures
            e == self,
    {
        self
    }

    /// Line and column of the error.
    pub fn position(&self) -> (p: (usize, usize))
        ensures
            p == error_position(*self),
    {
        match self {
            LnmpError::InvalidCharacter { line, column, .. } => (*line, *column),
            LnmpError::UnterminatedString { line, column } => (*line, *column),
            LnmpError::UnexpectedToken { line, column, .. } => (*line, *column),
            LnmpError::InvalidFieldId { line, column, .. } => (*line, *column),
            LnmpError::InvalidValue { line, column, .. } => (*line, *column),
            LnmpError::UnexpectedEof { line, column } => (*line, *column),
            LnmpError::InvalidEscapeSequence { line, column, .. } => (*line, *column),
            LnmpError::StrictModeViolation { line, column, .. } => (*line, *column),
            LnmpError::TypeHintMismatch { line, column, .. } => (*line, *column),
            LnmpError::InvalidTypeHint { line, column, .. } => (*line, *column),
            LnmpError::ChecksumMismatch { line, column, .. } => (*line, *column),
            LnmpError::NestingTooDeep { line, column, .. } => (*line, *column),
            LnmpError::InvalidNestedStructure { line, column, .. } => (*line, *column),
            LnmpError::UnclosedNestedStructure { line, column, .. } => (*line, *column),
        }
    }

    /// The message of the error.
    pub fn message(&self) -> (s: String)
        ensures
            s@ == error_text(*self),
    {
        let mut s = String::new();
        match self {
            LnmpError::InvalidCharacter { char, line, column } => {
                push_str(&mut s, "Invalid character '");
                push_char(&mut s, *char);
                push_str(&mut s, "' at ");
                push_line_col(&mut s, *line, *column);
            },
            LnmpError::UnterminatedString { line, column } => {
                push_str(&mut s, "Unterminated string at ");
                push_line_col(&mut s, *line, *column);
            },
            LnmpError::UnexpectedToken { expected, found, line, column } => {
                push_str(&mut s, "Unexpected token at ");
                push_line_col(&mut s, *line, *column);
                push_str(&mut s, ": expected ");
                push_str(&mut s, expected.as_str());
                push_str(&mut s, ", found ");
                push_str(&mut s, found.as_str());
            },
            LnmpError::InvalidFieldId { value, line, column } => {
                push_str(&mut s, "Invalid field ID at ");
                push_line_col(&mut s, *line, *column);
                push_str(&mut s, ": '");
                push_str(&mut s, value.as_str());
                push_str(&mut s, "'");
            },
            LnmpError::InvalidValue { field_id, reason, line, column } => {
                push_str(&mut s, "Invalid value for field ");
                push_decimal(&mut s, *field_id as u64);
                push_str(&mut s, " at ");
                push_line_col(&mut s, *line, *column);
                push_str(&mut s, ": ");
                push_str(&mut s, reason.as_str());
            },
            LnmpError::UnexpectedEof { line, column } => {
                push_str(&mut s, "Unexpected end of file at ");
                push_line_col(&mut s, *line, *column);
            },
            LnmpError::InvalidEscapeSequence { sequence, line, column } => {
                push_str(&mut s, "Invalid escape sequence '");
                push_str(&mut s, sequence.as_str());
                push_str(&mut s, "' at ");
                push_line_col(&mut s, *line, *column);
            },
            LnmpError::StrictModeViolation { reason, line, column } => {
                push_str(&mut s, "Strict mode violation at ");
                push_line_col(&mut s, *line, *column);
                push_str(&mut s, ": ");
                push_str(&mut s, reason.as_str());
            },
            LnmpError::TypeHintMismatch { field_id, expected_type, actual_value, line, column } => {
                push_str(&mut s, "Type hint mismatch for field ");
                push_decimal(&mut s, *field_id as u64);
                push_str(&mut s, " at ");
                push_line_col(&mut s, *line, *column);
                push_str(&mut s, ": expected type '");
                push_str(&mut s, expected_type.as_str());
                push_str(&mut s, "', got ");
                push_str(&mut s, actual_value.as_str());
            },
            LnmpError::InvalidTypeHint { hint, line, column } => {
                push_str(&mut s, "Invalid type hint '");
                push_str(&mut s, hint.as_str());
                push_str(&mut s, "' at ");
                push_line_col(&mut s, *line, *column);
            },
            LnmpError::ChecksumMismatch { field_id, expected, found, line, column } => {
                push_str(&mut s, "Checksum mismatch for field ");
                push_decimal(&mut s, *field_id as u64);
                push_str(&mut s, " at ");
                push_line_col(&mut s, *line, *column);
                push_str(&mut s, ": expected ");
                push_str(&mut s, expected.as_str());
                push_str(&mut s, ", found ");
                push_str(&mut s, found.as_str());
            },
            LnmpError::NestingTooDeep { max_depth, actual_depth, line, column } => {
                push_str(&mut s, "Nesting too deep at ");
                push_line_col(&mut s, *line, *column);
                push_str(&mut s, ": maximum depth is ");
                push_decimal(&mut s, *max_depth as u64);
                push_str(&mut s, ", but reached ");
                push_decimal(&mut s, *actual_depth as u64);
            },
            LnmpError::InvalidNestedStructure { reason, line, column } => {
                push_str(&mut s, "Invalid nested structure at ");
                push_line_col(&mut s, *line, *column);
                push_str(&mut s, ": ");
                push_str(&mut s, reason.as_str());
            },
            LnmpError::UnclosedNestedStructure {
                structure_type,
                opened_at_line,
                opened_at_column,
                line,
                column,
            } => {
                push_str(&mut s, "Unclosed ");
                push_str(&mut s, structure_type.as_str());
                push_str(&mut s, " at ");
                push_line_col(&mut s, *line, *column);
                push_str(&mut s, " (opened at ");
                push_line_col(&mut s, *opened_at_line, *opened_at_column);
                push_str(&mut s, ")");
            },
        }
        proof {
            assert(s@ =~= error_text(*self));
        }
        s
    }

    /// The message of the error followed by the lines of `source` around it,
    /// numbered, with a marker under the column of the error.
    pub fn format_with_source(&self, source: &str) -> (out: String)
        requires
            error_position(*self).0 < usize::MAX,
        ensures
            out@ == formatted_with_source(
                error_text(*self),
                source@,
                error_position(*self).0 as nat,
                error_position(*self).1 as nat,
            ),
    {
        let (line, column) = self.position();
        let msg = self.message();
        let mut out = String::new();
        push_str(&mut out, "Error: ");
        push_str(&mut out, msg.as_str());
        push_str(&mut out, "\n");
        push_str(&mut out, "  |\n");
        let lines = split_lines(source);
        let ghost ls = lines@.map_values(|l: Vec<char>| l@);
        let start = line.saturating_sub(2);
        let end = if line + 1 < lines.len() {
            line + 1
        } else {
            lines.len()
        };
        let ghost head = out@;
        let mut line_num: usize = start;
        if start < end {
            while line_num < end
                invariant
                    start <= line_num <= end <= lines@.len(),
                    ls == lines@.map_values(|l: Vec<char>| l@),
                    out@ == head + source_block(ls, start as int, line_num as int, line as nat, column as nat),
                decreases end - line_num,
            {
                push_decimal(&mut out, (line_num + 1) as u64);
                push_str(&mut out, " | ");
                push_chars(&mut out, &lines[line_num]);
                push_char(&mut out, '\n');
                let ghost mid = out@;
                if line_num + 1 == line {
                    push_str(&mut out, "  | ");
                    push_spaces(&mut out, column.saturating_sub(1));
                    push_str(&mut out, "^ here\n");
                }
                proof {
                    assert(lines@[line_num as int]@ == ls[line_num as int]);
                    assert(out@ =~= head + source_block(
                        ls,
                        start as int,
                        line_num + 1,
                        line as nat,
                        column as nat,
                    ));
                }
                line_num = line_num + 1;
            }
        }
        push_str(&mut out, "  |\n");
        proof {
            if !(start < end) {
                assert(source_block(ls, start as int, end as int, line as nat, column as nat) =~= Seq::<
                    char,
                >::empty());
            }
            assert(out@ =~= formatted_with_source(
                error_text(*self),
                source@,
                line as nat,
                column as nat,
            ));
        }
        out
    }
}

/// Appends `n` spaces.
fn push_spaces(out: &mut String, n: usize)
    ensures
        final(out)@ == old(out)@ + spaces(n as nat),
{
    let mut i: usize = 0;
    while i < n
        invariant
            i <= n,
            out@ == old(out)@ + spaces(i as nat),
        decreases n - i,
    {
        push_char(out, ' ');
        i = i + 1;
        assert(out@ =~= old(out)@ + spaces(i as nat));
    }
}

} // verus!
