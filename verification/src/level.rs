//! The text format of a level: one line per row, one character per tile.

use vstd::prelude::*;
use crate::grid::{
    TILE_EMPTY, TILE_WALL, TILE_TARGET, MAX_DIM, height, width, rectangular, codes_known,
};

verus! {

/// Why a level text was turned down.
#[derive(Debug, Clone, Copy, PartialEq, Eq, Structural)]
pub enum LoadError {
    /// A line holds a character that stands for no tile.
    InvalidCharacter,
    /// The lines are not all of the same length.
    RaggedRows,
    /// There are more than `MAX_DIM` rows or more than `MAX_DIM` columns.
    TooLarge,
}

/// The tile that a character stands for, if any.
pub open spec fn tile_code(c: char) -> Option<u8> {
    if c == '.' {
        Some(TILE_EMPTY)
    } else if c == '#' {
        Some(TILE_WALL)
    } else if c == 'r' {
        Some(TILE_TARGET)
    } else {
        None
    }
}

/// The position of the first line feed in `s`, or the length of `s` where
/// it holds none.
pub open spec fn first_newline(s: Seq<char>) -> int
    decreases s.len(),
{
    if s.len() == 0 || s[0] == '\n' {
        0
    } else {
        1 + first_newline(s.drop_first())
    }
}

/// The first line feed of `s` lies at `first_newline(s)`, and nowhere before:
/// where `s` holds none, that is the length of `s`.
pub proof fn lemma_first_newline(s: Seq<char>)
    ensures
        0 <= first_newline(s) <= s.len(),
        first_newline(s) < s.len() ==> s[first_newline(s)] == '\n',
        forall|i: int| 0 <= i < first_newline(s) ==> s[i] != '\n',
    decreases s.len(),
{
    if s.len() == 0 || s[0] == '\n' {
    } else {
        let t = s.drop_first();
        lemma_first_newline(t);
        assert forall|i: int| 0 <= i < first_newline(s) implies s[i] != '\n' by {
            if i > 0 {
                assert(s[i] == t[i - 1]);
            }
        }
    }
}

/// A line without the carriage return that stood before its line feed.
pub open spec fn strip_cr(line: Seq<char>) -> Seq<char> {
    if line.len() > 0 && line.last() == '\r' {
        line.drop_last()
    } else {
        line
    }
}

/// The lines of a text. A line ends at a line feed, or at a carriage return
/// followed by a line feed; the ending is not part of the line. The last line
/// needs no ending, and a text that ends with one has no empty line after it.
pub open spec fn lines(s: Seq<char>) -> Seq<Seq<char>>
    decreases s.len(),
{
    if s.len() == 0 {
        Seq::empty()
    } else {
        let n = first_newline(s);
        if n >= s.len() {
            seq![s]
        } else {
            proof {
                lemma_first_newline(s);
            }
            seq![strip_cr(s.subrange(0, n))] + lines(s.subrange(n + 1, s.len() as int))
        }
    }
}

/// Every character of the line stands for a tile.
pub open spec fn line_known(line: Seq<char>) -> bool {
    forall|i: int| 0 <= i < line.len() ==> (#[trigger] tile_code(line[i])) is Some
}

/// The tile codes of a line.
pub open spec fn row_of(line: Seq<char>) -> Seq<u8> {
    Seq::new(line.len(), |i: int| tile_code(line[i]).unwrap_or(TILE_EMPTY))
}

/// The rows that the lines stand for.
pub open spec fn rows_of(ls: Seq<Seq<char>>) -> Seq<Seq<u8>> {
    Seq::new(ls.len(), |r: int| row_of(ls[r]))
}

/// All lines are as long as the first.
pub open spec fn same_length(ls: Seq<Seq<char>>) -> bool {
    forall|r: int| 0 <= r < ls.len() ==> (#[trigger] ls[r]).len() == ls[0].len()
}

/// What loading a text gives: the grid, or the reason why there is none. An
/// unknown character is reported before rows of unequal length, and those
/// before a grid that is too large.
pub open spec fn load_outcome(text: Seq<char>) -> Result<Seq<Seq<u8>>, LoadError> {
    let ls = lines(text);
    if exists|r: int| 0 <= r < ls.len() && !line_known(#[trigger] ls[r]) {
        Err(LoadError::InvalidCharacter)
    } else if !same_length(ls) {
        Err(LoadError::RaggedRows)
    } else if ls.len() > MAX_DIM || (ls.len() > 0 && ls[0].len() > MAX_DIM) {
        Err(LoadError::TooLarge)
    } else {
        Ok(rows_of(ls))
    }
}

/// A grid that was loaded is rectangular, holds tile codes only, and has at
/// most `MAX_DIM` rows and columns; it has as many rows as the text has lines,
/// and as many columns as each line has characters.
pub proof fn lemma_loaded_grid(text: Seq<char>)
    requires
        load_outcome(text) is Ok,
    ensures
        ({
            let grid = load_outcome(text)->Ok_0;
            &&& rectangular(grid)
            &&& codes_known(grid)
            &&& height(grid) == lines(text).len() <= MAX_DIM
            &&& width(grid) <= MAX_DIM
            &&& forall|r: int|
                0 <= r < lines(text).len() ==> (#[trigger] lines(text)[r]).len() == width(grid)
        }),
{
    let ls = lines(text);
}

/// Every character of a text, but its line feeds and carriage returns, stands
/// in one of its lines.
pub proof fn lemma_lines_cover(s: Seq<char>, k: int)
    requires
        0 <= k < s.len(),
        s[k] != '\n',
        s[k] != '\r',
    ensures
        exists|r: int, i: int|
            0 <= r < lines(s).len() && 0 <= i < lines(s)[r].len() && #[trigger] lines(s)[r][i]
                == s[k],
    decreases s.len(),
{
    lemma_first_newline(s);
    let n = first_newline(s);
    if n >= s.len() {
        assert(lines(s)[0][k] == s[k]);
    } else if k < n {
        assert(lines(s)[0][k] == s[k]);
    } else {
        let rest = s.subrange(n + 1, s.len() as int);
        lemma_lines_cover(rest, k - n - 1);
        let (r, i) = choose|r: int, i: int|
            0 <= r < lines(rest).len() && 0 <= i < lines(rest)[r].len() && #[trigger] lines(
                rest,
            )[r][i] == s[k];
        assert(lines(s)[r + 1][i] == s[k]);
    }
}

/// A text that holds anything but tile characters and line endings is turned
/// down for that.
pub proof fn lemma_unknown_character_fails(text: Seq<char>, k: int)
    requires
        0 <= k < text.len(),
        tile_code(text[k]) is None,
        text[k] != '\n',
        text[k] != '\r',
    ensures
        load_outcome(text) == Err::<Seq<Seq<u8>>, LoadError>(LoadError::InvalidCharacter),
{
    lemma_lines_cover(text, k);
    let (r, i) = choose|r: int, i: int|
        0 <= r < lines(text).len() && 0 <= i < lines(text)[r].len() && #[trigger] lines(
            text,
        )[r][i] == text[k];
}

/// The text made of the given lines, each followed by a line feed.
pub open spec fn joined(ls: Seq<Seq<char>>) -> Seq<char>
    decreases ls.len(),
{
    if ls.len() == 0 {
        Seq::empty()
    } else {
        ls[0] + seq!['\n'] + joined(ls.drop_first())
    }
}

/// Lines that hold no line feed and do not end in a carriage return are the
/// lines of the text made of them.
pub proof fn lemma_lines_of_joined(ls: Seq<Seq<char>>)
    requires
        forall|r: int, i: int| 0 <= r < ls.len() && 0 <= i < ls[r].len() ==> ls[r][i] != '\n',
        forall|r: int| 0 <= r < ls.len() && ls[r].len() > 0 ==> ls[r].last() != '\r',
    ensures
        lines(joined(ls)) == ls,
    decreases ls.len(),
{
    if ls.len() == 0 {
    } else {
        let s = joined(ls);
        let head = ls[0];
        let tail = ls.drop_first();
        lemma_lines_of_joined(tail);
        lemma_first_newline(s);
        let n = first_newline(s);
        assert(s[head.len() as int] == '\n');
        assert(s.subrange(0, n) =~= head);
        assert(s.subrange(n + 1, s.len() as int) =~= joined(tail));
    }
}

/// A line feed after the last line makes no difference, unless that line is
/// empty or ends in a carriage return.
pub proof fn lemma_final_line_feed_is_optional(s: Seq<char>)
    requires
        s.len() > 0,
        s.last() != '\n',
        s.last() != '\r',
    ensures
        lines(s.push('\n')) == lines(s),
    decreases s.len(),
{
    let t = s.push('\n');
    lemma_first_newline(s);
    lemma_first_newline(t);
    let n = first_newline(s);
    if n < s.len() {
        assert(t[n] == s[n]);
        let rest = s.subrange(n + 1, s.len() as int);
        lemma_final_line_feed_is_optional(rest);
        assert(t.subrange(0, n) =~= s.subrange(0, n));
        assert(t.subrange(n + 1, t.len() as int) =~= rest.push('\n'));
    } else {
        assert(first_newline(t) == n) by {
            assert(t[n] == '\n');
        }
        assert(t.subrange(0, n) =~= s);
        assert(t.subrange(n + 1, t.len() as int) =~= Seq::<char>::empty());
        assert(lines(t) == seq![s] + lines(Seq::<char>::empty()));
    }
}

/// A text of `ls.len()` lines of equal length, made of tile characters, loads
/// as a grid of that many rows and of as many columns as a line has
/// characters, as long as neither number exceeds `MAX_DIM`.
pub proof fn lemma_well_formed_text_loads(ls: Seq<Seq<char>>)
    requires
        forall|r: int| 0 <= r < ls.len() ==> line_known(#[trigger] ls[r]),
        same_length(ls),
        ls.len() <= MAX_DIM,
        ls.len() > 0 ==> ls[0].len() <= MAX_DIM,
    ensures
        load_outcome(joined(ls)) == Ok::<Seq<Seq<u8>>, LoadError>(rows_of(ls)),
        height(rows_of(ls)) == ls.len(),
        ls.len() > 0 ==> width(rows_of(ls)) == ls[0].len(),
{
    assert forall|r: int, i: int| 0 <= r < ls.len() && 0 <= i < ls[r].len() implies ls[r][i]
        != '\n' by {
        assert(tile_code(ls[r][i]) is Some);
    }
    assert forall|r: int| 0 <= r < ls.len() && ls[r].len() > 0 implies ls[r].last() != '\r' by {
        assert(tile_code(ls[r][ls[r].len() - 1]) is Some);
    }
    lemma_lines_of_joined(ls);
}

/// The lines that a vector of vectors holds.
pub open spec fn lines_of(ls: Seq<Vec<char>>) -> Seq<Seq<char>> {
    Seq::new(ls.len(), |i: int| ls[i]@)
}

/// The characters of a text, one by one.
pub fn chars_of(text: &str) -> (chars: Vec<char>)
    ensures
        chars@ == text@,
{
    let mut chars: Vec<char> = Vec::new();
    for c in it: text.chars()
        invariant
            it.seq() == text@,
            chars@ == text@.take(it.index()),
    {
        chars.push(c);
    }
    chars
}

/// Splits a text into its lines.
pub fn split_lines(chars: &Vec<char>) -> (out: Vec<Vec<char>>)
    ensures
        lines_of(out@) == lines(chars@),
{
    let n = chars.len();
    let mut out: Vec<Vec<char>> = Vec::new();
    let mut pos: usize = 0;
    assert(chars@.subrange(0, n as int) =~= chars@);
    while pos < n
        invariant
            n == chars.len(),
            pos <= n,
            lines(chars@) == lines_of(out@) + lines(chars@.subrange(pos as int, n as int)),
        decreases n - pos,
    {
        let ghost rest = chars@.subrange(pos as int, n as int);
        let mut line: Vec<char> = Vec::new();
        let mut end = pos;
        while end < n && chars[end] != '\n'
            invariant
                n == chars.len(),
                pos <= end <= n,
                line@ == chars@.subrange(pos as int, end as int),
                forall|i: int| pos <= i < end ==> chars[i] != '\n',
            decreases n - end,
        {
            line.push(chars[end]);
            end += 1;
        }
        proof {
            lemma_first_newline(rest);
            let m = first_newline(rest);
            if m > end - pos {
                assert(rest[end - pos] == chars[end as int]);
            }
        }
        if end < n {
            if line.len() > 0 && line[line.len() - 1] == '\r' {
                line.pop();
            }
            assert(line@ =~= strip_cr(rest.subrange(0, end - pos)));
            out.push(line);
            pos = end + 1;
            proof {
                let after = chars@.subrange(pos as int, n as int);
                assert(rest.subrange(first_newline(rest) + 1, rest.len() as int) =~= after);
            }
        } else {
            out.push(line);
            pos = n;
        }
    }
    out
}

/// The tile codes of a line, unless it holds a character that stands for no
/// tile.
pub fn decode_line(line: &Vec<char>) -> (row: Option<Vec<u8>>)
    ensures
        row is Some <==> line_known(line@),
        row is Some ==> row->0@ == row_of(line@),
{
    let mut row: Vec<u8> = Vec::new();
    let mut i: usize = 0;
    while i < line.len()
        invariant
            i <= line.len(),
            row.len() == i,
            forall|k: int| 0 <= k < i ==> (#[trigger] tile_code(line[k])) == Some(row[k]),
        decreases line.len() - i,
    {
        let c = line[i];
        if c == '.' {
            row.push(TILE_EMPTY);
        } else if c == '#' {
            row.push(TILE_WALL);
        } else if c == 'r' {
            row.push(TILE_TARGET);
        } else {
            assert(tile_code(line[i as int]) is None);
            return None;
        }
        i += 1;
    }
    Some(row)
}

} // verus!
