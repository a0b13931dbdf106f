//! The metadata header at the top of a document: a line `---`, the lines of a
//! YAML mapping, and a second line `---`.
use crate::text::white_space;
use vstd::prelude::*;
use vstd::std_specs::iter::IteratorSpec;

verus! {

/// Why a document yields no article.
#[derive(Debug, Clone, Copy, PartialEq, Eq)]
pub enum ParseError {
    /// The first line is not `---`, or there is no line at all.
    NoOpeningDelimiter,
    /// No line after the first is `---`.
    NoClosingDelimiter,
    /// The header is not well-formed YAML.
    InvalidYaml,
    /// The header holds no YAML document.
    NoDocument,
    /// The header has no `title`, or its `title` is not a string.
    NoTitle,
}

/// How many characters stand between `from` and the next line feed, or the
/// end of the text.
pub open spec fn line_len(text: Seq<char>, from: int) -> nat
    decreases text.len() - from,
{
    if from < 0 || from >= text.len() || text[from] == '\n' {
        0
    } else {
        1 + line_len(text, from + 1)
    }
}

/// The line that starts at `from`, without the line feed that ends it, and
/// without a carriage return before that line feed.
pub open spec fn line_at(text: Seq<char>, from: int) -> Seq<char> {
    let end = from + line_len(text, from);
    if end < text.len() && from < end && text[end - 1] == '\r' {
        text.subrange(from, end - 1)
    } else {
        text.subrange(from, end)
    }
}

/// A line ends no later than the text.
pub proof fn lemma_line_fits(text: Seq<char>, from: int)
    requires
        0 <= from <= text.len(),
    ensures
        from + line_len(text, from) <= text.len(),
    decreases text.len() - from,
{
    if from < text.len() && text[from] != '\n' {
        lemma_line_fits(text, from + 1);
    }
}

/// The lines of the text from `from` on. A line feed ends a line; the text
/// after the last line feed is a line of its own unless it is empty.
pub open spec fn lines_from(text: Seq<char>, from: int) -> Seq<Seq<char>>
    decreases text.len() + 1 - from,
{
    if from < 0 || from >= text.len() {
        Seq::empty()
    } else {
        proof {
            lemma_line_fits(text, from);
        }
        seq![line_at(text, from)] + lines_from(text, from + line_len(text, from) + 1)
    }
}

/// The lines of the text.
pub open spec fn lines(text: Seq<char>) -> Seq<Seq<char>> {
    lines_from(text, 0)
}

/// How many white-space characters the line starts with.
pub open spec fn lead(line: Seq<char>) -> nat
    decreases line.len(),
{
    if line.len() > 0 && white_space(line[0]) {
        1 + lead(line.skip(1))
    } else {
        0
    }
}

/// How many white-space characters the line ends with.
pub open spec fn trail(line: Seq<char>) -> nat
    decreases line.len(),
{
    if line.len() > 0 && white_space(line.last()) {
        1 + trail(line.drop_last())
    } else {
        0
    }
}

/// The line without the white space around it.
pub open spec fn trimmed(line: Seq<char>) -> Seq<char> {
    if lead(line) >= line.len() {
        Seq::empty()
    } else {
        line.subrange(lead(line) as int, line.len() - trail(line))
    }
}

/// Whether the line is `---`, white space around it ignored.
pub open spec fn is_delimiter(line: Seq<char>) -> bool {
    trimmed(line) =~= seq!['-', '-', '-']
}

/// The index of the first delimiter line at or after `from`; the number of
/// lines where there is none.
pub open spec fn closing(lines: Seq<Seq<char>>, from: int) -> int
    decreases lines.len() - from,
{
    if from < 0 || from >= lines.len() {
        lines.len() as int
    } else if is_delimiter(lines[from]) {
        from
    } else {
        closing(lines, from + 1)
    }
}

/// The lines one after the other, each followed by a line feed.
pub open spec fn joined(lines: Seq<Seq<char>>) -> Seq<char>
    decreases lines.len(),
{
    if lines.len() == 0 {
        Seq::empty()
    } else {
        joined(lines.drop_last()) + lines.last() + seq!['\n']
    }
}

/// The header of a document: the lines between the delimiter on the first
/// line and the next delimiter line.
pub open spec fn header_of(text: Seq<char>) -> Result<Seq<char>, ParseError> {
    let ls = lines(text);
    if ls.len() == 0 || !is_delimiter(ls[0]) {
        Err(ParseError::NoOpeningDelimiter)
    } else if closing(ls, 1) >= ls.len() {
        Err(ParseError::NoClosingDelimiter)
    } else {
        Ok(joined(ls.subrange(1, closing(ls, 1))))
    }
}

/// The characters of `text`, in order.
pub fn chars_of(text: &str) -> (r: Vec<char>)
    ensures
        r@ == text@,
{
    let mut out: Vec<char> = Vec::new();
    let mut it = text.chars();
    loop
        invariant
            out@ + it.remaining() == text@,
            it.decrease() is Some,
        decreases it.decrease()->0,
    {
        match it.next() {
            Some(c) => {
                out.push(c);
                assert(out@ + it.remaining() =~= text@);
            },
            None => {
                assert(out@ =~= text@);
                return out;
            },
        }
    }
}

/// A line without a line feed before `end` is that long.
proof fn lemma_line_len(text: Seq<char>, from: int, end: int)
    requires
        0 <= from <= end <= text.len(),
        forall|j: int| from <= j < end ==> text[j] != '\n',
        end == text.len() || text[end] == '\n',
    ensures
        line_len(text, from) == end - from,
    decreases end - from,
{
    if from < end {
        lemma_line_len(text, from + 1, end);
    }
}

/// The line that starts at `from`, and where the next line starts: the end of
/// the text where there is none.
pub fn read_line(text: &Vec<char>, from: usize) -> (r: (Vec<char>, usize))
    requires
        from < text.len(),
    ensures
        r.0@ == line_at(text@, from as int),
        from < r.1 <= text.len(),
        lines_from(text@, from as int) == seq![r.0@] + lines_from(text@, r.1 as int),
{
    let mut end: usize = from;
    while end < text.len() && text[end] != '\n'
        invariant
            from <= end <= text.len(),
            forall|j: int| from <= j < end ==> text@[j] != '\n',
        decreases text.len() - end,
    {
        end += 1;
    }
    proof {
        lemma_line_len(text@, from as int, end as int);
    }
    let stop: usize = if end < text.len() && from < end && text[end - 1] == '\r' {
        end - 1
    } else {
        end
    };
    let mut line: Vec<char> = Vec::new();
    let mut i: usize = from;
    while i < stop
        invariant
            from <= i <= stop <= text.len(),
            line@ == text@.subrange(from as int, i as int),
        decreases stop - i,
    {
        line.push(text[i]);
        assert(line@ =~= text@.subrange(from as int, i + 1));
        i += 1;
    }
    let next: usize = if end < text.len() {
        end + 1
    } else {
        end
    };
    assert(lines_from(text@, end + 1) =~= lines_from(text@, next as int));
    (line, next)
}

/// A line whose first `n` characters are white space, and whose next one is
/// not, starts with `n` white-space characters.
proof fn lemma_lead(line: Seq<char>, n: int)
    requires
        0 <= n <= line.len(),
        forall|j: int| 0 <= j < n ==> white_space(line[j]),
        n == line.len() || !white_space(line[n]),
    ensures
        lead(line) == n,
    decreases n,
{
    if n > 0 {
        lemma_lead(line.skip(1), n - 1);
    }
}

/// A line whose last `n` characters are white space, and whose one before
/// them is not, ends with `n` white-space characters.
proof fn lemma_trail(line: Seq<char>, n: int)
    requires
        0 <= n <= line.len(),
        forall|j: int| line.len() - n <= j < line.len() ==> white_space(line[j]),
        n == line.len() || !white_space(line[line.len() - n - 1]),
    ensures
        trail(line) == n,
    decreases n,
{
    if n > 0 {
        lemma_trail(line.drop_last(), n - 1);
    }
}

/// Whether the line is `---`, white space around it ignored.
pub fn is_delimiter_line(line: &Vec<char>) -> (r: bool)
    ensures
        r == is_delimiter(line@),
{
    let mut a: usize = 0;
    while a < line.len() && line[a].is_whitespace()
        invariant
            a <= line.len(),
            forall|j: int| 0 <= j < a ==> white_space(line@[j]),
        decreases line.len() - a,
    {
        a += 1;
    }
    proof {
        lemma_lead(line@, a as int);
    }
    if a == line.len() {
        return false;
    }
    let mut b: usize = line.len();
    while b > a + 1 && line[b - 1].is_whitespace()
        invariant
            a < b <= line.len(),
            forall|j: int| b <= j < line.len() ==> white_space(line@[j]),
        decreases b,
    {
        b -= 1;
    }
    proof {
        lemma_trail(line@, line.len() - b);
        assert(trimmed(line@) =~= line@.subrange(a as int, b as int));
    }
    b - a == 3 && line[a] == '-' && line[a + 1] == '-' && line[a + 2] == '-'
}

/// The first delimiter line at or after `from` is the one at `k`, if none
/// stands before it.
proof fn lemma_closing(lines: Seq<Seq<char>>, from: int, k: int)
    requires
        0 <= from <= k <= lines.len(),
        forall|j: int| from <= j < k ==> !is_delimiter(lines[j]),
        k == lines.len() || is_delimiter(lines[k]),
    ensures
        closing(lines, from) == k,
    decreases k - from,
{
    if from < k {
        lemma_closing(lines, from + 1, k);
    }
}

/// The header of the document `text`: the lines after the delimiter on its
/// first line and before the next delimiter line, each followed by a line
/// feed.
pub fn get_yaml_header(text: &str) -> (r: Result<String, ParseError>)
    ensures
        match r {
            Ok(header) => header_of(text@) == Ok::<Seq<char>, ParseError>(header@),
            Err(e) => header_of(text@) == Err::<Seq<char>, ParseError>(e),
        },
{
    let chars = chars_of(text);
    if chars.len() == 0 {
        return Err(ParseError::NoOpeningDelimiter);
    }
    let ghost ls = lines(text@);
    let (first, start) = read_line(&chars, 0);
    assert(ls[0] == first@);
    if !is_delimiter_line(&first) {
        return Err(ParseError::NoOpeningDelimiter);
    }
    let mut header = String::new();
    let mut pos: usize = start;
    let ghost mut i: int = 1;
    assert(ls.skip(1) =~= lines_from(chars@, pos as int));
    assert(ls.subrange(1, 1) =~= Seq::<Seq<char>>::empty());
    while pos < chars.len()
        invariant
            0 < pos <= chars.len(),
            chars@ == text@,
            ls == lines(text@),
            1 <= i <= ls.len(),
            ls.skip(i) == lines_from(chars@, pos as int),
            forall|j: int| 1 <= j < i ==> !is_delimiter(ls[j]),
            header@ == joined(ls.subrange(1, i)),
            is_delimiter(ls[0]),
        decreases chars.len() - pos,
    {
        let (line, next) = read_line(&chars, pos);
        assert(ls.skip(i)[0] == line@);
        assert(ls.skip(i + 1) =~= lines_from(chars@, next as int)) by {
            assert(ls.skip(i + 1) =~= ls.skip(i).skip(1));
        }
        if is_delimiter_line(&line) {
            proof {
                lemma_closing(ls, 1, i);
            }
            return Ok(header);
        }
        let ghost before = header@;
        let mut k: usize = 0;
        while k < line.len()
            invariant
                k <= line.len(),
                header@ == before + line@.take(k as int),
            decreases line.len() - k,
        {
            header.push(line[k]);
            assert(line@.take(k + 1) =~= line@.take(k as int).push(line@[k as int]));
            assert(header@ =~= before + line@.take(k + 1));
            k += 1;
        }
        header.push('\n');
        proof {
            assert(line@.take(line@.len() as int) =~= line@);
            assert(ls.subrange(1, i + 1).drop_last() =~= ls.subrange(1, i));
            assert(ls.subrange(1, i + 1).last() == line@);
            assert(header@ =~= joined(ls.subrange(1, i + 1)));
            i = i + 1;
        }
        pos = next;
    }
    proof {
        assert(ls.skip(i).len() == 0);
        lemma_closing(ls, 1, i);
    }
    Err(ParseError::NoClosingDelimiter)
}

} // verus!
