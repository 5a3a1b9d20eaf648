//! Splitting a document into lines and reading the layout of each line:
//! its indentation, where its content ends, sequence dashes and mapping colons.
use vstd::prelude::*;

verus! {

/// One line of a document.
pub struct Line {
    /// The characters of the line, without its line break.
    pub chars: Vec<char>,
    /// Column of the first character that is not a space.
    pub indent: usize,
    /// End of the content: trailing blanks and a trailing comment are left out.
    pub end: usize,
}

impl Line {
    pub open spec fn wf(&self) -> bool {
        &&& self.indent <= self.end <= self.chars.len()
        &&& forall|k: int| 0 <= k < self.indent ==> self.chars@[k] == ' '
        &&& self.indent == line_indent(self.chars@)
        &&& self.end == line_end(self.chars@)
    }

    /// The line holds no content.
    pub open spec fn blank(&self) -> bool {
        self.indent >= self.end
    }
}

pub open spec fn lines_wf(lines: Seq<Line>) -> bool {
    forall|j: int| 0 <= j < lines.len() ==> #[trigger] lines[j].wf()
}

/// Every line number and column of the lines fits in a `u32`.
pub open spec fn lines_fit(lines: Seq<Line>) -> bool {
    lines.len() < 0xffff_ffff && forall|j: int|
        0 <= j < lines.len() ==> #[trigger] lines[j].chars.len() < 0xffff_ffff
}

fn is_blank_char(c: char) -> (r: bool)
    ensures
        r == (c == ' ' || c == '\t' || c == '\r'),
{
    c == ' ' || c == '\t' || c == '\r'
}

/// The first column at or after `k` that is not a space.
pub open spec fn lead_spaces(c: Seq<char>, k: int) -> int
    decreases c.len() - k,
{
    if 0 <= k < c.len() && c[k] == ' ' {
        lead_spaces(c, k + 1)
    } else {
        k
    }
}

pub open spec fn blank_char(c: char) -> bool {
    c == ' ' || c == '\t' || c == '\r'
}

/// A document marker (`---`) or a directive (`%`): a line without content.
pub open spec fn is_marker(c: Seq<char>) -> bool {
    (c.len() >= 3 && c[0] == '-' && c[1] == '-' && c[2] == '-' && (c.len() == 3 || c[3] == ' '))
        || (c.len() >= 1 && c[0] == '%')
}

/// Where a comment starts, reading from `k` with `quote` open (a space when
/// none is); the length of the line when none does.
pub open spec fn comment_start(c: Seq<char>, k: int, indent: int, quote: char) -> int
    decreases c.len() - k,
{
    if k < 0 || k >= c.len() {
        c.len() as int
    } else if quote != ' ' {
        comment_start(c, k + 1, indent, if c[k] == quote { ' ' } else { quote })
    } else if c[k] == '"' || c[k] == '\'' {
        comment_start(c, k + 1, indent, c[k])
    } else if c[k] == '#' && (k == indent || (k > 0 && blank_char(c[k - 1]))) {
        k
    } else {
        comment_start(c, k + 1, indent, quote)
    }
}

/// `e` moved left past trailing blanks, down to `indent`.
pub open spec fn trim_end(c: Seq<char>, e: int, indent: int) -> int
    decreases e,
{
    if e > indent && e > 0 && e <= c.len() && blank_char(c[e - 1]) {
        trim_end(c, e - 1, indent)
    } else {
        e
    }
}

/// Column of the first character of a line that is not a space.
pub open spec fn line_indent(c: Seq<char>) -> int {
    if lead_spaces(c, 0) == 0 && is_marker(c) {
        0
    } else {
        lead_spaces(c, 0)
    }
}

/// End of a line's content: before a comment, without trailing blanks.
pub open spec fn line_end(c: Seq<char>) -> int {
    let i = lead_spaces(c, 0);
    if i == 0 && is_marker(c) {
        0
    } else {
        trim_end(c, comment_start(c, i, i, ' '), i)
    }
}

/// Reads the layout of one line.
pub fn scan_line(chars: Vec<char>) -> (l: Line)
    ensures
        l.wf(),
        l.chars@ == chars@,
{
    let n = chars.len();
    let mut indent: usize = 0;
    while indent < n && chars[indent] == ' '
        invariant
            indent <= n == chars.len(),
            forall|k: int| 0 <= k < indent ==> chars@[k] == ' ',
            lead_spaces(chars@, 0) == lead_spaces(chars@, indent as int),
        decreases n - indent,
    {
        indent = indent + 1;
    }
    // A document marker or a directive holds no content.
    let marker = indent == 0 && ((n >= 3 && chars[0] == '-' && chars[1] == '-' && chars[2] == '-'
        && (n == 3 || chars[3] == ' ')) || (n >= 1 && chars[0] == '%'));
    if marker {
        return Line { chars, indent: 0, end: 0 };
    }
    // The content ends where a comment starts, outside quotes.
    let mut end: usize = n;
    let mut k: usize = indent;
    let mut quote: char = ' ';
    assert(indent as int == lead_spaces(chars@, 0));
    while k < n
        invariant_except_break
            end == n,
            comment_start(chars@, indent as int, indent as int, ' ') == comment_start(chars@, k as int, indent as int, quote),
        invariant
            indent <= k <= n == chars.len(),
            indent as int == lead_spaces(chars@, 0),
        ensures
            indent <= end <= n,
            end == comment_start(chars@, indent as int, indent as int, ' '),
        decreases n - k,
    {
        let c = chars[k];
        if quote != ' ' {
            if c == quote {
                quote = ' ';
            }
        } else if c == '"' || c == '\'' {
            quote = c;
        } else if c == '#' && (k == indent || is_blank_char(chars[k - 1])) {
            end = k;
            break;
        }
        k = k + 1;
    }
    let ghost e0 = end as int;
    while end > indent && is_blank_char(chars[end - 1])
        invariant
            indent <= end <= n == chars.len(),
            trim_end(chars@, e0, indent as int) == trim_end(chars@, end as int, indent as int),
        decreases end,
    {
        end = end - 1;
    }
    Line { chars, indent, end }
}

/// The lines of `rest`, the first of which begins with `cur`: the text
/// between line breaks; text after the last break is a line when not empty.
pub open spec fn split_acc(rest: Seq<char>, cur: Seq<char>) -> Seq<Seq<char>>
    decreases rest.len(),
{
    if rest.len() == 0 {
        if cur.len() == 0 {
            Seq::empty()
        } else {
            seq![cur]
        }
    } else if rest[0] == '\n' {
        seq![cur] + split_acc(rest.drop_first(), Seq::empty())
    } else {
        split_acc(rest.drop_first(), cur.push(rest[0]))
    }
}

/// The lines of a text.
pub open spec fn text_lines(text: Seq<char>) -> Seq<Seq<char>> {
    split_acc(text, Seq::empty())
}

/// The characters of each line.
pub open spec fn lines_chars(lines: Seq<Line>) -> Seq<Seq<char>> {
    lines.map_values(|l: Line| l.chars@)
}

/// Splits text into lines at each line break.
pub fn split_lines(text: &Vec<char>) -> (r: Vec<Line>)
    ensures
        lines_wf(r@),
        lines_chars(r@) == text_lines(text@),
        r.len() <= text.len() + 1,
        forall|j: int| 0 <= j < r.len() ==> #[trigger] r@[j].chars.len() <= text.len(),
{
    let mut r: Vec<Line> = Vec::new();
    let mut cur: Vec<char> = Vec::new();
    let mut i: usize = 0;
    assert(text@.subrange(0, text.len() as int) =~= text@);
    assert(lines_chars(r@) + text_lines(text@) =~= text_lines(text@));
    while i < text.len()
        invariant
            i <= text.len(),
            lines_wf(r@),
            r.len() <= i,
            cur.len() <= i,
            forall|j: int| 0 <= j < r.len() ==> #[trigger] r@[j].chars.len() <= i,
            lines_chars(r@) + split_acc(text@.subrange(i as int, text.len() as int), cur@) == text_lines(text@),
        decreases text.len() - i,
    {
        let ghost rest = text@.subrange(i as int, text.len() as int);
        assert(rest.drop_first() =~= text@.subrange(i + 1, text.len() as int));
        let ghost before = r@;
        if text[i] == '\n' {
            let ghost tail = split_acc(rest.drop_first(), Seq::empty());
            let l = scan_line(cur);
            r.push(l);
            assert(lines_chars(r@) =~= lines_chars(before).push(l.chars@));
            assert(lines_chars(r@) + tail =~= lines_chars(before) + (seq![l.chars@] + tail));
            cur = Vec::new();
            assert(cur@ =~= Seq::<char>::empty());
        } else {
            cur.push(text[i]);
        }
        i = i + 1;
    }
    assert(text@.subrange(i as int, text.len() as int).len() == 0);
    // Text after the last line break is a line; an empty one is left out.
    if cur.len() > 0 {
        let ghost before = r@;
        let l = scan_line(cur);
        r.push(l);
        assert(lines_chars(r@) =~= lines_chars(before).push(l.chars@));
    } else {
        assert(lines_chars(r@) + Seq::<Seq<char>>::empty() =~= lines_chars(r@));
    }
    r
}

/// A sequence entry starts at `col`: a dash followed by a space or the end.
pub open spec fn seq_item_at(l: Line, col: int) -> bool {
    0 <= col < l.end && l.chars@[col] == '-' && (col + 1 == l.end || l.chars@[col + 1] == ' ')
}

/// A sequence entry starts at `col` of the characters `c`.
pub open spec fn dash_at(c: Seq<char>, col: int) -> bool {
    0 <= col < line_end(c) && c[col] == '-' && (col + 1 == line_end(c) || c[col + 1] == ' ')
}

pub fn is_seq_item(l: &Line, col: usize) -> (r: bool)
    requires
        l.wf(),
    ensures
        r == seq_item_at(*l, col as int),
        r == dash_at(l.chars@, col as int),
{
    col < l.end && l.chars[col] == '-' && (col + 1 == l.end || l.chars[col + 1] == ' ')
}

/// The first column at or after `k`, before `end`, that is not a space; `end` when none is.
pub open spec fn skip_sp(c: Seq<char>, k: int, end: int) -> int
    decreases end - k,
{
    if 0 <= k < end && k < c.len() && c[k] == ' ' {
        skip_sp(c, k + 1, end)
    } else {
        k
    }
}

/// The first column at or after `k` that is not a space, or `end`.
pub fn skip_spaces(l: &Line, k: usize) -> (r: usize)
    requires
        l.wf(),
        k <= l.end,
    ensures
        k <= r <= l.end,
        r < l.end ==> l.chars@[r as int] != ' ',
        r == skip_sp(l.chars@, k as int, l.end as int),
{
    let mut r = k;
    while r < l.end && l.chars[r] == ' '
        invariant
            k <= r <= l.end <= l.chars.len(),
            skip_sp(l.chars@, k as int, l.end as int) == skip_sp(l.chars@, r as int, l.end as int),
        decreases l.end - r,
    {
        r = r + 1;
    }
    r
}

/// The colon that ends a key starting at `col`, reading from `k` before
/// `end` with `quote` open (a space when none is).
pub open spec fn colon_from(c: Seq<char>, col: int, k: int, end: int, quote: char) -> Option<int>
    decreases end - k,
{
    if k < 0 || k >= end || end > c.len() {
        None
    } else if quote != ' ' {
        colon_from(c, col, k + 1, end, if c[k] == quote { ' ' } else { quote })
    } else if c[k] == '"' || c[k] == '\'' {
        colon_from(c, col, k + 1, end, c[k])
    } else if c[k] == ':' && (k + 1 == end || c[k + 1] == ' ') {
        Some(k)
    } else if k == col && (c[k] == '[' || c[k] == '{') {
        None
    } else {
        colon_from(c, col, k + 1, end, quote)
    }
}

/// The colon that ends a mapping key starting at `col` of a line.
pub open spec fn key_colon(c: Seq<char>, col: int) -> Option<int> {
    colon_from(c, col, col, line_end(c), ' ')
}

/// The column of the colon that ends a mapping key starting at `col`: the
/// first colon outside quotes that is followed by a space or the end.
pub fn find_key_colon(l: &Line, col: usize) -> (r: Option<usize>)
    requires
        l.wf(),
        col <= l.end,
    ensures
        r matches Some(k) ==> col <= k < l.end && l.chars@[k as int] == ':',
        r matches Some(k) ==> key_colon(l.chars@, col as int) == Some(k as int),
        r is None ==> key_colon(l.chars@, col as int) is None,
{
    let mut k = col;
    let mut quote: char = ' ';
    while k < l.end
        invariant
            col <= k <= l.end <= l.chars.len(),
            l.end == line_end(l.chars@),
            key_colon(l.chars@, col as int) == colon_from(l.chars@, col as int, k as int, l.end as int, quote),
        decreases l.end - k,
    {
        let c = l.chars[k];
        if quote != ' ' {
            if c == quote {
                quote = ' ';
            }
        } else if c == '"' || c == '\'' {
            quote = c;
        } else if c == ':' && (k + 1 == l.end || l.chars[k + 1] == ' ') {
            return Some(k);
        } else if k == col && (c == '[' || c == '{') {
            // Flow collections are not keys.
            return None;
        }
        k = k + 1;
    }
    None
}

} // verus!
