//! Character sequences: the model that every text in this crate is read through.
//!
//! A text is a `Seq<char>`. Positions count characters, not bytes. The executable
//! functions work on `&[char]` and are specified against the sequence functions
//! defined here.

use vstd::prelude::*;

verus! {

/// `String::push` of the standard library: the string afterwards is the string
/// before with `c` appended.
pub assume_specification[ std::string::String::push ](s: &mut std::string::String, c: char)
    ensures
        final(s)@ == old(s)@.push(c),
;

/// The characters with the Unicode property `White_Space`.
pub open spec fn whitespace(c: char) -> bool {
    let n = c as u32;
    ||| 0x09 <= n <= 0x0D
    ||| n == 0x20
    ||| n == 0x85
    ||| n == 0xA0
    ||| n == 0x1680
    ||| 0x2000 <= n <= 0x200A
    ||| n == 0x2028
    ||| n == 0x2029
    ||| n == 0x202F
    ||| n == 0x205F
    ||| n == 0x3000
}

/// A line feed or a carriage return.
pub open spec fn line_break(c: char) -> bool {
    c == '\n' || c == '\r'
}

/// `s` without its leading whitespace.
pub open spec fn trim_start(s: Seq<char>) -> Seq<char>
    decreases s.len(),
{
    if s.len() > 0 && whitespace(s[0]) {
        trim_start(s.skip(1))
    } else {
        s
    }
}

/// `s` without its trailing whitespace.
pub open spec fn trim_end(s: Seq<char>) -> Seq<char>
    decreases s.len(),
{
    if s.len() > 0 && whitespace(s.last()) {
        trim_end(s.drop_last())
    } else {
        s
    }
}

/// `s` without its leading and trailing whitespace.
pub open spec fn trim(s: Seq<char>) -> Seq<char> {
    trim_end(trim_start(s))
}

/// The number of characters before the first line feed of `s`; `s.len()` when
/// `s` holds no line feed.
pub open spec fn line_len(s: Seq<char>) -> int
    decreases s.len(),
{
    if s.len() == 0 || s[0] == '\n' {
        0
    } else {
        1 + line_len(s.skip(1))
    }
}

/// `line` without the carriage return that ends it, if one does.
pub open spec fn strip_cr(line: Seq<char>) -> Seq<char> {
    if line.len() > 0 && line.last() == '\r' {
        line.drop_last()
    } else {
        line
    }
}

/// The lines of `s`. A line ends at a line feed, or at a carriage return
/// directly before a line feed, or at the end of `s`; the terminator is not part
/// of the line. A line feed at the very end of `s` starts no further line.
pub open spec fn lines(s: Seq<char>) -> Seq<Seq<char>>
    decreases s.len(),
{
    if s.len() == 0 {
        Seq::empty()
    } else if line_len(s) >= s.len() {
        seq![s]
    } else {
        proof {
            lemma_line_len_bound(s);
        }
        seq![strip_cr(s.take(line_len(s)))] + lines(s.skip(line_len(s) + 1))
    }
}

/// Whether `pattern` stands in `text` at position `at`.
pub open spec fn occurs_at(text: Seq<char>, at: int, pattern: Seq<char>) -> bool {
    &&& 0 <= at
    &&& at + pattern.len() <= text.len()
    &&& text.subrange(at, at + pattern.len()) == pattern
}

/// `line_len` never runs past the end.
pub proof fn lemma_line_len_bound(s: Seq<char>)
    ensures
        0 <= line_len(s) <= s.len(),
    decreases s.len(),
{
    if s.len() > 0 && s[0] != '\n' {
        lemma_line_len_bound(s.skip(1));
    }
}

/// `line_len(s)` is the position of the first line feed of `s`.
pub proof fn lemma_line_len_first(s: Seq<char>)
    ensures
        forall|i: int| 0 <= i < line_len(s) ==> s[i] != '\n',
        line_len(s) < s.len() ==> s[line_len(s)] == '\n',
    decreases s.len(),
{
    lemma_line_len_bound(s);
    if s.len() > 0 && s[0] != '\n' {
        let rest = s.skip(1);
        lemma_line_len_first(rest);
        lemma_line_len_bound(rest);
        assert forall|i: int| 0 <= i < line_len(s) implies s[i] != '\n' by {
            if i > 0 {
                assert(s[i] == rest[i - 1]);
            }
        }
    }
}

/// A position with no line feed before it, and one at it or the end of the text
/// there, is `line_len`.
pub proof fn lemma_line_len_is(s: Seq<char>, n: int)
    requires
        0 <= n <= s.len(),
        forall|i: int| 0 <= i < n ==> s[i] != '\n',
        n < s.len() ==> s[n] == '\n',
    ensures
        line_len(s) == n,
{
    lemma_line_len_first(s);
    lemma_line_len_bound(s);
}

/// Leading whitespace of known length: what `trim_start` leaves is the rest.
pub proof fn lemma_trim_start_is(s: Seq<char>, k: int)
    requires
        0 <= k <= s.len(),
        forall|i: int| 0 <= i < k ==> whitespace(s[i]),
        k < s.len() ==> !whitespace(s[k]),
    ensures
        trim_start(s) == s.skip(k),
    decreases s.len(),
{
    if k > 0 {
        lemma_trim_start_is(s.skip(1), k - 1);
    }
}

/// Trailing whitespace of known length: what `trim_end` leaves is the rest.
pub proof fn lemma_trim_end_is(s: Seq<char>, k: int)
    requires
        0 <= k <= s.len(),
        forall|i: int| k <= i < s.len() ==> whitespace(s[i]),
        k > 0 ==> !whitespace(s[k - 1]),
    ensures
        trim_end(s) == s.take(k),
    decreases s.len(),
{
    if k < s.len() {
        lemma_trim_end_is(s.drop_last(), k);
    }
}

/// Whether `c` is whitespace.
pub fn is_whitespace(c: char) -> (r: bool)
    ensures
        r == whitespace(c),
{
    let n: u32 = c as u32;
    (0x09 <= n && n <= 0x0D) || n == 0x20 || n == 0x85 || n == 0xA0 || n == 0x1680 || (0x2000 <= n
        && n <= 0x200A) || n == 0x2028 || n == 0x2029 || n == 0x202F || n == 0x205F || n == 0x3000
}

/// The characters of `s`, in order.
pub fn chars_of(s: &str) -> (v: Vec<char>)
    ensures
        v@ == s@,
{
    let mut v: Vec<char> = Vec::new();
    for c in it: s.chars()
        invariant
            v@ == it.seq().take(it.index() as int),
    {
        v.push(c);
    }
    v
}

/// The characters `text[from..to]` as a string.
pub fn string_of(text: &[char], from: usize, to: usize) -> (s: String)
    requires
        from <= to <= text@.len(),
    ensures
        s@ == text@.subrange(from as int, to as int),
{
    let mut s = String::new();
    let mut i: usize = from;
    while i < to
        invariant
            from <= i <= to <= text@.len(),
            s@ == text@.subrange(from as int, i as int),
        decreases to - i,
    {
        s.push(text[i]);
        i += 1;
    }
    s
}

/// The characters of `text` as a string.
pub fn string_from(text: &[char]) -> (s: String)
    ensures
        s@ == text@,
{
    let s = string_of(text, 0, text.len());
    assert(text@.subrange(0, text@.len() as int) =~= text@);
    s
}

/// Whether `pattern` stands in `text` at position `at`.
pub fn matches_at(text: &[char], at: usize, pattern: &[char]) -> (r: bool)
    ensures
        r == occurs_at(text@, at as int, pattern@),
{
    let n = text.len();
    let m = pattern.len();
    if m > n || at > n - m {
        return false;
    }
    let mut i: usize = 0;
    while i < m
        invariant
            n == text@.len(),
            m == pattern@.len(),
            m <= n,
            at <= n - m,
            i <= m,
            forall|j: int| 0 <= j < i ==> text@[at + j] == pattern@[j],
        decreases m - i,
    {
        if text[at + i] != pattern[i] {
            return false;
        }
        i += 1;
    }
    assert(text@.subrange(at as int, at + m) =~= pattern@);
    true
}

/// The position in `text[from..to]` behind its leading whitespace.
pub fn skip_whitespace(text: &[char], from: usize, to: usize) -> (r: usize)
    requires
        from <= to <= text@.len(),
    ensures
        from <= r <= to,
        text@.subrange(r as int, to as int) == trim_start(text@.subrange(from as int, to as int)),
{
    let mut r: usize = from;
    while r < to && is_whitespace(text[r])
        invariant
            from <= r <= to <= text@.len(),
            forall|i: int| from <= i < r ==> whitespace(text@[i]),
        decreases to - r,
    {
        r += 1;
    }
    proof {
        lemma_trim_start_is(text@.subrange(from as int, to as int), r - from);
    }
    r
}

/// The position in `text[from..to]` before its trailing whitespace.
pub fn skip_whitespace_back(text: &[char], from: usize, to: usize) -> (r: usize)
    requires
        from <= to <= text@.len(),
    ensures
        from <= r <= to,
        text@.subrange(from as int, r as int) == trim_end(text@.subrange(from as int, to as int)),
{
    let mut r: usize = to;
    while r > from && is_whitespace(text[r - 1])
        invariant
            from <= r <= to <= text@.len(),
            forall|i: int| r <= i < to ==> whitespace(text@[i]),
        decreases r - from,
    {
        r -= 1;
    }
    proof {
        lemma_trim_end_is(text@.subrange(from as int, to as int), r - from);
    }
    r
}

/// The lower-case hexadecimal digit for `d`, which is below 16.
pub open spec fn hex_digit(d: int) -> char {
    if d < 10 {
        (0x30 + d) as u8 as char
    } else {
        (0x61 + d - 10) as u8 as char
    }
}

/// `n` in lower-case hexadecimal, without leading zeros; one digit for zero.
pub open spec fn hex(n: nat) -> Seq<char>
    decreases n,
{
    if n < 16 {
        seq![hex_digit(n as int)]
    } else {
        hex(n / 16).push(hex_digit((n % 16) as int))
    }
}

/// How one character is written inside a quoted string: tab, carriage return
/// and line feed as `\t`, `\r` and `\n`; quotes and the backslash behind a
/// backslash; the other printable ASCII characters as they are; every other
/// character as `\u{..}` with its code in hexadecimal.
pub open spec fn escape_char(c: char) -> Seq<char> {
    if c == '\t' {
        seq!['\\', 't']
    } else if c == '\r' {
        seq!['\\', 'r']
    } else if c == '\n' {
        seq!['\\', 'n']
    } else if c == '\'' || c == '"' || c == '\\' {
        seq!['\\', c]
    } else if 0x20 <= c as u32 <= 0x7e {
        seq![c]
    } else {
        seq!['\\', 'u', '{'] + hex(c as u32 as nat) + seq!['}']
    }
}

/// `s` with every character escaped.
pub open spec fn escape(s: Seq<char>) -> Seq<char>
    decreases s.len(),
{
    if s.len() == 0 {
        Seq::empty()
    } else {
        escape(s.drop_last()) + escape_char(s.last())
    }
}

/// Appends `n` in hexadecimal to `out`.
fn push_hex(out: &mut String, n: u32)
    ensures
        final(out)@ == old(out)@ + hex(n as nat),
    decreases n,
{
    if n >= 16 {
        push_hex(out, n / 16);
    }
    let d: u8 = (n % 16) as u8;
    let digit: u8 = if d < 10 {
        0x30 + d
    } else {
        0x61 + (d - 10)
    };
    out.push(digit as char);
}

/// Appends `c`, escaped, to `out`.
pub fn push_escaped(out: &mut String, c: char)
    ensures
        final(out)@ == old(out)@ + escape_char(c),
{
    if c == '\t' {
        out.push('\\');
        out.push('t');
    } else if c == '\r' {
        out.push('\\');
        out.push('r');
    } else if c == '\n' {
        out.push('\\');
        out.push('n');
    } else if c == '\'' || c == '"' || c == '\\' {
        out.push('\\');
        out.push(c);
    } else if 0x20 <= c as u32 && c as u32 <= 0x7e {
        out.push(c);
    } else {
        out.push('\\');
        out.push('u');
        out.push('{');
        push_hex(out, c as u32);
        out.push('}');
    }
}

} // verus!
