//! Character sequences: the vocabulary in which the output buffer is described,
//! and the executable operations on `Vec<char>` that realise it.

use vstd::prelude::*;

verus! {

/// `String::push` appends one character to the end of the string.
pub assume_specification[ std::string::String::push ](s: &mut std::string::String, c: char)
    ensures
        final(s)@ == old(s)@.push(c),
;

/// The characters of `s`, in order.
pub fn chars_of(s: &str) -> (v: Vec<char>)
    ensures
        v@ == s@,
{
    let mut v: Vec<char> = Vec::new();
    for c in it: s.chars()
        invariant
            it.seq() == s@,
            v@ == it.seq().take(it.index() as int),
    {
        v.push(c);
        assert(it.seq().take(it.index() + 1) == it.seq().take(it.index() as int).push(c));
    }
    assert(s@.take(s@.len() as int) == s@);
    v
}

/// The string made of the characters of `v`, in order.
pub fn string_of(v: &Vec<char>) -> (s: String)
    ensures
        s@ == v@,
{
    let mut s = String::new();
    let mut i: usize = 0;
    while i < v.len()
        invariant
            i <= v.len(),
            s@ == v@.take(i as int),
        decreases v.len() - i,
    {
        s.push(v[i]);
        i += 1;
        assert(v@.take(i as int) == v@.take(i - 1).push(v@[i - 1]));
    }
    assert(v@.take(v.len() as int) == v@);
    s
}

/// Whether two strings hold the same characters.
pub fn same_text(a: &str, b: &str) -> (r: bool)
    ensures
        r == (a@ == b@),
{
    let x = a.to_owned();
    let y = b.to_owned();
    x == y
}

/// Whether `c` occurs in `s`.
pub fn contains_char(s: &str, c: char) -> (r: bool)
    ensures
        r == s@.contains(c),
{
    let v = chars_of(s);
    let mut i: usize = 0;
    while i < v.len()
        invariant
            i <= v.len(),
            v@ == s@,
            forall|j: int| 0 <= j < i ==> v@[j] != c,
        decreases v.len() - i,
    {
        if v[i] == c {
            assert(s@[i as int] == c);
            return true;
        }
        i += 1;
    }
    false
}

/// The characters with the Unicode property `White_Space`.
pub open spec fn is_whitespace(c: char) -> bool {
    let u = c as u32;
    ||| 0x09 <= u <= 0x0d
    ||| u == 0x20
    ||| u == 0x85
    ||| u == 0xa0
    ||| u == 0x1680
    ||| 0x2000 <= u <= 0x200a
    ||| u == 0x2028
    ||| u == 0x2029
    ||| u == 0x202f
    ||| u == 0x205f
    ||| u == 0x3000
}

pub fn is_whitespace_char(c: char) -> (r: bool)
    ensures
        r == is_whitespace(c),
{
    let u: u32 = c as u32;
    (0x09 <= u && u <= 0x0d) || u == 0x20 || u == 0x85 || u == 0xa0 || u == 0x1680 || (0x2000 <= u
        && u <= 0x200a) || u == 0x2028 || u == 0x2029 || u == 0x202f || u == 0x205f || u == 0x3000
}

/// The number of bytes that `c` takes in UTF-8.
pub open spec fn utf8_width(c: char) -> nat {
    let u = c as u32;
    if u < 0x80 {
        1
    } else if u < 0x800 {
        2
    } else if u < 0x10000 {
        3
    } else {
        4
    }
}

/// The number of bytes that `s` takes in UTF-8.
pub open spec fn utf8_len(s: Seq<char>) -> nat
    decreases s.len(),
{
    if s.len() == 0 {
        0
    } else {
        utf8_len(s.drop_last()) + utf8_width(s.last())
    }
}

pub proof fn lemma_utf8_len_push(s: Seq<char>, c: char)
    ensures
        utf8_len(s.push(c)) == utf8_len(s) + utf8_width(c),
{
    assert(s.push(c).drop_last() == s);
}

pub proof fn lemma_utf8_len_add(a: Seq<char>, b: Seq<char>)
    ensures
        utf8_len(a + b) == utf8_len(a) + utf8_len(b),
    decreases b.len(),
{
    if b.len() == 0 {
        assert(a + b == a);
    } else {
        lemma_utf8_len_add(a, b.drop_last());
        assert((a + b).drop_last() == a + b.drop_last());
    }
}

pub fn utf8_width_of(c: char) -> (w: usize)
    ensures
        w == utf8_width(c),
{
    let u: u32 = c as u32;
    if u < 0x80 {
        1
    } else if u < 0x800 {
        2
    } else if u < 0x10000 {
        3
    } else {
        4
    }
}

/// The UTF-8 length of `v[from..to]`, or `cap` where the length exceeds it.
pub fn utf8_len_within(v: &Vec<char>, from: usize, to: usize, cap: usize) -> (n: usize)
    requires
        from <= to <= v.len(),
    ensures
        n == if utf8_len(v@.subrange(from as int, to as int)) <= cap {
            utf8_len(v@.subrange(from as int, to as int))
        } else {
            cap as nat
        },
{
    let mut n: usize = 0;
    let mut i: usize = from;
    while i < to
        invariant
            from <= i <= to <= v.len(),
            n == utf8_len(v@.subrange(from as int, i as int)),
            n <= cap,
        decreases to - i,
    {
        let w = utf8_width_of(v[i]);
        proof {
            lemma_utf8_len_push(v@.subrange(from as int, i as int), v@[i as int]);
            assert(v@.subrange(from as int, i + 1) == v@.subrange(from as int, i as int).push(
                v@[i as int],
            ));
            assert(v@.subrange(from as int, to as int) == v@.subrange(from as int, i + 1)
                + v@.subrange(i + 1, to as int));
            lemma_utf8_len_add(v@.subrange(from as int, i + 1), v@.subrange(i + 1, to as int));
        }
        if w > cap - n {
            return cap;
        }
        n = n + w;
        i += 1;
    }
    n
}

/// Whether `s` takes no more than `cap` bytes in UTF-8.
pub fn str_fits_within(s: &str, cap: usize) -> (r: bool)
    ensures
        r == (utf8_len(s@) <= cap),
{
    let v = chars_of(s);
    let mut n: usize = 0;
    let mut i: usize = 0;
    assert(v@.take(v@.len() as int) == v@);
    while i < v.len()
        invariant
            i <= v.len(),
            v@ == s@,
            n == utf8_len(v@.take(i as int)),
            n <= cap,
        decreases v.len() - i,
    {
        let w = utf8_width_of(v[i]);
        proof {
            lemma_utf8_len_push(v@.take(i as int), v@[i as int]);
            assert(v@.take(i + 1) == v@.take(i as int).push(v@[i as int]));
            assert(v@ == v@.take(i + 1) + v@.skip(i + 1));
            lemma_utf8_len_add(v@.take(i + 1), v@.skip(i + 1));
        }
        if w > cap - n {
            return false;
        }
        n = n + w;
        i += 1;
    }
    true
}

/// Only the empty text takes no bytes.
pub proof fn lemma_utf8_len_zero(s: Seq<char>)
    ensures
        (utf8_len(s) == 0) == (s.len() == 0),
{
}

/// The UTF-8 length of `s`, or `cap` where the length exceeds it.
pub fn str_len_within(s: &str, cap: usize) -> (n: usize)
    ensures
        n == if utf8_len(s@) <= cap {
            utf8_len(s@)
        } else {
            cap as nat
        },
{
    let v = chars_of(s);
    assert(v@.subrange(0, v@.len() as int) == v@);
    utf8_len_within(&v, 0, v.len(), cap)
}

/// `n` spaces.
pub open spec fn spaces(n: nat) -> Seq<char> {
    Seq::new(n, |i: int| ' ')
}

pub fn push_spaces(v: &mut Vec<char>, n: usize)
    ensures
        final(v)@ == old(v)@ + spaces(n as nat),
{
    let mut i: usize = 0;
    while i < n
        invariant
            i <= n,
            v@ == old(v)@ + spaces(i as nat),
        decreases n - i,
    {
        v.push(' ');
        i += 1;
        assert(v@ == old(v)@ + spaces(i as nat));
    }
}

pub fn push_chars(v: &mut Vec<char>, s: &Vec<char>)
    ensures
        final(v)@ == old(v)@ + s@,
{
    let mut i: usize = 0;
    while i < s.len()
        invariant
            i <= s.len(),
            v@ == old(v)@ + s@.take(i as int),
        decreases s.len() - i,
    {
        v.push(s[i]);
        i += 1;
        assert(v@ == old(v)@ + s@.take(i as int));
    }
    assert(s@.take(s.len() as int) == s@);
}

pub fn push_text(v: &mut Vec<char>, s: &str)
    ensures
        final(v)@ == old(v)@ + s@,
{
    let t = chars_of(s);
    push_chars(v, &t);
}

/// `s` without the whitespace at its end.
pub open spec fn trim_end(s: Seq<char>) -> Seq<char>
    decreases s.len(),
{
    if s.len() > 0 && is_whitespace(s.last()) {
        trim_end(s.drop_last())
    } else {
        s
    }
}

pub fn trim_end_in_place(v: &mut Vec<char>)
    ensures
        final(v)@ == trim_end(old(v)@),
{
    while v.len() > 0 && is_whitespace_char(v[v.len() - 1])
        invariant
            trim_end(v@) == trim_end(old(v)@),
        decreases v.len(),
    {
        v.pop();
    }
}

/// `s` without the spaces at its end.
pub open spec fn trim_spaces_end(s: Seq<char>) -> Seq<char>
    decreases s.len(),
{
    if s.len() > 0 && s.last() == ' ' {
        trim_spaces_end(s.drop_last())
    } else {
        s
    }
}

/// Whether `needle` stands in `hay` at index `i`.
pub open spec fn occurs_at(hay: Seq<char>, needle: Seq<char>, i: int) -> bool {
    &&& 0 <= i
    &&& i + needle.len() <= hay.len()
    &&& hay.subrange(i, i + needle.len()) == needle
}

/// The last index at or below `i` at which `needle` stands in `hay`.
pub open spec fn rfind_from(hay: Seq<char>, needle: Seq<char>, i: int) -> Option<int>
    decreases i + 1,
{
    if i < 0 {
        None
    } else if occurs_at(hay, needle, i) {
        Some(i)
    } else {
        rfind_from(hay, needle, i - 1)
    }
}

/// The last index at which `needle` stands in `hay`.
pub open spec fn rfind_text(hay: Seq<char>, needle: Seq<char>) -> Option<int> {
    rfind_from(hay, needle, hay.len() - needle.len())
}

/// `rfind_from` gives an occurrence, and no occurrence at or below `i` lies after it.
pub proof fn lemma_rfind_from(hay: Seq<char>, needle: Seq<char>, i: int)
    ensures
        match rfind_from(hay, needle, i) {
            Some(k) => 0 <= k <= i && occurs_at(hay, needle, k) && forall|j: int|
                k < j <= i ==> !occurs_at(hay, needle, j),
            None => forall|j: int| j <= i ==> !occurs_at(hay, needle, j),
        },
    decreases i + 1,
{
    if i >= 0 && !occurs_at(hay, needle, i) {
        lemma_rfind_from(hay, needle, i - 1);
    }
}

pub fn matches_at(hay: &Vec<char>, i: usize, needle: &Vec<char>) -> (r: bool)
    ensures
        r == occurs_at(hay@, needle@, i as int),
{
    if needle.len() > hay.len() || i > hay.len() - needle.len() {
        return false;
    }
    let mut k: usize = 0;
    while k < needle.len()
        invariant
            k <= needle.len(),
            i + needle.len() <= hay.len(),
            forall|j: int| 0 <= j < k ==> hay@[i + j] == needle@[j],
        decreases needle.len() - k,
    {
        if hay[i + k] != needle[k] {
            assert(hay@.subrange(i as int, i + needle.len())[k as int] == hay@[i + k]);
            return false;
        }
        k += 1;
    }
    assert(hay@.subrange(i as int, i + needle.len()) =~= needle@);
    true
}

/// The last index at which `needle` stands in `hay`.
pub fn text_rfind(hay: &Vec<char>, needle: &Vec<char>) -> (r: Option<usize>)
    ensures
        match r {
            Some(k) => rfind_text(hay@, needle@) == Some(k as int),
            None => rfind_text(hay@, needle@) is None,
        },
{
    if needle.len() > hay.len() {
        return None;
    }
    let mut i: usize = hay.len() - needle.len();
    loop
        invariant
            i + needle.len() <= hay.len(),
            rfind_from(hay@, needle@, i as int) == rfind_text(hay@, needle@),
        decreases i,
    {
        if matches_at(hay, i, needle) {
            return Some(i);
        }
        if i == 0 {
            assert(rfind_from(hay@, needle@, -1) is None);
            return None;
        }
        i -= 1;
    }
}

/// The index after the last line feed of `s`, or 0 where it has none.
pub open spec fn last_line_start(s: Seq<char>) -> nat
    decreases s.len(),
{
    if s.len() == 0 {
        0
    } else if s.last() == '\n' {
        s.len()
    } else {
        last_line_start(s.drop_last())
    }
}

pub proof fn lemma_last_line_start(s: Seq<char>)
    ensures
        last_line_start(s) <= s.len(),
        last_line_start(s) > 0 ==> s[last_line_start(s) - 1] == '\n',
        forall|j: int| last_line_start(s) <= j < s.len() ==> s[j] != '\n',
    decreases s.len(),
{
    if s.len() > 0 && s.last() != '\n' {
        let t = s.drop_last();
        lemma_last_line_start(t);
        assert forall|j: int| last_line_start(s) <= j < s.len() implies s[j] != '\n' by {
            if j < t.len() {
                assert(t[j] == s[j]);
            }
        }
    }
}

/// The text that follows the last line feed of `s`.
pub open spec fn tail_line(s: Seq<char>) -> Seq<char> {
    s.subrange(last_line_start(s) as int, s.len() as int)
}

/// The last line of `s`: a line feed ends a line, a carriage return before it
/// belongs to the ending, and a text that ends in a line feed has no empty
/// line after it.
pub open spec fn last_line(s: Seq<char>) -> Seq<char> {
    if s.len() > 0 && s.last() == '\n' {
        let line = tail_line(s.drop_last());
        if line.len() > 0 && line.last() == '\r' {
            line.drop_last()
        } else {
            line
        }
    } else {
        tail_line(s)
    }
}

/// Where the text after the last line feed of `v[..end]` begins.
fn tail_line_start(v: &Vec<char>, end: usize) -> (start: usize)
    requires
        end <= v.len(),
    ensures
        start == last_line_start(v@.subrange(0, end as int)),
        start <= end,
{
    let mut i: usize = end;
    while i > 0 && v[i - 1] != '\n'
        invariant
            i <= end <= v.len(),
            last_line_start(v@.subrange(0, i as int)) == last_line_start(
                v@.subrange(0, end as int),
            ),
        decreases i,
    {
        assert(v@.subrange(0, i as int).drop_last() == v@.subrange(0, i - 1));
        i -= 1;
    }
    proof {
        lemma_last_line_start(v@.subrange(0, end as int));
    }
    i
}

/// The bounds of the last line of `v`.
pub fn last_line_bounds(v: &Vec<char>) -> (r: (usize, usize))
    ensures
        r.0 <= r.1 <= v.len(),
        v@.subrange(r.0 as int, r.1 as int) == last_line(v@),
{
    let n = v.len();
    assert(v@.subrange(0, n as int) == v@);
    if n > 0 && v[n - 1] == '\n' {
        let start = tail_line_start(v, n - 1);
        let ghost body = v@.drop_last();
        assert(body == v@.subrange(0, n - 1));
        let mut end = n - 1;
        if end > start && v[end - 1] == '\r' {
            end = end - 1;
        }
        assert(v@.subrange(start as int, end as int) =~= last_line(v@));
        (start, end)
    } else {
        let start = tail_line_start(v, n);
        assert(v@.subrange(start as int, n as int) =~= last_line(v@));
        (start, n)
    }
}

/// The index of the first line feed of `s`, or its length where it has none.
pub open spec fn first_newline(s: Seq<char>) -> nat
    decreases s.len(),
{
    if s.len() == 0 {
        0
    } else if s[0] == '\n' {
        0
    } else {
        1 + first_newline(s.drop_first())
    }
}

pub proof fn lemma_first_newline(s: Seq<char>)
    ensures
        first_newline(s) <= s.len(),
        first_newline(s) < s.len() ==> s[first_newline(s) as int] == '\n',
        forall|j: int| 0 <= j < first_newline(s) ==> s[j] != '\n',
    decreases s.len(),
{
    if s.len() > 0 && s[0] != '\n' {
        lemma_first_newline(s.drop_first());
        assert forall|j: int| 0 <= j < first_newline(s) implies s[j] != '\n' by {
            if j > 0 {
                assert(s.drop_first()[j - 1] == s[j]);
            }
        }
    }
}

/// `first_newline` is the one index that holds a line feed and has none before it.
pub proof fn lemma_first_newline_is(s: Seq<char>, k: int)
    requires
        0 <= k <= s.len(),
        k < s.len() ==> s[k] == '\n',
        forall|j: int| 0 <= j < k ==> s[j] != '\n',
    ensures
        first_newline(s) == k,
{
    lemma_first_newline(s);
}

/// `line` without the carriage return at its end, if it has one.
pub open spec fn strip_cr(line: Seq<char>) -> Seq<char> {
    if line.len() > 0 && line.last() == '\r' {
        line.drop_last()
    } else {
        line
    }
}

/// The lines of `s`, each without the spaces at its end, joined by line
/// feeds. A line ends at a line feed or at the end of the text; a carriage
/// return before a line feed belongs to the line's ending.
pub open spec fn strip_lines(s: Seq<char>) -> Seq<char>
    decreases s.len(),
{
    if s.len() == 0 {
        Seq::empty()
    } else {
        let k = first_newline(s) as int;
        if k >= s.len() {
            trim_spaces_end(s)
        } else {
            let head = trim_spaces_end(strip_cr(s.subrange(0, k)));
            let rest = s.subrange(k + 1, s.len() as int);
            if rest.len() == 0 {
                head
            } else {
                head + seq!['\n'] + strip_lines(rest)
            }
        }
    }
}

/// The text of `v` with the spaces at the end of each line taken away.
pub fn strip_line_ends(v: &Vec<char>) -> (out: Vec<char>)
    ensures
        out@ == strip_lines(v@),
{
    let n = v.len();
    let mut out: Vec<char> = Vec::new();
    let mut i: usize = 0;
    assert(v@.subrange(0, n as int) == v@);
    while i < n
        invariant
            i <= n,
            n == v.len(),
            i < n ==> strip_lines(v@) == out@ + strip_lines(v@.subrange(i as int, n as int)),
            i == n ==> strip_lines(v@) == out@,
        decreases n - i,
    {
        let ghost s = v@.subrange(i as int, n as int);
        let mut k: usize = i;
        while k < n && v[k] != '\n'
            invariant
                i <= k <= n,
                n == v.len(),
                forall|j: int| i <= j < k ==> v@[j] != '\n',
            decreases n - k,
        {
            k += 1;
        }
        proof {
            lemma_first_newline_is(s, k - i);
        }
        let mut e: usize = k;
        if k < n && e > i && v[e - 1] == '\r' {
            e = e - 1;
        }
        let ghost line = if k < n {
            strip_cr(s.subrange(0, k - i))
        } else {
            s
        };
        assert(line =~= v@.subrange(i as int, e as int));
        while e > i && v[e - 1] == ' '
            invariant
                i <= e <= k,
                k <= n,
                n == v.len(),
                trim_spaces_end(v@.subrange(i as int, e as int)) == trim_spaces_end(line),
            decreases e,
        {
            assert(v@.subrange(i as int, e as int).drop_last() == v@.subrange(i as int, e - 1));
            e = e - 1;
        }
        let ghost before = out@;
        let mut j: usize = i;
        while j < e
            invariant
                i <= j <= e <= n,
                n == v.len(),
                out@ == before + v@.subrange(i as int, j as int),
            decreases e - j,
        {
            out.push(v[j]);
            j += 1;
            assert(out@ == before + v@.subrange(i as int, j as int));
        }
        assert(out@ == before + trim_spaces_end(line));
        if k < n {
            let ghost rest = s.subrange(k - i + 1, s.len() as int);
            assert(rest =~= v@.subrange(k + 1, n as int));
            i = k + 1;
            if i < n {
                out.push('\n');
                assert(out@ =~= before + (trim_spaces_end(line) + seq!['\n']));
                assert(strip_lines(s) == trim_spaces_end(line) + seq!['\n'] + strip_lines(rest));
                assert(strip_lines(v@) =~= out@ + strip_lines(rest));
            } else {
                assert(strip_lines(s) == trim_spaces_end(line));
            }
        } else {
            i = n;
        }
    }
    out
}

} // verus!
