//! Comment stripping for the line-oriented machine description: each line is
//! trimmed, a `//` comment is cut off (a whole-line comment drops the line),
//! and what is left is returned one line per newline.

use vstd::prelude::*;

use vstd::string::{StrSliceExecFns, StringExecFns};

verus! {

/// Whether `c` has the White_Space property, as `char::is_whitespace` tests
/// it.
pub open spec fn is_ws(c: char) -> bool {
    c == ' ' || c == '\t' || c == '\n' || c == '\u{000B}' || c == '\u{000C}' || c == '\r'
        || c == '\u{0085}' || c == '\u{00A0}' || c == '\u{1680}' || c == '\u{2000}'
        || c == '\u{2001}' || c == '\u{2002}' || c == '\u{2003}' || c == '\u{2004}'
        || c == '\u{2005}' || c == '\u{2006}' || c == '\u{2007}' || c == '\u{2008}'
        || c == '\u{2009}' || c == '\u{200A}' || c == '\u{2028}' || c == '\u{2029}'
        || c == '\u{202F}' || c == '\u{205F}' || c == '\u{3000}'
}

/// The first index at or after `i` holding a character that is not
/// whitespace, or the length when only whitespace follows.
pub open spec fn ws_prefix_end(s: Seq<char>, i: int) -> int
    decreases s.len() - i,
{
    if i < 0 || i >= s.len() {
        s.len() as int
    } else if is_ws(s[i]) {
        ws_prefix_end(s, i + 1)
    } else {
        i
    }
}

/// The index one past the last character before `i` that is not whitespace,
/// or 0 when only whitespace precedes `i`.
pub open spec fn ws_suffix_start(s: Seq<char>, i: int) -> int
    decreases i,
{
    if i <= 0 {
        0
    } else if is_ws(s[i - 1]) {
        ws_suffix_start(s, i - 1)
    } else {
        i
    }
}

/// `s` with leading and trailing whitespace removed.
pub open spec fn trim_spec(s: Seq<char>) -> Seq<char> {
    let a = ws_prefix_end(s, 0);
    if a == s.len() {
        Seq::empty()
    } else {
        s.subrange(a, ws_suffix_start(s, s.len() as int))
    }
}

/// The first index at or after `i` where two slashes begin, or -1 when there
/// is no comment.
pub open spec fn comment_start(s: Seq<char>, i: int) -> int
    decreases s.len() - i,
{
    if i < 0 || i + 2 > s.len() {
        -1
    } else if s[i] == '/' && s[i + 1] == '/' {
        i
    } else {
        comment_start(s, i + 1)
    }
}

/// What one line contributes to the stripped text: the trimmed line and a
/// newline; with a trailing comment, only the trimmed part before it; with a
/// whole-line comment, nothing at all.
pub open spec fn strip_line(line: Seq<char>) -> Seq<char> {
    let t = trim_spec(line);
    let idx = comment_start(t, 0);
    if idx == -1 {
        t + seq!['\n']
    } else if idx == 0 {
        Seq::empty()
    } else {
        trim_spec(t.subrange(0, idx)) + seq!['\n']
    }
}

/// The first index at or after `i` holding a newline, or the length.
pub open spec fn newline_at(s: Seq<char>, i: int) -> int
    decreases s.len() - i,
{
    if i < 0 || i >= s.len() {
        s.len() as int
    } else if s[i] == '\n' {
        i
    } else {
        newline_at(s, i + 1)
    }
}

/// A line with the carriage return of a `\r\n` terminator removed.
pub open spec fn drop_cr(l: Seq<char>) -> Seq<char> {
    if l.len() > 0 && l.last() == '\r' {
        l.drop_last()
    } else {
        l
    }
}

proof fn lemma_newline_at_bounds(s: Seq<char>, i: int)
    requires
        0 <= i <= s.len(),
    ensures
        i <= newline_at(s, i) <= s.len(),
        newline_at(s, i) < s.len() ==> s[newline_at(s, i)] == '\n',
    decreases s.len() - i,
{
    if i < s.len() && s[i] != '\n' {
        lemma_newline_at_bounds(s, i + 1);
    }
}

/// The stripped text of everything at or after `i`, line by line. A final
/// line without a newline is a line of its own; its trailing carriage return,
/// having no newline after it, is kept (and then trimmed away).
pub open spec fn strip_from(s: Seq<char>, i: int) -> Seq<char>
    decreases s.len() - i,
    via strip_from_decreases
{
    if i < 0 || i >= s.len() {
        Seq::empty()
    } else {
        let nl = newline_at(s, i);
        if nl == s.len() {
            strip_line(s.subrange(i, nl))
        } else {
            strip_line(drop_cr(s.subrange(i, nl))) + strip_from(s, nl + 1)
        }
    }
}

#[via_fn]
proof fn strip_from_decreases(s: Seq<char>, i: int) {
    if 0 <= i < s.len() {
        lemma_newline_at_bounds(s, i);
    }
}

/// The machine description with comments and blank-comment lines removed.
pub open spec fn strip_comments_spec(s: Seq<char>) -> Seq<char> {
    strip_from(s, 0)
}

/// Whether `c` has the White_Space property.
pub fn char_is_ws(c: char) -> (r: bool)
    ensures
        r == is_ws(c),
{
    match c {
        ' ' | '\t' | '\n' | '\u{000B}' | '\u{000C}' | '\r' | '\u{0085}' | '\u{00A0}'
            | '\u{1680}' | '\u{2000}' | '\u{2001}' | '\u{2002}' | '\u{2003}' | '\u{2004}'
            | '\u{2005}' | '\u{2006}' | '\u{2007}' | '\u{2008}' | '\u{2009}' | '\u{200A}'
            | '\u{2028}' | '\u{2029}' | '\u{202F}' | '\u{205F}' | '\u{3000}' => true,
        _ => false,
    }
}

fn find_newline(s: &str, from: usize) -> (r: usize)
    requires
        from <= s@.len(),
    ensures
        r == newline_at(s@, from as int),
        from <= r <= s@.len(),
        r < s@.len() ==> s@[r as int] == '\n',
{
    let n = s.unicode_len();
    let mut q = from;
    while q < n
        invariant
            n == s@.len(),
            from <= q <= n,
            newline_at(s@, from as int) == newline_at(s@, q as int),
        decreases n - q,
    {
        if s.get_char(q) == '\n' {
            return q;
        }
        q += 1;
    }
    q
}

fn trim_str<'a>(s: &'a str) -> (r: &'a str)
    ensures
        r@ == trim_spec(s@),
{
    let n = s.unicode_len();
    let mut a: usize = 0;
    while a < n && char_is_ws(s.get_char(a))
        invariant
            n == s@.len(),
            a <= n,
            ws_prefix_end(s@, 0) == ws_prefix_end(s@, a as int),
        decreases n - a,
    {
        a += 1;
    }
    if a == n {
        return s.substring_char(n, n);
    }
    let mut b: usize = n;
    while char_is_ws(s.get_char(b - 1))
        invariant
            n == s@.len(),
            a < b <= n,
            !is_ws(s@[a as int]),
            ws_suffix_start(s@, n as int) == ws_suffix_start(s@, b as int),
        decreases b,
    {
        b -= 1;
        proof {
            // The scan cannot pass `a`: the character there is not whitespace.
            assert(a < b) by {
                if b == a {
                    assert(is_ws(s@[a as int]));
                }
            }
        }
    }
    s.substring_char(a, b)
}

proof fn lemma_comment_start_bounds(s: Seq<char>, i: int)
    requires
        0 <= i <= s.len(),
    ensures
        comment_start(s, i) == -1 || (i <= comment_start(s, i) && comment_start(s, i) + 2
            <= s.len()),
    decreases s.len() - i,
{
    if i + 2 <= s.len() && !(s[i] == '/' && s[i + 1] == '/') {
        lemma_comment_start_bounds(s, i + 1);
    }
}

fn find_comment(s: &str) -> (r: Option<usize>)
    ensures
        match r {
            Some(i) => comment_start(s@, 0) == i as int,
            None => comment_start(s@, 0) == -1,
        },
{
    let n = s.unicode_len();
    if n < 2 {
        return None;
    }
    let mut i: usize = 0;
    while i <= n - 2
        invariant
            n == s@.len(),
            2 <= n,
            i <= n - 1,
            comment_start(s@, 0) == comment_start(s@, i as int),
        decreases n - i,
    {
        if s.get_char(i) == '/' && s.get_char(i + 1) == '/' {
            return Some(i);
        }
        i += 1;
    }
    None
}

fn strip_line_str(line: &str, out: &mut String)
    ensures
        final(out)@ == old(out)@ + strip_line(line@),
{
    let t = trim_str(line);
    proof {
        reveal_strlit("\n");
    }
    match find_comment(t) {
        None => {
            out.append(t);
            out.append("\n");
            proof {
                assert(final(out)@ =~= old(out)@ + strip_line(line@));
            }
        },
        Some(idx) => {
            if idx == 0 {
                proof {
                    assert(final(out)@ =~= old(out)@ + strip_line(line@));
                }
            } else {
                proof {
                    lemma_comment_start_bounds(t@, 0);
                }
                let prefix = t.substring_char(0, idx);
                let pt = trim_str(prefix);
                out.append(pt);
                out.append("\n");
                proof {
                    assert(final(out)@ =~= old(out)@ + strip_line(line@));
                }
            }
        },
    }
}

/// The machine description with every comment removed: lines are trimmed, a
/// `//` comment and what follows it is cut off, and a line that begins with a
/// comment disappears entirely.
pub fn strip_comments(input: &str) -> (r: String)
    ensures
        r@ == strip_comments_spec(input@),
{
    let n = input.unicode_len();
    let mut out = String::new();
    proof {
        assert(out@ + strip_from(input@, 0) =~= strip_from(input@, 0));
    }
    let mut p: usize = 0;
    while p < n
        invariant
            n == input@.len(),
            p <= n,
            out@ + strip_from(input@, p as int) == strip_from(input@, 0),
        decreases n - p,
    {
        let ghost out0 = out@;
        let nl = find_newline(input, p);
        if nl == n {
            let line = input.substring_char(p, n);
            strip_line_str(line, &mut out);
            proof {
                assert(out@ + strip_from(input@, n as int) =~= strip_from(input@, 0));
            }
            p = n;
        } else {
            let line = if nl > p && input.get_char(nl - 1) == '\r' {
                input.substring_char(p, nl - 1)
            } else {
                input.substring_char(p, nl)
            };
            proof {
                assert(line@ =~= drop_cr(input@.subrange(p as int, nl as int)));
            }
            strip_line_str(line, &mut out);
            proof {
                assert(out@ + strip_from(input@, nl as int + 1) =~= strip_from(input@, 0));
            }
            p = nl + 1;
        }
    }
    proof {
        assert(strip_from(input@, p as int) =~= Seq::<char>::empty());
        assert(out@ =~= strip_comments_spec(input@));
    }
    out
}

} // verus!
