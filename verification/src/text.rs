//! Text of a frame: UTF-8 decoding and splitting into CRLF-separated lines.
use vstd::prelude::*;
use vstd::utf8::decode_utf8;
use vstd::utf8::valid_utf8;

verus! {

broadcast use vstd::string::group_string_axioms;

/// `std::str::from_utf8`: succeeds exactly on valid UTF-8, and then the text
/// holds the characters that the bytes encode.
#[verifier::external_body]
pub(crate) fn str_from_utf8(b: &[u8]) -> (r: Option<&str>)
    ensures
        r is Some <==> valid_utf8(b@),
        r matches Some(s) ==> s@ == decode_utf8(b@),
{
    std::str::from_utf8(b).ok()
}

/// A line break `\r\n` starts at index `i` of `s`.
pub open spec fn is_crlf_at(s: Seq<char>, i: int) -> bool {
    0 <= i && i + 1 < s.len() && s[i] == '\r' && s[i + 1] == '\n'
}

/// The index of the first line break of `s` at or after `i`, or -1.
pub open spec fn find_crlf(s: Seq<char>, i: int) -> int
    decreases s.len() - i,
{
    if i < 0 || i + 1 >= s.len() {
        -1
    } else if is_crlf_at(s, i) {
        i
    } else {
        find_crlf(s, i + 1)
    }
}

pub proof fn lemma_find_crlf(s: Seq<char>, i: int)
    requires
        0 <= i,
    ensures
        find_crlf(s, i) == -1 ==> forall|j: int| i <= j ==> !#[trigger] is_crlf_at(s, j),
        find_crlf(s, i) != -1 ==> {
            &&& i <= find_crlf(s, i)
            &&& find_crlf(s, i) + 2 <= s.len()
            &&& is_crlf_at(s, find_crlf(s, i))
            &&& forall|j: int| i <= j < find_crlf(s, i) ==> !#[trigger] is_crlf_at(s, j)
        },
    decreases s.len() - i,
{
    if i + 1 < s.len() && !is_crlf_at(s, i) {
        lemma_find_crlf(s, i + 1);
    }
}

/// The pieces of `s` from index `pos` on, cut at each `\r\n` (the breaks
/// themselves dropped), as `str::split("\r\n")` yields them.
pub open spec fn lines_from(s: Seq<char>, pos: int) -> Seq<Seq<char>>
    decreases s.len() - pos,
{
    if pos < 0 || pos > s.len() {
        Seq::empty()
    } else {
        let j = find_crlf(s, pos);
        if j < 0 {
            seq![s.subrange(pos, s.len() as int)]
        } else {
            proof {
                lemma_find_crlf(s, pos);
            }
            seq![s.subrange(pos, j)] + lines_from(s, j + 2)
        }
    }
}

/// The lines of a text, as `str::split("\r\n")` yields them.
pub open spec fn split_lines(s: Seq<char>) -> Seq<Seq<char>> {
    lines_from(s, 0)
}

/// No line break occurs in `s`.
pub open spec fn crlf_free(s: Seq<char>) -> bool {
    forall|i: int| !#[trigger] is_crlf_at(s, i)
}

proof fn lemma_find_crlf_shift(a: Seq<char>, b: Seq<char>, p: int)
    requires
        0 <= p,
    ensures
        find_crlf(a + b, a.len() + p) == if find_crlf(b, p) == -1 {
            -1
        } else {
            a.len() + find_crlf(b, p)
        },
    decreases b.len() - p,
{
    let s = a + b;
    if p + 1 < b.len() {
        assert(s[a.len() + p] == b[p]);
        assert(s[a.len() + p + 1] == b[p + 1]);
        if !is_crlf_at(b, p) {
            lemma_find_crlf_shift(a, b, p + 1);
        }
    }
}

/// The lines of a text after a prefix do not depend on that prefix.
proof fn lemma_lines_shift(a: Seq<char>, b: Seq<char>, p: int)
    requires
        0 <= p <= b.len(),
    ensures
        lines_from(a + b, a.len() + p) == lines_from(b, p),
    decreases b.len() - p,
{
    let s = a + b;
    lemma_find_crlf_shift(a, b, p);
    lemma_find_crlf(b, p);
    let f = find_crlf(b, p);
    if f == -1 {
        assert(s.subrange(a.len() + p, s.len() as int) =~= b.subrange(p, b.len() as int));
    } else {
        assert(s.subrange(a.len() + p, a.len() + f) =~= b.subrange(p, f));
        lemma_lines_shift(a, b, f + 2);
    }
}

/// A line without line breaks, a break, then more text: the line comes first.
pub proof fn lemma_split_lines_cons(line: Seq<char>, tail: Seq<char>)
    requires
        crlf_free(line),
    ensures
        split_lines(line + seq!['\r', '\n'] + tail) == seq![line] + split_lines(tail),
{
    let head = line + seq!['\r', '\n'];
    let s = head + tail;
    assert(line + seq!['\r', '\n'] + tail == s);
    let n = line.len() as int;
    assert(s[n] == '\r' && s[n + 1] == '\n');
    assert(is_crlf_at(s, n));
    assert forall|j: int| 0 <= j < n implies !#[trigger] is_crlf_at(s, j) by {
        if j + 1 < n {
            assert(!is_crlf_at(line, j));
            assert(s[j] == line[j] && s[j + 1] == line[j + 1]);
        } else {
            assert(s[j + 1] == '\r');
        }
    }
    lemma_find_crlf(s, 0);
    let f = find_crlf(s, 0);
    if f == -1 {
        assert(!is_crlf_at(s, n));
    }
    if f > n {
        assert(!is_crlf_at(s, n));
    }
    if f < n {
        assert(!is_crlf_at(s, f));
    }
    assert(f == n);
    assert(s.subrange(0, n) =~= line);
    lemma_lines_shift(head, tail, 0);
    assert(head.len() + 0 == n + 2);
}

/// A text without line breaks is one line.
pub proof fn lemma_split_lines_single(s: Seq<char>)
    requires
        crlf_free(s),
    ensures
        split_lines(s) == seq![s],
{
    lemma_find_crlf(s, 0);
    if find_crlf(s, 0) != -1 {
        assert(is_crlf_at(s, find_crlf(s, 0)));
    }
    assert(s.subrange(0, s.len() as int) =~= s);
}

/// The lines of an empty text: one empty line.
pub proof fn lemma_split_lines_empty()
    ensures
        split_lines(Seq::<char>::empty()) == seq![Seq::<char>::empty()],
{
    assert(Seq::<char>::empty().subrange(0, 0) =~= Seq::<char>::empty());
}

/// The characters of a text, in order.
fn chars_of(text: &str) -> (v: Vec<char>)
    ensures
        v@ == text@,
{
    let mut v: Vec<char> = Vec::new();
    for c in it: text.chars()
        invariant
            v@ == it.seq().take(it.index() as int),
    {
        v.push(c);
    }
    v
}

/// Unicode `White_Space`, the characters that `char::is_whitespace` accepts.
pub open spec fn is_white_space(c: char) -> bool {
    ||| ('\u{9}' <= c && c <= '\u{d}')
    ||| c == ' '
    ||| c == '\u{85}'
    ||| c == '\u{a0}'
    ||| c == '\u{1680}'
    ||| ('\u{2000}' <= c && c <= '\u{200a}')
    ||| c == '\u{2028}'
    ||| c == '\u{2029}'
    ||| c == '\u{202f}'
    ||| c == '\u{205f}'
    ||| c == '\u{3000}'
}

fn white_space(c: char) -> (b: bool)
    ensures
        b == is_white_space(c),
{
    ('\u{9}' <= c && c <= '\u{d}') || c == ' ' || c == '\u{85}' || c == '\u{a0}' || c
        == '\u{1680}' || ('\u{2000}' <= c && c <= '\u{200a}') || c == '\u{2028}' || c
        == '\u{2029}' || c == '\u{202f}' || c == '\u{205f}' || c == '\u{3000}'
}

/// `s` without its leading and trailing white space, as `str::trim` gives it:
/// the part from index `a` to index `b`, where nothing before `a` and nothing
/// from `b` on is a non-white-space character, and `s[a]`, `s[b - 1]` are not
/// white space (or the part is empty).
pub open spec fn is_trim_of(t: Seq<char>, s: Seq<char>) -> bool {
    exists|a: int, b: int|
        0 <= a <= b <= s.len() && t == s.subrange(a, b) && (forall|i: int|
            0 <= i < a ==> is_white_space(#[trigger] s[i])) && (forall|i: int|
            b <= i < s.len() ==> is_white_space(#[trigger] s[i])) && (a < b ==> !is_white_space(
            s[a],
        ) && !is_white_space(s[b - 1]))
}

/// The text without leading and trailing white space.
pub open spec fn spec_trim(s: Seq<char>) -> Seq<char> {
    choose|t: Seq<char>| is_trim_of(t, s)
}

proof fn lemma_trim_unique(s: Seq<char>, a: int, b: int)
    requires
        0 <= a <= b <= s.len(),
        forall|i: int| 0 <= i < a ==> is_white_space(#[trigger] s[i]),
        forall|i: int| b <= i < s.len() ==> is_white_space(#[trigger] s[i]),
        a < b ==> !is_white_space(s[a]) && !is_white_space(s[b - 1]),
        a == b ==> forall|i: int| 0 <= i < s.len() ==> is_white_space(#[trigger] s[i]),
    ensures
        spec_trim(s) == s.subrange(a, b),
{
    assert(is_trim_of(s.subrange(a, b), s));
    let t = spec_trim(s);
    assert(is_trim_of(t, s));
    let (a2, b2) = choose|a2: int, b2: int|
        0 <= a2 <= b2 <= s.len() && t == s.subrange(a2, b2) && (forall|i: int|
            0 <= i < a2 ==> is_white_space(#[trigger] s[i])) && (forall|i: int|
            b2 <= i < s.len() ==> is_white_space(#[trigger] s[i])) && (a2 < b2 ==> !is_white_space(
            s[a2],
        ) && !is_white_space(s[b2 - 1]));
    if a < b {
        if a2 < b2 {
            if a2 < a {
                assert(is_white_space(s[a2]));
            }
            if a < a2 {
                assert(is_white_space(s[a]));
            }
            if b2 < b {
                assert(is_white_space(s[b - 1]));
            }
            if b < b2 {
                assert(is_white_space(s[b2 - 1]));
            }
        } else {
            assert(is_white_space(s[a])) by {
                if a < a2 {
                } else {
                    assert(b2 <= a);
                }
            }
        }
    } else {
        if a2 < b2 {
            assert(is_white_space(s[a2]));
        }
    }
    assert(t =~= s.subrange(a, b));
}

/// Trimming removes exactly the white space around a text: a text that starts
/// and ends with other characters (or is empty), padded on both sides with
/// any white space, trims back to itself.
pub proof fn lemma_trim_padding(w1: Seq<char>, t: Seq<char>, w2: Seq<char>)
    requires
        forall|i: int| 0 <= i < w1.len() ==> is_white_space(#[trigger] w1[i]),
        forall|i: int| 0 <= i < w2.len() ==> is_white_space(#[trigger] w2[i]),
        t.len() > 0 ==> !is_white_space(t[0]) && !is_white_space(t.last()),
    ensures
        spec_trim(w1 + t + w2) == t,
{
    let s = w1 + t + w2;
    let a = w1.len() as int;
    let b = a + t.len();
    assert forall|i: int| 0 <= i < a implies is_white_space(#[trigger] s[i]) by {
        assert(s[i] == w1[i]);
    }
    assert forall|i: int| b <= i < s.len() implies is_white_space(#[trigger] s[i]) by {
        assert(s[i] == w2[i - b]);
    }
    if t.len() > 0 {
        assert(s[a] == t[0]);
        assert(s[b - 1] == t.last());
    }
    lemma_trim_unique(s, a, b);
    assert(s.subrange(a, b) =~= t);
}

/// The text without leading and trailing white space (`str::trim`).
pub fn trim(s: &str) -> (r: &str)
    ensures
        r@ == spec_trim(s@),
{
    let v = chars_of(s);
    let len = v.len();
    let mut a: usize = 0;
    while a < len && white_space(v[a])
        invariant
            a <= len,
            len == v@.len(),
            v@ == s@,
            forall|i: int| 0 <= i < a ==> is_white_space(#[trigger] v@[i]),
        decreases len - a,
    {
        a = a + 1;
    }
    let mut b: usize = len;
    while b > a && white_space(v[b - 1])
        invariant
            a <= b <= len,
            len == v@.len(),
            v@ == s@,
            forall|i: int| b <= i < len ==> is_white_space(#[trigger] v@[i]),
        decreases b,
    {
        b = b - 1;
    }
    proof {
        lemma_trim_unique(s@, a as int, b as int);
    }
    s.substring_char(a, b)
}

/// A cursor over the CRLF-separated lines of a text.
pub struct Lines<'a> {
    text: &'a str,
    chars: Vec<char>,
    pos: usize,
    finished: bool,
}

impl<'a> Lines<'a> {
    pub closed spec fn wf(&self) -> bool {
        &&& self.chars@ == self.text@
        &&& self.pos <= self.chars@.len()
    }

    /// The lines that are still to come.
    pub closed spec fn remaining(&self) -> Seq<Seq<char>> {
        if self.finished {
            Seq::empty()
        } else {
            lines_from(self.chars@, self.pos as int)
        }
    }

    pub fn new(text: &'a str) -> (l: Lines<'a>)
        ensures
            l.wf(),
            l.remaining() == split_lines(text@),
    {
        Lines { text, chars: chars_of(text), pos: 0, finished: false }
    }

    /// Hands out the next line, if any.
    pub fn next(&mut self) -> (r: Option<&'a str>)
        requires
            old(self).wf(),
        ensures
            final(self).wf(),
            old(self).remaining().len() == 0 ==> r is None && final(self).remaining().len() == 0,
            old(self).remaining().len() > 0 ==> {
                &&& r matches Some(l) && l@ == old(self).remaining()[0]
                &&& final(self).remaining() == old(self).remaining().drop_first()
            },
    {
        if self.finished {
            return None;
        }
        let ghost s = self.chars@;
        let ghost before = self.remaining();
        let len = self.chars.len();
        let start = self.pos;
        let mut i = start;
        proof {
            lemma_find_crlf(s, start as int);
        }
        while len - i > 1 && !(self.chars[i] == '\r' && self.chars[i + 1] == '\n')
            invariant
                start <= i <= len,
                len == s.len(),
                s == self.chars@,
                forall|j: int| start <= j < i ==> !#[trigger] is_crlf_at(s, j),
            decreases len - i,
        {
            i = i + 1;
        }
        if len - i > 1 {
            proof {
                assert(is_crlf_at(s, i as int));
                lemma_find_crlf(s, start as int);
                assert(find_crlf(s, start as int) == i);
                assert(before =~= seq![s.subrange(start as int, i as int)] + lines_from(s, i + 2));
            }
            let line = self.text.substring_char(start, i);
            self.pos = i + 2;
            proof {
                assert(self.remaining() =~= before.drop_first());
            }
            Some(line)
        } else {
            proof {
                assert forall|j: int| start <= j implies !#[trigger] is_crlf_at(s, j) by {
                    if j >= i {
                        assert(!is_crlf_at(s, j));
                    }
                }
                if find_crlf(s, start as int) != -1 {
                    assert(is_crlf_at(s, find_crlf(s, start as int)));
                }
                assert(before =~= seq![s.subrange(start as int, len as int)]);
            }
            let line = self.text.substring_char(start, len);
            self.finished = true;
            proof {
                assert(self.remaining() =~= before.drop_first());
            }
            Some(line)
        }
    }
}

} // verus!
