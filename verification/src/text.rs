//! Character and string operations on which the discovery logic rests:
//! trimming, ASCII lowercasing, splitting on a character and decimal
//! rendering, each stated over `Seq<char>`.

use vstd::prelude::*;

verus! {

/// The Unicode `White_Space` property, which `char::is_whitespace` tests.
pub open spec fn is_white_space(c: char) -> bool {
    ||| ('\u{9}' <= c && c <= '\u{d}')
    ||| c == ' '
    ||| c == '\u{85}'
    ||| c == '\u{a0}'
    ||| c == '\u{1680}'
    ||| ('\u{2000}' <= c && c <= '\u{200a}')
    ||| c == '\u{2028}'
    ||| c == '\u{2029}'
    ||| c == '\u{202f}'
    ||| c == '\u{205f}'
    ||| c == '\u{3000}'
}

pub open spec fn is_dot(c: char) -> bool {
    c == '.'
}

/// `s` without the leading characters that satisfy `p`.
pub open spec fn strip_start(s: Seq<char>, p: spec_fn(char) -> bool) -> Seq<char>
    decreases s.len(),
{
    if s.len() > 0 && p(s[0]) {
        strip_start(s.drop_first(), p)
    } else {
        s
    }
}

/// `s` without the trailing characters that satisfy `p`.
pub open spec fn strip_end(s: Seq<char>, p: spec_fn(char) -> bool) -> Seq<char>
    decreases s.len(),
{
    if s.len() > 0 && p(s.last()) {
        strip_end(s.drop_last(), p)
    } else {
        s
    }
}

/// `s` without the leading and trailing characters that satisfy `p`.
pub open spec fn strip_both(s: Seq<char>, p: spec_fn(char) -> bool) -> Seq<char> {
    strip_end(strip_start(s, p), p)
}

/// Which characters a strip removes.
#[derive(Clone, Copy, Debug, PartialEq, Eq, Structural)]
pub enum Strip {
    WhiteSpace,
    Dots,
    WhiteSpaceAndDots,
}

/// The characters that a strip removes.
pub open spec fn strip_pred(kind: Strip) -> spec_fn(char) -> bool {
    |c: char|
        match kind {
            Strip::WhiteSpace => is_white_space(c),
            Strip::Dots => is_dot(c),
            Strip::WhiteSpaceAndDots => is_white_space(c) || is_dot(c),
        }
}

/// What `str::trim` gives.
pub open spec fn trim_spec(s: Seq<char>) -> Seq<char> {
    strip_both(s, strip_pred(Strip::WhiteSpace))
}

/// What `str::trim_matches('.')` gives.
pub open spec fn trim_dots(s: Seq<char>) -> Seq<char> {
    strip_both(s, strip_pred(Strip::Dots))
}

/// `s` without any surrounding white space or dots.
pub open spec fn trim_white_space_and_dots(s: Seq<char>) -> Seq<char> {
    strip_both(s, strip_pred(Strip::WhiteSpaceAndDots))
}

pub open spec fn ascii_lower_char(c: char) -> char {
    if 'A' <= c && c <= 'Z' {
        ((c as u32) + 32) as char
    } else {
        c
    }
}

/// What `str::to_ascii_lowercase` gives.
pub open spec fn ascii_lowercase(s: Seq<char>) -> Seq<char> {
    s.map_values(|c: char| ascii_lower_char(c))
}

/// The index of the first occurrence of `c` in `s` at or after `from`.
pub open spec fn find_char_from(s: Seq<char>, c: char, from: int) -> Option<int>
    decreases s.len() - from,
{
    if from < 0 || from >= s.len() {
        None
    } else if s[from] == c {
        Some(from)
    } else {
        find_char_from(s, c, from + 1)
    }
}

/// The index of the first occurrence of `c` in `s`.
pub open spec fn find_char(s: Seq<char>, c: char) -> Option<int> {
    find_char_from(s, c, 0)
}

/// What `s.split_once(c)` gives: the parts before and after the first `c`.
pub open spec fn split_once_spec(s: Seq<char>, c: char) -> Option<(Seq<char>, Seq<char>)> {
    match find_char(s, c) {
        Some(i) => Some((s.subrange(0, i), s.subrange(i + 1, s.len() as int))),
        None => None,
    }
}

proof fn lemma_strip_start_prefix(s: Seq<char>, p: spec_fn(char) -> bool, n: int)
    requires
        0 <= n <= s.len(),
        forall|k: int| 0 <= k < n ==> p(s[k]),
        n < s.len() ==> !p(s[n]),
    ensures
        strip_start(s, p) == s.subrange(n, s.len() as int),
    decreases n,
{
    if n == 0 {
        assert(s.subrange(0, s.len() as int) =~= s);
    } else {
        let t = s.drop_first();
        assert forall|k: int| 0 <= k < n - 1 implies p(t[k]) by {
            assert(t[k] == s[k + 1]);
        }
        if n - 1 < t.len() {
            assert(t[n - 1] == s[n]);
        }
        lemma_strip_start_prefix(t, p, n - 1);
        assert(t.subrange(n - 1, t.len() as int) =~= s.subrange(n, s.len() as int));
    }
}

proof fn lemma_strip_end_suffix(s: Seq<char>, p: spec_fn(char) -> bool, n: int)
    requires
        0 <= n <= s.len(),
        forall|k: int| n <= k < s.len() ==> p(s[k]),
        n > 0 ==> !p(s[n - 1]),
    ensures
        strip_end(s, p) == s.subrange(0, n),
    decreases s.len() - n,
{
    if n == s.len() {
        assert(s.subrange(0, n) =~= s);
    } else {
        let t = s.drop_last();
        assert forall|k: int| n <= k < t.len() implies p(t[k]) by {
            assert(t[k] == s[k]);
        }
        if n > 0 {
            assert(t[n - 1] == s[n - 1]);
        }
        lemma_strip_end_suffix(t, p, n);
        assert(t.subrange(0, n) =~= s.subrange(0, n));
    }
}

fn char_is_stripped(c: char, kind: Strip) -> (r: bool)
    ensures
        r == strip_pred(kind)(c),
{
    match kind {
        Strip::WhiteSpace => is_white_space_char(c),
        Strip::Dots => c == '.',
        Strip::WhiteSpaceAndDots => is_white_space_char(c) || c == '.',
    }
}

/// `s` without the leading and trailing characters of `kind`.
pub fn strip_chars(s: &str, kind: Strip) -> (r: &str)
    ensures
        r@ == strip_both(s@, strip_pred(kind)),
{
    let n = s.unicode_len();
    let mut i: usize = 0;
    let mut stop = false;
    while i < n && !stop
        invariant
            0 <= i <= n,
            n == s@.len(),
            forall|k: int| 0 <= k < i ==> strip_pred(kind)(s@[k]),
            stop ==> i < n && !strip_pred(kind)(s@[i as int]),
        decreases (n - i) + (if stop { 0int } else { 1int }),
    {
        let c = s.get_char(i);
        if char_is_stripped(c, kind) {
            i = i + 1;
        } else {
            stop = true;
        }
    }
    proof {
        lemma_strip_start_prefix(s@, strip_pred(kind), i as int);
    }
    let mut j: usize = n;
    let mut stop2 = false;
    while j > i && !stop2
        invariant
            i <= j <= n,
            n == s@.len(),
            forall|k: int| j <= k < n ==> strip_pred(kind)(s@[k]),
            stop2 ==> j > i && !strip_pred(kind)(s@[j - 1]),
        decreases (j - i) + (if stop2 { 0int } else { 1int }),
    {
        let c = s.get_char(j - 1);
        if char_is_stripped(c, kind) {
            j = j - 1;
        } else {
            stop2 = true;
        }
    }
    proof {
        let t = s@.subrange(i as int, n as int);
        assert forall|k: int| (j - i) <= k < t.len() implies strip_pred(kind)(t[k]) by {
            assert(t[k] == s@[k + i]);
        }
        if j > i {
            assert(t[j - i - 1] == s@[j - 1]);
        }
        lemma_strip_end_suffix(t, strip_pred(kind), (j - i) as int);
        assert(t.subrange(0, (j - i) as int) =~= s@.subrange(i as int, j as int));
    }
    s.substring_char(i, j)
}

pub fn ascii_lower(c: char) -> (r: char)
    ensures
        r == ascii_lower_char(c),
{
    if 'A' <= c && c <= 'Z' {
        ((c as u8) + 32) as char
    } else {
        c
    }
}

/// `s.to_ascii_lowercase()`.
pub fn to_ascii_lowercase(s: &str) -> (r: String)
    ensures
        r@ == ascii_lowercase(s@),
{
    let n = s.unicode_len();
    let mut out = String::new();
    let mut i: usize = 0;
    while i < n
        invariant
            0 <= i <= n,
            n == s@.len(),
            out@ == ascii_lowercase(s@.subrange(0, i as int)),
        decreases n - i,
    {
        let c = s.get_char(i);
        push_char(&mut out, ascii_lower(c));
        proof {
            assert(s@.subrange(0, i + 1) =~= s@.subrange(0, i as int).push(c));
        }
        i = i + 1;
        assert(out@ =~= ascii_lowercase(s@.subrange(0, i as int)));
    }
    assert(s@.subrange(0, n as int) =~= s@);
    out
}

proof fn lemma_find_char_from(s: Seq<char>, c: char, from: int, i: int)
    requires
        0 <= from <= i <= s.len(),
        forall|k: int| from <= k < i ==> s[k] != c,
    ensures
        find_char_from(s, c, from) == find_char_from(s, c, i),
    decreases i - from,
{
    if from < i {
        lemma_find_char_from(s, c, from + 1, i);
    }
}

/// The index of the first `c` in `s`, if any.
pub fn find_char_index(s: &str, c: char) -> (r: Option<usize>)
    ensures
        match r {
            Some(i) => find_char(s@, c) == Some(i as int) && i < s@.len() && s@[i as int] == c,
            None => find_char(s@, c) is None,
        },
{
    let n = s.unicode_len();
    let mut i: usize = 0;
    while i < n
        invariant
            0 <= i <= n,
            n == s@.len(),
            forall|k: int| 0 <= k < i ==> s@[k] != c,
        decreases n - i,
    {
        if s.get_char(i) == c {
            proof {
                lemma_find_char_from(s@, c, 0, i as int);
            }
            return Some(i);
        }
        i = i + 1;
    }
    proof {
        lemma_find_char_from(s@, c, 0, n as int);
    }
    None
}

/// `s.split_once(c)`.
pub fn split_once(s: &str, c: char) -> (r: Option<(&str, &str)>)
    ensures
        match r {
            Some((a, b)) => split_once_spec(s@, c) == Some((a@, b@)),
            None => split_once_spec(s@, c) is None,
        },
{
    match find_char_index(s, c) {
        Some(i) => {
            let n = s.unicode_len();
            Some((s.substring_char(0, i), s.substring_char(i + 1, n)))
        },
        None => None,
    }
}

/// Appends one character (`String::push`).
#[verifier::external_body]
pub(crate) fn push_char(s: &mut String, c: char)
    ensures
        final(s)@ == old(s)@.push(c),
{
    s.push(c);
}

pub fn is_white_space_char(c: char) -> (r: bool)
    ensures
        r == is_white_space(c),
{
    ('\u{9}' <= c && c <= '\u{d}') || c == ' ' || c == '\u{85}' || c == '\u{a0}' || c == '\u{1680}'
        || ('\u{2000}' <= c && c <= '\u{200a}') || c == '\u{2028}' || c == '\u{2029}' || c
        == '\u{202f}' || c == '\u{205f}' || c == '\u{3000}'
}

/// After stripping the leading characters that satisfy `p`, the first
/// character left does not.
pub proof fn lemma_strip_start_head(s: Seq<char>, p: spec_fn(char) -> bool)
    ensures
        strip_start(s, p).len() > 0 ==> !p(strip_start(s, p)[0]),
        strip_start(s, p).len() <= s.len(),
        strip_start(s, p) == s.subrange(s.len() - strip_start(s, p).len(), s.len() as int),
    decreases s.len(),
{
    if s.len() > 0 && p(s[0]) {
        lemma_strip_start_head(s.drop_first(), p);
        let r = strip_start(s.drop_first(), p);
        assert(s.drop_first().subrange(s.len() - 1 - r.len(), s.len() - 1) =~= s.subrange(
            s.len() - r.len(),
            s.len() as int,
        ));
    } else {
        assert(s.subrange(0, s.len() as int) =~= s);
    }
}

/// Stripping the trailing characters that satisfy `p` keeps a prefix
/// whose last character does not.
pub proof fn lemma_strip_end_tail(s: Seq<char>, p: spec_fn(char) -> bool)
    ensures
        strip_end(s, p).len() > 0 ==> !p(strip_end(s, p).last()),
        strip_end(s, p).len() <= s.len(),
        strip_end(s, p) == s.subrange(0, strip_end(s, p).len() as int),
    decreases s.len(),
{
    if s.len() > 0 && p(s.last()) {
        lemma_strip_end_tail(s.drop_last(), p);
        let r = strip_end(s.drop_last(), p);
        assert(s.drop_last().subrange(0, r.len() as int) =~= s.subrange(0, r.len() as int));
    } else {
        assert(s.subrange(0, s.len() as int) =~= s);
    }
}

} // verus!
