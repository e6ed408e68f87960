//! Small text routines over the characters of a string.

use vstd::prelude::*;

verus! {

/// What a list of strings holds, each string taken by its characters.
pub open spec fn views(strings: Seq<String>) -> Seq<Seq<char>> {
    Seq::new(strings.len(), |i: int| strings[i]@)
}

/// The decimal digit for `d`, where `d < 10`.
pub open spec fn digit_char(d: nat) -> char {
    "0123456789"@[d as int]
}

/// The decimal numeral of `n`, without leading zeros.
pub open spec fn decimal(n: nat) -> Seq<char>
    decreases n,
{
    if n < 10 {
        seq![digit_char(n)]
    } else {
        decimal(n / 10).push(digit_char(n % 10))
    }
}

/// The one-character string that holds the digit `d`.
fn digit_str(d: u64) -> (s: &'static str)
    requires
        d < 10,
    ensures
        s@ == seq![digit_char(d as nat)],
{
    proof {
        reveal_strlit("0123456789");
    }
    let digits: &'static str = "0123456789";
    let d_index: usize = d as usize;
    let s = digits.substring_char(d_index, d_index + 1);
    s
}

/// Writes `n` as a decimal numeral.
pub fn decimal_string(n: u64) -> (s: String)
    ensures
        s@ == decimal(n as nat),
    decreases n,
{
    if n < 10 {
        String::from_str(digit_str(n))
    } else {
        let mut s = decimal_string(n / 10);
        s.append(digit_str(n % 10));
        s
    }
}

/// Whether `pattern` stands in `text` at position `at`.
pub open spec fn occurs_at(text: Seq<char>, at: int, pattern: Seq<char>) -> bool {
    &&& 0 <= at
    &&& at + pattern.len() <= text.len()
    &&& text.subrange(at, at + pattern.len()) == pattern
}

/// The characters of `text`, one by one.
pub fn chars_of(text: &str) -> (chars: Vec<char>)
    ensures
        chars@ == text@,
{
    let mut chars: Vec<char> = Vec::new();
    for c in it: text.chars()
        invariant
            it.seq() == text@,
            chars@ == it.seq().take(it.index() as int),
    {
        chars.push(c);
    }
    chars
}

/// Compares `pattern` with the characters of `text` that start at `at`.
fn occurs(text: &Vec<char>, at: usize, pattern: &Vec<char>) -> (r: bool)
    ensures
        r == occurs_at(text@, at as int, pattern@),
{
    let n = text.len();
    let m = pattern.len();
    if at > n || m > n - at {
        return false;
    }
    let mut i: usize = 0;
    while i < m
        invariant
            n == text@.len(),
            m == pattern@.len(),
            at + m <= n,
            i <= m,
            forall|j: int| 0 <= j < i ==> text@[at + j] == pattern@[j],
        decreases m - i,
    {
        if text[at + i] != pattern[i] {
            return false;
        }
        i += 1;
    }
    assert(text@.subrange(at as int, at + m) =~= pattern@);
    true
}

/// Whether `text` begins with `prefix`.
pub fn has_prefix(text: &str, prefix: &str) -> (r: bool)
    ensures
        r == prefix@.is_prefix_of(text@),
{
    let text_chars = chars_of(text);
    let prefix_chars = chars_of(prefix);
    occurs(&text_chars, 0, &prefix_chars)
}

/// Whether `at` is the place of the first `sep` in `text`.
pub open spec fn is_first_at(text: Seq<char>, sep: char, at: int) -> bool {
    &&& 0 <= at < text.len()
    &&& text[at] == sep
    &&& forall|j: int| 0 <= j < at ==> text[j] != sep
}

/// `text` cut at its first `sep`: what stands before it and what stands after
/// it. There is no cut where `text` holds no `sep`.
pub open spec fn cut_at(text: Seq<char>, sep: char) -> Option<(Seq<char>, Seq<char>)> {
    if exists|at: int| is_first_at(text, sep, at) {
        let at = choose|at: int| is_first_at(text, sep, at);
        Some((text.take(at), text.skip(at + 1)))
    } else {
        None
    }
}

/// Cuts `text` at the first `sep`: the part before it and the part after it.
/// There is no cut where `text` holds no `sep`.
pub fn split_once<'a>(text: &'a str, sep: char) -> (r: Option<(&'a str, &'a str)>)
    ensures
        match r {
            Some((head, tail)) => {
                &&& cut_at(text@, sep) == Some((head@, tail@))
                &&& !head@.contains(sep)
                &&& text@ == head@ + seq![sep] + tail@
            },
            None => cut_at(text@, sep) is None && !text@.contains(sep),
        },
{
    let chars = chars_of(text);
    let n = chars.len();
    let mut i: usize = 0;
    while i < n
        invariant
            chars@ == text@,
            n == text@.len(),
            i <= n,
            forall|j: int| 0 <= j < i ==> text@[j] != sep,
        decreases n - i,
    {
        if chars[i] == sep {
            let head = text.substring_char(0, i);
            let tail = text.substring_char(i + 1, n);
            proof {
                assert(is_first_at(text@, sep, i as int));
            }
            return Some((head, tail));
        }
        i += 1;
    }
    None
}

/// `text` with every occurrence of `pattern` replaced by `with`, found from
/// left to right without overlap. An empty `pattern` replaces nothing.
pub open spec fn replaced(text: Seq<char>, pattern: Seq<char>, with: Seq<char>) -> Seq<char>
    decreases text.len(),
{
    if pattern.len() == 0 || text.len() < pattern.len() {
        text
    } else if occurs_at(text, 0, pattern) {
        with + replaced(text.skip(pattern.len() as int), pattern, with)
    } else {
        seq![text[0]] + replaced(text.skip(1), pattern, with)
    }
}

/// Replaces every occurrence of `pattern` in `text` by `with`.
pub fn replace_all(text: &str, pattern: &str, with: &str) -> (out: String)
    ensures
        out@ == replaced(text@, pattern@, with@),
{
    let text_chars = chars_of(text);
    let pattern_chars = chars_of(pattern);
    let n = text_chars.len();
    let m = pattern_chars.len();
    if m == 0 || n < m {
        return String::from_str(text);
    }
    let mut out = String::new();
    // Characters before `copied` are in `out`; those from `copied` up to `i`
    // hold no match and wait to be copied in one piece.
    let mut copied: usize = 0;
    let mut i: usize = 0;
    proof {
        assert(text@.skip(0) =~= text@);
    }
    while i <= n - m
        invariant
            text_chars@ == text@,
            pattern_chars@ == pattern@,
            n == text@.len(),
            m == pattern@.len(),
            0 < m <= n,
            copied <= i <= n,
            out@ + text@.subrange(copied as int, i as int) + replaced(
                text@.skip(i as int),
                pattern@,
                with@,
            ) == replaced(text@, pattern@, with@),
        decreases n - i,
    {
        let ghost rest = text@.skip(i as int);
        let hit = occurs(&text_chars, i, &pattern_chars);
        proof {
            assert(rest.subrange(0, m as int) =~= text@.subrange(i as int, i + m));
        }
        if hit {
            out.append(text.substring_char(copied, i));
            out.append(with);
            i += m;
            copied = i;
            proof {
                assert(rest.skip(m as int) =~= text@.skip(i as int));
            }
        } else {
            i += 1;
            proof {
                assert(rest.skip(1) =~= text@.skip(i as int));
            }
        }
    }
    out.append(text.substring_char(copied, n));
    out
}

} // verus!
