//! Character-sequence helpers: prefix and suffix tests, searching, and
//! literal comparison over `Vec<char>` views of strings.

use vstd::prelude::*;
use vstd::string::*;

verus! {

broadcast use vstd::string::group_string_axioms;

/// `p` is a prefix of `s`.
pub open spec fn has_prefix(s: Seq<char>, p: Seq<char>) -> bool {
    p.len() <= s.len() && s.take(p.len() as int) == p
}

/// `p` is a suffix of `s`.
pub open spec fn has_suffix(s: Seq<char>, p: Seq<char>) -> bool {
    p.len() <= s.len() && s.skip(s.len() - p.len()) == p
}

/// The first index at or after `i` holding `a` or `b`.
pub open spec fn first_of_from(s: Seq<char>, a: char, b: char, i: int) -> Option<int>
    decreases s.len() - i,
{
    if i < 0 || i >= s.len() {
        None
    } else if s[i] == a || s[i] == b {
        Some(i)
    } else {
        first_of_from(s, a, b, i + 1)
    }
}

/// The first index of `s` holding `a` or `b` (as `str::find` with a
/// character set).
pub open spec fn first_of(s: Seq<char>, a: char, b: char) -> Option<int> {
    first_of_from(s, a, b, 0)
}

/// The characters of a string slice.
pub fn str_chars(s: &str) -> (v: Vec<char>)
    ensures
        v@ == s@,
{
    let mut v: Vec<char> = Vec::new();
    for c in it: s.chars()
        invariant
            v@.len() == it.index(),
            forall|k: int| 0 <= k < v@.len() ==> v@[k] == it.seq()[k],
            it.seq() == s@,
    {
        v.push(c);
    }
    assert(v@ =~= s@);
    v
}

/// A `String` holding exactly the characters of `v`.
pub fn string_from_chars(v: &[char]) -> (r: String)
    ensures
        r@ == v@,
{
    let mut r = String::new();
    push_chars(&mut r, v);
    r
}

/// Appends the characters of `v`.
pub fn push_chars(s: &mut String, v: &[char])
    ensures
        final(s)@ == old(s)@ + v@,
{
    let ghost start = s@;
    let mut i: usize = 0;
    while i < v.len()
        invariant
            i <= v@.len(),
            s@ == start + v@.take(i as int),
        decreases v.len() - i,
    {
        crate::text::push_char(s, v[i]);
        i += 1;
        assert(s@ =~= start + v@.take(i as int));
    }
    assert(v@.take(v@.len() as int) =~= v@);
}

/// The characters `v[from..to]`.
pub fn chars_range(v: &[char], from: usize, to: usize) -> (r: Vec<char>)
    requires
        from <= to <= v@.len(),
    ensures
        r@ == v@.subrange(from as int, to as int),
{
    let mut r: Vec<char> = Vec::new();
    let mut i = from;
    while i < to
        invariant
            from <= i <= to <= v@.len(),
            r@ == v@.subrange(from as int, i as int),
        decreases to - i,
    {
        r.push(v[i]);
        i += 1;
        assert(r@ =~= v@.subrange(from as int, i as int));
    }
    r
}

/// `p` is a prefix of `v`.
pub fn starts_with(v: &[char], p: &[char]) -> (r: bool)
    ensures
        r == has_prefix(v@, p@),
{
    if p.len() > v.len() {
        return false;
    }
    let mut i: usize = 0;
    while i < p.len()
        invariant
            p@.len() <= v@.len(),
            i <= p@.len(),
            forall|k: int| 0 <= k < i ==> v@[k] == p@[k],
        decreases p.len() - i,
    {
        if v[i] != p[i] {
            assert(v@.take(p@.len() as int)[i as int] != p@[i as int]);
            return false;
        }
        i += 1;
    }
    assert(v@.take(p@.len() as int) =~= p@);
    true
}

/// `p` is a suffix of `v`.
pub fn ends_with(v: &[char], p: &[char]) -> (r: bool)
    ensures
        r == has_suffix(v@, p@),
{
    if p.len() > v.len() {
        return false;
    }
    let off = v.len() - p.len();
    let mut i: usize = 0;
    while i < p.len()
        invariant
            p@.len() <= v@.len(),
            off + p@.len() == v@.len(),
            v@.len() == v.len(),
            p@.len() == p.len(),
            i <= p@.len(),
            forall|k: int| 0 <= k < i ==> v@[off + k] == p@[k],
        decreases p.len() - i,
    {
        if v[off + i] != p[i] {
            assert(v@.skip(off as int)[i as int] != p@[i as int]);
            return false;
        }
        i += 1;
    }
    assert(v@.skip(off as int) =~= p@);
    true
}

/// `v` holds exactly the characters of `p`.
pub fn chars_eq(v: &[char], p: &[char]) -> (r: bool)
    ensures
        r == (v@ == p@),
{
    if v.len() != p.len() {
        return false;
    }
    let b = starts_with(v, p);
    proof {
        assert(v@.take(p@.len() as int) =~= v@);
    }
    b
}

/// `v` starts with the characters of the literal `lit`.
pub fn starts_with_lit(v: &[char], lit: &str) -> (r: bool)
    ensures
        r == has_prefix(v@, lit@),
{
    let p = str_chars(lit);
    starts_with(v, p.as_slice())
}

/// `v` ends with the characters of the literal `lit`.
pub fn ends_with_lit(v: &[char], lit: &str) -> (r: bool)
    ensures
        r == has_suffix(v@, lit@),
{
    let p = str_chars(lit);
    ends_with(v, p.as_slice())
}

/// `v` holds exactly the characters of the literal `lit`.
pub fn eq_lit(v: &[char], lit: &str) -> (r: bool)
    ensures
        r == (v@ == lit@),
{
    let p = str_chars(lit);
    chars_eq(v, p.as_slice())
}

/// `v` without the prefix `lit`, when `v` starts with it.
pub fn strip_prefix_lit(v: &[char], lit: &str) -> (r: Option<Vec<char>>)
    ensures
        r is Some == has_prefix(v@, lit@),
        r matches Some(t) ==> t@ == v@.skip(lit@.len() as int),
{
    let p = str_chars(lit);
    if starts_with(v, p.as_slice()) {
        Some(chars_range(v, p.len(), v.len()))
    } else {
        None
    }
}

/// `v` without the suffix `lit`, when `v` ends with it.
pub fn strip_suffix_lit(v: &[char], lit: &str) -> (r: Option<Vec<char>>)
    ensures
        r is Some == has_suffix(v@, lit@),
        r matches Some(t) ==> t@ == v@.take(v@.len() - lit@.len()),
{
    let p = str_chars(lit);
    if ends_with(v, p.as_slice()) {
        let t = chars_range(v, 0, v.len() - p.len());
        assert(t@ =~= v@.take(v@.len() - lit@.len()));
        Some(t)
    } else {
        None
    }
}

/// The first index of `v` holding `a` or `b`.
pub fn find_either(v: &[char], a: char, b: char) -> (r: Option<usize>)
    ensures
        r matches Some(i) ==> first_of(v@, a, b) == Some(i as int) && i < v@.len(),
        r is None ==> first_of(v@, a, b) is None,
{
    let mut i: usize = 0;
    while i < v.len()
        invariant
            i <= v@.len(),
            first_of(v@, a, b) == first_of_from(v@, a, b, i as int),
        decreases v.len() - i,
    {
        if v[i] == a || v[i] == b {
            return Some(i);
        }
        i += 1;
    }
    None
}

} // verus!

verus! {

/// A found index is in range and holds `a` or `b`, and none before it does.
pub proof fn lemma_first_of_from(s: Seq<char>, a: char, b: char, i: int)
    requires
        0 <= i,
    ensures
        first_of_from(s, a, b, i) matches Some(j) ==> i <= j < s.len() && (s[j] == a || s[j] == b)
            && forall|k: int| i <= k < j ==> s[k] != a && s[k] != b,
        first_of_from(s, a, b, i) is None ==> forall|k: int| i <= k < s.len() ==> s[k] != a && s[k]
            != b,
    decreases s.len() - i,
{
    if i < s.len() && !(s[i] == a || s[i] == b) {
        lemma_first_of_from(s, a, b, i + 1);
    }
}

/// `l` without one trailing carriage return.
pub open spec fn strip_cr(l: Seq<char>) -> Seq<char> {
    if l.len() > 0 && l.last() == '\r' { l.drop_last() } else { l }
}

/// The lines of a text as `str::lines` yields them: split after each `\n`,
/// the `\n` and a `\r` right before it removed; a last line without `\n`
/// is kept as it is, and there is no empty line after a final `\n`.
pub open spec fn text_lines(s: Seq<char>) -> Seq<Seq<char>>
    decreases s.len(),
{
    if s.len() == 0 {
        Seq::empty()
    } else {
        match first_of(s, '\n', '\n') {
            Some(i) => {
                if 0 <= i < s.len() {
                    seq![strip_cr(s.take(i))] + text_lines(s.skip(i + 1))
                } else {
                    Seq::empty()
                }
            },
            None => seq![s],
        }
    }
}

/// The lines of `s`, as `str::lines` splits them.
pub fn split_lines(s: &[char]) -> (r: Vec<Vec<char>>)
    ensures
        r@.map_values(|l: Vec<char>| l@) == text_lines(s@),
{
    let mut out: Vec<Vec<char>> = Vec::new();
    let mut start: usize = 0;
    let n = s.len();
    assert(s@.skip(0) =~= s@);
    assert(out@.map_values(|l: Vec<char>| l@) =~= Seq::<Seq<char>>::empty());
    while start < n
        invariant
            n == s@.len(),
            start <= n,
            out@.map_values(|l: Vec<char>| l@) + text_lines(s@.skip(start as int)) == text_lines(s@),
        decreases n - start,
    {
        let ghost rest = s@.skip(start as int);
        let mut end = start;
        while end < n && s[end] != '\n'
            invariant
                n == s@.len(),
                start <= end <= n,
                forall|k: int| start <= k < end ==> s@[k] != '\n',
            decreases n - end,
        {
            end += 1;
        }
        let mut line_end = end;
        if line_end > start && s[line_end - 1] == '\r' && end < n {
            line_end = line_end - 1;
        }
        let line = chars_range(s, start, line_end);
        proof {
            lemma_first_of_from(rest, '\n', '\n', 0);
            let seg = s@.subrange(start as int, end as int);
            if end < n {
                assert(rest[end - start] == '\n');
                if first_of(rest, '\n', '\n') != Some((end - start) as int) {
                    let j = first_of(rest, '\n', '\n')->0;
                    assert(rest[j] == '\n');
                    assert(s@[start + j] == '\n');
                }
                assert(rest.take((end - start) as int) =~= seg);
                assert(rest.skip((end - start) + 1) =~= s@.skip(end + 1));
                assert(line@ =~= strip_cr(seg));
            } else {
                assert forall|k: int| 0 <= k < rest.len() implies rest[k] != '\n' by {
                    assert(rest[k] == s@[start + k]);
                }
                assert(first_of(rest, '\n', '\n') is None);
                assert(line@ =~= rest);
            }
        }
        let ghost before = out@.map_values(|l: Vec<char>| l@);
        out.push(line);
        assert(out@.map_values(|l: Vec<char>| l@) =~= before.push(line@));
        if end < n {
            start = end + 1;
        } else {
            start = n;
        }
        assert(out@.map_values(|l: Vec<char>| l@) + text_lines(s@.skip(start as int)) =~= text_lines(s@));
    }
    assert(s@.skip(n as int) =~= Seq::<char>::empty());
    assert(out@.map_values(|l: Vec<char>| l@) =~= text_lines(s@));
    out
}

} // verus!
