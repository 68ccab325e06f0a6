//! Strings as sequences of characters: trimming, searching and splitting.

use vstd::prelude::*;

verus! {

/// Trusted, not proved: `String::push` of the standard library. It appends
/// the character to the end of the string and changes nothing before it.
pub assume_specification[ String::push ](s: &mut String, c: char)
    ensures
        final(s)@ == old(s)@.push(c),
;

/// The characters that count as white space.
pub open spec fn is_space(c: char) -> bool {
    let n = c as u32;
    ||| 0x09 <= n <= 0x0D
    ||| n == 0x20
    ||| n == 0x85
    ||| n == 0xA0
    ||| n == 0x1680
    ||| 0x2000 <= n <= 0x200A
    ||| n == 0x2028
    ||| n == 0x2029
    ||| n == 0x202F
    ||| n == 0x205F
    ||| n == 0x3000
}

/// Whether `c` counts as white space.
pub fn is_whitespace(c: char) -> (b: bool)
    ensures
        b == is_space(c),
{
    let n = c as u32;
    (0x09 <= n && n <= 0x0D) || n == 0x20 || n == 0x85 || n == 0xA0 || n == 0x1680 || (0x2000 <= n
        && n <= 0x200A) || n == 0x2028 || n == 0x2029 || n == 0x202F || n == 0x205F || n == 0x3000
}

/// The first position from `i` on that holds no white space, or the length.
pub open spec fn skip_spaces(s: Seq<char>, i: int) -> int
    decreases s.len() - i,
{
    if 0 <= i < s.len() && is_space(s[i]) {
        skip_spaces(s, i + 1)
    } else {
        i
    }
}

/// The end of `s` before position `j` once the white space in front of `j`
/// is dropped, but not below `lo`.
pub open spec fn drop_spaces(s: Seq<char>, j: int, lo: int) -> int
    decreases j,
{
    if 0 <= lo < j <= s.len() && is_space(s[j - 1]) {
        drop_spaces(s, j - 1, lo)
    } else {
        j
    }
}

/// `s` without the white space at its start and at its end.
pub open spec fn trimmed(s: Seq<char>) -> Seq<char> {
    let a = skip_spaces(s, 0);
    let b = drop_spaces(s, s.len() as int, a);
    s.subrange(a, b)
}

/// The first position from `i` on that holds `c`, or the length.
pub open spec fn find_from(s: Seq<char>, c: char, i: int) -> int
    decreases s.len() - i,
{
    if 0 <= i < s.len() && s[i] != c {
        find_from(s, c, i + 1)
    } else {
        i
    }
}

/// The pieces of `s` from `start` on between the occurrences of `c`: one
/// more than there are occurrences.
pub open spec fn pieces_from(s: Seq<char>, c: char, start: int) -> Seq<Seq<char>>
    decreases s.len() - start,
{
    let p = find_from(s, c, start);
    if 0 <= start <= p < s.len() {
        seq![s.subrange(start, p)] + pieces_from(s, c, p + 1)
    } else if 0 <= start <= s.len() {
        seq![s.subrange(start, s.len() as int)]
    } else {
        Seq::empty()
    }
}

/// The pieces of `s` between the occurrences of `c`.
pub open spec fn pieces(s: Seq<char>, c: char) -> Seq<Seq<char>> {
    pieces_from(s, c, 0)
}

/// What stands before and after the first `c` of `s`, if `s` holds one.
pub open spec fn split_first(s: Seq<char>, c: char) -> Option<(Seq<char>, Seq<char>)> {
    let p = find_from(s, c, 0);
    if p < s.len() {
        Some((s.subrange(0, p), s.subrange(p + 1, s.len() as int)))
    } else {
        None
    }
}

/// Every character of `s` is white space.
pub open spec fn all_space(s: Seq<char>) -> bool {
    forall|i: int| 0 <= i < s.len() ==> is_space(#[trigger] s[i])
}

/// `find_from` stays within the string and finds the first occurrence.
pub proof fn find_from_is_first(s: Seq<char>, c: char, i: int)
    requires
        0 <= i <= s.len(),
    ensures
        i <= find_from(s, c, i) <= s.len(),
        find_from(s, c, i) < s.len() ==> s[find_from(s, c, i)] == c,
        forall|k: int| i <= k < find_from(s, c, i) ==> s[k] != c,
    decreases s.len() - i,
{
    if i < s.len() && s[i] != c {
        find_from_is_first(s, c, i + 1);
    }
}

/// `skip_spaces` stays within the string and stops at the first character
/// that is no white space.
pub proof fn skip_spaces_is_first(s: Seq<char>, i: int)
    requires
        0 <= i <= s.len(),
    ensures
        i <= skip_spaces(s, i) <= s.len(),
        skip_spaces(s, i) < s.len() ==> !is_space(s[skip_spaces(s, i)]),
        forall|k: int| i <= k < skip_spaces(s, i) ==> is_space(s[k]),
    decreases s.len() - i,
{
    if i < s.len() && is_space(s[i]) {
        skip_spaces_is_first(s, i + 1);
    }
}

/// `drop_spaces` stays between `lo` and `j` and stops behind the last
/// character that is no white space.
pub proof fn drop_spaces_is_last(s: Seq<char>, j: int, lo: int)
    requires
        0 <= lo <= j <= s.len(),
    ensures
        lo <= drop_spaces(s, j, lo) <= j,
        drop_spaces(s, j, lo) > lo ==> !is_space(s[drop_spaces(s, j, lo) - 1]),
        forall|k: int| drop_spaces(s, j, lo) <= k < j ==> is_space(s[k]),
    decreases j,
{
    if lo < j && is_space(s[j - 1]) {
        drop_spaces_is_last(s, j - 1, lo);
    }
}

/// The characters of `s`.
pub fn chars_of(s: &str) -> (v: Vec<char>)
    ensures
        v@ == s@,
{
    let n = s.unicode_len();
    let mut v: Vec<char> = Vec::new();
    let mut i: usize = 0;
    while i < n
        invariant
            i <= n,
            n == s@.len(),
            v@ == s@.subrange(0, i as int),
        decreases n - i,
    {
        v.push(s.get_char(i));
        assert(v@ =~= s@.subrange(0, i + 1));
        i = i + 1;
    }
    assert(v@ =~= s@);
    v
}

/// The string made of the characters of `v` from `from` up to `to`.
pub fn string_of_range(v: &Vec<char>, from: usize, to: usize) -> (s: String)
    requires
        from <= to <= v@.len(),
    ensures
        s@ == v@.subrange(from as int, to as int),
{
    let mut s = String::new();
    let mut i: usize = from;
    while i < to
        invariant
            from <= i <= to <= v@.len(),
            s@ == v@.subrange(from as int, i as int),
        decreases to - i,
    {
        s.push(v[i]);
        assert(s@ =~= v@.subrange(from as int, i + 1));
        i = i + 1;
    }
    s
}

/// The string made of the characters of `v`.
pub fn string_of(v: &Vec<char>) -> (s: String)
    ensures
        s@ == v@,
{
    let s = string_of_range(v, 0, v.len());
    assert(v@.subrange(0, v@.len() as int) =~= v@);
    s
}

/// A copy of the characters of `v` from `from` up to `to`.
pub fn copy_range(v: &Vec<char>, from: usize, to: usize) -> (r: Vec<char>)
    requires
        from <= to <= v@.len(),
    ensures
        r@ == v@.subrange(from as int, to as int),
{
    let mut r: Vec<char> = Vec::new();
    let mut i: usize = from;
    while i < to
        invariant
            from <= i <= to <= v@.len(),
            r@ == v@.subrange(from as int, i as int),
        decreases to - i,
    {
        r.push(v[i]);
        assert(r@ =~= v@.subrange(from as int, i + 1));
        i = i + 1;
    }
    r
}

/// The first position from `from` on that holds `c`, or the length.
pub fn find(v: &Vec<char>, c: char, from: usize) -> (p: usize)
    requires
        from <= v@.len(),
    ensures
        p == find_from(v@, c, from as int),
        from <= p <= v@.len(),
{
    let mut i: usize = from;
    while i < v.len() && v[i] != c
        invariant
            from <= i <= v@.len(),
            find_from(v@, c, i as int) == find_from(v@, c, from as int),
        decreases v@.len() - i,
    {
        i = i + 1;
    }
    i
}

/// `v` without the white space at its start and at its end.
pub fn trim(v: &Vec<char>) -> (r: Vec<char>)
    ensures
        r@ == trimmed(v@),
{
    let mut a: usize = 0;
    while a < v.len() && is_whitespace(v[a])
        invariant
            a <= v@.len(),
            skip_spaces(v@, a as int) == skip_spaces(v@, 0),
        decreases v@.len() - a,
    {
        a = a + 1;
    }
    let mut b: usize = v.len();
    while b > a && is_whitespace(v[b - 1])
        invariant
            a <= b <= v@.len(),
            drop_spaces(v@, b as int, a as int) == drop_spaces(v@, v@.len() as int, a as int),
        decreases b,
    {
        b = b - 1;
    }
    copy_range(v, a, b)
}

/// The pieces of `v` between the occurrences of `c`.
pub fn split(v: &Vec<char>, c: char) -> (out: Vec<Vec<char>>)
    ensures
        out@.len() == pieces(v@, c).len(),
        forall|i: int| 0 <= i < out@.len() ==> (#[trigger] out@[i])@ == pieces(v@, c)[i],
{
    let mut out: Vec<Vec<char>> = Vec::new();
    let mut start: usize = 0;
    let ghost mut done: Seq<Seq<char>> = Seq::empty();
    loop
        invariant
            start <= v@.len(),
            out@.len() == done.len(),
            forall|i: int| 0 <= i < out@.len() ==> (#[trigger] out@[i])@ == done[i],
            done + pieces_from(v@, c, start as int) == pieces(v@, c),
        decreases v@.len() - start,
    {
        let p = find(v, c, start);
        let piece = copy_range(v, start, p);
        proof {
            done = done.push(piece@);
        }
        out.push(piece);
        if p >= v.len() {
            proof {
                assert(done =~= pieces(v@, c));
            }
            return out;
        }
        proof {
            assert(done + pieces_from(v@, c, p + 1) =~= pieces(v@, c));
        }
        start = p + 1;
    }
}

/// What stands before and after the first `c` of `v`, if `v` holds one.
pub fn split_once(v: &Vec<char>, c: char) -> (r: Option<(Vec<char>, Vec<char>)>)
    ensures
        match r {
            Some((a, b)) => split_first(v@, c) == Some((a@, b@)),
            None => split_first(v@, c).is_none(),
        },
{
    let p = find(v, c, 0);
    if p < v.len() {
        Some((copy_range(v, 0, p), copy_range(v, p + 1, v.len())))
    } else {
        None
    }
}

/// Whether `a` and `b` hold the same characters.
pub fn same(a: &Vec<char>, b: &Vec<char>) -> (r: bool)
    ensures
        r == (a@ == b@),
{
    if a.len() != b.len() {
        return false;
    }
    let mut i: usize = 0;
    while i < a.len()
        invariant
            i <= a@.len(),
            a@.len() == b@.len(),
            forall|j: int| 0 <= j < i ==> a@[j] == b@[j],
        decreases a@.len() - i,
    {
        if a[i] != b[i] {
            return false;
        }
        i = i + 1;
    }
    assert(a@ =~= b@);
    true
}

/// Whether every character of `v` is white space.
pub fn is_all_ws(v: &Vec<char>) -> (r: bool)
    ensures
        r == all_space(v@),
{
    let mut i: usize = 0;
    while i < v.len()
        invariant
            i <= v@.len(),
            forall|j: int| 0 <= j < i ==> is_space(#[trigger] v@[j]),
        decreases v@.len() - i,
    {
        if !is_whitespace(v[i]) {
            return false;
        }
        i = i + 1;
    }
    true
}

/// Appends the characters of `v` to `out`.
pub fn push_chars(out: &mut String, v: &Vec<char>)
    ensures
        final(out)@ == old(out)@ + v@,
{
    let mut i: usize = 0;
    assert(out@ =~= old(out)@ + v@.subrange(0, 0));
    while i < v.len()
        invariant
            i <= v@.len(),
            out@ == old(out)@ + v@.subrange(0, i as int),
        decreases v@.len() - i,
    {
        out.push(v[i]);
        assert(out@ =~= old(out)@ + v@.subrange(0, i + 1));
        i = i + 1;
    }
    assert(v@.subrange(0, v@.len() as int) =~= v@);
}

/// `word` stands in `s` at `i`.
pub open spec fn stands_at(s: Seq<char>, i: int, word: Seq<char>) -> bool {
    0 <= i && i + word.len() <= s.len() && s.subrange(i, i + word.len()) == word
}

/// The first position from `i` on at which `word` stands, or the length.
pub open spec fn word_from(s: Seq<char>, word: Seq<char>, i: int) -> int
    decreases s.len() - i,
{
    if 0 <= i < s.len() && !stands_at(s, i, word) {
        word_from(s, word, i + 1)
    } else {
        i
    }
}

/// Whether `word` stands in `v` at `i`.
pub fn starts_at(v: &Vec<char>, i: usize, word: &Vec<char>) -> (b: bool)
    requires
        i <= v@.len(),
    ensures
        b == stands_at(v@, i as int, word@),
{
    let n = word.len();
    let len = v.len();
    if n > len - i {
        return false;
    }
    let mut k: usize = 0;
    while k < n
        invariant
            k <= n,
            n == word@.len(),
            len == v@.len(),
            i + n <= len,
            forall|j: int| 0 <= j < k ==> v@[i + j] == word@[j],
        decreases n - k,
    {
        if v[i + k] != word[k] {
            assert(v@.subrange(i as int, i + n)[k as int] != word@[k as int]);
            return false;
        }
        k = k + 1;
    }
    assert(v@.subrange(i as int, i + n) =~= word@);
    true
}

/// The first position from `i` on at which `word` stands, or the length.
pub fn find_word(v: &Vec<char>, word: &Vec<char>, i: usize) -> (p: usize)
    requires
        i <= v@.len(),
    ensures
        p == word_from(v@, word@, i as int),
        i <= p <= v@.len(),
{
    let mut p: usize = i;
    while p < v.len() && !starts_at(v, p, word)
        invariant
            i <= p <= v@.len(),
            word_from(v@, word@, p as int) == word_from(v@, word@, i as int),
        decreases v@.len() - p,
    {
        p = p + 1;
    }
    p
}

/// A string has at least one piece.
pub proof fn pieces_are_some(s: Seq<char>, c: char)
    ensures
        pieces(s, c).len() > 0,
{
    find_from_is_first(s, c, 0);
}

} // verus!
