//! Character-level string helpers with their meaning stated over `Seq<char>`.

use vstd::prelude::*;

verus! {

/// ASCII lower-casing of one character; other characters are unchanged.
pub open spec fn lower_char(c: char) -> char {
    if 'A' <= c && c <= 'Z' {
        ((c as u32) + 32) as char
    } else {
        c
    }
}

/// ASCII lower-casing of a whole string (what `to_ascii_lowercase` does).
pub open spec fn lower(s: Seq<char>) -> Seq<char> {
    s.map_values(|c: char| lower_char(c))
}

pub fn lower_char_exec(c: char) -> (r: char)
    ensures
        r == lower_char(c),
{
    if 'A' <= c && c <= 'Z' {
        ((c as u8) + 32) as char
    } else {
        c
    }
}

/// The characters of a string slice, in order.
pub fn chars_of(s: &str) -> (v: Vec<char>)
    ensures
        v@ == s@,
{
    let n = s.unicode_len();
    let mut v: Vec<char> = Vec::new();
    let mut i: usize = 0;
    while i < n
        invariant
            n == s@.len(),
            i <= n,
            v@ == s@.subrange(0, i as int),
        decreases n - i,
    {
        v.push(s.get_char(i));
        i = i + 1;
    }
    v
}


/// ASCII lower-casing of a character sequence.
pub fn lower_chars(s: &[char]) -> (v: Vec<char>)
    ensures
        v@ == lower(s@),
{
    let mut v: Vec<char> = Vec::new();
    let mut i: usize = 0;
    while i < s.len()
        invariant
            i <= s@.len(),
            v@ == lower(s@.subrange(0, i as int)),
        decreases s@.len() - i,
    {
        v.push(lower_char_exec(s[i]));
        proof {
            assert(lower(s@.subrange(0, i + 1)) =~= lower(s@.subrange(0, i as int)).push(lower_char(s@[i as int])));
        }
        i = i + 1;
    }
    proof {
        assert(s@.subrange(0, s@.len() as int) =~= s@);
    }
    v
}

/// The ASCII-lower-cased characters of a string slice.
pub fn lower_str(s: &str) -> (v: Vec<char>)
    ensures
        v@ == lower(s@),
{
    let cs = chars_of(s);
    lower_chars(cs.as_slice())
}

/// `p` occurs in `s` starting at index `i`.
pub open spec fn occurs_at(s: Seq<char>, p: Seq<char>, i: int) -> bool {
    0 <= i && i + p.len() <= s.len() && s.subrange(i, i + p.len()) == p
}

/// `p` is a substring of `s` (what `str::contains` with a string pattern tests).
pub open spec fn has_sub(s: Seq<char>, p: Seq<char>) -> bool {
    exists|i: int| occurs_at(s, p, i)
}

/// `s` begins with `p`.
pub open spec fn has_prefix(s: Seq<char>, p: Seq<char>) -> bool {
    p.len() <= s.len() && s.subrange(0, p.len() as int) == p
}

/// `s` ends with `p`.
pub open spec fn has_suffix(s: Seq<char>, p: Seq<char>) -> bool {
    p.len() <= s.len() && s.subrange(s.len() - p.len(), s.len() as int) == p
}

fn occurs_at_exec(s: &[char], p: &[char], i: usize) -> (r: bool)
    requires
        i + p@.len() <= s@.len(),
    ensures
        r == occurs_at(s@, p@, i as int),
{
    let n = s.len();
    let mut k: usize = 0;
    while k < p.len()
        invariant
            n == s@.len(),
            i + p@.len() <= s@.len(),
            k <= p@.len(),
            forall|j: int| 0 <= j < k ==> s@[i + j] == p@[j],
        decreases p@.len() - k,
    {
        if s[i + k] != p[k] {
            proof {
                assert(s@.subrange(i as int, i + p@.len())[k as int] != p@[k as int]);
            }
            return false;
        }
        k = k + 1;
    }
    proof {
        assert(s@.subrange(i as int, i + p@.len()) =~= p@);
    }
    true
}

/// Substring test on character sequences.
pub fn contains_chars(s: &[char], p: &[char]) -> (r: bool)
    ensures
        r == has_sub(s@, p@),
{
    if p.len() > s.len() {
        proof {
            assert forall|i: int| !occurs_at(s@, p@, i) by {}
        }
        return false;
    }
    if p.len() == 0 {
        proof {
            assert(s@.subrange(0, 0) =~= p@);
            assert(occurs_at(s@, p@, 0));
        }
        return true;
    }
    let n = s.len();
    let last = n - p.len();
    let mut i: usize = 0;
    while i <= last
        invariant
            n == s@.len(),
            p@.len() >= 1,
            last == s@.len() - p@.len(),
            i <= last + 1,
            forall|j: int| 0 <= j < i ==> !occurs_at(s@, p@, j),
        decreases last + 1 - i,
    {
        if occurs_at_exec(s, p, i) {
            return true;
        }
        i = i + 1;
    }
    proof {
        assert forall|j: int| !occurs_at(s@, p@, j) by {
            if 0 <= j < i {
            }
        }
    }
    false
}

/// Substring test of a character sequence against a string slice.
pub fn contains_str(s: &[char], p: &str) -> (r: bool)
    ensures
        r == has_sub(s@, p@),
{
    let pc = chars_of(p);
    contains_chars(s, pc.as_slice())
}

/// Prefix test of a character sequence against a string slice.
pub fn starts_with_str(s: &[char], p: &str) -> (r: bool)
    ensures
        r == has_prefix(s@, p@),
{
    let pc = chars_of(p);
    if pc.len() > s.len() {
        return false;
    }
    let r = occurs_at_exec(s, pc.as_slice(), 0);
    r
}

/// Suffix test of a character sequence against a string slice.
pub fn ends_with_str(s: &[char], p: &str) -> (r: bool)
    ensures
        r == has_suffix(s@, p@),
{
    let pc = chars_of(p);
    if pc.len() > s.len() {
        return false;
    }
    let r = occurs_at_exec(s, pc.as_slice(), s.len() - pc.len());
    r
}

/// Equality of two character sequences.
pub fn chars_eq(a: &[char], b: &[char]) -> (r: bool)
    ensures
        r == (a@ == b@),
{
    if a.len() != b.len() {
        return false;
    }
    let r = occurs_at_exec(a, b, 0);
    proof {
        assert(a@.subrange(0, b@.len() as int) =~= a@);
    }
    r
}

/// Equality of a character sequence and a string slice.
pub fn chars_eq_str(a: &[char], b: &str) -> (r: bool)
    ensures
        r == (a@ == b@),
{
    let bc = chars_of(b);
    chars_eq(a, bc.as_slice())
}


/// The Unicode `White_Space` characters, which `char::is_whitespace` and
/// `str::trim` treat as whitespace.
pub open spec fn is_space(c: char) -> bool {
    ||| ('\t' <= c && c <= '\r')
    ||| c == ' '
    ||| c == '\u{85}'
    ||| c == '\u{a0}'
    ||| c == '\u{1680}'
    ||| ('\u{2000}' <= c && c <= '\u{200a}')
    ||| c == '\u{2028}'
    ||| c == '\u{2029}'
    ||| c == '\u{202f}'
    ||| c == '\u{205f}'
    ||| c == '\u{3000}'
}

pub fn is_space_exec(c: char) -> (r: bool)
    ensures
        r == is_space(c),
{
    ('\t' <= c && c <= '\r') || c == ' ' || c == '\u{85}' || c == '\u{a0}' || c == '\u{1680}'
        || ('\u{2000}' <= c && c <= '\u{200a}') || c == '\u{2028}' || c == '\u{2029}' || c
        == '\u{202f}' || c == '\u{205f}' || c == '\u{3000}'
}

/// `s` without its leading whitespace.
pub open spec fn trim_start(s: Seq<char>) -> Seq<char>
    decreases s.len(),
{
    if s.len() > 0 && is_space(s[0]) {
        trim_start(s.drop_first())
    } else {
        s
    }
}

/// `s` without its trailing whitespace.
pub open spec fn trim_end(s: Seq<char>) -> Seq<char>
    decreases s.len(),
{
    if s.len() > 0 && is_space(s.last()) {
        trim_end(s.drop_last())
    } else {
        s
    }
}

/// `s` without leading and trailing whitespace (what `str::trim` returns).
pub open spec fn trim(s: Seq<char>) -> Seq<char> {
    trim_end(trim_start(s))
}

/// Removes leading and trailing whitespace.
pub fn trim_str(s: &str) -> (r: &str)
    ensures
        r@ == trim(s@),
{
    let n = s.unicode_len();
    let mut i: usize = 0;
    proof {
        assert(s@.subrange(0, n as int) =~= s@);
    }
    while i < n && is_space_exec(s.get_char(i))
        invariant
            n == s@.len(),
            i <= n,
            trim_start(s@.subrange(i as int, n as int)) == trim_start(s@),
        decreases n - i,
    {
        proof {
            assert(s@.subrange(i as int, n as int).drop_first() =~= s@.subrange(i + 1, n as int));
        }
        i = i + 1;
    }
    proof {
        if i == n {
            assert(s@.subrange(i as int, n as int).len() == 0);
        }
    }
    let mut j: usize = n;
    while j > i && is_space_exec(s.get_char(j - 1))
        invariant
            n == s@.len(),
            i <= j <= n,
            trim_end(s@.subrange(i as int, j as int)) == trim(s@),
        decreases j,
    {
        proof {
            assert(s@.subrange(i as int, j as int).drop_last() =~= s@.subrange(i as int, j - 1));
        }
        j = j - 1;
    }
    s.substring_char(i, j)
}

/// Strict lexicographic order on character sequences, comparing characters
/// by code point (the order `Ord for str` gives, since UTF-8 preserves it).
pub open spec fn chars_lt(a: Seq<char>, b: Seq<char>) -> bool
    decreases a.len(),
{
    if a.len() == 0 {
        b.len() > 0
    } else if b.len() == 0 {
        false
    } else if a[0] != b[0] {
        a[0] < b[0]
    } else {
        chars_lt(a.drop_first(), b.drop_first())
    }
}

/// No sequence is lexicographically below itself.
pub proof fn lemma_chars_lt_irreflexive(a: Seq<char>)
    ensures
        !chars_lt(a, a),
    decreases a.len(),
{
    if a.len() > 0 {
        lemma_chars_lt_irreflexive(a.drop_first());
    }
}

/// Of two different sequences exactly one is lexicographically below the other.
pub proof fn lemma_chars_lt_total(a: Seq<char>, b: Seq<char>)
    ensures
        a != b ==> chars_lt(a, b) || chars_lt(b, a),
        !(chars_lt(a, b) && chars_lt(b, a)),
    decreases a.len(),
{
    if a.len() > 0 && b.len() > 0 {
        lemma_chars_lt_total(a.drop_first(), b.drop_first());
        if a[0] == b[0] && a.drop_first() == b.drop_first() {
            assert(a =~= seq![a[0]] + a.drop_first());
            assert(b =~= seq![b[0]] + b.drop_first());
        }
    } else if a.len() == 0 && b.len() == 0 {
        assert(a =~= b);
    }
}

/// The lexicographic order is transitive.
pub proof fn lemma_chars_lt_transitive(a: Seq<char>, b: Seq<char>, c: Seq<char>)
    requires
        chars_lt(a, b),
        chars_lt(b, c),
    ensures
        chars_lt(a, c),
    decreases a.len(),
{
    if a.len() > 0 && b.len() > 0 && c.len() > 0 {
        if a[0] == b[0] && b[0] == c[0] {
            lemma_chars_lt_transitive(a.drop_first(), b.drop_first(), c.drop_first());
        }
    }
}

/// Lexicographic comparison of character sequences.
pub fn chars_less(a: &[char], b: &[char]) -> (r: bool)
    ensures
        r == chars_lt(a@, b@),
{
    let mut i: usize = 0;
    proof {
        assert(a@.subrange(0, a@.len() as int) =~= a@);
        assert(b@.subrange(0, b@.len() as int) =~= b@);
    }
    while i < a.len() && i < b.len() && a[i] == b[i]
        invariant
            i <= a@.len(),
            i <= b@.len(),
            chars_lt(a@.subrange(i as int, a@.len() as int), b@.subrange(i as int, b@.len() as int))
                == chars_lt(a@, b@),
        decreases a@.len() - i,
    {
        proof {
            assert(a@.subrange(i as int, a@.len() as int).drop_first() =~= a@.subrange(
                i + 1,
                a@.len() as int,
            ));
            assert(b@.subrange(i as int, b@.len() as int).drop_first() =~= b@.subrange(
                i + 1,
                b@.len() as int,
            ));
        }
        i = i + 1;
    }
    if i == a.len() {
        i < b.len()
    } else if i == b.len() {
        false
    } else {
        a[i] < b[i]
    }
}


/// The pieces of `s` between occurrences of `sep` (what `str::split` with a
/// character yields; there is always at least one piece).
pub open spec fn split_on(s: Seq<char>, sep: char) -> Seq<Seq<char>>
    decreases s.len(),
{
    if s.len() == 0 {
        seq![Seq::<char>::empty()]
    } else {
        let init = split_on(s.drop_last(), sep);
        if s.last() == sep {
            init.push(Seq::<char>::empty())
        } else {
            init.update(init.len() - 1, init.last().push(s.last()))
        }
    }
}

/// Splitting always yields at least one piece.
pub proof fn lemma_split_on_len(s: Seq<char>, sep: char)
    ensures
        split_on(s, sep).len() >= 1,
    decreases s.len(),
{
    if s.len() > 0 {
        lemma_split_on_len(s.drop_last(), sep);
    }
}

/// The pieces of `s`, given as index ranges into `s`.
pub open spec fn range_pieces(s: Seq<char>, ranges: Seq<(usize, usize)>) -> Seq<Seq<char>> {
    ranges.map_values(|r: (usize, usize)| s.subrange(r.0 as int, r.1 as int))
}

/// All ranges lie within `s`.
pub open spec fn ranges_within(s: Seq<char>, ranges: Seq<(usize, usize)>) -> bool {
    forall|k: int| 0 <= k < ranges.len() ==> (#[trigger] ranges[k]).0 <= ranges[k].1 <= s.len()
}

/// Splits `s` at every `sep`, returning the index range of each piece.
pub fn split_ranges(s: &[char], sep: char) -> (r: Vec<(usize, usize)>)
    ensures
        ranges_within(s@, r@),
        range_pieces(s@, r@) == split_on(s@, sep),
{
    let n = s.len();
    let mut done: Vec<(usize, usize)> = Vec::new();
    let mut cur: usize = 0;
    let mut i: usize = 0;
    proof {
        assert(s@.subrange(0, 0) =~= Seq::<char>::empty());
        assert(range_pieces(s@, done@) =~= split_on(s@.subrange(0, 0), sep).drop_last());
    }
    while i < n
        invariant
            n == s@.len(),
            cur <= i <= n,
            ranges_within(s@, done@),
            forall|k: int| 0 <= k < done@.len() ==> done@[k].1 <= cur,
            range_pieces(s@, done@) == split_on(s@.subrange(0, i as int), sep).drop_last(),
            split_on(s@.subrange(0, i as int), sep).last() == s@.subrange(cur as int, i as int),
            split_on(s@.subrange(0, i as int), sep).len() >= 1,
        decreases n - i,
    {
        let ghost t0 = s@.subrange(0, i as int);
        let ghost t1 = s@.subrange(0, i + 1);
        let ghost before = done@;
        proof {
            assert(t1.drop_last() =~= t0);
            assert(t1.last() == s@[i as int]);
            lemma_split_on_len(t1, sep);
        }
        if s[i] == sep {
            done.push((cur, i));
            proof {
                assert(split_on(t1, sep) == split_on(t0, sep).push(Seq::<char>::empty()));
                assert(range_pieces(s@, done@) =~= range_pieces(s@, before).push(s@.subrange(cur as int, i as int)));
                assert(split_on(t0, sep) =~= split_on(t0, sep).drop_last().push(split_on(t0, sep).last()));
                assert(split_on(t1, sep).drop_last() =~= split_on(t0, sep));
                assert(s@.subrange(i + 1, i + 1) =~= Seq::<char>::empty());
            }
            cur = i + 1;
        } else {
            proof {
                let init = split_on(t0, sep);
                assert(split_on(t1, sep) == init.update(init.len() - 1, init.last().push(s@[i as int])));
                assert(split_on(t1, sep).drop_last() =~= init.drop_last());
                assert(s@.subrange(cur as int, i + 1) =~= s@.subrange(cur as int, i as int).push(s@[i as int]));
            }
        }
        i = i + 1;
    }
    let ghost before = done@;
    done.push((cur, n));
    proof {
        let t = s@.subrange(0, n as int);
        assert(t =~= s@);
        assert(range_pieces(s@, done@) =~= range_pieces(s@, before).push(s@.subrange(cur as int, n as int)));
        assert(split_on(t, sep) =~= split_on(t, sep).drop_last().push(split_on(t, sep).last()));
    }
    done
}

/// `s` with every trailing repetition of `p` removed (what
/// `str::trim_end_matches` does with a string pattern).
pub open spec fn strip_suffix_all(s: Seq<char>, p: Seq<char>) -> Seq<char>
    decreases s.len(),
{
    if p.len() > 0 && has_suffix(s, p) {
        strip_suffix_all(s.subrange(0, s.len() - p.len()), p)
    } else {
        s
    }
}

/// Removes every trailing repetition of `p` from `s`.
pub fn trim_end_matches_str<'a>(s: &'a str, p: &str) -> (r: &'a str)
    ensures
        r@ == strip_suffix_all(s@, p@),
{
    let sc = chars_of(s);
    let pc = chars_of(p);
    let n = sc.len();
    let m = pc.len();
    let mut end: usize = n;
    proof {
        assert(sc@.subrange(0, n as int) =~= sc@);
    }
    while m > 0 && end >= m && occurs_at_exec(sc.as_slice(), pc.as_slice(), end - m)
        invariant
            n == sc@.len(),
            m == pc@.len(),
            sc@ == s@,
            pc@ == p@,
            end <= n,
            strip_suffix_all(sc@.subrange(0, end as int), p@) == strip_suffix_all(s@, p@),
        decreases end,
    {
        proof {
            let t = sc@.subrange(0, end as int);
            assert(t.subrange(t.len() - m, t.len() as int) =~= sc@.subrange(end - m, end as int));
            assert(t.subrange(0, t.len() - m) =~= sc@.subrange(0, end - m));
        }
        end = end - m;
    }
    proof {
        let t = sc@.subrange(0, end as int);
        if m > 0 && end >= m {
            assert(t.subrange(t.len() - m, t.len() as int) =~= sc@.subrange(end - m, end as int));
        }
    }
    s.substring_char(0, end)
}


/// A sequence without `sep` is a single piece.
pub proof fn lemma_split_on_without_sep(s: Seq<char>, sep: char)
    requires
        !s.contains(sep),
    ensures
        split_on(s, sep) == seq![s],
    decreases s.len(),
{
    if s.len() > 0 {
        assert(!s.drop_last().contains(sep)) by {
            if s.drop_last().contains(sep) {
                let k = choose|k: int| 0 <= k < s.drop_last().len() && s.drop_last()[k] == sep;
                assert(s[k] == sep);
            }
        }
        lemma_split_on_without_sep(s.drop_last(), sep);
        assert(s.last() != sep) by {
            assert(s[s.len() - 1] == s.last());
        }
        assert(s.drop_last().push(s.last()) =~= s);
        assert(split_on(s, sep) =~= seq![s]);
    } else {
        assert(s =~= Seq::<char>::empty());
    }
}

/// Appending text without `sep` extends the last piece.
pub proof fn lemma_split_on_append(x: Seq<char>, r: Seq<char>, sep: char)
    requires
        !r.contains(sep),
    ensures
        split_on(x + r, sep) == split_on(x, sep).update(
            split_on(x, sep).len() - 1,
            split_on(x, sep).last() + r,
        ),
    decreases r.len(),
{
    lemma_split_on_len(x, sep);
    let sx = split_on(x, sep);
    if r.len() == 0 {
        assert(x + r =~= x);
        assert(sx.last() + r =~= sx.last());
        assert(sx.update(sx.len() - 1, sx.last()) =~= sx);
    } else {
        let r0 = r.drop_last();
        assert(!r0.contains(sep)) by {
            if r0.contains(sep) {
                let k = choose|k: int| 0 <= k < r0.len() && r0[k] == sep;
                assert(r[k] == sep);
            }
        }
        lemma_split_on_append(x, r0, sep);
        assert((x + r).drop_last() =~= x + r0);
        assert((x + r).last() == r.last());
        assert(r.last() != sep) by {
            assert(r[r.len() - 1] == r.last());
        }
        let prev = split_on(x + r0, sep);
        assert(prev == sx.update(sx.len() - 1, sx.last() + r0));
        assert((sx.last() + r0).push(r.last()) =~= sx.last() + r);
        assert(split_on(x + r, sep) =~= sx.update(sx.len() - 1, sx.last() + r));
    }
}

/// A string with no whitespace at either end is its own trim.
pub proof fn lemma_trim_unpadded(s: Seq<char>)
    requires
        s.len() > 0,
        !is_space(s[0]),
        !is_space(s.last()),
    ensures
        trim(s) == s,
{
}

/// ASCII lower-casing twice is lower-casing once.
/// ASCII upper-casing of one character; other characters are unchanged.
pub open spec fn upper_char(c: char) -> char {
    if 'a' <= c && c <= 'z' {
        ((c as u32) - 32) as char
    } else {
        c
    }
}

/// ASCII upper-casing of a whole string (what `to_ascii_uppercase` does).
pub open spec fn upper(s: Seq<char>) -> Seq<char> {
    s.map_values(|c: char| upper_char(c))
}

/// Lower-casing an upper-cased string gives the lower-cased string.
pub proof fn lemma_lower_upper(s: Seq<char>)
    ensures
        lower(upper(s)) == lower(s),
{
    assert forall|i: int| 0 <= i < s.len() implies lower_char(upper_char(s[i])) == lower_char(s[i]) by {
        let c = s[i];
        if 'a' <= c && c <= 'z' {
            let u = ((c as u32) - 32) as char;
            assert(u as u32 == (c as u32) - 32);
            assert('A' <= u && u <= 'Z');
            assert(((u as u32) + 32) as char == c);
        }
    }
    assert(lower(upper(s)) =~= lower(s));
}

pub proof fn lemma_lower_idempotent(s: Seq<char>)
    ensures
        lower(lower(s)) == lower(s),
{
    assert(lower(lower(s)) =~= lower(s));
}


proof fn lemma_trim_start_head(s: Seq<char>)
    ensures
        trim_start(s).len() > 0 ==> !is_space(trim_start(s)[0]),
    decreases s.len(),
{
    if s.len() > 0 && is_space(s[0]) {
        lemma_trim_start_head(s.drop_first());
    }
}

proof fn lemma_trim_end_prefix(s: Seq<char>)
    ensures
        trim_end(s).len() <= s.len(),
        trim_end(s) == s.subrange(0, trim_end(s).len() as int),
        trim_end(s).len() > 0 ==> !is_space(trim_end(s).last()),
    decreases s.len(),
{
    if s.len() > 0 && is_space(s.last()) {
        lemma_trim_end_prefix(s.drop_last());
        let t = trim_end(s.drop_last());
        assert(s.drop_last().subrange(0, t.len() as int) =~= s.subrange(0, t.len() as int));
    } else {
        assert(s.subrange(0, s.len() as int) =~= s);
    }
}

/// A trimmed string that is not empty begins and ends with a non-whitespace
/// character.
pub proof fn lemma_trim_ends(s: Seq<char>)
    ensures
        trim(s).len() > 0 ==> !is_space(trim(s)[0]) && !is_space(trim(s).last()),
{
    lemma_trim_start_head(s);
    lemma_trim_end_prefix(trim_start(s));
    if trim(s).len() > 0 {
        assert(trim(s)[0] == trim_start(s)[0]);
    }
}

} // verus!
