//! Character-level text handling shared by the package database, mirror list
//! and command-line parsers: splitting into lines, searching, replacing,
//! trimming and decimal integer parsing, each with its meaning as a spec
//! function over `Seq<char>`.
use vstd::prelude::*;

verus! {

/// The pieces of `s` between `'\n'` separators, in order, as
/// `str::split('\n')` yields them (an empty text gives one empty piece, and a
/// trailing separator gives a trailing empty piece).
pub open spec fn split_lines(s: Seq<char>) -> Seq<Seq<char>>
    decreases s.len(),
{
    if s.len() == 0 {
        seq![Seq::<char>::empty()]
    } else {
        let prev = split_lines(s.drop_last());
        if s.last() == '\n' {
            prev.push(Seq::<char>::empty())
        } else {
            prev.update(prev.len() - 1, prev.last().push(s.last()))
        }
    }
}

/// Splitting always yields at least one piece.
pub proof fn lemma_split_lines_nonempty(s: Seq<char>)
    ensures
        split_lines(s).len() >= 1,
    decreases s.len(),
{
    if s.len() > 0 {
        lemma_split_lines_nonempty(s.drop_last());
    }
}

/// Appending characters that hold no line break extends the last line.
pub proof fn lemma_split_lines_extend_last(s: Seq<char>, m: Seq<char>)
    requires
        forall|i: int| 0 <= i < m.len() ==> m[i] != '\n',
    ensures
        split_lines(s + m) == split_lines(s).update(
            split_lines(s).len() - 1,
            split_lines(s).last() + m,
        ),
        split_lines(s).len() >= 1,
    decreases m.len(),
{
    if m.len() == 0 {
        assert(s + m =~= s);
        lemma_split_lines_nonempty(s);
        assert(split_lines(s).last() + m =~= split_lines(s).last());
        assert(split_lines(s).update(split_lines(s).len() - 1, split_lines(s).last())
            =~= split_lines(s));
    } else {
        let init = m.drop_last();
        lemma_split_lines_extend_last(s, init);
        assert((s + m).drop_last() =~= s + init);
        assert((s + m).last() == m.last());
        assert(split_lines(s).last() + init + seq![m.last()] =~= split_lines(s).last() + m);
        assert((split_lines(s).last() + init).push(m.last()) =~= split_lines(s).last() + m);
        assert(split_lines(s + m) =~= split_lines(s).update(
            split_lines(s).len() - 1,
            split_lines(s).last() + m,
        ));
    }
}

/// Text that ends with a line break splits into its lines (without the
/// trailing empty piece) followed by the pieces of what comes after it.
pub proof fn lemma_split_lines_concat(p: Seq<char>, s: Seq<char>)
    requires
        p.len() > 0,
        p.last() == '\n',
    ensures
        split_lines(p + s) == split_lines(p).drop_last() + split_lines(s),
    decreases s.len(),
{
    let a = split_lines(p).drop_last();
    if s.len() == 0 {
        assert(p + s =~= p);
        assert(p.drop_last() + seq![p.last()] =~= p);
        assert(split_lines(p) == split_lines(p.drop_last()).push(Seq::<char>::empty()));
        assert(a + split_lines(s) =~= split_lines(p));
    } else {
        let init = s.drop_last();
        lemma_split_lines_concat(p, init);
        lemma_split_lines_nonempty(init);
        assert((p + s).drop_last() =~= p + init);
        assert((p + s).last() == s.last());
        let b = split_lines(init);
        if s.last() == '\n' {
            assert(split_lines(p + s) =~= (a + b).push(Seq::<char>::empty()));
            assert(a + split_lines(s) =~= (a + b).push(Seq::<char>::empty()));
        } else {
            assert(split_lines(p + s) =~= (a + b).update(
                (a + b).len() - 1,
                (a + b).last().push(s.last()),
            ));
            assert(a + split_lines(s) =~= (a + b).update(
                (a + b).len() - 1,
                (a + b).last().push(s.last()),
            ));
        }
    }
}

/// The characters of `s`, in order.
pub fn chars_of(s: &str) -> (v: Vec<char>)
    ensures
        v@ == s@,
{
    let mut v: Vec<char> = Vec::new();
    for c in it: s.chars()
        invariant
            v@ == it.seq().take(it.index()),
    {
        v.push(c);
    }
    v
}

/// Whether `ranges` marks out the lines of `cs`: one half-open range of
/// character positions per piece of `split_lines(cs)`, in order.
pub open spec fn marks_lines(cs: Seq<char>, ranges: Seq<(usize, usize)>) -> bool {
    let ls = split_lines(cs);
    &&& ranges.len() == ls.len()
    &&& forall|k: int|
        #![trigger ranges[k]]
        0 <= k < ranges.len() ==> {
            &&& ranges[k].0 <= ranges[k].1 <= cs.len()
            &&& cs.subrange(ranges[k].0 as int, ranges[k].1 as int) == ls[k]
        }
}

/// The line ranges of `cs`, split at every `'\n'`.
pub fn line_ranges(cs: &Vec<char>) -> (ranges: Vec<(usize, usize)>)
    ensures
        marks_lines(cs@, ranges@),
{
    let mut ranges: Vec<(usize, usize)> = Vec::new();
    let mut start: usize = 0;
    let mut i: usize = 0;
    assert(cs@.take(0) =~= Seq::<char>::empty());
    while i < cs.len()
        invariant
            start <= i <= cs.len(),
            ({
                let ls = split_lines(cs@.take(i as int));
                &&& ls.len() == ranges.len() + 1
                &&& ls.last() == cs@.subrange(start as int, i as int)
                &&& forall|k: int|
                    #![trigger ranges[k]]
                    0 <= k < ranges.len() ==> {
                        &&& ranges[k].0 <= ranges[k].1 <= i
                        &&& cs@.subrange(ranges[k].0 as int, ranges[k].1 as int) == ls[k]
                    }
            }),
        decreases cs.len() - i,
    {
        let ghost prev = split_lines(cs@.take(i as int));
        assert(cs@.take(i + 1).drop_last() =~= cs@.take(i as int));
        assert(cs@.take(i + 1).last() == cs@[i as int]);
        if cs[i] == '\n' {
            ranges.push((start, i));
            start = i + 1;
        }
        i = i + 1;
        proof {
            let ls = split_lines(cs@.take(i as int));
            assert(cs@.subrange(start as int, i as int) =~= ls.last());
            assert forall|k: int|
                #![trigger ranges[k]]
                0 <= k < ranges.len() implies {
                    &&& ranges[k].0 <= ranges[k].1 <= i
                    &&& cs@.subrange(ranges[k].0 as int, ranges[k].1 as int) == ls[k]
                } by {
                if k < prev.len() - 1 {
                    assert(ls[k] == prev[k]);
                }
            }
        }
    }
    ranges.push((start, i));
    assert(cs@.take(i as int) =~= cs@);
    ranges
}

/// Whether the characters of `cs` from `lo` up to `hi` are exactly `p`.
pub fn range_equals(cs: &Vec<char>, lo: usize, hi: usize, p: &Vec<char>) -> (b: bool)
    requires
        lo <= hi <= cs.len(),
    ensures
        b == (cs@.subrange(lo as int, hi as int) == p@),
{
    if hi - lo != p.len() {
        return false;
    }
    let mut j: usize = 0;
    while j < p.len()
        invariant
            hi - lo == p.len(),
            lo <= hi <= cs.len(),
            j <= p.len(),
            forall|k: int| 0 <= k < j ==> cs@[lo + k] == p@[k],
        decreases p.len() - j,
    {
        if cs[lo + j] != p[j] {
            assert(cs@.subrange(lo as int, hi as int)[j as int] != p@[j as int]);
            return false;
        }
        j = j + 1;
    }
    assert(cs@.subrange(lo as int, hi as int) =~= p@);
    true
}

/// Whether `p` occurs in `s` starting at position `i`.
pub open spec fn occurs_at(s: Seq<char>, p: Seq<char>, i: int) -> bool {
    &&& 0 <= i
    &&& i + p.len() <= s.len()
    &&& s.subrange(i, i + p.len()) == p
}

/// Whether `p` occurs somewhere in `s`, as `str::contains` decides it (the
/// empty pattern occurs in every text).
pub open spec fn contains_text(s: Seq<char>, p: Seq<char>) -> bool {
    exists|i: int| occurs_at(s, p, i)
}

/// Whether `p` occurs among the characters of `cs` from `lo` up to `hi`.
pub fn range_contains(cs: &Vec<char>, lo: usize, hi: usize, p: &Vec<char>) -> (b: bool)
    requires
        lo <= hi <= cs.len(),
    ensures
        b == contains_text(cs@.subrange(lo as int, hi as int), p@),
{
    let ghost s = cs@.subrange(lo as int, hi as int);
    if p.len() > hi - lo {
        assert forall|i: int| !occurs_at(s, p@, i) by {}
        return false;
    }
    if p.len() == 0 {
        assert(s.subrange(0, 0) =~= p@);
        assert(occurs_at(s, p@, 0));
        return true;
    }
    let last = hi - p.len();
    let mut i: usize = lo;
    while i <= last
        invariant
            lo <= i <= last + 1,
            last + p.len() == hi,
            p.len() >= 1,
            hi <= cs.len(),
            s == cs@.subrange(lo as int, hi as int),
            forall|j: int| 0 <= j < i - lo ==> !occurs_at(s, p@, j),
        decreases last + 1 - i,
    {
        if range_equals(cs, i, i + p.len(), p) {
            assert(s.subrange(i - lo, i - lo + p.len()) =~= cs@.subrange(i as int, i + p.len()));
            assert(occurs_at(s, p@, i - lo));
            return true;
        }
        assert(s.subrange(i - lo, i - lo + p.len()) =~= cs@.subrange(i as int, i + p.len()));
        i = i + 1;
    }
    assert forall|j: int| !occurs_at(s, p@, j) by {}
    false
}

/// Whether `p` occurs in `s`.
pub fn text_contains(s: &str, p: &str) -> (b: bool)
    ensures
        b == contains_text(s@, p@),
{
    let cs = chars_of(s);
    let ps = chars_of(p);
    assert(cs@.subrange(0, cs@.len() as int) =~= cs@);
    range_contains(&cs, 0, cs.len(), &ps)
}

/// Whether `a` and `b` are the same text.
pub fn text_equals(a: &str, b: &str) -> (r: bool)
    ensures
        r == (a@ == b@),
{
    let ac = chars_of(a);
    let bc = chars_of(b);
    assert(ac@.subrange(0, ac@.len() as int) =~= ac@);
    range_equals(&ac, 0, ac.len(), &bc)
}

/// `s` with every occurrence of the non-empty pattern `from` replaced by `to`,
/// scanning left to right and never reusing replaced characters, as
/// `str::replace` does. (An empty pattern leaves `s` as it is here; the
/// functions of this crate only replace non-empty patterns.)
pub open spec fn replace_all(s: Seq<char>, from: Seq<char>, to: Seq<char>) -> Seq<char>
    decreases s.len(),
{
    if from.len() == 0 || s.len() < from.len() {
        s
    } else if s.take(from.len() as int) == from {
        to + replace_all(s.skip(from.len() as int), from, to)
    } else {
        seq![s[0]] + replace_all(s.skip(1), from, to)
    }
}

/// `s` with every occurrence of `from` replaced by `to`.
pub fn replace_text(s: &str, from: &str, to: &str) -> (r: String)
    requires
        from@.len() > 0,
    ensures
        r@ == replace_all(s@, from@, to@),
{
    let cs = chars_of(s);
    let ps = chars_of(from);
    let n = cs.len();
    let m = ps.len();
    let mut out = String::new();
    let mut seg: usize = 0;
    let mut i: usize = 0;
    assert(cs@.skip(0) =~= cs@);
    assert(cs@.subrange(0, 0) =~= Seq::<char>::empty());
    assert(out@ + cs@.subrange(0, 0) =~= Seq::<char>::empty());
    while m <= n - i
        invariant
            n == cs@.len(),
            m == ps@.len(),
            m >= 1,
            cs@ == s@,
            ps@ == from@,
            seg <= i <= n,
            out@ + cs@.subrange(seg as int, i as int) + replace_all(cs@.skip(i as int), ps@, to@)
                == replace_all(cs@, ps@, to@),
        decreases n - i,
    {
        let ghost rest = cs@.skip(i as int);
        assert(rest.take(m as int) =~= cs@.subrange(i as int, i + m));
        if range_equals(&cs, i, i + m, &ps) {
            assert(rest.skip(m as int) =~= cs@.skip(i + m));
            let piece = s.substring_char(seg, i);
            out.append(piece);
            out.append(to);
            i = i + m;
            seg = i;
            assert(cs@.subrange(seg as int, i as int) =~= Seq::<char>::empty());
            assert(out@ + cs@.subrange(seg as int, i as int) + replace_all(cs@.skip(i as int), ps@, to@)
                =~= (out@ + replace_all(cs@.skip(i as int), ps@, to@)));
        } else {
            assert(rest.skip(1) =~= cs@.skip(i + 1));
            assert(rest[0] == cs@[i as int]);
            let ghost before = cs@.subrange(seg as int, i as int);
            i = i + 1;
            assert(cs@.subrange(seg as int, i as int) =~= before.push(cs@[i - 1]));
            assert(before + (seq![cs@[i - 1]] + replace_all(cs@.skip(i as int), ps@, to@))
                =~= cs@.subrange(seg as int, i as int) + replace_all(cs@.skip(i as int), ps@, to@));
        }
    }
    assert(replace_all(cs@.skip(i as int), ps@, to@) == cs@.skip(i as int));
    let tail = s.substring_char(seg, n);
    out.append(tail);
    assert(cs@.subrange(seg as int, i as int) + cs@.skip(i as int) =~= cs@.subrange(seg as int, n as int));
    out
}

/// Whether `c` is an ASCII decimal digit.
pub open spec fn is_digit(c: char) -> bool {
    '0' <= c <= '9'
}

/// Whether every character of `s` is an ASCII decimal digit.
pub open spec fn all_digits(s: Seq<char>) -> bool {
    forall|i: int| 0 <= i < s.len() ==> is_digit(#[trigger] s[i])
}

/// The value of the decimal digits `s`, most significant first.
pub open spec fn digits_value(s: Seq<char>) -> int
    decreases s.len(),
{
    if s.len() == 0 {
        0
    } else {
        digits_value(s.drop_last()) * 10 + (s.last() as int - '0' as int)
    }
}

/// The integer that `s` spells out as `str::parse` reads integers: an
/// optional `+` or `-` sign followed by at least one decimal digit and nothing
/// else. `None` where `s` is not of that form.
pub open spec fn parse_integer(s: Seq<char>) -> Option<int> {
    if s.len() > 0 && (s[0] == '+' || s[0] == '-') {
        let d = s.skip(1);
        if d.len() > 0 && all_digits(d) {
            Some(
                if s[0] == '-' {
                    -digits_value(d)
                } else {
                    digits_value(d)
                },
            )
        } else {
            None
        }
    } else if s.len() > 0 && all_digits(s) {
        Some(digits_value(s))
    } else {
        None
    }
}

/// What `s.parse::<i64>()` gives: the integer `s` spells out, where it fits.
pub open spec fn parse_i64(s: Seq<char>) -> Option<i64> {
    match parse_integer(s) {
        Some(v) => if i64::MIN <= v <= i64::MAX {
            Some(v as i64)
        } else {
            None
        },
        None => None,
    }
}

/// What `s.parse::<i32>()` gives: the integer `s` spells out, where it fits.
pub open spec fn parse_i32(s: Seq<char>) -> Option<i32> {
    match parse_integer(s) {
        Some(v) => if i32::MIN <= v <= i32::MAX {
            Some(v as i32)
        } else {
            None
        },
        None => None,
    }
}

/// Digits are worth at least as much as any of their prefixes.
proof fn lemma_digits_value_prefix(s: Seq<char>, k: int)
    requires
        all_digits(s),
        0 <= k <= s.len(),
    ensures
        digits_value(s) >= digits_value(s.take(k)),
        digits_value(s) >= 0,
    decreases s.len(),
{
    if s.len() == 0 {
        assert(s.take(k) =~= s);
    } else if k == s.len() {
        assert(s.take(k) =~= s);
        lemma_digits_value_prefix(s.drop_last(), 0);
    } else {
        assert(s.drop_last().take(k) =~= s.take(k));
        assert(all_digits(s.drop_last()));
        lemma_digits_value_prefix(s.drop_last(), k);
    }
}

/// The `i64` that the characters of `cs` from `lo` up to `hi` spell out.
pub fn parse_i64_range(cs: &Vec<char>, lo: usize, hi: usize) -> (r: Option<i64>)
    requires
        lo <= hi <= cs.len(),
    ensures
        r == parse_i64(cs@.subrange(lo as int, hi as int)),
{
    let ghost s = cs@.subrange(lo as int, hi as int);
    if lo == hi {
        return None;
    }
    let first = cs[lo];
    let signed = first == '+' || first == '-';
    let start = if signed {
        lo + 1
    } else {
        lo
    };
    let ghost d = cs@.subrange(start as int, hi as int);
    assert(signed ==> s.skip(1) =~= d);
    assert(!signed ==> s =~= d);
    if start == hi {
        return None;
    }
    let bound: u64 = 9223372036854775808;
    let mut mag: u64 = 0;
    let mut k: usize = start;
    assert(cs@.subrange(start as int, start as int) =~= Seq::<char>::empty());
    while k < hi
        invariant
            lo <= start <= k <= hi <= cs.len(),
            d == cs@.subrange(start as int, hi as int),
            s == cs@.subrange(lo as int, hi as int),
            s.len() > 0,
            s[0] == first,
            signed == (first == '+' || first == '-'),
            signed ==> s.skip(1) == d,
            !signed ==> s == d,
            mag as int == digits_value(cs@.subrange(start as int, k as int)),
            mag <= bound,
            bound == 9223372036854775808u64,
            all_digits(cs@.subrange(start as int, k as int)),
        decreases hi - k,
    {
        let c = cs[k];
        let ghost pre = cs@.subrange(start as int, k as int);
        let ghost next = cs@.subrange(start as int, k + 1);
        assert(next.drop_last() =~= pre);
        assert(d[k - start] == c);
        if !('0' <= c && c <= '9') {
            assert(!all_digits(d));
            return None;
        }
        let dv: u64 = (c as u64) - ('0' as u64);
        assert(dv as int == c as int - '0' as int);
        if mag > (bound - dv) / 10 {
            assert(mag * 10 + dv > bound) by (nonlinear_arith)
                requires
                    mag > (bound - dv) / 10,
                    dv <= 9,
                    bound == 9223372036854775808u64,
            ;
            proof {
                if all_digits(d) {
                    assert(d.take(k + 1 - start) =~= next);
                    lemma_digits_value_prefix(d, k + 1 - start);
                }
            }
            return None;
        }
        assert(mag * 10 + dv <= bound) by (nonlinear_arith)
            requires
                mag <= (bound - dv) / 10,
                dv <= 9,
                bound == 9223372036854775808u64,
        ;
        mag = mag * 10 + dv;
        k = k + 1;
    }
    assert(cs@.subrange(start as int, k as int) =~= d);
    if first == '-' {
        if mag == bound {
            Some(i64::MIN)
        } else {
            Some(-(mag as i64))
        }
    } else if mag <= 9223372036854775807 {
        Some(mag as i64)
    } else {
        None
    }
}

/// The `i32` that the characters of `cs` from `lo` up to `hi` spell out.
pub fn parse_i32_range(cs: &Vec<char>, lo: usize, hi: usize) -> (r: Option<i32>)
    requires
        lo <= hi <= cs.len(),
    ensures
        r == parse_i32(cs@.subrange(lo as int, hi as int)),
{
    match parse_i64_range(cs, lo, hi) {
        Some(v) => if -2147483648 <= v && v <= 2147483647 {
            Some(v as i32)
        } else {
            None
        },
        None => None,
    }
}

/// Whether `c` has the Unicode `White_Space` property, which is what
/// `char::is_whitespace` tests.
pub open spec fn is_whitespace(c: char) -> bool {
    ||| '\u{9}' <= c <= '\u{d}'
    ||| c == ' '
    ||| c == '\u{85}'
    ||| c == '\u{a0}'
    ||| c == '\u{1680}'
    ||| '\u{2000}' <= c <= '\u{200a}'
    ||| c == '\u{2028}'
    ||| c == '\u{2029}'
    ||| c == '\u{202f}'
    ||| c == '\u{205f}'
    ||| c == '\u{3000}'
}

/// `s` without its leading whitespace.
pub open spec fn trim_start(s: Seq<char>) -> Seq<char>
    decreases s.len(),
{
    if s.len() > 0 && is_whitespace(s[0]) {
        trim_start(s.skip(1))
    } else {
        s
    }
}

/// `s` without its trailing whitespace.
pub open spec fn trim_end(s: Seq<char>) -> Seq<char>
    decreases s.len(),
{
    if s.len() > 0 && is_whitespace(s.last()) {
        trim_end(s.drop_last())
    } else {
        s
    }
}

/// `s` without leading and trailing whitespace, as `str::trim` gives it.
pub open spec fn trim(s: Seq<char>) -> Seq<char> {
    trim_end(trim_start(s))
}

/// Whether `c` is whitespace.
pub fn char_is_whitespace(c: char) -> (b: bool)
    ensures
        b == is_whitespace(c),
{
    ('\u{9}' <= c && c <= '\u{d}') || c == ' ' || c == '\u{85}' || c == '\u{a0}' || c
        == '\u{1680}' || ('\u{2000}' <= c && c <= '\u{200a}') || c == '\u{2028}' || c
        == '\u{2029}' || c == '\u{202f}' || c == '\u{205f}' || c == '\u{3000}'
}

/// The positions that bound `cs` with its surrounding whitespace removed.
pub fn trim_range(cs: &Vec<char>) -> (r: (usize, usize))
    ensures
        r.0 <= r.1 <= cs.len(),
        cs@.subrange(r.0 as int, r.1 as int) == trim(cs@),
{
    let mut lo: usize = 0;
    assert(cs@.skip(0) =~= cs@);
    while lo < cs.len() && char_is_whitespace(cs[lo])
        invariant
            lo <= cs.len(),
            trim_start(cs@.skip(lo as int)) == trim_start(cs@),
        decreases cs.len() - lo,
    {
        assert(cs@.skip(lo as int).skip(1) =~= cs@.skip(lo + 1));
        lo = lo + 1;
    }
    let mut hi: usize = cs.len();
    assert(cs@.subrange(lo as int, hi as int) =~= cs@.skip(lo as int));
    while hi > lo && char_is_whitespace(cs[hi - 1])
        invariant
            lo <= hi <= cs.len(),
            trim_end(cs@.subrange(lo as int, hi as int)) == trim(cs@),
        decreases hi,
    {
        assert(cs@.subrange(lo as int, hi as int).drop_last() =~= cs@.subrange(lo as int, hi - 1));
        hi = hi - 1;
    }
    (lo, hi)
}

} // verus!
