//! Character-level helpers shared by the line-oriented parsers.

use vstd::prelude::*;
use vstd::std_specs::iter::IteratorSpec;

verus! {

/// The characters that `char::is_whitespace` accepts (Unicode White_Space).
pub open spec fn is_ws(c: char) -> bool {
    let u = c as u32;
    (0x09 <= u && u <= 0x0d) || u == 0x20 || u == 0x85 || u == 0xa0 || u == 0x1680 || (0x2000
        <= u && u <= 0x200a) || u == 0x2028 || u == 0x2029 || u == 0x202f || u == 0x205f || u
        == 0x3000
}

pub fn is_whitespace_char(c: char) -> (r: bool)
    ensures
        r == is_ws(c),
{
    let u = c as u32;
    (0x09 <= u && u <= 0x0d) || u == 0x20 || u == 0x85 || u == 0xa0 || u == 0x1680 || (0x2000
        <= u && u <= 0x200a) || u == 0x2028 || u == 0x2029 || u == 0x202f || u == 0x205f || u
        == 0x3000
}

/// The characters of `s`, in order.
pub fn chars_of(s: &str) -> (r: Vec<char>)
    ensures
        r@ == s@,
{
    let mut out: Vec<char> = Vec::new();
    for c in it: s.chars()
        invariant
            it.seq() == s@,
            out@ == s@.take(it.index() as int),
    {
        out.push(c);
    }
    out
}

/// The pieces of `s` between occurrences of `sep`, as `str::split` yields them:
/// `k` separators give `k + 1` pieces, some of which may be empty.
pub open spec fn split_on(s: Seq<char>, sep: char) -> Seq<Seq<char>>
    decreases s.len(),
{
    if s.len() == 0 {
        seq![Seq::empty()]
    } else {
        let r = split_on(s.drop_last(), sep);
        if s.last() == sep {
            r.push(Seq::empty())
        } else {
            r.update(r.len() - 1, r.last().push(s.last()))
        }
    }
}

pub proof fn lemma_split_on_nonempty(s: Seq<char>, sep: char)
    ensures
        split_on(s, sep).len() >= 1,
    decreases s.len(),
{
    if s.len() > 0 {
        lemma_split_on_nonempty(s.drop_last(), sep);
    }
}

pub proof fn lemma_split_on_sep_gives_two(s: Seq<char>, sep: char, i: int)
    requires
        0 <= i < s.len(),
        s[i] == sep,
    ensures
        split_on(s, sep).len() >= 2,
    decreases s.len(),
{
    lemma_split_on_nonempty(s.drop_last(), sep);
    if i < s.len() - 1 {
        lemma_split_on_sep_gives_two(s.drop_last(), sep, i);
    }
}

/// The lines of a text: the pieces between newline characters.
pub open spec fn lines_of(s: Seq<char>) -> Seq<Seq<char>> {
    split_on(s, '\n')
}

/// The maximal runs of non-whitespace characters of `s`, in order
/// (what `str::split_whitespace` yields).
pub open spec fn words_of(s: Seq<char>) -> Seq<Seq<char>>
    decreases s.len(),
{
    if s.len() == 0 {
        Seq::empty()
    } else {
        let w = words_of(s.drop_last());
        if is_ws(s.last()) {
            w
        } else if s.len() >= 2 && !is_ws(s[s.len() - 2]) {
            w.update(w.len() - 1, w.last().push(s.last()))
        } else {
            w.push(seq![s.last()])
        }
    }
}

/// `s` without leading whitespace.
pub open spec fn trim_start(s: Seq<char>) -> Seq<char>
    decreases s.len(),
{
    if s.len() > 0 && is_ws(s[0]) {
        trim_start(s.skip(1))
    } else {
        s
    }
}

/// `s` without trailing whitespace.
pub open spec fn trim_end(s: Seq<char>) -> Seq<char>
    decreases s.len(),
{
    if s.len() > 0 && is_ws(s.last()) {
        trim_end(s.drop_last())
    } else {
        s
    }
}

/// `s` without leading or trailing whitespace (what `str::trim` gives).
pub open spec fn trim(s: Seq<char>) -> Seq<char> {
    trim_end(trim_start(s))
}

pub open spec fn has_prefix(s: Seq<char>, p: Seq<char>) -> bool {
    p.len() <= s.len() && s.take(p.len() as int) == p
}

/// The well-formed sub-range `[lo, hi)` of `v`.
pub open spec fn range_ok(v: Seq<char>, lo: int, hi: int) -> bool {
    0 <= lo <= hi <= v.len()
}

/// The positions of the pieces of `v[lo..hi]` between occurrences of `sep`.
pub fn split_ranges(v: &Vec<char>, lo: usize, hi: usize, sep: char) -> (r: Vec<(usize, usize)>)
    requires
        lo <= hi <= v.len(),
    ensures
        r.len() == split_on(v@.subrange(lo as int, hi as int), sep).len(),
        forall|k: int|
            #![trigger r@[k]]
            0 <= k < r.len() ==> {
                &&& lo <= r[k].0 <= r[k].1 <= hi
                &&& v@.subrange(r[k].0 as int, r[k].1 as int) == split_on(
                    v@.subrange(lo as int, hi as int),
                    sep,
                )[k]
            },
{
    let mut done: Vec<(usize, usize)> = Vec::new();
    let mut start: usize = lo;
    let mut i: usize = lo;
    proof {
        assert(v@.subrange(lo as int, lo as int) =~= Seq::<char>::empty());
    }
    while i < hi
        invariant
            lo <= start <= i <= hi <= v.len(),
            done.len() + 1 == split_on(v@.subrange(lo as int, i as int), sep).len(),
            forall|k: int|
                #![trigger done@[k]]
                0 <= k < done.len() ==> {
                    &&& lo <= done[k].0 <= done[k].1 <= start
                    &&& v@.subrange(done[k].0 as int, done[k].1 as int) == split_on(
                        v@.subrange(lo as int, i as int),
                        sep,
                    )[k]
                },
            v@.subrange(start as int, i as int) == split_on(
                v@.subrange(lo as int, i as int),
                sep,
            ).last(),
        decreases hi - i,
    {
        let ghost before = split_on(v@.subrange(lo as int, i as int), sep);
        let ghost old_done = done@;
        proof {
            lemma_split_on_nonempty(v@.subrange(lo as int, i as int), sep);
            assert(v@.subrange(lo as int, i + 1).drop_last() =~= v@.subrange(lo as int, i as int));
            assert(v@.subrange(lo as int, i + 1).last() == v@[i as int]);
        }
        if v[i] == sep {
            done.push((start, i));
            start = i + 1;
            proof {
                let after = split_on(v@.subrange(lo as int, i + 1), sep);
                assert(after == before.push(Seq::empty()));
                assert(v@.subrange(start as int, i + 1) =~= Seq::<char>::empty());
                assert forall|k: int| 0 <= k < done.len() implies {
                    &&& lo <= done[k].0 <= done[k].1 <= start
                    &&& v@.subrange(done[k].0 as int, done[k].1 as int) == after[k]
                } by {
                    if k < old_done.len() {
                        assert(done@[k] == old_done[k]);
                    }
                }
            }
        } else {
            proof {
                let after = split_on(v@.subrange(lo as int, i + 1), sep);
                assert(after == before.update(before.len() - 1, before.last().push(v@[i as int])));
                assert(v@.subrange(start as int, i + 1) =~= v@.subrange(start as int, i as int).push(
                    v@[i as int],
                ));
                assert forall|k: int| 0 <= k < done.len() implies {
                    &&& lo <= done[k].0 <= done[k].1 <= start
                    &&& v@.subrange(done[k].0 as int, done[k].1 as int) == after[k]
                } by {
                    assert(done@[k] == old_done[k]);
                }
            }
        }
        i = i + 1;
    }
    let ghost final_split = split_on(v@.subrange(lo as int, hi as int), sep);
    let ghost old_done = done@;
    done.push((start, hi));
    proof {
        assert forall|k: int| 0 <= k < done.len() implies {
            &&& lo <= done[k].0 <= done[k].1 <= hi
            &&& v@.subrange(done[k].0 as int, done[k].1 as int) == final_split[k]
        } by {
            if k < old_done.len() {
                assert(done@[k] == old_done[k]);
            }
        }
    }
    done
}

/// The positions of the maximal runs of non-whitespace characters of `v[lo..hi]`.
pub fn word_ranges(v: &Vec<char>, lo: usize, hi: usize) -> (r: Vec<(usize, usize)>)
    requires
        lo <= hi <= v.len(),
    ensures
        r.len() == words_of(v@.subrange(lo as int, hi as int)).len(),
        forall|k: int|
            #![trigger r@[k]]
            0 <= k < r.len() ==> {
                &&& lo <= r[k].0 <= r[k].1 <= hi
                &&& v@.subrange(r[k].0 as int, r[k].1 as int) == words_of(
                    v@.subrange(lo as int, hi as int),
                )[k]
            },
{
    let mut done: Vec<(usize, usize)> = Vec::new();
    let mut i: usize = lo;
    proof {
        assert(v@.subrange(lo as int, lo as int) =~= Seq::<char>::empty());
    }
    while i < hi
        invariant
            lo <= i <= hi <= v.len(),
            done.len() == words_of(v@.subrange(lo as int, i as int)).len(),
            forall|k: int|
                #![trigger done@[k]]
                0 <= k < done.len() ==> {
                    &&& lo <= done[k].0 <= done[k].1 <= i
                    &&& v@.subrange(done[k].0 as int, done[k].1 as int) == words_of(
                        v@.subrange(lo as int, i as int),
                    )[k]
                },
            i > lo && !is_ws(v@[i - 1]) ==> done.len() > 0 && done[done.len() - 1].1 == i,
        decreases hi - i,
    {
        let ghost sub = v@.subrange(lo as int, i + 1);
        let ghost before = words_of(v@.subrange(lo as int, i as int));
        let ghost old_done = done@;
        proof {
            assert(sub.drop_last() =~= v@.subrange(lo as int, i as int));
            assert(sub.last() == v@[i as int]);
            if sub.len() >= 2 {
                assert(sub[sub.len() - 2] == v@[i - 1]);
            }
        }
        if is_whitespace_char(v[i]) {
            proof {
                assert(words_of(sub) == before);
            }
        } else if i > lo && !is_whitespace_char(v[i - 1]) {
            let last = done.len() - 1;
            let (a, _) = done[last];
            proof {
                assert(lo <= old_done[last as int].0 <= old_done[last as int].1 <= i);
            }
            done.set(last, (a, i + 1));
            proof {
                assert(words_of(sub) == before.update(before.len() - 1, before.last().push(v@[i as int])));
                assert(v@.subrange(a as int, i + 1) =~= v@.subrange(a as int, i as int).push(
                    v@[i as int],
                ));
                assert forall|k: int| 0 <= k < done.len() implies {
                    &&& lo <= done[k].0 <= done[k].1 <= i + 1
                    &&& v@.subrange(done[k].0 as int, done[k].1 as int) == words_of(sub)[k]
                } by {
                    if k < last {
                        assert(done@[k] == old_done[k]);
                    }
                }
            }
        } else {
            done.push((i, i + 1));
            proof {
                assert(words_of(sub) == before.push(seq![v@[i as int]]));
                assert(v@.subrange(i as int, i + 1) =~= seq![v@[i as int]]);
                assert forall|k: int| 0 <= k < done.len() implies {
                    &&& lo <= done[k].0 <= done[k].1 <= i + 1
                    &&& v@.subrange(done[k].0 as int, done[k].1 as int) == words_of(sub)[k]
                } by {
                    if k < old_done.len() {
                        assert(done@[k] == old_done[k]);
                    }
                }
            }
        }
        i = i + 1;
    }
    done
}

/// Whether `v[lo..hi]` begins with `p`.
pub fn starts_with_at(v: &Vec<char>, lo: usize, hi: usize, p: &Vec<char>) -> (r: bool)
    requires
        lo <= hi <= v.len(),
    ensures
        r == has_prefix(v@.subrange(lo as int, hi as int), p@),
{
    if p.len() > hi - lo {
        return false;
    }
    let mut k: usize = 0;
    while k < p.len()
        invariant
            p.len() <= hi - lo,
            lo <= hi <= v.len(),
            k <= p.len(),
            forall|j: int| 0 <= j < k ==> v@[lo + j] == p@[j],
        decreases p.len() - k,
    {
        if v[lo + k] != p[k] {
            proof {
                let t = v@.subrange(lo as int, hi as int).take(p.len() as int);
                assert(t[k as int] != p@[k as int]);
            }
            return false;
        }
        k = k + 1;
    }
    proof {
        assert(v@.subrange(lo as int, hi as int).take(p.len() as int) =~= p@);
    }
    true
}

/// The position of `trim(v[lo..hi])` inside `v`.
pub fn trim_range(v: &Vec<char>, lo: usize, hi: usize) -> (r: (usize, usize))
    requires
        lo <= hi <= v.len(),
    ensures
        lo <= r.0 <= r.1 <= hi,
        v@.subrange(r.0 as int, r.1 as int) == trim(v@.subrange(lo as int, hi as int)),
{
    let mut a: usize = lo;
    while a < hi && is_whitespace_char(v[a])
        invariant
            lo <= a <= hi <= v.len(),
            trim_start(v@.subrange(lo as int, hi as int)) == trim_start(
                v@.subrange(a as int, hi as int),
            ),
        decreases hi - a,
    {
        proof {
            assert(v@.subrange(a as int, hi as int).skip(1) =~= v@.subrange(a + 1, hi as int));
        }
        a = a + 1;
    }
    let mut b: usize = hi;
    while b > a && is_whitespace_char(v[b - 1])
        invariant
            lo <= a <= b <= hi <= v.len(),
            trim(v@.subrange(lo as int, hi as int)) == trim_end(v@.subrange(a as int, b as int)),
        decreases b - a,
    {
        proof {
            assert(v@.subrange(a as int, b as int).drop_last() =~= v@.subrange(a as int, b - 1));
        }
        b = b - 1;
    }
    (a, b)
}

pub open spec fn is_digit(c: char) -> bool {
    '0' <= c && c <= '9'
}

pub open spec fn all_digits(s: Seq<char>) -> bool {
    forall|i: int| 0 <= i < s.len() ==> is_digit(s[i])
}

pub open spec fn digit_value(c: char) -> nat {
    ((c as u32) - 48) as nat
}

/// The number that the decimal digits `s` spell.
pub open spec fn digits_value(s: Seq<char>) -> nat
    decreases s.len(),
{
    if s.len() == 0 {
        0
    } else {
        digits_value(s.drop_last()) * 10 + digit_value(s.last())
    }
}

/// A bound above every value that a 32-bit parse accepts.
pub const DIGITS_CAP: u64 = 0x1_0000_0000;

pub open spec fn min_nat(a: nat, b: nat) -> nat {
    if a <= b {
        a
    } else {
        b
    }
}

/// `Some(min(value, DIGITS_CAP))` where `v[lo..hi]` is a non-empty run of decimal digits.
pub fn digits_capped(v: &Vec<char>, lo: usize, hi: usize) -> (r: Option<u64>)
    requires
        lo <= hi <= v.len(),
    ensures
        r == (if hi > lo && all_digits(v@.subrange(lo as int, hi as int)) {
            Some(min_nat(digits_value(v@.subrange(lo as int, hi as int)), DIGITS_CAP as nat) as u64)
        } else {
            None::<u64>
        }),
{
    if hi == lo {
        return None;
    }
    let mut acc: u64 = 0;
    let mut i: usize = lo;
    proof {
        assert(v@.subrange(lo as int, lo as int) =~= Seq::<char>::empty());
    }
    while i < hi
        invariant
            lo <= i <= hi <= v.len(),
            all_digits(v@.subrange(lo as int, i as int)),
            acc as nat == min_nat(digits_value(v@.subrange(lo as int, i as int)), DIGITS_CAP as nat),
        decreases hi - i,
    {
        let c = v[i];
        if !('0' <= c && c <= '9') {
            proof {
                assert(!is_digit(v@.subrange(lo as int, hi as int)[i - lo]));
            }
            return None;
        }
        let d: u64 = (c as u32 - 48) as u64;
        let ghost prev = digits_value(v@.subrange(lo as int, i as int));
        let ghost sub = v@.subrange(lo as int, i + 1);
        proof {
            assert(sub.drop_last() =~= v@.subrange(lo as int, i as int));
            assert(sub.last() == c);
            assert(digits_value(sub) == prev * 10 + d);
            assert(prev * 10 >= prev) by (nonlinear_arith);
            if prev >= DIGITS_CAP {
                assert(acc == DIGITS_CAP);
            } else {
                assert(acc == prev);
            }
            assert(acc * 10 + d <= DIGITS_CAP * 10 + 9) by (nonlinear_arith)
                requires
                    acc <= DIGITS_CAP,
                    d <= 9,
            ;
            assert(prev >= DIGITS_CAP ==> prev * 10 + d >= DIGITS_CAP * 10) by (nonlinear_arith);
        }
        let next = acc * 10 + d;
        acc = if next > DIGITS_CAP {
            DIGITS_CAP
        } else {
            next
        };
        i = i + 1;
        proof {
            assert forall|j: int| 0 <= j < i - lo implies is_digit(
                v@.subrange(lo as int, i as int)[j],
            ) by {
                if j < i - 1 - lo {
                    assert(v@.subrange(lo as int, i as int)[j] == v@.subrange(lo as int, i - 1)[j]);
                }
            }
        }
    }
    Some(acc)
}

/// `s` without one leading plus sign.
pub open spec fn unsigned_body(s: Seq<char>) -> Seq<char> {
    if s.len() > 0 && s[0] == '+' {
        s.skip(1)
    } else {
        s
    }
}

/// What `u32::from_str` accepts: an optional `+` and one or more decimal digits
/// whose value fits.
pub open spec fn parse_u32_spec(s: Seq<char>) -> Option<u32> {
    let b = unsigned_body(s);
    if b.len() > 0 && all_digits(b) && digits_value(b) <= u32::MAX {
        Some(digits_value(b) as u32)
    } else {
        None
    }
}

/// What `i32::from_str` accepts: an optional sign and one or more decimal digits
/// whose signed value fits.
pub open spec fn parse_i32_spec(s: Seq<char>) -> Option<i32> {
    if s.len() > 0 && s[0] == '-' {
        let b = s.skip(1);
        if b.len() > 0 && all_digits(b) && digits_value(b) <= 0x8000_0000 {
            Some((0 - digits_value(b)) as i32)
        } else {
            None
        }
    } else {
        let b = unsigned_body(s);
        if b.len() > 0 && all_digits(b) && digits_value(b) <= i32::MAX {
            Some(digits_value(b) as i32)
        } else {
            None
        }
    }
}

/// Parses `v[lo..hi]` as `u32::from_str` does.
pub fn parse_u32_at(v: &Vec<char>, lo: usize, hi: usize) -> (r: Option<u32>)
    requires
        lo <= hi <= v.len(),
    ensures
        r == parse_u32_spec(v@.subrange(lo as int, hi as int)),
{
    let ghost s = v@.subrange(lo as int, hi as int);
    let start = if hi > lo && v[lo] == '+' {
        lo + 1
    } else {
        lo
    };
    proof {
        assert(unsigned_body(s) =~= v@.subrange(start as int, hi as int));
    }
    match digits_capped(v, start, hi) {
        Some(n) => {
            if n <= u32::MAX as u64 {
                Some(n as u32)
            } else {
                None
            }
        },
        None => None,
    }
}

/// Parses `v[lo..hi]` as `i32::from_str` does.
pub fn parse_i32_at(v: &Vec<char>, lo: usize, hi: usize) -> (r: Option<i32>)
    requires
        lo <= hi <= v.len(),
    ensures
        r == parse_i32_spec(v@.subrange(lo as int, hi as int)),
{
    let ghost s = v@.subrange(lo as int, hi as int);
    if hi > lo && v[lo] == '-' {
        proof {
            assert(s.skip(1) =~= v@.subrange(lo + 1, hi as int));
        }
        match digits_capped(v, lo + 1, hi) {
            Some(n) => {
                if n <= 0x8000_0000u64 {
                    Some((0i64 - n as i64) as i32)
                } else {
                    None
                }
            },
            None => None,
        }
    } else {
        let start = if hi > lo && v[lo] == '+' {
            lo + 1
        } else {
            lo
        };
        proof {
            assert(unsigned_body(s) =~= v@.subrange(start as int, hi as int));
        }
        match digits_capped(v, start, hi) {
            Some(n) => {
                if n <= i32::MAX as u64 {
                    Some(n as i32)
                } else {
                    None
                }
            },
            None => None,
        }
    }
}

} // verus!
