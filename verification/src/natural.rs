//! The natural sibling ordering: byte strings compared case-insensitively
//! (ASCII), with embedded digit runs compared as numbers rather than
//! character sequences, so "file2" orders before "file10".

use vstd::prelude::*;

verus! {

/// An ASCII decimal digit.
pub open spec fn is_ascii_digit(b: u8) -> bool {
    48 <= b <= 57
}

/// ASCII lower-casing of one byte.
pub open spec fn to_lower(b: u8) -> u8 {
    if 65 <= b && b <= 90 {
        (b + 32) as u8
    } else {
        b
    }
}

/// The end of the maximal digit run beginning at `i`.
pub open spec fn digit_run_end(s: Seq<u8>, i: int) -> int
    decreases s.len() - i,
{
    if 0 <= i < s.len() && is_ascii_digit(s[i]) {
        digit_run_end(s, i + 1)
    } else {
        i
    }
}

/// A digit run ends between its start and the end of the string.
pub proof fn lemma_digit_run_end_bounds(s: Seq<u8>, i: int)
    requires
        0 <= i <= s.len(),
    ensures
        i <= digit_run_end(s, i) <= s.len(),
    decreases s.len() - i,
{
    if i < s.len() && is_ascii_digit(s[i]) {
        lemma_digit_run_end_bounds(s, i + 1);
    }
}

/// A scan that stops at the first non-digit finds the run's end.
proof fn lemma_digit_run_end_is(s: Seq<u8>, i: int, m: int)
    requires
        0 <= i <= m <= s.len(),
        forall|k: int| i <= k < m ==> is_ascii_digit(s[k]),
        m == s.len() || !is_ascii_digit(s[m]),
    ensures
        digit_run_end(s, i) == m,
    decreases m - i,
{
    if i < m {
        lemma_digit_run_end_is(s, i + 1, m);
    }
}

/// The numeric value of the digits `s[i..e]`, most significant first.
pub open spec fn run_value(s: Seq<u8>, i: int, e: int) -> int
    decreases e - i,
{
    if e <= i {
        0
    } else {
        run_value(s, i, e - 1) * 10 + (s[e - 1] - 48)
    }
}

/// Ten to the `n`-th power.
pub open spec fn pow10(n: int) -> int
    decreases n,
{
    if n <= 0 {
        1
    } else {
        10 * pow10(n - 1)
    }
}

proof fn lemma_pow10_pos(n: int)
    ensures
        1 <= pow10(n),
    decreases n,
{
    if n > 0 {
        lemma_pow10_pos(n - 1);
    }
}

proof fn lemma_pow10_increases(m: int, n: int)
    requires
        m <= n,
    ensures
        pow10(m) <= pow10(n),
        1 <= pow10(m),
    decreases n - m,
{
    lemma_pow10_pos(m);
    if m < n {
        lemma_pow10_increases(m, n - 1);
    }
}

/// A digit run's value is bounded by ten to its length.
proof fn lemma_run_value_range(s: Seq<u8>, i: int, e: int)
    requires
        i <= e,
        forall|k: int| i <= k < e ==> is_ascii_digit(#[trigger] s[k]),
    ensures
        0 <= run_value(s, i, e) < pow10(e - i),
    decreases e - i,
{
    if i < e {
        lemma_run_value_range(s, i, e - 1);
        lemma_pow10_increases(0, e - i - 1);
    }
}

/// A digit run that does not begin with a zero reaches ten to one less
/// than its length.
proof fn lemma_run_value_lower(s: Seq<u8>, i: int, e: int)
    requires
        i < e,
        forall|k: int| i <= k < e ==> is_ascii_digit(#[trigger] s[k]),
        s[i] != 48,
    ensures
        run_value(s, i, e) >= pow10(e - i - 1),
    decreases e - i,
{
    if i == e - 1 {
        assert(run_value(s, i, e) == s[i] - 48);
    } else {
        lemma_run_value_lower(s, i, e - 1);
        lemma_pow10_increases(0, e - i - 2);
        assert(run_value(s, i, e) == run_value(s, i, e - 1) * 10 + (s[e - 1] - 48));
    }
}

/// A leading zero does not change a run's value.
proof fn lemma_run_value_skip_zero(s: Seq<u8>, i: int, e: int)
    requires
        i < e,
        s[i] == 48,
    ensures
        run_value(s, i, e) == run_value(s, i + 1, e),
    decreases e - i,
{
    if i + 1 < e {
        lemma_run_value_skip_zero(s, i, e - 1);
    } else {
        assert(run_value(s, i, e) == run_value(s, i, i) * 10 + (s[i] - 48));
        assert(run_value(s, i, i) == 0);
        assert(run_value(s, i + 1, e) == 0);
    }
}

/// Runs with the same digits have the same value.
proof fn lemma_run_value_equal(a: Seq<u8>, i: int, e: int, b: Seq<u8>, j: int, f: int)
    requires
        i <= e,
        e - i == f - j,
        forall|k: int| 0 <= k < e - i ==> a[i + k] == #[trigger] b[j + k],
    ensures
        run_value(a, i, e) == run_value(b, j, f),
    decreases e - i,
{
    if i < e {
        lemma_run_value_equal(a, i, e - 1, b, j, f - 1);
        assert(a[i + (e - i - 1)] == b[j + (e - i - 1)]);
    }
}

/// Of two equally long digit runs, the one that is smaller at the first
/// differing digit has the smaller value.
proof fn lemma_run_value_lex_less(
    a: Seq<u8>,
    i: int,
    e: int,
    b: Seq<u8>,
    j: int,
    f: int,
    t: int,
)
    requires
        i <= e,
        e - i == f - j,
        forall|k: int| i <= k < e ==> is_ascii_digit(#[trigger] a[k]),
        forall|k: int| j <= k < f ==> is_ascii_digit(#[trigger] b[k]),
        0 <= t < e - i,
        forall|k: int| 0 <= k < t ==> a[i + k] == #[trigger] b[j + k],
        a[i + t] < b[j + t],
    ensures
        run_value(a, i, e) < run_value(b, j, f),
    decreases e - i,
{
    if t == e - i - 1 {
        lemma_run_value_equal(a, i, e - 1, b, j, f - 1);
        assert(a[i + t] == a[e - 1] && b[j + t] == b[f - 1]);
    } else {
        lemma_run_value_lex_less(a, i, e - 1, b, j, f - 1, t);
        assert(is_ascii_digit(a[e - 1]) && is_ascii_digit(b[f - 1]));
        assert(run_value(a, i, e) == run_value(a, i, e - 1) * 10 + (a[e - 1] - 48));
        assert(run_value(b, j, f) == run_value(b, j, f - 1) * 10 + (b[f - 1] - 48));
    }
}

/// Three-way natural comparison of the suffixes `a[i..]` and `b[j..]`:
/// negative when the first is smaller, zero when they compare equal.
/// Digit runs compare by numeric value; other bytes compare
/// case-insensitively; a shorter string that is a prefix of the longer
/// one comes first.
pub open spec fn natural_cmp_from(a: Seq<u8>, b: Seq<u8>, i: int, j: int) -> int
    decreases (a.len() - i) + (b.len() - j),
    when 0 <= i <= a.len() && 0 <= j <= b.len()
{
    if i >= a.len() && j >= b.len() {
        0
    } else if i >= a.len() {
        -1
    } else if j >= b.len() {
        1
    } else if is_ascii_digit(a[i]) && is_ascii_digit(b[j]) {
        let ea = digit_run_end(a, i);
        let eb = digit_run_end(b, j);
        let va = run_value(a, i, ea);
        let vb = run_value(b, j, eb);
        if va < vb {
            -1
        } else if vb < va {
            1
        } else {
            proof {
                lemma_digit_run_end_bounds(a, i + 1);
                lemma_digit_run_end_bounds(b, j + 1);
            }
            natural_cmp_from(a, b, ea, eb)
        }
    } else {
        let ca = to_lower(a[i]);
        let cb = to_lower(b[j]);
        if ca < cb {
            -1
        } else if cb < ca {
            1
        } else {
            natural_cmp_from(a, b, i + 1, j + 1)
        }
    }
}

/// The whole-string natural comparison.
pub open spec fn natural_cmp(a: Seq<u8>, b: Seq<u8>) -> int {
    natural_cmp_from(a, b, 0, 0)
}

/// Natural less-or-equal: `a` does not compare after `b`.
pub open spec fn natural_le(a: Seq<u8>, b: Seq<u8>) -> bool {
    natural_cmp(a, b) <= 0
}

/// Swapping the operands negates the comparison, so of any two strings at
/// least one compares less-or-equal to the other.
pub proof fn lemma_natural_cmp_flip(a: Seq<u8>, b: Seq<u8>, i: int, j: int)
    requires
        0 <= i <= a.len(),
        0 <= j <= b.len(),
    ensures
        natural_cmp_from(a, b, i, j) == -natural_cmp_from(b, a, j, i),
    decreases (a.len() - i) + (b.len() - j),
{
    if i >= a.len() && j >= b.len() {
    } else if i >= a.len() || j >= b.len() {
    } else if is_ascii_digit(a[i]) && is_ascii_digit(b[j]) {
        let ea = digit_run_end(a, i);
        let eb = digit_run_end(b, j);
        lemma_digit_run_end_bounds(a, i + 1);
        lemma_digit_run_end_bounds(b, j + 1);
        if run_value(a, i, ea) == run_value(b, j, eb) {
            lemma_natural_cmp_flip(a, b, ea, eb);
        }
    } else {
        if to_lower(a[i]) == to_lower(b[j]) {
            lemma_natural_cmp_flip(a, b, i + 1, j + 1);
        }
    }
}


/// Compares two byte strings in the natural order, returning a negative,
/// zero, or positive sign as `a` orders before, with, or after `b`.
pub fn natural_compare(a: &[u8], b: &[u8]) -> (r: i8)
    ensures
        r as int == natural_cmp(a@, b@),
{
    let alen = a.len();
    let blen = b.len();
    let mut i: usize = 0;
    let mut j: usize = 0;
    loop
        invariant
            i <= alen,
            j <= blen,
            alen == a@.len(),
            blen == b@.len(),
            natural_cmp(a@, b@) == natural_cmp_from(a@, b@, i as int, j as int),
        ensures
            i == alen && j == blen,
            natural_cmp(a@, b@) == 0,
        decreases (alen - i) + (blen - j),
    {
        if i >= alen && j >= blen {
            break ;
        }
        if i >= alen {
            return -1;
        }
        if j >= blen {
            return 1;
        }
        let ca = *vstd::slice::slice_index_get(a, i);
        let cb = *vstd::slice::slice_index_get(b, j);
        if (48 <= ca && ca <= 57) && (48 <= cb && cb <= 57) {
            // Digit runs: find both run ends.
            let mut ea: usize = i;
            while ea < alen
                invariant
                    i <= ea <= alen,
                    alen == a@.len(),
                    forall|k: int| i <= k < ea ==> is_ascii_digit(a@[k]),
                ensures
                    i <= ea <= alen,
                    forall|k: int| i <= k < ea ==> is_ascii_digit(a@[k]),
                    ea == alen || !is_ascii_digit(a@[ea as int]),
                decreases alen - ea,
            {
                let c = *vstd::slice::slice_index_get(a, ea);
                if !(48 <= c && c <= 57) {
                    break ;
                }
                ea = ea + 1;
            }
            let mut eb: usize = j;
            while eb < blen
                invariant
                    j <= eb <= blen,
                    blen == b@.len(),
                    forall|k: int| j <= k < eb ==> is_ascii_digit(b@[k]),
                ensures
                    j <= eb <= blen,
                    forall|k: int| j <= k < eb ==> is_ascii_digit(b@[k]),
                    eb == blen || !is_ascii_digit(b@[eb as int]),
                decreases blen - eb,
            {
                let c = *vstd::slice::slice_index_get(b, eb);
                if !(48 <= c && c <= 57) {
                    break ;
                }
                eb = eb + 1;
            }
            proof {
                lemma_digit_run_end_is(a@, i as int, ea as int);
                lemma_digit_run_end_is(b@, j as int, eb as int);
            }
            // Strip leading zeros; the value is unchanged.
            let mut i2: usize = i;
            while i2 < ea
                invariant
                    i <= i2 <= ea <= alen,
                    alen == a@.len(),
                    run_value(a@, i as int, ea as int) == run_value(a@, i2 as int, ea as int),
                ensures
                    i <= i2 <= ea,
                    run_value(a@, i as int, ea as int) == run_value(a@, i2 as int, ea as int),
                    i2 == ea || a@[i2 as int] != 48,
                decreases ea - i2,
            {
                let c = *vstd::slice::slice_index_get(a, i2);
                if c != 48 {
                    break ;
                }
                proof {
                    lemma_run_value_skip_zero(a@, i2 as int, ea as int);
                }
                i2 = i2 + 1;
            }
            let mut j2: usize = j;
            while j2 < eb
                invariant
                    j <= j2 <= eb <= blen,
                    blen == b@.len(),
                    run_value(b@, j as int, eb as int) == run_value(b@, j2 as int, eb as int),
                ensures
                    j <= j2 <= eb,
                    run_value(b@, j as int, eb as int) == run_value(b@, j2 as int, eb as int),
                    j2 == eb || b@[j2 as int] != 48,
                decreases eb - j2,
            {
                let c = *vstd::slice::slice_index_get(b, j2);
                if c != 48 {
                    break ;
                }
                proof {
                    lemma_run_value_skip_zero(b@, j2 as int, eb as int);
                }
                j2 = j2 + 1;
            }
            let ghost va = run_value(a@, i as int, ea as int);
            let ghost vb = run_value(b@, j as int, eb as int);
            let la = ea - i2;
            let lb = eb - j2;
            if la < lb {
                proof {
                    lemma_run_value_range(a@, i2 as int, ea as int);
                    lemma_run_value_lower(b@, j2 as int, eb as int);
                    lemma_pow10_increases(la as int, lb as int - 1);
                }
                return -1;
            }
            if lb < la {
                proof {
                    lemma_run_value_range(b@, j2 as int, eb as int);
                    lemma_run_value_lower(a@, i2 as int, ea as int);
                    lemma_pow10_increases(lb as int, la as int - 1);
                }
                return 1;
            }
            // Equal stripped lengths: compare digit by digit.
            let mut t: usize = 0;
            while t < la
                invariant
                    t <= la,
                    la == lb,
                    i <= i2 <= ea <= alen,
                    j <= j2 <= eb <= blen,
                    la == ea - i2,
                    lb == eb - j2,
                    alen == a@.len(),
                    blen == b@.len(),
                    forall|k: int| i <= k < ea ==> is_ascii_digit(a@[k]),
                    forall|k: int| j <= k < eb ==> is_ascii_digit(b@[k]),
                    run_value(a@, i as int, ea as int) == run_value(a@, i2 as int, ea as int),
                    run_value(b@, j as int, eb as int) == run_value(b@, j2 as int, eb as int),
                    forall|k: int| 0 <= k < t ==> a@[i2 + k] == #[trigger] b@[j2 + k],
                ensures
                    t <= la,
                    forall|k: int| 0 <= k < t ==> a@[i2 + k] == #[trigger] b@[j2 + k],
                    t == la || a@[i2 + t] != b@[j2 + t],
                decreases la - t,
            {
                let da = *vstd::slice::slice_index_get(a, i2 + t);
                let db = *vstd::slice::slice_index_get(b, j2 + t);
                if da != db {
                    break ;
                }
                t = t + 1;
            }
            if t < la {
                let da = *vstd::slice::slice_index_get(a, i2 + t);
                let db = *vstd::slice::slice_index_get(b, j2 + t);
                if da < db {
                    proof {
                        lemma_run_value_lex_less(
                            a@,
                            i2 as int,
                            ea as int,
                            b@,
                            j2 as int,
                            eb as int,
                            t as int,
                        );
                    }
                    return -1;
                } else {
                    proof {
                        lemma_run_value_lex_less(
                            b@,
                            j2 as int,
                            eb as int,
                            a@,
                            i2 as int,
                            ea as int,
                            t as int,
                        );
                    }
                    return 1;
                }
            }
            proof {
                lemma_run_value_equal(a@, i2 as int, ea as int, b@, j2 as int, eb as int);
                assert(va == vb);
                lemma_digit_run_end_bounds(a@, i as int + 1);
                lemma_digit_run_end_bounds(b@, j as int + 1);
            }
            i = ea;
            j = eb;
        } else {
            let la: u8 = if 65 <= ca && ca <= 90 {
                ca + 32
            } else {
                ca
            };
            let lb: u8 = if 65 <= cb && cb <= 90 {
                cb + 32
            } else {
                cb
            };
            if la < lb {
                return -1;
            }
            if lb < la {
                return 1;
            }
            i = i + 1;
            j = j + 1;
        }
    }
    0
}



/// A byte below some digit that is itself no digit is below every
/// digit; one above some digit is above every digit: the digits are
/// contiguous in the byte order.
proof fn lemma_nondigit_vs_digits(x: u8)
    requires
        !is_ascii_digit(x),
    ensures
        forall|d: u8| is_ascii_digit(d) ==> (x < d <==> x < 48),
        forall|d: u8| is_ascii_digit(d) ==> (x > d <==> x > 57),
{
}

/// The natural comparison chains: whatever orders `a` up to `b` and `b`
/// up to `c` also orders `a` up to `c`, strictly when either link is
/// strict.
proof fn lemma_natural_cmp_from_trans(
    a: Seq<u8>,
    b: Seq<u8>,
    c: Seq<u8>,
    i: int,
    j: int,
    k: int,
)
    requires
        0 <= i <= a.len(),
        0 <= j <= b.len(),
        0 <= k <= c.len(),
        natural_cmp_from(a, b, i, j) <= 0,
        natural_cmp_from(b, c, j, k) <= 0,
    ensures
        natural_cmp_from(a, c, i, k) <= 0,
        natural_cmp_from(a, b, i, j) < 0 || natural_cmp_from(b, c, j, k) < 0
            ==> natural_cmp_from(a, c, i, k) < 0,
    decreases (a.len() - i) + (b.len() - j) + (c.len() - k),
{
    if i >= a.len() && k >= c.len() {
        // Both ends exhausted: a and c compare equal; neither premise
        // can be strict.
        if j < b.len() {
            assert(natural_cmp_from(b, c, j, k) == 1);
        }
    } else if i >= a.len() {
        // a exhausted, c not: strictly before.
    } else if k >= c.len() {
        // c exhausted, a not: contradicts the premises.
        if j >= b.len() {
            assert(natural_cmp_from(a, b, i, j) == 1);
        } else {
            assert(natural_cmp_from(b, c, j, k) == 1);
        }
    } else if j >= b.len() {
        // b exhausted while a goes on: the first premise fails.
        assert(natural_cmp_from(a, b, i, j) == 1);
    } else {
        let da = is_ascii_digit(a[i]);
        let db = is_ascii_digit(b[j]);
        let dc = is_ascii_digit(c[k]);
        lemma_digit_run_end_bounds(a, i);
        lemma_digit_run_end_bounds(b, j);
        lemma_digit_run_end_bounds(c, k);
        if da && db && dc {
            let ea = digit_run_end(a, i);
            let eb = digit_run_end(b, j);
            let ec = digit_run_end(c, k);
            let va = run_value(a, i, ea);
            let vb = run_value(b, j, eb);
            let vc = run_value(c, k, ec);
            assert(va <= vb && vb <= vc);
            if va == vc {
                assert(va == vb && vb == vc);
                lemma_digit_run_end_bounds(a, i + 1);
                lemma_digit_run_end_bounds(b, j + 1);
                lemma_digit_run_end_bounds(c, k + 1);
                lemma_natural_cmp_from_trans(a, b, c, ea, eb, ec);
            }
        } else if da && db && !dc {
            // b's digit is below c's non-digit byte, so that byte tops
            // every digit, a's first digit included.
            assert(to_lower(b[j]) == b[j] && to_lower(a[i]) == a[i]);
            assert(b[j] < to_lower(c[k]));
            lemma_nondigit_vs_digits(to_lower(c[k]));
            assert(a[i] < to_lower(c[k]));
        } else if da && !db && dc {
            // Impossible: b's byte would have to top every digit and
            // also sit below one.
            assert(to_lower(a[i]) == a[i]);
            assert(a[i] < to_lower(b[j]));
            lemma_nondigit_vs_digits(to_lower(b[j]));
            assert(to_lower(c[k]) == c[k]);
            assert(to_lower(b[j]) < c[k]);
            assert(false);
        } else if da && !db && !dc {
            assert(to_lower(a[i]) == a[i]);
            assert(a[i] < to_lower(b[j]));
            assert(to_lower(b[j]) <= to_lower(c[k]));
        } else if !da && db && dc {
            assert(to_lower(b[j]) == b[j]);
            assert(to_lower(a[i]) < b[j]);
            lemma_nondigit_vs_digits(to_lower(a[i]));
            assert(to_lower(c[k]) == c[k]);
            assert(to_lower(a[i]) < c[k]);
        } else if !da && db && !dc {
            assert(to_lower(b[j]) == b[j]);
            assert(to_lower(a[i]) < b[j]);
            lemma_nondigit_vs_digits(to_lower(a[i]));
            assert(b[j] < to_lower(c[k]));
            assert(to_lower(a[i]) < to_lower(c[k]));
        } else if !da && !db && dc {
            assert(to_lower(a[i]) <= to_lower(b[j]));
            assert(to_lower(c[k]) == c[k]);
            assert(to_lower(b[j]) < c[k]);
            lemma_nondigit_vs_digits(to_lower(b[j]));
            lemma_nondigit_vs_digits(to_lower(a[i]));
            assert(to_lower(a[i]) < c[k]);
        } else {
            assert(to_lower(a[i]) <= to_lower(b[j]) && to_lower(b[j]) <= to_lower(c[k]));
            if to_lower(a[i]) == to_lower(c[k]) {
                lemma_natural_cmp_from_trans(a, b, c, i + 1, j + 1, k + 1);
            }
        }
    }
}

/// The natural order is transitive, stated of whole strings.
pub proof fn lemma_natural_le_trans(a: Seq<u8>, b: Seq<u8>, c: Seq<u8>)
    requires
        natural_le(a, b),
        natural_le(b, c),
    ensures
        natural_le(a, c),
{
    lemma_natural_cmp_from_trans(a, b, c, 0, 0, 0);
}

/// A strict link keeps a chain strict: below-or-with `b` and strictly
/// below `c` places `a` strictly below `c`.
pub proof fn lemma_natural_le_lt_trans(a: Seq<u8>, b: Seq<u8>, c: Seq<u8>)
    requires
        natural_le(a, b),
        natural_cmp(b, c) < 0,
    ensures
        natural_cmp(a, c) < 0,
{
    lemma_natural_cmp_from_trans(a, b, c, 0, 0, 0);
}

} // verus!
