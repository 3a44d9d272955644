//! The probing tool reports stream durations as decimal-seconds text
//! (`"95.433000"`). The planner counts in whole milliseconds, so the text
//! is parsed here: integer seconds, an optional dot, fraction digits.
//! Any fraction finer than a millisecond rounds up, never down — a plan
//! must never end short of the true duration.

use vstd::arithmetic::div_mod::{lemma_fundamental_div_mod, lemma_mod_bound};
use vstd::prelude::*;
use vstd::string::StrSliceExecFns;

verus! {

/// Numeric value of a decimal digit character; 10 for any other character.
pub open spec fn digit_val(c: char) -> int {
    if c == '0' {
        0
    } else if c == '1' {
        1
    } else if c == '2' {
        2
    } else if c == '3' {
        3
    } else if c == '4' {
        4
    } else if c == '5' {
        5
    } else if c == '6' {
        6
    } else if c == '7' {
        7
    } else if c == '8' {
        8
    } else if c == '9' {
        9
    } else {
        10
    }
}

/// Decimal digit?
pub open spec fn is_digit(c: char) -> bool {
    digit_val(c) < 10
}

/// Every character of `s` is a decimal digit.
pub open spec fn all_digits(s: Seq<char>) -> bool {
    forall|k: int| 0 <= k < s.len() ==> is_digit(#[trigger] s[k])
}

/// Value of a digit run read in base ten.
pub open spec fn digits_val(s: Seq<char>) -> int
    decreases s.len(),
{
    if s.len() == 0 {
        0
    } else {
        digits_val(s.drop_last()) * 10 + digit_val(s.last())
    }
}

/// Index of the first '.' in `s`, or `s.len()` where none occurs.
pub open spec fn dot_index(s: Seq<char>) -> int
    decreases s.len(),
{
    if s.len() == 0 {
        0
    } else if s[0] == '.' {
        0
    } else {
        1 + dot_index(s.subrange(1, s.len() as int))
    }
}

/// Well-formed decimal-seconds text: a non-empty digit run, optionally
/// followed by a dot and one more non-empty digit run.
pub open spec fn wf_duration_text(s: Seq<char>) -> bool {
    let d = dot_index(s);
    &&& d >= 1
    &&& all_digits(s.take(d))
    &&& (d < s.len() ==> d + 1 < s.len() && all_digits(s.skip(d + 1)))
}

/// The whole milliseconds the first three fraction digits name.
pub open spec fn frac_scaled(f: Seq<char>) -> int {
    if f.len() >= 3 {
        digits_val(f.take(3))
    } else if f.len() == 2 {
        digits_val(f) * 10
    } else if f.len() == 1 {
        digits_val(f) * 100
    } else {
        0
    }
}

/// One where some digit beyond the millisecond is non-zero: such a value
/// rounds up to the next millisecond.
pub open spec fn frac_carry(f: Seq<char>) -> int {
    if exists|k: int| 3 <= k < f.len() && (#[trigger] f[k]) != '0' {
        1int
    } else {
        0int
    }
}

/// Milliseconds named by well-formed decimal-seconds text, rounded up.
pub open spec fn duration_text_ms(s: Seq<char>) -> int {
    let d = dot_index(s);
    let f = if d < s.len() {
        s.skip(d + 1)
    } else {
        Seq::<char>::empty()
    };
    digits_val(s.take(d)) * 1000 + frac_scaled(f) + frac_carry(f)
}

proof fn lemma_dot_index_at(s: Seq<char>, i: int)
    requires
        0 <= i <= s.len(),
        forall|k: int| 0 <= k < i ==> s[k] != '.',
        i < s.len() ==> s[i] == '.',
    ensures
        dot_index(s) == i,
    decreases s.len(),
{
    if s.len() == 0 {
    } else if s[0] == '.' {
        assert(i == 0);
    } else {
        let tail = s.subrange(1, s.len() as int);
        assert(forall|k: int| 0 <= k < i - 1 ==> #[trigger] tail[k] == s[k + 1]);
        lemma_dot_index_at(tail, i - 1);
    }
}

proof fn lemma_digits_val_nonneg(s: Seq<char>)
    requires
        all_digits(s),
    ensures
        digits_val(s) >= 0,
    decreases s.len(),
{
    if s.len() > 0 {
        assert(forall|k: int| 0 <= k < s.len() - 1 ==> #[trigger] s.drop_last()[k] == s[k]);
        lemma_digits_val_nonneg(s.drop_last());
        assert(digit_val(s.last()) >= 0);
        assert(digits_val(s.drop_last()) * 10 >= 0) by (nonlinear_arith)
            requires
                digits_val(s.drop_last()) >= 0,
        ;
    }
}

/// One more digit on the right: the value gains a factor of ten plus the
/// digit.
proof fn lemma_digits_val_take_step(s: Seq<char>, i: int)
    requires
        0 <= i < s.len(),
    ensures
        digits_val(s.take(i + 1)) == digits_val(s.take(i)) * 10 + digit_val(s[i]),
{
    assert(s.take(i + 1).drop_last() =~= s.take(i));
    assert(s.take(i + 1).last() == s[i]);
}

/// A digit run is worth at least any of its prefixes.
proof fn lemma_digits_val_prefix_le(s: Seq<char>, i: int)
    requires
        all_digits(s),
        0 <= i <= s.len(),
    ensures
        digits_val(s.take(i)) <= digits_val(s),
    decreases s.len() - i,
{
    if i == s.len() {
        assert(s.take(i) =~= s);
    } else {
        lemma_digits_val_take_step(s, i);
        assert(all_digits(s.take(i))) by {
            assert(forall|k: int| 0 <= k < i ==> #[trigger] s.take(i)[k] == s[k]);
        }
        lemma_digits_val_nonneg(s.take(i));
        assert(digits_val(s.take(i)) * 10 >= digits_val(s.take(i))) by (nonlinear_arith)
            requires
                digits_val(s.take(i)) >= 0,
        ;
        assert(digit_val(s[i]) >= 0);
        lemma_digits_val_prefix_le(s, i + 1);
    }
}

/// A run of at most three digits stays under a thousand.
proof fn lemma_digits_val_small(s: Seq<char>)
    requires
        all_digits(s),
        s.len() <= 3,
    ensures
        0 <= digits_val(s) <= 999,
        s.len() <= 2 ==> digits_val(s) <= 99,
        s.len() <= 1 ==> digits_val(s) <= 9,
    decreases s.len(),
{
    lemma_digits_val_nonneg(s);
    if s.len() > 0 {
        assert(forall|k: int| 0 <= k < s.len() - 1 ==> #[trigger] s.drop_last()[k] == s[k]);
        lemma_digits_val_small(s.drop_last());
        assert(digit_val(s.last()) <= 9);
    }
}

/// Numeric value of one character, 10 for a non-digit.
fn digit_of(c: char) -> (v: u64)
    ensures
        v == digit_val(c),
{
    match c {
        '0' => 0,
        '1' => 1,
        '2' => 2,
        '3' => 3,
        '4' => 4,
        '5' => 5,
        '6' => 6,
        '7' => 7,
        '8' => 8,
        '9' => 9,
        _ => 10,
    }
}

/// Parse decimal-seconds text into whole milliseconds, rounding any
/// fraction beyond the millisecond up. Succeeds exactly on digit runs of
/// the form `digits` or `digits.digits` whose millisecond value fits a
/// `u64`; anything else — empty parts, stray characters, a second dot, a
/// value past the limit — is `None`.
#[verifier::loop_isolation(false)]
pub fn parse_duration_ms(s: &str) -> (r: Option<u64>)
    ensures
        r is Some <==> (wf_duration_text(s@) && duration_text_ms(s@) <= u64::MAX),
        r matches Some(v) ==> v == duration_text_ms(s@),
{
    let len = s.unicode_len();
    let mut d: usize = 0;
    let mut found = false;
    while d < len && !found
        invariant
            d <= len,
            len == s@.len(),
            forall|k: int| 0 <= k < d ==> s@[k] != '.',
            found ==> d < len && s@[d as int] == '.',
        decreases 2 * (len - d) + (if found {
            0int
        } else {
            1int
        }),
    {
        if s.get_char(d) == '.' {
            found = true;
        } else {
            d = d + 1;
        }
    }
    proof {
        lemma_dot_index_at(s@, d as int);
    }
    if d == 0 {
        return None;
    }
    let ghost intp = s@.take(d as int);
    let mut acc: u64 = 0;
    let mut i: usize = 0;
    while i < d
        invariant
            i <= d,
            forall|k: int| 0 <= k < i ==> is_digit(#[trigger] s@[k]),
            acc == digits_val(s@.take(i as int)),
        decreases d - i,
    {
        let c = s.get_char(i);
        let dv = digit_of(c);
        if dv >= 10 {
            proof {
                assert(intp[i as int] == s@[i as int]);
                assert(!all_digits(intp)) by {
                    if all_digits(intp) {
                        assert(is_digit(intp[i as int]));
                        assert(false);
                    }
                }
            }
            return None;
        }
        if acc > (u64::MAX - dv) / 10 {
            proof {
                let m = u64::MAX - dv;
                lemma_fundamental_div_mod(m as int, 10);
                lemma_mod_bound(m as int, 10);
                lemma_digits_val_take_step(s@, i as int);
                assert(acc * 10 + dv > u64::MAX) by (nonlinear_arith)
                    requires
                        acc as int >= (m as int) / 10 + 1,
                        m as int == 10 * ((m as int) / 10) + (m as int) % 10,
                        0 <= (m as int) % 10 < 10,
                        m == u64::MAX - dv,
                ;
                if wf_duration_text(s@) && duration_text_ms(s@) <= u64::MAX {
                    assert(all_digits(intp));
                    assert(s@.take(i as int + 1) =~= intp.take(i as int + 1));
                    lemma_digits_val_prefix_le(intp, i as int + 1);
                    lemma_digits_val_nonneg(intp);
                    let fr = if (d as int) < s@.len() {
                        s@.skip(d as int + 1)
                    } else {
                        Seq::<char>::empty()
                    };
                    assert(all_digits(fr));
                    if fr.len() >= 3 {
                        assert(all_digits(fr.take(3))) by {
                            assert(forall|k: int|
                                0 <= k < 3 ==> #[trigger] fr.take(3)[k] == fr[k]);
                        }
                        lemma_digits_val_small(fr.take(3));
                    } else {
                        lemma_digits_val_small(fr);
                    }
                    assert(frac_scaled(fr) >= 0) by (nonlinear_arith)
                        requires
                            fr.len() < 3 ==> digits_val(fr) >= 0,
                            fr.len() >= 3 ==> digits_val(fr.take(3)) >= 0,
                            frac_scaled(fr) == (if fr.len() >= 3 {
                                digits_val(fr.take(3))
                            } else if fr.len() == 2 {
                                digits_val(fr) * 10
                            } else if fr.len() == 1 {
                                digits_val(fr) * 100
                            } else {
                                0int
                            }),
                    ;
                    assert(digits_val(intp) * 1000 >= digits_val(intp)) by (nonlinear_arith)
                        requires
                            digits_val(intp) >= 0,
                    ;
                    assert(duration_text_ms(s@) > u64::MAX);
                    assert(false);
                }
            }
            return None;
        }
        proof {
            let m = u64::MAX - dv;
            lemma_fundamental_div_mod(m as int, 10);
            lemma_mod_bound(m as int, 10);
            assert(acc * 10 + dv <= u64::MAX) by (nonlinear_arith)
                requires
                    acc as int <= (m as int) / 10,
                    m as int == 10 * ((m as int) / 10) + (m as int) % 10,
                    0 <= (m as int) % 10 < 10,
                    m == u64::MAX - dv,
            ;
            lemma_digits_val_take_step(s@, i as int);
        }
        acc = acc * 10 + dv;
        i = i + 1;
    }
    proof {
        assert(all_digits(intp)) by {
            assert(forall|k: int| 0 <= k < d ==> #[trigger] intp[k] == s@[k]);
        }
        assert(acc == digits_val(intp));
        lemma_digits_val_nonneg(intp);
    }
    let ghost fr = if (d as int) < s@.len() {
        s@.skip(d as int + 1)
    } else {
        Seq::<char>::empty()
    };
    let mut fracval: u64 = 0;
    let mut carry: u64 = 0;
    if found {
        if d + 1 >= len {
            return None;
        }
        let mut j: usize = d + 1;
        while j < len
            invariant
                d + 1 <= j <= len,
                found,
                d + 1 < len,
                fr == s@.skip(d as int + 1),
                fr.len() == len - d - 1,
                forall|k: int| 0 <= k < j - d - 1 ==> is_digit(#[trigger] fr[k]),
                fracval == digits_val(fr.take(if j - d - 1 <= 3 {
                    (j - d - 1) as int
                } else {
                    3int
                })),
                fracval <= 999,
                j - d - 1 <= 1 ==> fracval <= 9,
                j - d - 1 <= 2 ==> fracval <= 99,
                carry <= 1,
                (carry == 1) <==> exists|k: int|
                    3 <= k < j - d - 1 && (#[trigger] fr[k]) != '0',
            decreases len - j,
        {
            let ghost p = j - d - 1;
            proof {
                assert(fr[p as int] == s@[j as int]);
            }
            let c = s.get_char(j);
            let dv = digit_of(c);
            if dv >= 10 {
                proof {
                    assert(!all_digits(fr)) by {
                        if all_digits(fr) {
                            assert(is_digit(fr[p as int]));
                            assert(false);
                        }
                    }
                }
                return None;
            }
            if j - d - 1 < 3 {
                proof {
                    lemma_digits_val_take_step(fr, p as int);
                }
                fracval = fracval * 10 + dv;
            } else {
                if dv > 0 {
                    proof {
                        assert(fr[p as int] != '0');
                    }
                    carry = 1;
                }
            }
            j = j + 1;
        }
        proof {
            assert(all_digits(fr)) by {
                assert(forall|k: int| 0 <= k < fr.len() ==> is_digit(#[trigger] fr[k]));
            }
            if fr.len() >= 3 {
                assert(fracval == digits_val(fr.take(3)));
            } else {
                assert(fr.take(fr.len() as int) =~= fr);
            }
            assert((carry == 1) <==> frac_carry(fr) == 1);
        }
        if len - d - 1 == 1 {
            fracval = fracval * 100;
        } else if len - d - 1 == 2 {
            fracval = fracval * 10;
        }
        proof {
            assert(fracval == frac_scaled(fr));
        }
    } else {
        proof {
            assert(d == len);
            assert(fr =~= Seq::<char>::empty());
        }
    }
    let fracms = fracval + carry;
    proof {
        assert(fracms == frac_scaled(fr) + frac_carry(fr));
        assert(fracms <= 1000);
    }
    if acc > (u64::MAX - fracms) / 1000 {
        proof {
            let m = u64::MAX - fracms;
            lemma_fundamental_div_mod(m as int, 1000);
            lemma_mod_bound(m as int, 1000);
            assert(acc * 1000 + fracms > u64::MAX) by (nonlinear_arith)
                requires
                    acc as int >= (m as int) / 1000 + 1,
                    m as int == 1000 * ((m as int) / 1000) + (m as int) % 1000,
                    0 <= (m as int) % 1000 < 1000,
                    m == u64::MAX - fracms,
            ;
            assert(duration_text_ms(s@) > u64::MAX);
        }
        return None;
    }
    proof {
        let m = u64::MAX - fracms;
        lemma_fundamental_div_mod(m as int, 1000);
        lemma_mod_bound(m as int, 1000);
        assert(acc * 1000 + fracms <= u64::MAX) by (nonlinear_arith)
            requires
                acc as int <= (m as int) / 1000,
                m as int == 1000 * ((m as int) / 1000) + (m as int) % 1000,
                0 <= (m as int) % 1000 < 1000,
                m == u64::MAX - fracms,
        ;
        assert(wf_duration_text(s@));
        assert(duration_text_ms(s@) == acc * 1000 + fracms);
    }
    Some(acc * 1000 + fracms)
}

} // verus!
