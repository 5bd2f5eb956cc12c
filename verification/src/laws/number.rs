//! What numbers in text are worth, and how they are written.
use crate::text::{digit_char, digit_value, digits, push_digits, read_short_number, value};
use vstd::arithmetic::power::pow;
use vstd::prelude::*;

verus! {

/// What a digit of a number in the given base is worth: `0` to `9`, then `a` to `f` in
/// either case; -1 where the character is no such digit.
pub open spec fn worth(b: u8, base: int) -> int {
    let d = if '0' as int <= b <= '9' as int {
        b - '0' as int
    } else if 'a' as int <= b <= 'f' as int {
        10 + b - 'a' as int
    } else if 'A' as int <= b <= 'F' as int {
        10 + b - 'A' as int
    } else {
        -1
    };
    if d < base {
        d
    } else {
        -1
    }
}

/// Whether a text is made of digits of the given base alone.
pub open spec fn all_digits(s: Seq<u8>, base: int) -> bool {
    forall|i: int| 0 <= i < s.len() ==> worth(#[trigger] s[i], base) >= 0
}

/// The digits of a text, each times the power of the base that its place stands for.
pub open spec fn sum(s: Seq<u8>, base: int) -> int
    decreases s.len(),
{
    if s.len() == 0 {
        0
    } else {
        worth(s[0], base) * pow(base, (s.len() - 1) as nat) + sum(s.skip(1), base)
    }
}

/// Whether a text is the number `n` as it is written: digits that are worth `n`, letters
/// among them in lower case, and no zero in front of another digit.
pub open spec fn is_written(s: Seq<u8>, n: int, base: int) -> bool {
    &&& s.len() > 0
    &&& all_digits(s, base)
    &&& sum(s, base) == n
    &&& s.len() > 1 ==> s[0] != '0' as int
    &&& forall|i: int| 0 <= i < s.len() ==> !('A' as int <= #[trigger] s[i] <= 'F' as int)
}

proof fn lemma_sum_last(s: Seq<u8>, base: int)
    requires
        s.len() > 0,
        2 <= base,
    ensures
        sum(s, base) == sum(s.drop_last(), base) * base + worth(s.last(), base),
    decreases s.len(),
{
    let n = s.len();
    if n == 1 {
        vstd::arithmetic::power::lemma_pow0(base);
        assert(s.skip(1) =~= Seq::empty());
        assert(s.drop_last() =~= Seq::empty());
        assert(sum(s.drop_last(), base) == 0);
        assert(0 * base == 0) by (nonlinear_arith);
        assert(worth(s[0], base) * 1 == worth(s[0], base)) by (nonlinear_arith);
    } else {
        let front = s.drop_last();
        let rest = s.skip(1);
        lemma_sum_last(rest, base);
        assert(rest.drop_last() =~= front.skip(1));
        assert(rest.last() == s.last());
        assert(front[0] == s[0]);
        reveal(pow);
        let p = pow(base, (n - 2) as nat);
        assert(pow(base, (n - 1) as nat) == base * p);
        let w = worth(s[0], base);
        let m = sum(front.skip(1), base);
        assert(w * (base * p) + m * base == (w * p + m) * base) by (nonlinear_arith);
    }
}

/// Digits are worth their sum, and what is not made of digits alone is no number.
pub proof fn law_number_is_sum(s: Seq<u8>, base: nat)
    requires
        2 <= base <= 16,
    ensures
        value(s, base) is Some <==> all_digits(s, base as int),
        value(s, base) matches Some(v) ==> v == sum(s, base as int),
    decreases s.len(),
{
    if s.len() > 0 {
        let front = s.drop_last();
        law_number_is_sum(front, base);
        lemma_sum_last(s, base as int);
        assert(digit_value(s.last(), base) is Some <==> worth(s.last(), base as int) >= 0);
        if all_digits(s, base as int) {
            assert forall|i: int| 0 <= i < front.len() implies worth(
                #[trigger] front[i],
                base as int,
            ) >= 0 by {
                assert(front[i] == s[i]);
            }
            assert(worth(s[s.len() - 1], base as int) >= 0);
        } else if all_digits(front, base as int) && worth(s.last(), base as int) >= 0 {
            assert forall|i: int| 0 <= i < s.len() implies worth(#[trigger] s[i], base as int)
                >= 0 by {
                if i < s.len() - 1 {
                    assert(front[i] == s[i]);
                }
            }
        }
    }
}

/// Zeros in front do not change what digits are worth.
pub proof fn law_leading_zeros(zeros: Seq<u8>, s: Seq<u8>, base: nat)
    requires
        2 <= base <= 16,
        forall|i: int| 0 <= i < zeros.len() ==> #[trigger] zeros[i] == '0' as int,
    ensures
        value(zeros + s, base) == value(s, base),
    decreases zeros.len(),
{
    if zeros.len() == 0 {
        assert(zeros + s =~= s);
    } else {
        let t = zeros + s;
        assert(t.skip(1) =~= zeros.skip(1) + s);
        law_leading_zeros(zeros.skip(1), s, base);
        law_number_is_sum(t, base);
        law_number_is_sum(t.skip(1), base);
        let b = base as int;
        assert(t[0] == zeros[0]);
        assert(worth(t[0], b) == 0);
        assert(0 * pow(b, (t.len() - 1) as nat) == 0) by (nonlinear_arith);
        assert(sum(t, b) == sum(t.skip(1), b));
        if all_digits(t, b) {
            assert forall|i: int| 0 <= i < t.skip(1).len() implies worth(#[trigger] t.skip(1)[i], b)
                >= 0 by {
                assert(t.skip(1)[i] == t[i + 1]);
            }
        } else if all_digits(t.skip(1), b) {
            assert forall|i: int| 0 <= i < t.len() implies worth(#[trigger] t[i], b) >= 0 by {
                if i > 0 {
                    assert(t[i] == t.skip(1)[i - 1]);
                }
            }
        }
    }
}

/// A number has one written form, and that is how it is written.
pub proof fn law_number_written(n: nat, base: nat)
    requires
        2 <= base <= 16,
    ensures
        is_written(digits(n, base), n as int, base as int),
        forall|s: Seq<u8>| #[trigger]
            is_written(s, n as int, base as int) ==> s == digits(n, base),
{
    lemma_digits_written(n, base);
    assert forall|s: Seq<u8>| #[trigger] is_written(s, n as int, base as int) implies s == digits(
        n,
        base,
    ) by {
        lemma_written_once(s, n, base);
    }
}

proof fn lemma_digits_written(n: nat, base: nat)
    requires
        2 <= base <= 16,
    ensures
        is_written(digits(n, base), n as int, base as int),
        n > 0 ==> digits(n, base)[0] != '0' as int,
    decreases n,
{
    let s = digits(n, base);
    let b = base as int;
    crate::text::lemma_value_of_digits(n, base);
    law_number_is_sum(s, base);
    crate::text::lemma_digits_chars(n, base);
    if n >= base {
        assert(n / base < n && n / base > 0) by (nonlinear_arith)
            requires
                2 <= base <= n,
        ;
        lemma_digits_written(n / base, base);
        assert(s[0] == digits(n / base, base)[0]);
    }
}

proof fn lemma_sum_positive(s: Seq<u8>, base: int)
    requires
        2 <= base <= 16,
        all_digits(s, base),
    ensures
        sum(s, base) >= 0,
        s.len() > 0 && s[0] != '0' as int ==> sum(s, base) > 0,
    decreases s.len(),
{
    if s.len() > 0 {
        let front = s.drop_last();
        assert forall|i: int| 0 <= i < front.len() implies worth(#[trigger] front[i], base) >= 0 by {
            assert(front[i] == s[i]);
        }
        lemma_sum_positive(front, base);
        lemma_sum_last(s, base);
        assert(worth(s[s.len() - 1], base) >= 0);
        let m = sum(front, base);
        assert(m >= 0 ==> m * base >= 0) by (nonlinear_arith)
            requires
                2 <= base,
        ;
        assert(m > 0 ==> m * base > 0) by (nonlinear_arith)
            requires
                2 <= base,
        ;
    }
}

proof fn lemma_written_once(s: Seq<u8>, n: nat, base: nat)
    requires
        2 <= base <= 16,
        is_written(s, n as int, base as int),
    ensures
        s == digits(n, base),
    decreases s.len(),
{
    let b = base as int;
    let front = s.drop_last();
    let d = worth(s.last(), b);
    lemma_sum_last(s, b);
    assert(d >= 0) by {
        assert(worth(s[s.len() - 1], b) >= 0);
    }
    assert(s.last() == digit_char(d as nat)) by {
        assert(!('A' as int <= s[s.len() - 1] <= 'F' as int));
    }
    if s.len() == 1 {
        assert(front =~= Seq::empty());
        assert(sum(front, b) == 0);
        assert(0 * b == 0) by (nonlinear_arith);
        assert(s =~= seq![digit_char(n)]);
    } else {
        assert forall|i: int| 0 <= i < front.len() implies worth(#[trigger] front[i], b) >= 0 && !(
        'A' as int <= front[i] <= 'F' as int) by {
            assert(front[i] == s[i]);
        }
        lemma_sum_positive(front, b);
        let m = sum(front, b);
        assert(front[0] == s[0]);
        assert(m > 0);
        assert(n / base == m && n % base == d && n >= base) by (nonlinear_arith)
            requires
                n == m * b + d,
                0 <= d < b,
                b == base,
                m > 0,
        ;
        lemma_written_once(front, m as nat, base);
        assert(s =~= front.push(s.last()));
    }
}

/// Reading a short number gives what its digits are worth, and nothing where there is
/// something else than digits.
pub proof fn law_short_number(s: &[u8], base: u32, n: Option<u32>)
    requires
        2 <= base <= 16,
        call_ensures(read_short_number, (s, base), n),
    ensures
        n is Some <==> all_digits(s@, base as int),
        n matches Some(n) ==> n == sum(s@, base as int),
{
    law_number_is_sum(s@, base as nat);
}

/// What is appended for a number is the number as it is written, and nothing else.
pub proof fn law_push_digits(out: &mut Vec<u8>, n: u16, base: u16)
    requires
        2 <= base <= 16,
        call_ensures(push_digits, (out, n, base), ()),
    ensures
        final(out)@.take(old(out)@.len() as int) == old(out)@,
        is_written(final(out)@.skip(old(out)@.len() as int), n as int, base as int),
{
    law_number_written(n as nat, base as nat);
    let k = old(out)@.len() as int;
    assert(final(out)@.take(k) =~= old(out)@);
    assert(final(out)@.skip(k) =~= digits(n as nat, base as nat));
}

} // verus!
