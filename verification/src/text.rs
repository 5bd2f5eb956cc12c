//! Numbers and separated fields in ASCII text.
use vstd::prelude::*;
use vstd::slice::slice_subrange;

verus! {

/// The place of the first `sep` in `s`; the length of `s` where there is none.
pub open spec fn first_index(s: Seq<u8>, sep: u8) -> int
    decreases s.len(),
{
    if s.len() == 0 || s[0] == sep {
        0
    } else {
        1 + first_index(s.skip(1), sep)
    }
}

/// The pieces of `s` between one `sep` and the next. There is always at least one.
pub open spec fn fields(s: Seq<u8>, sep: u8) -> Seq<Seq<u8>>
    decreases s.len(),
{
    let k = first_index(s, sep);
    if 0 <= k < s.len() {
        seq![s.take(k)] + fields(s.skip(k + 1), sep)
    } else {
        seq![s]
    }
}

/// The pieces with a `sep` between each and the next.
pub open spec fn join(parts: Seq<Seq<u8>>, sep: u8) -> Seq<u8>
    decreases parts.len(),
{
    if parts.len() == 0 {
        Seq::empty()
    } else if parts.len() == 1 {
        parts[0]
    } else {
        parts[0] + seq![sep] + join(parts.skip(1), sep)
    }
}

/// The character for the digit `d`, in lower case.
pub open spec fn digit_char(d: nat) -> u8 {
    if d < 10 {
        (0x30 + d) as u8
    } else {
        (0x57 + d) as u8
    }
}

/// What the character `b` is worth as a digit of `base`, if it is one.
pub open spec fn digit_value(b: u8, base: nat) -> Option<nat> {
    let d: int = if 0x30 <= b <= 0x39 {
        b - 0x30
    } else if 0x61 <= b <= 0x66 {
        b - 0x57
    } else if 0x41 <= b <= 0x46 {
        b - 0x37
    } else {
        base as int
    };
    if d < base {
        Some(d as nat)
    } else {
        None
    }
}

/// The number `n` written in `base`, without leading zeros.
pub open spec fn digits(n: nat, base: nat) -> Seq<u8>
    decreases n,
{
    if base < 2 || n < base {
        seq![digit_char(n)]
    } else {
        proof {
            assert(n / base < n) by (nonlinear_arith)
                requires
                    2 <= base <= n,
            ;
        }
        digits(n / base, base).push(digit_char(n % base))
    }
}

/// The number that the digits `s` stand for, if they are all digits of `base`.
pub open spec fn value(s: Seq<u8>, base: nat) -> Option<nat>
    decreases s.len(),
{
    if s.len() == 0 {
        Some(0)
    } else {
        match (value(s.drop_last(), base), digit_value(s.last(), base)) {
            (Some(v), Some(d)) => Some(v * base + d),
            _ => None,
        }
    }
}

pub proof fn lemma_first_index(s: Seq<u8>, sep: u8)
    ensures
        0 <= first_index(s, sep) <= s.len(),
        forall|j: int| 0 <= j < first_index(s, sep) ==> s[j] != sep,
        first_index(s, sep) < s.len() ==> s[first_index(s, sep)] == sep,
    decreases s.len(),
{
    if s.len() > 0 && s[0] != sep {
        lemma_first_index(s.skip(1), sep);
        assert forall|j: int| 0 <= j < first_index(s, sep) implies s[j] != sep by {
            if j > 0 {
                assert(s.skip(1)[j - 1] == s[j]);
            }
        }
    }
}

/// `k` is the first place of `sep` if `sep` is there, or the text ends, and not before.
pub proof fn lemma_first_index_is(s: Seq<u8>, sep: u8, k: int)
    requires
        0 <= k <= s.len(),
        forall|j: int| 0 <= j < k ==> s[j] != sep,
        k < s.len() ==> s[k] == sep,
    ensures
        first_index(s, sep) == k,
{
    lemma_first_index(s, sep);
}

/// Splitting undoes joining where no piece holds the separator.
pub proof fn lemma_fields_of_join(parts: Seq<Seq<u8>>, sep: u8)
    requires
        parts.len() > 0,
        forall|i: int| 0 <= i < parts.len() ==> !(#[trigger] parts[i]).contains(sep),
    ensures
        fields(join(parts, sep), sep) == parts,
    decreases parts.len(),
{
    let text = join(parts, sep);
    let n = parts[0].len() as int;
    assert(!parts[0].contains(sep));
    if parts.len() == 1 {
        assert forall|j: int| 0 <= j < n implies text[j] != sep by {
            assert(parts[0].contains(parts[0][j]));
        }
        lemma_first_index_is(text, sep, n);
        assert(parts =~= seq![text]);
    } else {
        let rest = parts.skip(1);
        assert forall|j: int| 0 <= j < n implies text[j] != sep by {
            assert(parts[0].contains(parts[0][j]));
        }
        lemma_first_index_is(text, sep, n);
        assert forall|i: int| 0 <= i < rest.len() implies !(#[trigger] rest[i]).contains(sep) by {
            assert(!parts[i + 1].contains(sep));
        }
        lemma_fields_of_join(rest, sep);
        assert(text.take(n) =~= parts[0]);
        assert(text.skip(n + 1) =~= join(rest, sep));
        assert(parts =~= seq![parts[0]] + rest);
    }
}

/// A joined text holds a byte other than the separator only if some piece does.
pub proof fn lemma_join_lacks(parts: Seq<Seq<u8>>, sep: u8, b: u8)
    requires
        b != sep,
        forall|i: int| 0 <= i < parts.len() ==> !(#[trigger] parts[i]).contains(b),
    ensures
        !join(parts, sep).contains(b),
    decreases parts.len(),
{
    let text = join(parts, sep);
    if parts.len() == 1 {
        assert(!parts[0].contains(b));
    } else if parts.len() > 1 {
        let rest = parts.skip(1);
        assert forall|i: int| 0 <= i < rest.len() implies !(#[trigger] rest[i]).contains(b) by {
            assert(!parts[i + 1].contains(b));
        }
        lemma_join_lacks(rest, sep, b);
        assert(!parts[0].contains(b));
        assert forall|j: int| 0 <= j < text.len() implies text[j] != b by {
            let n = parts[0].len() as int;
            if j < n {
                assert(parts[0].contains(parts[0][j]));
            } else if j > n {
                assert(text[j] == join(rest, sep)[j - n - 1]);
                assert(join(rest, sep).contains(text[j]));
            }
        }
    }
}

/// A digit reads back as what it was written for.
pub proof fn lemma_digit_value(d: nat, base: nat)
    requires
        d < base <= 16,
    ensures
        digit_value(digit_char(d), base) == Some(d),
{
}

/// Reading the digits of a number gives the number.
pub proof fn lemma_value_of_digits(n: nat, base: nat)
    requires
        2 <= base <= 16,
    ensures
        value(digits(n, base), base) == Some(n),
    decreases n,
{
    let text = digits(n, base);
    if n < base {
        lemma_digit_value(n, base);
        assert(text.drop_last() =~= Seq::empty());
        assert(value(text.drop_last(), base) == Some(0nat));
        assert(0 * base == 0) by (nonlinear_arith);
    } else {
        assert(n / base < n && n % base < base && (n / base) * base + n % base == n)
            by (nonlinear_arith)
            requires
                2 <= base <= n,
        ;
        lemma_value_of_digits(n / base, base);
        lemma_digit_value(n % base, base);
        assert(text.drop_last() =~= digits(n / base, base));
    }
}

/// Every character of a written number is a digit: `0` to `9`, or `a` to `f`.
pub proof fn lemma_digits_chars(n: nat, base: nat)
    requires
        2 <= base <= 16,
    ensures
        digits(n, base).len() > 0,
        forall|i: int|
            0 <= i < digits(n, base).len() ==> (0x30 <= #[trigger] digits(n, base)[i] <= 0x39 || 0x61
                <= digits(n, base)[i] <= 0x66),
    decreases n,
{
    if n >= base {
        assert(n / base < n && n % base < base) by (nonlinear_arith)
            requires
                2 <= base <= n,
        ;
        lemma_digits_chars(n / base, base);
        let prefix = digits(n / base, base);
        assert forall|i: int| 0 <= i < digits(n, base).len() implies (0x30 <= #[trigger] digits(
            n,
            base,
        )[i] <= 0x39 || 0x61 <= digits(n, base)[i] <= 0x66) by {
            if i < prefix.len() {
                assert(digits(n, base)[i] == prefix[i]);
            }
        }
    }
}

/// What slices hold, one by one.
pub open spec fn views(parts: Seq<&[u8]>) -> Seq<Seq<u8>> {
    Seq::new(parts.len(), |i: int| parts[i]@)
}

/// Cuts `s` at every `sep`.
pub fn split_fields(s: &[u8], sep: u8) -> (parts: Vec<&[u8]>)
    ensures
        views(parts@) == fields(s@, sep),
{
    let mut parts: Vec<&[u8]> = Vec::new();
    let mut start: usize = 0;
    let mut i: usize = 0;
    assert(s@.skip(0) =~= s@);
    while i < s.len()
        invariant
            start <= i <= s@.len(),
            forall|j: int| start <= j < i ==> s@[j] != sep,
            fields(s@, sep).len() == parts@.len() + fields(s@.skip(start as int), sep).len(),
            forall|k: int|
                0 <= k < parts@.len() ==> (#[trigger] parts@[k])@ == fields(s@, sep)[k],
            forall|k: int|
                0 <= k < fields(s@.skip(start as int), sep).len() ==> #[trigger] fields(
                    s@.skip(start as int),
                    sep,
                )[k] == fields(s@, sep)[parts@.len() + k],
        decreases s@.len() - i,
    {
        if s[i] == sep {
            let ghost rest = s@.skip(start as int);
            let ghost before = parts@;
            proof {
                assert(rest[i - start] == s@[i as int]);
                lemma_first_index_is(rest, sep, i - start);
                assert(rest.take(i - start) =~= s@.subrange(start as int, i as int));
                assert(rest.skip(i - start + 1) =~= s@.skip(i + 1));
                assert(fields(rest, sep)[0] == rest.take(i - start));
                assert forall|k: int|
                    0 <= k < fields(s@.skip(i + 1), sep).len() implies #[trigger] fields(
                    s@.skip(i + 1),
                    sep,
                )[k] == fields(s@, sep)[before.len() + 1 + k] by {
                    assert(fields(rest, sep)[k + 1] == fields(s@.skip(i + 1), sep)[k]);
                }
            }
            parts.push(slice_subrange(s, start, i));
            start = i + 1;
        }
        i += 1;
    }
    proof {
        let rest = s@.skip(start as int);
        lemma_first_index_is(rest, sep, rest.len() as int);
        assert(rest =~= s@.subrange(start as int, s@.len() as int));
        assert(fields(rest, sep)[0] == rest);
    }
    parts.push(slice_subrange(s, start, s.len()));
    assert(views(parts@) =~= fields(s@, sep));
    parts
}

/// Compares two slices.
pub fn same(a: &[u8], b: &[u8]) -> (equal: bool)
    ensures
        equal == (a@ == b@),
{
    if a.len() != b.len() {
        return false;
    }
    let mut i: usize = 0;
    while i < a.len()
        invariant
            i <= a@.len(),
            a@.len() == b@.len(),
            forall|j: int| 0 <= j < i ==> a@[j] == b@[j],
        decreases a@.len() - i,
    {
        if a[i] != b[i] {
            return false;
        }
        i += 1;
    }
    assert(a@ =~= b@);
    true
}

/// Appends the bytes of a slice.
pub fn push_all(out: &mut Vec<u8>, s: &[u8])
    ensures
        final(out)@ == old(out)@ + s@,
{
    let mut i: usize = 0;
    while i < s.len()
        invariant
            i <= s@.len(),
            out@ == old(out)@ + s@.take(i as int),
        decreases s@.len() - i,
    {
        out.push(s[i]);
        i += 1;
        assert(out@ =~= old(out)@ + s@.take(i as int));
    }
    assert(s@.take(i as int) =~= s@);
}

/// Reads one digit.
fn read_digit(b: u8, base: u32) -> (d: Option<u32>)
    requires
        base <= 16,
    ensures
        d is Some <==> digit_value(b, base as nat) is Some,
        d matches Some(d) ==> d < base && digit_value(b, base as nat) == Some(d as nat),
{
    let d: u32 = if 0x30 <= b && b <= 0x39 {
        (b - 0x30) as u32
    } else if 0x61 <= b && b <= 0x66 {
        (b - 0x57) as u32
    } else if 0x41 <= b && b <= 0x46 {
        (b - 0x37) as u32
    } else {
        base
    };
    if d < base {
        Some(d)
    } else {
        None
    }
}

/// Text of which a prefix is no number is no number.
pub proof fn lemma_value_prefix(s: Seq<u8>, base: nat, k: int)
    requires
        0 <= k <= s.len(),
        value(s.take(k), base) is None,
    ensures
        value(s, base) is None,
    decreases s.len() - k,
{
    if k == s.len() {
        assert(s.take(k) =~= s);
    } else {
        assert(s.take(k + 1).drop_last() =~= s.take(k));
        lemma_value_prefix(s, base, k + 1);
    }
}

/// Reads a number of at most four digits.
pub fn read_short_number(s: &[u8], base: u32) -> (n: Option<u32>)
    requires
        s@.len() <= 4,
        2 <= base <= 16,
    ensures
        n is Some <==> value(s@, base as nat) is Some,
        n matches Some(n) ==> n <= 0xffff && value(s@, base as nat) == Some(n as nat),
{
    let mut n: u32 = 0;
    let mut i: usize = 0;
    while i < s.len()
        invariant
            i <= s@.len() <= 4,
            2 <= base <= 16,
            value(s@.take(i as int), base as nat) == Some(n as nat),
            i == 0 ==> n == 0,
            i <= 1 ==> n <= 0xf,
            i <= 2 ==> n <= 0xff,
            i <= 3 ==> n <= 0xfff,
            n <= 0xffff,
        decreases s@.len() - i,
    {
        proof {
            assert(s@.take(i + 1).drop_last() =~= s@.take(i as int));
            assert(s@.take(i + 1).last() == s@[i as int]);
        }
        match read_digit(s[i], base) {
            Some(d) => {
                assert(0 <= n * base <= n * 16) by (nonlinear_arith)
                    requires
                        0 <= n,
                        0 <= base <= 16,
                ;
                n = n * base + d;
            },
            None => {
                proof {
                    lemma_value_prefix(s@, base as nat, i + 1);
                }
                return None;
            },
        }
        i += 1;
    }
    assert(s@.take(i as int) =~= s@);
    Some(n)
}

/// Appends the digits of `n`.
pub fn push_digits(out: &mut Vec<u8>, n: u16, base: u16)
    requires
        2 <= base <= 16,
    ensures
        final(out)@ == old(out)@ + digits(n as nat, base as nat),
    decreases n,
{
    let d: u16 = n % base;
    assert(d < base && (n < base ==> d == n)) by (nonlinear_arith)
        requires
            2 <= base,
            d == n % base,
    ;
    if n >= base {
        assert(n / base < n) by (nonlinear_arith)
            requires
                2 <= base <= n,
        ;
        push_digits(out, n / base, base);
    }
    let c: u8 = if d < 10 {
        0x30 + d as u8
    } else {
        0x57 + d as u8
    };
    assert(c == digit_char(d as nat));
    out.push(c);
    assert(out@ =~= old(out)@ + digits(n as nat, base as nat));
}

} // verus!
