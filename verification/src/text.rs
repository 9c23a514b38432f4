use vstd::prelude::*;

verus! {

// ---------------------------------------------------------------------------
// Decimal notation of integers
// ---------------------------------------------------------------------------

/// The decimal digit character for `d` (`0 <= d < 10`).
pub open spec fn digit_char(d: int) -> char
    recommends
        0 <= d < 10,
{
    (d + 48) as char
}

/// Whether `c` is one of the ASCII digits `0`..`9`.
pub open spec fn is_digit(c: char) -> bool {
    '0' <= c && c <= '9'
}

/// The value of an ASCII digit character.
pub open spec fn digit_value(c: char) -> int {
    c as int - 48
}

/// The decimal notation of a natural number, most significant digit first,
/// without leading zeros (`0` is written `"0"`).
pub open spec fn decimal_nat(n: nat) -> Seq<char>
    decreases n,
{
    if n < 10 {
        seq![digit_char(n as int)]
    } else {
        decimal_nat(n / 10).push(digit_char((n % 10) as int))
    }
}

/// The decimal notation of an integer: a `-` before the notation of its
/// magnitude when it is negative.
pub open spec fn decimal_int(i: int) -> Seq<char> {
    if i < 0 {
        seq!['-'] + decimal_nat((-i) as nat)
    } else {
        decimal_nat(i as nat)
    }
}

fn digit_str(d: u64) -> (s: &'static str)
    requires
        d < 10,
    ensures
        s@ == seq![digit_char(d as int)],
{
    proof {
        reveal_strlit("0");
        reveal_strlit("1");
        reveal_strlit("2");
        reveal_strlit("3");
        reveal_strlit("4");
        reveal_strlit("5");
        reveal_strlit("6");
        reveal_strlit("7");
        reveal_strlit("8");
        reveal_strlit("9");
    }
    if d == 0 {
        "0"
    } else if d == 1 {
        "1"
    } else if d == 2 {
        "2"
    } else if d == 3 {
        "3"
    } else if d == 4 {
        "4"
    } else if d == 5 {
        "5"
    } else if d == 6 {
        "6"
    } else if d == 7 {
        "7"
    } else if d == 8 {
        "8"
    } else {
        "9"
    }
}

/// Appends the decimal notation of `n` to `out`.
pub fn push_decimal_u64(out: &mut String, n: u64)
    ensures
        final(out)@ == old(out)@ + decimal_nat(n as nat),
    decreases n,
{
    if n >= 10 {
        push_decimal_u64(out, n / 10);
    }
    out.append(digit_str(n % 10));
    proof {
        if n >= 10 {
            assert(decimal_nat(n as nat) == decimal_nat((n / 10) as nat).push(
                digit_char((n % 10) as int),
            ));
        }
    }
}

/// Appends the decimal notation of `n` to `out`, with a leading `-` when `n` is negative.
pub fn push_decimal_i64(out: &mut String, n: i64)
    ensures
        final(out)@ == old(out)@ + decimal_int(n as int),
{
    if n < 0 {
        proof {
            reveal_strlit("-");
        }
        out.append("-");
        let magnitude: u64 = (0i128 - (n as i128)) as u64;
        push_decimal_u64(out, magnitude);
    } else {
        push_decimal_u64(out, n as u64);
    }
}

/// The decimal notation of `n` (what `format!("{}", n)` writes).
pub fn decimal_u64(n: u64) -> (s: String)
    ensures
        s@ == decimal_nat(n as nat),
{
    let mut s = String::new();
    push_decimal_u64(&mut s, n);
    s
}

/// The decimal notation of `n` (what `format!("{}", n)` writes).
pub fn decimal_i64(n: i64) -> (s: String)
    ensures
        s@ == decimal_int(n as int),
{
    let mut s = String::new();
    push_decimal_i64(&mut s, n);
    s
}


// ---------------------------------------------------------------------------
// Reading a signed 32-bit integer
// ---------------------------------------------------------------------------

/// Whether every character of `s` is an ASCII digit.
pub open spec fn all_digits(s: Seq<char>) -> bool {
    forall|i: int| 0 <= i < s.len() ==> is_digit(#[trigger] s[i])
}

/// The value of a string of digits read in base ten (`0` for the empty string).
pub open spec fn digits_value(s: Seq<char>) -> nat
    decreases s.len(),
{
    if s.len() == 0 {
        0
    } else {
        (digits_value(s.drop_last()) * 10 + digit_value(s.last())) as nat
    }
}

/// The `i32` that `s` denotes, as `str::parse::<i32>` reads it: an optional `+`
/// or `-`, then one or more ASCII digits and nothing else, with a value that
/// fits in an `i32`. `None` for every other string.
pub open spec fn spec_parse_i32(s: Seq<char>) -> Option<int> {
    let signed = s.len() > 0 && (s[0] == '-' || s[0] == '+');
    let body = if signed {
        s.drop_first()
    } else {
        s
    };
    let magnitude = digits_value(body) as int;
    let value = if s.len() > 0 && s[0] == '-' {
        -magnitude
    } else {
        magnitude
    };
    if body.len() == 0 || !all_digits(body) {
        None
    } else if i32::MIN <= value <= i32::MAX {
        Some(value)
    } else {
        None
    }
}

/// Reading digits further never lowers the value read so far.
proof fn lemma_digits_value_prefix(t: Seq<char>, k: int)
    requires
        0 <= k <= t.len(),
        all_digits(t),
    ensures
        digits_value(t.take(k)) <= digits_value(t),
    decreases t.len(),
{
    if k < t.len() {
        let u = t.drop_last();
        assert(all_digits(u));
        lemma_digits_value_prefix(u, k);
        assert(u.take(k) =~= t.take(k));
        assert(is_digit(t[t.len() - 1]));
    } else {
        assert(t.take(k) =~= t);
    }
}

/// Reads `s` as an `i32`, as `str::parse::<i32>` does; `None` where that call fails.
pub fn parse_i32(s: &str) -> (r: Option<i32>)
    ensures
        match r {
            Some(v) => spec_parse_i32(s@) == Some(v as int),
            None => spec_parse_i32(s@) is None,
        },
{
    let n = s.unicode_len();
    if n == 0 {
        return None;
    }
    let first = s.get_char(0);
    let start: usize = if first == '-' || first == '+' {
        1
    } else {
        0
    };
    let ghost body = if start == 1 {
        s@.drop_first()
    } else {
        s@
    };
    proof {
        assert(body =~= s@.subrange(start as int, n as int));
    }
    if start == n {
        return None;
    }
    let mut acc: u64 = 0;
    let mut i: usize = start;
    while i < n
        invariant
            n == s@.len(),
            start <= i <= n,
            start <= 1,
            n > 0,
            first == s@[0],
            start == 1 <==> (first == '-' || first == '+'),
            body == (if start == 1 {
                s@.drop_first()
            } else {
                s@
            }),
            body =~= s@.subrange(start as int, n as int),
            all_digits(body.take(i - start)),
            acc == digits_value(body.take(i - start)),
            acc <= 2147483648,
        decreases n - i,
    {
        let c = s.get_char(i);
        proof {
            assert(body[i - start] == c);
        }
        if !('0' <= c && c <= '9') {
            proof {
                assert(!is_digit(body[i - start]));
                assert(!all_digits(body));
                assert(spec_parse_i32(s@) is None);
            }
            return None;
        }
        let d: u64 = (c as u32 - 48) as u64;
        let ghost prev = body.take(i - start);
        let ghost next = body.take(i - start + 1);
        proof {
            assert(next.drop_last() =~= prev);
            assert(next.last() == c);
            assert(all_digits(next));
        }
        acc = acc * 10 + d;
        if acc > 2147483648 {
            proof {
                assert(acc == digits_value(next));
                if all_digits(body) {
                    lemma_digits_value_prefix(body, i - start + 1);
                    assert(digits_value(body) > 2147483648);
                }
                assert(spec_parse_i32(s@) is None);
            }
            return None;
        }
        i = i + 1;
    }
    proof {
        assert(body.take(n - start) =~= body);
    }
    if first == '-' {
        Some((0i64 - (acc as i64)) as i32)
    } else if acc <= 2147483647 {
        Some(acc as i32)
    } else {
        None
    }
}

// ---------------------------------------------------------------------------
// Searching and removing a pattern
// ---------------------------------------------------------------------------

/// Whether `pat` occurs in `s` starting at position `i`.
pub open spec fn occurs_at(s: Seq<char>, pat: Seq<char>, i: int) -> bool {
    0 <= i && i + pat.len() <= s.len() && s.subrange(i, i + pat.len()) == pat
}

/// Whether `pat` occurs somewhere in `s`.
pub open spec fn spec_contains(s: Seq<char>, pat: Seq<char>) -> bool {
    exists|i: int| occurs_at(s, pat, i)
}

/// `s` with every occurrence of `pat` taken out, scanning from the left and
/// never reusing a character of a removed occurrence (what `str::replace(pat, "")`
/// returns for a non-empty `pat`).
pub open spec fn remove_all(s: Seq<char>, pat: Seq<char>) -> Seq<char>
    recommends
        pat.len() > 0,
    decreases s.len(),
{
    if pat.len() == 0 || s.len() < pat.len() {
        s
    } else if s.take(pat.len() as int) == pat {
        remove_all(s.skip(pat.len() as int), pat)
    } else {
        seq![s[0]] + remove_all(s.skip(1), pat)
    }
}

fn occurs_at_exec(s: &str, n: usize, pat: &str, m: usize, i: usize) -> (b: bool)
    requires
        n == s@.len(),
        m == pat@.len(),
        i + m <= n,
    ensures
        b == occurs_at(s@, pat@, i as int),
{
    let mut k: usize = 0;
    while k < m
        invariant
            n == s@.len(),
            m == pat@.len(),
            i + m <= n,
            k <= m,
            forall|j: int| 0 <= j < k ==> s@[i + j] == pat@[j],
        decreases m - k,
    {
        if s.get_char(i + k) != pat.get_char(k) {
            proof {
                assert(s@.subrange(i as int, i + m)[k as int] != pat@[k as int]);
            }
            return false;
        }
        k = k + 1;
    }
    proof {
        assert(s@.subrange(i as int, i + m) =~= pat@);
    }
    true
}

/// Whether `pat` occurs in `s` (what `str::contains` answers for a string pattern).
pub fn contains_str(s: &str, pat: &str) -> (b: bool)
    ensures
        b == spec_contains(s@, pat@),
{
    let n = s.unicode_len();
    let m = pat.unicode_len();
    if m > n {
        return false;
    }
    if m == 0 {
        proof {
            assert(s@.subrange(0, 0) =~= pat@);
            assert(occurs_at(s@, pat@, 0));
        }
        return true;
    }
    let mut i: usize = 0;
    while i <= n - m
        invariant
            n == s@.len(),
            m == pat@.len(),
            1 <= m <= n,
            i <= n - m + 1,
            forall|j: int| 0 <= j < i ==> !occurs_at(s@, pat@, j),
        decreases n - m + 1 - i,
    {
        if occurs_at_exec(s, n, pat, m, i) {
            return true;
        }
        i = i + 1;
    }
    proof {
        assert forall|j: int| !occurs_at(s@, pat@, j) by {
            if 0 <= j && j + m <= n {
                assert(j < i);
            }
        }
    }
    false
}

/// `s` with every occurrence of the non-empty `pat` removed, as `str::replace(pat, "")` returns it.
pub fn remove_all_str(s: &str, pat: &str) -> (r: String)
    requires
        pat@.len() > 0,
    ensures
        r@ == remove_all(s@, pat@),
{
    let n = s.unicode_len();
    let m = pat.unicode_len();
    let mut out = String::new();
    let mut i: usize = 0;
    proof {
        assert(s@.skip(0) =~= s@);
    }
    while i < n && m <= n && i <= n - m
        invariant
            n == s@.len(),
            m == pat@.len(),
            m > 0,
            i <= n,
            remove_all(s@, pat@) == out@ + remove_all(s@.skip(i as int), pat@),
        decreases n - i,
    {
        let ghost rest = s@.skip(i as int);
        if occurs_at_exec(s, n, pat, m, i) {
            proof {
                assert(rest.take(m as int) =~= s@.subrange(i as int, i + m));
                assert(rest.skip(m as int) =~= s@.skip(i + m));
            }
            i = i + m;
        } else {
            proof {
                assert(rest.take(m as int) =~= s@.subrange(i as int, i + m));
                assert(rest.skip(1) =~= s@.skip(i + 1));
                assert(seq![rest[0]] + remove_all(rest.skip(1), pat@) =~= s@.subrange(
                    i as int,
                    i + 1,
                ) + remove_all(s@.skip(i + 1), pat@));
            }
            let ghost before = out@;
            out.append(s.substring_char(i, i + 1));
            proof {
                assert(before + (s@.subrange(i as int, i + 1) + remove_all(s@.skip(i + 1), pat@))
                    =~= out@ + remove_all(s@.skip(i + 1), pat@));
            }
            i = i + 1;
        }
    }
    let tail = s.substring_char(i, n);
    proof {
        assert(s@.skip(i as int) =~= tail@);
    }
    out.append(tail);
    out
}


// ---------------------------------------------------------------------------
// Facts that tie the pieces together
// ---------------------------------------------------------------------------

/// The decimal notation of `n` is a non-empty string of digits that reads back as `n`.
pub proof fn lemma_decimal_reads_back(n: nat)
    ensures
        decimal_nat(n).len() > 0,
        all_digits(decimal_nat(n)),
        digits_value(decimal_nat(n)) == n,
    decreases n,
{
    let s = decimal_nat(n);
    assert(digit_value(digit_char((n % 10) as int)) == n % 10);
    if n < 10 {
        assert(is_digit(s[0]));
        assert(s.drop_last() =~= Seq::<char>::empty());
        assert(digits_value(s.drop_last()) == 0);
        assert(s.last() == digit_char(n as int));
        assert(digits_value(s) == n);
    } else {
        lemma_decimal_reads_back(n / 10);
        let t = decimal_nat(n / 10);
        assert((n / 10) * 10 + n % 10 == n) by (nonlinear_arith);
        assert(s.drop_last() =~= t);
        assert(s.last() == digit_char((n % 10) as int));
        assert(digits_value(s) == digits_value(t) * 10 + digit_value(s.last()));
        assert(digits_value(s) == n);
        assert forall|i: int| 0 <= i < s.len() implies is_digit(#[trigger] s[i]) by {
            if i < t.len() {
                assert(s[i] == t[i]);
            }
        }
    }
}

/// Taking a pattern out of a string of digits changes nothing when the pattern
/// does not start with a digit.
pub proof fn lemma_remove_all_from_digits(t: Seq<char>, pat: Seq<char>)
    requires
        all_digits(t),
        pat.len() > 0,
        !is_digit(pat[0]),
    ensures
        remove_all(t, pat) == t,
    decreases t.len(),
{
    if t.len() >= pat.len() {
        assert(is_digit(t[0]));
        assert(t.take(pat.len() as int)[0] != pat[0]);
        let u = t.skip(1);
        assert(all_digits(u)) by {
            assert forall|i: int| 0 <= i < u.len() implies is_digit(#[trigger] u[i]) by {
                assert(u[i] == t[i + 1]);
            }
        }
        lemma_remove_all_from_digits(u, pat);
        assert(seq![t[0]] + u =~= t);
    }
}

/// A string of digits reads as the value of its digits, when that fits in an `i32`.
pub proof fn lemma_parse_digits(t: Seq<char>)
    requires
        t.len() > 0,
        all_digits(t),
        digits_value(t) <= i32::MAX,
    ensures
        spec_parse_i32(t) == Some(digits_value(t) as int),
{
    assert(is_digit(t[0]));
}

/// Reading back the decimal notation of an `i32` gives the same `i32`.
pub proof fn lemma_parse_decimal(i: int)
    requires
        i32::MIN <= i <= i32::MAX,
    ensures
        spec_parse_i32(decimal_int(i)) == Some(i),
{
    if i < 0 {
        let m = (-i) as nat;
        lemma_decimal_reads_back(m);
        let s = decimal_int(i);
        assert(s.drop_first() =~= decimal_nat(m));
        assert(s[0] == '-');
    } else {
        lemma_decimal_reads_back(i as nat);
        lemma_parse_digits(decimal_nat(i as nat));
    }
}

/// The decimal notation has no leading zero: `0` is written `"0"`, and every
/// other number starts with a non-zero digit. With `lemma_decimal_reads_back`
/// this fixes the notation of every number.
pub proof fn lemma_decimal_canonical(n: nat)
    ensures
        n == 0 ==> decimal_nat(n) == seq!['0'],
        n > 0 ==> decimal_nat(n)[0] != '0',
        decimal_int(-(n as int)) == (if n == 0 {
            seq!['0']
        } else {
            seq!['-'] + decimal_nat(n)
        }),
    decreases n,
{
    if n >= 10 {
        lemma_decimal_canonical(n / 10);
        lemma_decimal_reads_back(n / 10);
        assert(decimal_nat(n)[0] == decimal_nat(n / 10)[0]);
    }
}
} // verus!
