//! Whole numbers in decimal.
use crate::text::chars_of;
use vstd::prelude::*;

verus! {

/// The character of a digit.
pub open spec fn digit(d: int) -> char {
    ('0' as u32 + d) as char
}

/// The digits of `n`, the highest first.
pub open spec fn digits(n: nat) -> Seq<char>
    decreases n,
{
    if n < 10 {
        seq![digit(n as int)]
    } else {
        digits(n / 10).push(digit((n % 10) as int))
    }
}

/// `n` in decimal, with a minus sign where it is negative.
pub open spec fn decimal(n: int) -> Seq<char> {
    if n < 0 {
        seq!['-'] + digits((-n) as nat)
    } else {
        digits(n as nat)
    }
}

/// Whether `s` is a run of digits.
pub open spec fn all_digits(s: Seq<char>) -> bool {
    forall|i: int| 0 <= i < s.len() ==> '0' <= #[trigger] s[i] <= '9'
}

/// The number that a run of digits stands for.
pub open spec fn digits_value(s: Seq<char>) -> nat
    decreases s.len(),
{
    if s.len() == 0 {
        0
    } else {
        (digits_value(s.drop_last()) * 10 + (s.last() as u32 - '0' as u32)) as nat
    }
}

/// The whole number that `s` writes in decimal: an optional sign, then one digit or more.
pub open spec fn decimal_value(s: Seq<char>) -> Option<int> {
    if s.len() == 0 {
        None
    } else {
        let signed = s[0] == '-' || s[0] == '+';
        let run = if signed {
            s.drop_first()
        } else {
            s
        };
        if run.len() == 0 || !all_digits(run) {
            None
        } else if s[0] == '-' {
            Some(-(digits_value(run) as int))
        } else {
            Some(digits_value(run) as int)
        }
    }
}

/// The 64-bit number that `s` writes in decimal, if it does and the number fits.
pub open spec fn decimal_i64(s: Seq<char>) -> Option<i64> {
    match decimal_value(s) {
        Some(n) => if i64::MIN <= n <= i64::MAX {
            Some(n as i64)
        } else {
            None
        },
        None => None,
    }
}

/// The character of a digit.
fn digit_char(d: u64) -> (r: char)
    requires
        d < 10,
    ensures
        r == digit(d as int),
{
    (48u8 + d as u8) as char
}

/// Appends the digits of `n`.
fn push_digits(out: &mut String, n: u64)
    ensures
        final(out)@ == old(out)@ + digits(n as nat),
    decreases n,
{
    if n >= 10 {
        push_digits(out, n / 10);
    }
    out.push(digit_char(n % 10));
    proof {
        assert(out@ =~= old(out)@ + digits(n as nat));
    }
}

/// `n` in decimal.
pub fn to_decimal(n: i64) -> (r: String)
    ensures
        r@ == decimal(n as int),
{
    let mut out = String::new();
    if n < 0 {
        out.push('-');
        let size: u64 = (-(n as i128)) as u64;
        push_digits(&mut out, size);
        proof {
            assert(out@ =~= decimal(n as int));
        }
    } else {
        push_digits(&mut out, n as u64);
        proof {
            assert(out@ =~= decimal(n as int));
        }
    }
    out
}

/// The 64-bit number that `s` writes in decimal.
pub fn parse_i64(s: &str) -> (r: Option<i64>)
    ensures
        r == decimal_i64(s@),
{
    let chars = chars_of(s);
    if chars.len() == 0 {
        return None;
    }
    let negative = chars[0] == '-';
    let start: usize = if negative || chars[0] == '+' {
        1
    } else {
        0
    };
    let ghost run = chars@.skip(start as int);
    proof {
        assert(chars@.skip(0) =~= chars@);
        assert(chars@.skip(1) =~= chars@.drop_first());
    }
    if start == chars.len() {
        return None;
    }
    let mut value: i128 = 0;
    let mut big = false;
    let mut i: usize = start;
    proof {
        assert(run.take(0) =~= Seq::<char>::empty());
    }
    while i < chars.len()
        invariant
            start <= i <= chars@.len(),
            start <= 1,
            run == chars@.skip(start as int),
            all_digits(run.take(i - start)),
            !big ==> value == digits_value(run.take(i - start)),
            big ==> digits_value(run.take(i - start)) > 0x8000_0000_0000_0000,
            0 <= value <= 0x8000_0000_0000_0000,
            chars@ == s@,
            decimal_value(s@) is Some ==> all_digits(run),
        decreases chars@.len() - i,
    {
        let c = chars[i];
        let ghost done = run.take(i - start);
        let ghost next = run.take(i + 1 - start);
        proof {
            assert(next.drop_last() =~= done);
            assert(next.last() == c);
            assert(run[i - start] == c);
        }
        if c < '0' || c > '9' {
            return None;
        }
        let d: i128 = (c as u32 - 48) as i128;
        proof {
            assert(all_digits(next)) by {
                assert forall|j: int| 0 <= j < next.len() implies '0' <= #[trigger] next[j] <= '9' by {
                    if j < done.len() {
                        assert(next[j] == done[j]);
                    }
                }
            }
            assert(digits_value(next) == digits_value(done) * 10 + d);
        }
        if !big {
            let more: i128 = value * 10 + d;
            if more > 0x8000_0000_0000_0000 {
                big = true;
            } else {
                value = more;
            }
        }
        i += 1;
    }
    proof {
        assert(run.take(i - start) =~= run);
    }
    if big {
        return None;
    }
    if negative {
        Some((-value) as i64)
    } else if value <= i64::MAX as i128 {
        Some(value as i64)
    } else {
        None
    }
}

/// The digits of a number stand for it.
pub proof fn lemma_digits_round_trip(n: nat)
    ensures
        digits(n).len() > 0,
        all_digits(digits(n)),
        digits_value(digits(n)) == n,
    decreases n,
{
    if n < 10 {
        let one = digits(n);
        assert(one.drop_last() =~= Seq::<char>::empty());
        assert(digits_value(one.drop_last()) == 0);
    } else {
        lemma_digits_round_trip(n / 10);
        let all = digits(n);
        assert(all.drop_last() =~= digits(n / 10));
        assert(all.last() == digit((n % 10) as int));
        assert forall|j: int| 0 <= j < all.len() implies '0' <= #[trigger] all[j] <= '9' by {
            if j < all.len() - 1 {
                assert(all[j] == digits(n / 10)[j]);
            }
        }
    }
}

/// Reading a number back from its decimal form gives the number.
pub proof fn law_decimal_round_trip(n: i64)
    ensures
        decimal_i64(decimal(n as int)) == Some(n),
{
    if n < 0 {
        lemma_digits_round_trip((-n) as nat);
        assert(decimal(n as int).drop_first() =~= digits((-n) as nat));
    } else {
        lemma_digits_round_trip(n as nat);
        assert(digits(n as nat)[0] >= '0');
    }
}

/// A number in decimal is the digits of its tenth part followed by its last digit; a digit is
/// written as its character; and a negative number is written as its opposite behind a minus.
pub proof fn law_decimal_places(n: nat, d: nat)
    requires
        d < 10,
    ensures
        n > 0 ==> decimal((n * 10 + d) as int) == decimal(n as int).push("0123456789"@[d as int]),
        decimal(d as int) == seq!["0123456789"@[d as int]],
        n > 0 ==> decimal(-(n as int)) == seq!['-'] + decimal(n as int),
{
    reveal_strlit("0123456789");
    assert(digit(d as int) == "0123456789"@[d as int]);
    if n > 0 {
        let m = n * 10 + d;
        assert(m / 10 == n);
        assert(m % 10 == d);
    }
}

/// A run of digits is read by its places, an optional sign before it counts, and a text that holds
/// anything else, or no digit, is no number.
pub proof fn law_decimal_is_read(run: Seq<char>, d: nat, s: Seq<char>)
    requires
        d < 10,
        run.len() > 0,
        all_digits(run),
    ensures
        decimal_value(run.push("0123456789"@[d as int])) == Some(
            decimal_value(run)->0 * 10 + d as int,
        ),
        decimal_value(seq!["0123456789"@[d as int]]) == Some(d as int),
        decimal_value(seq!['-'] + run) == Some(-decimal_value(run)->0),
        decimal_value(seq!['+'] + run) == decimal_value(run),
        decimal_value(run) is Some,
        (exists|i: int| 1 <= i < s.len() && !('0' <= #[trigger] s[i] <= '9')) ==> decimal_value(
            s,
        ) is None,
        decimal_value(Seq::empty()) is None,
{
    reveal_strlit("0123456789");
    let c = "0123456789"@[d as int];
    assert(c as u32 == '0' as u32 + d);
    let longer = run.push(c);
    assert(longer.drop_last() =~= run);
    assert(all_digits(longer));
    assert(longer[0] == run[0]);
    assert('0' <= run[0] <= '9');
    let one = seq![c];
    assert(one.drop_last() =~= Seq::empty());
    assert(digits_value(one.drop_last()) == 0);
    assert((seq!['-'] + run).drop_first() =~= run);
    assert((seq!['+'] + run).drop_first() =~= run);
    if exists|i: int| 1 <= i < s.len() && !('0' <= #[trigger] s[i] <= '9') {
        let i = choose|i: int| 1 <= i < s.len() && !('0' <= #[trigger] s[i] <= '9');
        assert(s.drop_first()[i - 1] == s[i]);
    }
}

} // verus!
