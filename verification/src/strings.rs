//! Substring containment over character sequences, with a verified
//! executable search, and decimal rendering of small integers used to
//! generate the synthetic source items.

use vstd::prelude::*;
use vstd::string::StrSliceExecFns;
use vstd::string::StringExecFns;

verus! {

/// `pat` occurs in `text` as a contiguous run of characters.
/// The empty pattern occurs in every text.
pub open spec fn contains_seq(text: Seq<char>, pat: Seq<char>) -> bool {
    exists|i: int|
        0 <= i && i + pat.len() <= text.len() && #[trigger] text.subrange(
            i,
            i + pat.len() as int,
        ) == pat
}

/// Case-sensitive substring search: character-by-character comparison at
/// every candidate offset.
pub fn str_contains(text: &str, pat: &str) -> (r: bool)
    ensures
        r == contains_seq(text@, pat@),
{
    let n = text.unicode_len();
    let m = pat.unicode_len();
    if m > n {
        return false;
    }
    let mut i: usize = 0;
    while i <= n - m
        invariant
            m <= n,
            n == text@.len(),
            m == pat@.len(),
            i <= n - m + 1,
            forall|k: int|
                0 <= k < i ==> #[trigger] text@.subrange(k, k + m as int) != pat@,
        decreases n - m - i + 1,
    {
        let mut j: usize = 0;
        let mut ok: bool = true;
        while ok && j < m
            invariant
                i + m <= n,
                j <= m,
                n == text@.len(),
                m == pat@.len(),
                ok ==> forall|k: int| 0 <= k < j ==> text@[i + k] == pat@[k],
                !ok ==> j < m && text@[i + j] != pat@[j as int],
            decreases m - j + (if ok { 1int } else { 0int }),
        {
            if text.get_char(i + j) != pat.get_char(j) {
                ok = false;
            } else {
                j += 1;
            }
        }
        if ok {
            proof {
                assert(text@.subrange(i as int, i + m as int) =~= pat@);
            }
            return true;
        }
        proof {
            assert(text@.subrange(i as int, i + m as int)[j as int] != pat@[j as int]);
        }
        i += 1;
    }
    proof {
        assert forall|k: int| 0 <= k && k + pat@.len() <= text@.len() implies #[trigger] text@.subrange(
            k,
            k + pat@.len() as int,
        ) != pat@ by {
            assert(k < i);
        }
    }
    false
}

/// The character for a single decimal digit.
pub open spec fn digit_char(d: nat) -> char {
    if d == 0 {
        '0'
    } else if d == 1 {
        '1'
    } else if d == 2 {
        '2'
    } else if d == 3 {
        '3'
    } else if d == 4 {
        '4'
    } else if d == 5 {
        '5'
    } else if d == 6 {
        '6'
    } else if d == 7 {
        '7'
    } else if d == 8 {
        '8'
    } else {
        '9'
    }
}

/// The decimal rendering of `n`: most significant digit first, no sign,
/// no padding.
pub open spec fn decimal_of(n: nat) -> Seq<char>
    decreases n,
{
    if n < 10 {
        seq![digit_char(n)]
    } else {
        decimal_of(n / 10).push(digit_char(n % 10))
    }
}

/// A decimal rendering is never empty, and has at least two digits from 10
/// upward.
pub proof fn lemma_decimal_len(n: nat)
    ensures
        decimal_of(n).len() >= 1,
        n >= 10 ==> decimal_of(n).len() >= 2,
    decreases n,
{
    if n >= 10 {
        lemma_decimal_len(n / 10);
    }
}

/// Distinct numbers have distinct decimal renderings.
pub proof fn lemma_decimal_injective(m: nat, n: nat)
    requires
        decimal_of(m) == decimal_of(n),
    ensures
        m == n,
    decreases m,
{
    lemma_decimal_len(m);
    lemma_decimal_len(n);
    if m < 10 && n < 10 {
        assert(decimal_of(m)[0] == digit_char(m));
        assert(decimal_of(n)[0] == digit_char(n));
    } else if m < 10 {
        assert(decimal_of(m).len() == 1);
        assert(false);
    } else if n < 10 {
        assert(decimal_of(n).len() == 1);
        assert(false);
    } else {
        assert(decimal_of(m).last() == digit_char(m % 10));
        assert(decimal_of(n).last() == digit_char(n % 10));
        assert(m % 10 == n % 10);
        assert(decimal_of(m).drop_last() =~= decimal_of(m / 10));
        assert(decimal_of(n).drop_last() =~= decimal_of(n / 10));
        lemma_decimal_injective(m / 10, n / 10);
    }
}

fn digit_str(d: u32) -> (r: &'static str)
    requires
        d < 10,
    ensures
        r@ == seq![digit_char(d as nat)],
{
    proof {
        reveal_strlit("0");
        reveal_strlit("1");
        reveal_strlit("2");
        reveal_strlit("3");
        reveal_strlit("4");
        reveal_strlit("5");
        reveal_strlit("6");
        reveal_strlit("7");
        reveal_strlit("8");
        reveal_strlit("9");
    }
    let r = match d {
        0 => "0",
        1 => "1",
        2 => "2",
        3 => "3",
        4 => "4",
        5 => "5",
        6 => "6",
        7 => "7",
        8 => "8",
        _ => "9",
    };
    proof {
        assert(r@ =~= seq![digit_char(d as nat)]);
    }
    r
}

/// Appends the decimal rendering of `n` to `s`.
pub fn push_decimal(s: &mut String, n: u32)
    ensures
        final(s)@ == old(s)@ + decimal_of(n as nat),
    decreases n,
{
    if n < 10 {
        s.append(digit_str(n));
        proof {
            assert(final(s)@ =~= old(s)@ + decimal_of(n as nat));
        }
    } else {
        push_decimal(s, n / 10);
        s.append(digit_str(n % 10));
        proof {
            assert(final(s)@ =~= old(s)@ + decimal_of(n as nat));
        }
    }
}

/// The decimal rendering of `n` as a fresh string.
pub fn decimal_string(n: u32) -> (r: String)
    ensures
        r@ == decimal_of(n as nat),
{
    let mut s = String::new();
    push_decimal(&mut s, n);
    proof {
        assert(s@ =~= decimal_of(n as nat));
    }
    s
}

} // verus!
