//! Reading unsigned numbers from text.

use vstd::prelude::*;

verus! {

/// The value of a digit, upper or lower case, if it is one below `radix`.
pub open spec fn digit_in(c: char, radix: nat) -> Option<nat> {
    let v: int = if '0' <= c <= '9' {
        c as int - 48
    } else if 'a' <= c <= 'z' {
        c as int - 87
    } else if 'A' <= c <= 'Z' {
        c as int - 55
    } else {
        -1
    };
    if 0 <= v < radix {
        Some(v as nat)
    } else {
        None
    }
}

/// The value of a run of digits; an empty run is 0.
pub open spec fn digits_value(s: Seq<char>, radix: nat) -> Option<nat>
    decreases s.len(),
{
    if s.len() == 0 {
        Some(0)
    } else {
        match (digits_value(s.drop_last(), radix), digit_in(s.last(), radix)) {
            (Some(v), Some(d)) => Some(v * radix + d),
            _ => None,
        }
    }
}

/// A text without one leading plus sign.
pub open spec fn unsigned_digits(s: Seq<char>) -> Seq<char> {
    if s.len() > 0 && s[0] == '+' {
        s.skip(1)
    } else {
        s
    }
}

/// The number that a text denotes: digits, after an optional plus sign; at most
/// `max`.
pub open spec fn unsigned_in(s: Seq<char>, radix: nat, max: nat) -> Option<nat> {
    let t = unsigned_digits(s);
    if t.len() == 0 {
        None
    } else {
        match digits_value(t, radix) {
            Some(v) => if v <= max {
                Some(v)
            } else {
                None
            },
            None => None,
        }
    }
}

proof fn lemma_digits_grow(s: Seq<char>, n: nat, radix: nat)
    requires
        n <= s.len(),
        radix >= 1,
    ensures
        match digits_value(s, radix) {
            Some(v) => match digits_value(s.take(n as int), radix) {
                Some(w) => w <= v,
                None => false,
            },
            None => true,
        },
    decreases s.len(),
{
    if n == s.len() {
        assert(s.take(n as int) =~= s);
    } else {
        lemma_digits_grow(s.drop_last(), n, radix);
        assert(s.drop_last().take(n as int) =~= s.take(n as int));
        match digits_value(s.drop_last(), radix) {
            Some(v) => {
                assert(v * radix >= v) by (nonlinear_arith)
                    requires
                        radix >= 1,
                ;
            },
            None => {},
        }
    }
}

fn digit_of(c: char, radix: u32) -> (r: Option<u128>)
    requires
        2 <= radix <= 36,
    ensures
        match digit_in(c, radix as nat) {
            Some(d) => r == Some(d as u128) && d < radix,
            None => r is None,
        },
{
    let n: u32 = c as u32;
    let v: u32 = if 48 <= n && n <= 57 {
        n - 48
    } else if 97 <= n && n <= 122 {
        n - 87
    } else if 65 <= n && n <= 90 {
        n - 55
    } else {
        36
    };
    if v < radix {
        Some(v as u128)
    } else {
        None
    }
}

/// Reads an unsigned number.
#[verifier::rlimit(30)]
pub fn parse_unsigned(s: &str, radix: u32, max: u128) -> (r: Option<u128>)
    requires
        2 <= radix <= 36,
    ensures
        match unsigned_in(s@, radix as nat, max as nat) {
            Some(v) => r == Some(v as u128),
            None => r is None,
        },
{
    let n: usize = s.unicode_len();
    let start: usize = if n > 0 && s.get_char(0) == '+' {
        1
    } else {
        0
    };
    let ghost t = unsigned_digits(s@);
    if start == n {
        return None;
    }
    let mut acc: u128 = 0;
    let mut i: usize = start;
    assert(t.take(0) =~= Seq::<char>::empty());
    while i < n
        invariant
            start <= i <= n == s@.len(),
            start <= 1,
            2 <= radix <= 36,
            t == unsigned_digits(s@),
            t.len() == n - start > 0,
            forall|j: int| 0 <= j < t.len() ==> t[j] == s@[j + start],
            digits_value(t.take(i - start), radix as nat) == Some(acc as nat),
            acc <= max,
        decreases n - i,
    {
        let ghost p = t.take(i - start + 1);
        assert(p.drop_last() =~= t.take(i - start));
        assert(p.last() == s@[i as int]);
        proof {
            lemma_digits_grow(t, (i - start + 1) as nat, radix as nat);
        }
        let d: u128 = match digit_of(s.get_char(i), radix) {
            Some(d) => d,
            None => return None,
        };
        let scaled: u128 = match acc.checked_mul(radix as u128) {
            Some(v) => v,
            None => return None,
        };
        let next: u128 = match scaled.checked_add(d) {
            Some(v) => v,
            None => return None,
        };
        if next > max {
            return None;
        }
        acc = next;
        i = i + 1;
    }
    assert(t.take(n - start) =~= t);
    Some(acc)
}

} // verus!
