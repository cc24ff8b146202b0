//! Parsing of the betting commands a person types at the prompt.
//!
//! The terminal itself lives outside the library; only the parser, the
//! one piece of logic in the prompt loop, is verified here.

use vstd::prelude::*;
use crate::player::Command;

verus! {

/// Whether every character of `s` is a decimal digit.
pub open spec fn all_digits(s: Seq<char>) -> bool {
    forall|i: int| 0 <= i < s.len() ==> 48 <= (#[trigger] s[i]) as u32 <= 57
}

/// The numeric value of a run of decimal digits.
pub open spec fn digits_value(s: Seq<char>) -> int
    decreases s.len(),
{
    if s.len() == 0 {
        0
    } else {
        digits_value(s.drop_last()) * 10 + (s.last() as u32 - 48)
    }
}

/// The raise amount written after "raise ": an optional plus sign, then
/// at least one digit, naming a value in `[1, i32::MAX]`.
pub open spec fn spec_raise_amount(s: Seq<char>) -> Option<i32> {
    let digits = if s.len() > 0 && s[0] as u32 == 43 {
        s.skip(1)
    } else {
        s
    };
    if digits.len() > 0 && all_digits(digits) && 0 < digits_value(digits) <= i32::MAX {
        Some(digits_value(digits) as i32)
    } else {
        None
    }
}

/// The command named by a lower-case input line: one of the five plain
/// words, or "raise " followed by a positive amount.
pub open spec fn spec_parse_command(s: Seq<char>) -> Option<Command> {
    if s == "post blind"@ {
        Some(Command::PostBlind)
    } else if s == "fold"@ {
        Some(Command::Fold)
    } else if s == "check"@ {
        Some(Command::Check)
    } else if s == "call"@ {
        Some(Command::Call)
    } else if s == "leave"@ {
        Some(Command::Leave)
    } else if s.len() >= 7 && s.take(6) == "raise "@ {
        match spec_raise_amount(s.skip(6)) {
            Some(x) => Some(Command::Raise(x)),
            None => None,
        }
    } else {
        None
    }
}

/// A nonnegative-valued run of digits never shrinks as it grows.
proof fn lemma_digits_value_nonneg(s: Seq<char>)
    requires
        all_digits(s),
    ensures
        digits_value(s) >= 0,
    decreases s.len(),
{
    if s.len() > 0 {
        assert(all_digits(s.drop_last())) by {
            assert(forall|i: int| 0 <= i < s.len() - 1 ==> s.drop_last()[i] == s[i]);
        }
        lemma_digits_value_nonneg(s.drop_last());
    }
}

/// Extending a digit run only raises its value.
proof fn lemma_digits_value_extend(s: Seq<char>, k: int)
    requires
        all_digits(s),
        0 <= k <= s.len(),
    ensures
        digits_value(s) >= digits_value(s.take(k)),
    decreases s.len() - k,
{
    if k < s.len() {
        assert(all_digits(s.take(k + 1))) by {
            assert(forall|i: int| 0 <= i < k + 1 ==> s.take(k + 1)[i] == s[i]);
        }
        assert(s.take(k + 1).drop_last() =~= s.take(k));
        lemma_digits_value_nonneg(s.take(k + 1).drop_last());
        assert(digits_value(s.take(k + 1)) >= digits_value(s.take(k)));
        lemma_digits_value_extend(s, k + 1);
    } else {
        assert(s.take(k) =~= s);
    }
}

/// Whether two string slices hold the same characters.
#[verifier::loop_isolation(false)]
fn str_eq(a: &str, b: &str) -> (r: bool)
    ensures
        r == (a@ == b@),
{
    let n = a.unicode_len();
    if n != b.unicode_len() {
        return false;
    }
    let mut i: usize = 0;
    while i < n
        invariant
            i <= n,
            forall|j: int| 0 <= j < i ==> a@[j] == b@[j],
        decreases n - i,
    {
        if a.get_char(i) != b.get_char(i) {
            return false;
        }
        i = i + 1;
    }
    proof {
        assert(a@ =~= b@);
    }
    true
}

/// Parses a lower-case input line into a betting command. The five plain
/// words name their commands; "raise " followed by a positive amount (an
/// optional plus sign, then digits, at most `i32::MAX`) names a raise;
/// everything else is rejected.
#[verifier::loop_isolation(false)]
pub fn parse_command(text: String) -> (r: Result<Command, ()>)
    ensures
        match spec_parse_command(text@) {
            Some(c) => r is Ok && r->Ok_0 == c,
            None => r is Err,
        },
{
    let s = text.as_str();
    if str_eq(s, "post blind") {
        return Ok(Command::PostBlind);
    }
    if str_eq(s, "fold") {
        return Ok(Command::Fold);
    }
    if str_eq(s, "check") {
        return Ok(Command::Check);
    }
    if str_eq(s, "call") {
        return Ok(Command::Call);
    }
    if str_eq(s, "leave") {
        return Ok(Command::Leave);
    }
    let n = s.unicode_len();
    if n < 7 {
        return Err(());
    }
    let head = s.substring_char(0, 6);
    if !str_eq(head, "raise ") {
        return Err(());
    }
    let ghost rest = s@.skip(6);
    let first = s.get_char(6);
    let start: usize = if (first as u32) == 43 {
        7
    } else {
        6
    };
    proof {
        if start == 7 {
            assert(rest[0] as u32 == 43);
            assert(s@.skip(7) =~= rest.skip(1));
        } else {
            assert(!(rest.len() > 0 && rest[0] as u32 == 43));
        }
    }
    let ghost digits = s@.skip(start as int);
    if start == n {
        proof {
            assert(digits.len() == 0);
        }
        return Err(());
    }
    let mut acc: i64 = 0;
    let mut i: usize = start;
    while i < n
        invariant
            start <= i <= n,
            digits == s@.skip(start as int),
            all_digits(s@.subrange(start as int, i as int)),
            acc == digits_value(s@.subrange(start as int, i as int)),
            0 <= acc <= i32::MAX,
        decreases n - i,
    {
        let ch = s.get_char(i);
        let d = ch as u32;
        proof {
            assert(s@.subrange(start as int, i as int + 1).drop_last() =~= s@.subrange(
                start as int,
                i as int,
            ));
        }
        if d < 48 || d > 57 {
            proof {
                assert(digits[i - start] == s@[i as int]);
                assert(!all_digits(digits));
            }
            return Err(());
        }
        if acc > (2147483647i64 - ((d - 48) as i64)) / 10 {
            // the amount no longer fits an `i32`; the line is rejected
            proof {
                assert(all_digits(s@.subrange(start as int, i as int + 1)));
                assert(digits_value(s@.subrange(start as int, i as int + 1)) == acc * 10 + (d
                    - 48));
                assert(acc * 10 + (d - 48) > i32::MAX) by (nonlinear_arith)
                    requires
                        acc > (2147483647i64 - ((d - 48) as i64)) / 10,
                        48 <= d <= 57,
                        0 <= acc,
                ;
                if all_digits(digits) {
                    assert(forall|j: int|
                        0 <= j < i + 1 - start ==> s@.subrange(start as int, i as int + 1)[j]
                            == digits[j]);
                    assert(s@.subrange(start as int, i as int + 1) =~= digits.take(
                        i + 1 - start as int,
                    ));
                    lemma_digits_value_extend(digits, i + 1 - start as int);
                    assert(digits_value(digits) > i32::MAX);
                }
            }
            return Err(());
        }
        acc = acc * 10 + ((d - 48) as i64);
        proof {
            assert(all_digits(s@.subrange(start as int, i as int + 1))) by {
                assert(forall|j: int|
                    0 <= j < i - start ==> s@.subrange(start as int, i as int + 1)[j]
                        == s@.subrange(start as int, i as int)[j]);
            }
        }
        i = i + 1;
    }
    proof {
        assert(s@.subrange(start as int, n as int) =~= digits);
    }
    if acc == 0 {
        return Err(());
    }
    Ok(Command::Raise(acc as i32))
}

} // verus!
