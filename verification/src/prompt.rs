//! Reading the user's answer when several release assets fit equally well.

use vstd::prelude::*;
use crate::text::{lower, lower_char_exec, trim, trim_str, chars_of};

verus! {

/// A decimal digit.
pub open spec fn is_digit(c: char) -> bool {
    '0' <= c && c <= '9'
}

/// The value of a string of decimal digits.
pub open spec fn digits_value(d: Seq<char>) -> nat
    decreases d.len(),
{
    if d.len() == 0 {
        0
    } else {
        digits_value(d.drop_last()) * 10 + ((d.last() as nat) - ('0' as nat)) as nat
    }
}

/// The text after an optional leading `+`.
pub open spec fn unsigned_digits(t: Seq<char>) -> Seq<char> {
    if t.len() > 0 && t[0] == '+' {
        t.drop_first()
    } else {
        t
    }
}

/// Every character is a decimal digit.
pub open spec fn all_digits(d: Seq<char>) -> bool {
    forall|i: int| 0 <= i < d.len() ==> is_digit(#[trigger] d[i])
}

/// What `str::parse::<usize>` yields: an optional `+`, then one or more
/// decimal digits whose value fits in `usize`.
pub open spec fn parsed_usize(t: Seq<char>) -> Option<nat> {
    let d = unsigned_digits(t);
    if d.len() == 0 || !all_digits(d) {
        None
    } else if digits_value(d) > usize::MAX {
        None
    } else {
        Some(digits_value(d))
    }
}

proof fn lemma_digits_value_grows(d: Seq<char>, k: int)
    requires
        0 <= k <= d.len(),
        forall|i: int| 0 <= i < d.len() ==> is_digit(#[trigger] d[i]),
    ensures
        digits_value(d.subrange(0, k)) <= digits_value(d),
    decreases d.len() - k,
{
    if k < d.len() {
        lemma_digits_value_grows(d, k + 1);
        let a = d.subrange(0, k + 1);
        assert(a.drop_last() =~= d.subrange(0, k));
    } else {
        assert(d.subrange(0, k) =~= d);
    }
}

/// Parses an unsigned decimal number as `str::parse::<usize>` does.
pub fn parse_usize(t: &[char]) -> (r: Option<usize>)
    ensures
        match r {
            Some(v) => parsed_usize(t@) == Some(v as nat),
            None => parsed_usize(t@) is None,
        },
{
    let n = t.len();
    let start: usize = if n > 0 && t[0] == '+' {
        1
    } else {
        0
    };
    let ghost d = unsigned_digits(t@);
    if start == n {
        return None;
    }
    let mut value: usize = 0;
    let mut i: usize = start;
    proof {
        assert(d =~= t@.subrange(start as int, n as int));
        assert(d.subrange(0, 0) =~= Seq::<char>::empty());
    }
    while i < n
        invariant
            n == t@.len(),
            start <= i <= n,
            d == t@.subrange(start as int, n as int),
            d == unsigned_digits(t@),
            forall|j: int| 0 <= j < i - start ==> is_digit(#[trigger] d[j]),
            value as nat == digits_value(d.subrange(0, i - start)),
        decreases n - i,
    {
        let c = t[i];
        proof {
            assert(d[i - start] == c);
        }
        if !('0' <= c && c <= '9') {
            proof {
                assert(!is_digit(d[i - start]));
            }
            return None;
        }
        let digit = (c as u32 - '0' as u32) as usize;
        proof {
            let a = d.subrange(0, i - start + 1);
            assert(a.drop_last() =~= d.subrange(0, i - start));
            assert(a.last() == c);
            assert(digit as nat == (c as nat) - ('0' as nat));
            assert(digits_value(a) == value as nat * 10 + digit as nat);
        }
        match value.checked_mul(10) {
            Some(v10) => match v10.checked_add(digit) {
                Some(v) => {
                    value = v;
                },
                None => {
                    proof {
                        if all_digits(d) {
                            lemma_digits_value_grows(d, i - start + 1);
                        }
                    }
                    return None;
                },
            },
            None => {
                proof {
                    if all_digits(d) {
                        lemma_digits_value_grows(d, i - start + 1);
                    }
                }
                return None;
            },
        }
        i = i + 1;
    }
    proof {
        assert(d.subrange(0, n - start) =~= d);
    }
    Some(value)
}

/// The user's answer to the choice among candidates.
#[derive(Debug, Clone, Copy, PartialEq, Eq, Structural)]
pub enum SelectionReply {
    /// `q` or `Q`: give up.
    Cancel,
    /// Not a number; ask again.
    NotANumber,
    /// A number outside `1..=count`; ask again.
    OutOfRange,
    /// The candidate at this position (the answer minus one).
    Choose(usize),
}

/// How a line typed at the prompt is understood, `count` candidates shown.
pub open spec fn selection_reply(input: Seq<char>, count: nat) -> SelectionReply {
    let t = trim(input);
    if lower(t) == "q"@ {
        SelectionReply::Cancel
    } else {
        match parsed_usize(t) {
            None => SelectionReply::NotANumber,
            Some(n) => if 1 <= n && n <= count {
                SelectionReply::Choose((n - 1) as usize)
            } else {
                SelectionReply::OutOfRange
            },
        }
    }
}

/// Reads a line typed at the prompt: surrounding whitespace ignored, `q` in
/// either case cancels, a number from 1 to `count` picks that candidate.
pub fn interpret_selection(input: &str, count: usize) -> (r: SelectionReply)
    ensures
        r == selection_reply(input@, count as nat),
{
    let t = trim_str(input);
    let tc = chars_of(t);
    if tc.len() == 1 && lower_char_exec(tc[0]) == 'q' {
        proof {
            assert(lower(tc@) =~= seq![crate::text::lower_char(tc@[0])]);
            reveal_strlit("q");
            assert(lower(tc@) =~= "q"@);
        }
        return SelectionReply::Cancel;
    }
    proof {
        reveal_strlit("q");
        if lower(tc@) == "q"@ {
            assert(lower(tc@).len() == 1);
            assert(lower(tc@)[0] == crate::text::lower_char(tc@[0]));
        }
    }
    match parse_usize(tc.as_slice()) {
        None => SelectionReply::NotANumber,
        Some(n) => if 1 <= n && n <= count {
            SelectionReply::Choose(n - 1)
        } else {
            SelectionReply::OutOfRange
        },
    }
}


/// An answer that picks a candidate always picks one of the `count` shown.
pub proof fn lemma_choice_in_range(input: Seq<char>, count: nat)
    ensures
        selection_reply(input, count) matches SelectionReply::Choose(i) ==> i < count,
{
}

} // verus!
