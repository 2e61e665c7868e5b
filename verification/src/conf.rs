//! Worker-count configuration: one setting selects how many worker threads
//! the runtime starts; when it is unset or not a number, the detected
//! logical CPU count is used instead, exactly.

use vstd::prelude::*;

verus! {

/// A decimal digit, by code point.
pub open spec fn is_digit(c: char) -> bool {
    48 <= c as int && c as int <= 57
}

/// The value of a decimal digit.
pub open spec fn digit_val(c: char) -> int {
    c as int - 48
}

/// The value of a string of decimal digits, most significant first.
pub open spec fn digits_val(s: Seq<char>) -> int
    decreases s.len(),
{
    if s.len() == 0 {
        0
    } else {
        digits_val(s.drop_last()) * 10 + digit_val(s.last())
    }
}

/// The digit part of the setting: a single leading '+' is tolerated, as the
/// standard integer parser tolerates it.
pub open spec fn numeral_of(s: Seq<char>) -> Seq<char> {
    if s.len() > 0 && s[0] == '+' {
        s.skip(1)
    } else {
        s
    }
}

/// Whether the setting is a well-formed count: one or more decimal digits
/// after the optional sign, nothing else.
pub open spec fn is_count(s: Seq<char>) -> bool {
    numeral_of(s).len() > 0 && forall|i: int|
        0 <= i < numeral_of(s).len() ==> is_digit(#[trigger] numeral_of(s)[i])
}

/// The value a well-formed setting denotes.
pub open spec fn count_val(s: Seq<char>) -> int {
    digits_val(numeral_of(s))
}

proof fn lemma_digits_val_nonneg(s: Seq<char>)
    requires
        forall|i: int| 0 <= i < s.len() ==> is_digit(#[trigger] s[i]),
    ensures
        digits_val(s) >= 0,
    decreases s.len(),
{
    if s.len() > 0 {
        assert forall|i: int| 0 <= i < s.drop_last().len() implies is_digit(
            #[trigger] s.drop_last()[i],
        ) by {
            assert(s.drop_last()[i] == s[i]);
        }
        lemma_digits_val_nonneg(s.drop_last());
        assert(s.last() == s[s.len() - 1]);
    }
}

proof fn lemma_digits_val_take_succ(s: Seq<char>, i: int)
    requires
        0 <= i < s.len(),
    ensures
        digits_val(s.take(i + 1)) == digits_val(s.take(i)) * 10 + digit_val(s[i]),
{
    assert(s.take(i + 1).drop_last() =~= s.take(i));
    assert(s.take(i + 1).last() == s[i]);
}

proof fn lemma_digits_val_take_grows(s: Seq<char>, i: int)
    requires
        forall|j: int| 0 <= j < s.len() ==> is_digit(#[trigger] s[j]),
        0 <= i <= s.len(),
    ensures
        digits_val(s.take(i)) <= digits_val(s),
    decreases s.len() - i,
{
    if i == s.len() {
        assert(s.take(i) =~= s);
    } else {
        lemma_digits_val_take_succ(s, i);
        assert forall|j: int| 0 <= j < s.take(i).len() implies is_digit(
            #[trigger] s.take(i)[j],
        ) by {
            assert(s.take(i)[j] == s[j]);
        }
        lemma_digits_val_nonneg(s.take(i));
        lemma_digits_val_take_grows(s, i + 1);
    }
}

/// Parse the worker-count setting exactly as the runtime accepts it: an
/// optional '+' then one or more decimal digits, denoting a value that fits
/// the machine word. Anything else is not a count.
pub fn parse_count(s: &str) -> (r: Option<usize>)
    ensures
        r is Some <==> is_count(s@) && count_val(s@) <= usize::MAX,
        r matches Some(v) ==> v == count_val(s@),
{
    let len = s.unicode_len();
    let mut start: usize = 0;
    if len > 0 && s.get_char(0) == '+' {
        start = 1;
    }
    if start >= len {
        proof {
            assert(numeral_of(s@).len() == 0);
        }
        return None;
    }
    let ghost num = numeral_of(s@);
    proof {
        if !(s@.len() > 0 && s@[0] == '+') {
            assert(s@.skip(0) =~= s@);
        }
        assert(num == s@.skip(start as int));
    }
    let mut acc: usize = 0;
    let mut i: usize = start;
    while i < len
        invariant
            start <= i <= len,
            len == s@.len(),
            start < len,
            num == numeral_of(s@),
            num == s@.skip(start as int),
            forall|j: int| 0 <= j < i - start ==> is_digit(#[trigger] num[j]),
            acc == digits_val(num.take(i - start)),
        decreases len - i,
    {
        let c = s.get_char(i);
        let code = c as u32;
        proof {
            assert(num[(i - start) as int] == s@[i as int]);
        }
        if code < 48 || code > 57 {
            proof {
                assert(!is_digit(num[(i - start) as int]));
            }
            return None;
        }
        let d = code - 48;
        let wide: u128 = (acc as u128) * 10 + (d as u128);
        proof {
            lemma_digits_val_take_succ(num, (i - start) as int);
        }
        if wide > usize::MAX as u128 {
            proof {
                if is_count(s@) {
                    lemma_digits_val_take_grows(num, (i - start) as int + 1);
                }
            }
            return None;
        }
        acc = wide as usize;
        i = i + 1;
    }
    proof {
        assert(num.take((len - start) as int) =~= num);
    }
    Some(acc)
}

/// Relies on num_cpus::get: the number of logical cores available to this
/// process, documented to be at least 1.
#[verifier::external_body]
fn detected_cpus() -> (r: usize)
    ensures
        1 <= r,
{
    num_cpus::get()
}

/// The worker count a given setting selects over a given detected CPU
/// count: the setting's value when it is a well-formed count that fits,
/// the detected count exactly otherwise or when the setting is absent.
pub fn worker_count_from(setting: Option<&str>, detected: usize) -> (r: usize)
    ensures
        match setting {
            Some(s) => if is_count(s@) && count_val(s@) <= usize::MAX {
                r == count_val(s@)
            } else {
                r == detected
            },
            None => r == detected,
        },
{
    match setting {
        Some(s) => match parse_count(s) {
            Some(n) => n,
            None => detected,
        },
        None => detected,
    }
}

/// The worker count the runtime starts with: the setting's value when it is
/// a well-formed count that fits the machine word, the detected logical CPU
/// count (at least 1) otherwise.
pub fn worker_count(setting: Option<&str>) -> (r: usize)
    ensures
        match setting {
            Some(s) => if is_count(s@) && count_val(s@) <= usize::MAX {
                r == count_val(s@)
            } else {
                r >= 1
            },
            None => r >= 1,
        },
{
    let detected = detected_cpus();
    worker_count_from(setting, detected)
}

} // verus!
