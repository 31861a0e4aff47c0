//! Conversions from the textual inputs of the string interface: amounts in
//! decimal and principals in their textual form.
use vstd::prelude::*;
use vstd::string::StrSliceExecFns;

use crate::types::Account;

verus! {

pub open spec fn is_digit(c: char) -> bool {
    '0' <= c && c <= '9'
}

/// The value of a string of decimal digits.
pub open spec fn digits_value(s: Seq<char>) -> int
    decreases s.len(),
{
    if s.len() == 0 {
        0
    } else {
        digits_value(s.drop_last()) * 10 + (s.last() as int - '0' as int)
    }
}

/// The digits of an amount: the text without one leading `+`.
pub open spec fn unsigned_digits(s: Seq<char>) -> Seq<char> {
    if s.len() > 0 && s[0] == '+' {
        s.drop_first()
    } else {
        s
    }
}

/// Whether the text is an amount: an optional `+` and at least one digit,
/// with a value that fits in 128 bits.
pub open spec fn is_amount(s: Seq<char>) -> bool {
    let d = unsigned_digits(s);
    &&& d.len() > 0
    &&& forall|i: int| 0 <= i < d.len() ==> is_digit(#[trigger] d[i])
    &&& digits_value(d) <= u128::MAX
}

proof fn lemma_value_nonneg(s: Seq<char>)
    requires
        forall|i: int| 0 <= i < s.len() ==> is_digit(#[trigger] s[i]),
    ensures
        digits_value(s) >= 0,
    decreases s.len(),
{
    if s.len() > 0 {
        assert(is_digit(s[s.len() - 1]));
        assert forall|i: int| 0 <= i < s.drop_last().len() implies is_digit(#[trigger] s.drop_last()[i]) by {
            assert(is_digit(s[i]));
        }
        lemma_value_nonneg(s.drop_last());
    }
}

proof fn lemma_value_grows(s: Seq<char>, k: int)
    requires
        0 <= k <= s.len(),
        forall|i: int| 0 <= i < s.len() ==> is_digit(#[trigger] s[i]),
    ensures
        digits_value(s.subrange(0, k)) <= digits_value(s),
    decreases s.len(),
{
    if k < s.len() {
        assert(s.drop_last().subrange(0, k) =~= s.subrange(0, k));
        assert(is_digit(s[s.len() - 1]));
        assert forall|i: int| 0 <= i < s.drop_last().len() implies is_digit(#[trigger] s.drop_last()[i]) by {
            assert(is_digit(s[i]));
        }
        lemma_value_grows(s.drop_last(), k);
        lemma_value_nonneg(s.drop_last());
    } else {
        assert(s.subrange(0, k) =~= s);
    }
}

/// Reads a decimal amount; text that is not one reads as 0.
pub fn convert_from_string_to_u128(amount: String) -> (r: u128)
    ensures
        r as int == if is_amount(amount@) {
            digits_value(unsigned_digits(amount@))
        } else {
            0
        },
{
    let s = amount.as_str();
    let n = s.unicode_len();
    let start: usize = if n > 0 && s.get_char(0) == '+' {
        1
    } else {
        0
    };
    let ghost d = unsigned_digits(s@);
    proof {
        assert(s@ == amount@);
        assert(d =~= s@.subrange(start as int, n as int));
    }
    if start == n {
        return 0;
    }
    let mut acc: u128 = 0;
    let mut i: usize = start;
    while i < n
        invariant
            start <= i <= n,
            n == s@.len(),
            s@ == amount@,
            d == unsigned_digits(amount@),
            d =~= s@.subrange(start as int, n as int),
            forall|j: int| 0 <= j < i - start ==> is_digit(#[trigger] d[j]),
            acc as int == digits_value(d.subrange(0, i - start)),
        decreases n - i,
    {
        let c = s.get_char(i);
        if !('0' <= c && c <= '9') {
            proof {
                assert(!is_digit(d[i - start]));
                assert(!is_amount(amount@));
            }
            return 0;
        }
        let digit = ((c as u32) - ('0' as u32)) as u128;
        proof {
            assert(d.subrange(0, i - start + 1).drop_last() =~= d.subrange(0, i - start));
        }
        if acc > (u128::MAX - digit) / 10 {
            proof {
                assert(digits_value(d.subrange(0, i - start + 1)) > u128::MAX) by (nonlinear_arith)
                    requires
                        digits_value(d.subrange(0, i - start + 1)) == acc * 10 + digit,
                        acc > (u128::MAX - digit) / 10,
                        digit <= 9,
                ;
                if forall|j: int| 0 <= j < d.len() ==> is_digit(#[trigger] d[j]) {
                    lemma_value_grows(d, i - start + 1);
                }
                assert(!is_amount(amount@));
            }
            return 0;
        }
        acc = acc * 10 + digit;
        i = i + 1;
    }
    proof {
        assert(d.subrange(0, n - start) =~= d);
    }
    acc
}

/// The significant bytes of the principal that a text names, if it names one.
pub uninterp spec fn principal_from_text(text: Seq<char>) -> Option<Seq<u8>>;

/// Relies on candid's `Principal::from_text`, which parses the textual form
/// of a principal (and refuses one longer than 29 bytes), and on
/// `Principal::as_slice` for the parsed bytes.
#[verifier::external_body]
fn parse_principal(text: &str) -> (r: Option<Vec<u8>>)
    ensures
        match r {
            Some(b) => principal_from_text(text@) == Some(b@) && b@.len() <= 29,
            None => principal_from_text(text@).is_none(),
        },
{
    candid::Principal::from_text(text).ok().map(|p| p.as_slice().to_vec())
}

/// Reads a principal's textual form; text that names none reads as the caller.
pub fn convert_from_string_to_principal(account: String, caller: &Account) -> (r: Account)
    ensures
        r@ == match principal_from_text(account@) {
            Some(b) => b,
            None => caller@,
        },
{
    match parse_principal(account.as_str()) {
        Some(bytes) => Account::new(bytes),
        None => caller.duplicate(),
    }
}

} // verus!
