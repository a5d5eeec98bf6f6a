use vstd::prelude::*;

use crate::guard::{banned_after, counted, outcome_of, FileData, Outcome};

verus! {

/// Why a typed key could not be read as a number in [0, 255].
#[derive(Debug, Clone, Copy, PartialEq, Eq, Structural)]
pub enum KeyParseError {
    /// Nothing was typed.
    Empty,
    /// A character that is not a decimal digit came before the number grew too large.
    InvalidDigit,
    /// The number is larger than 255.
    OutOfRange,
}

/// Why a parsed key was refused before any file was read.
#[derive(Debug, Clone, Copy, PartialEq, Eq, Structural)]
pub enum Refusal {
    /// Zero masks nothing and is never accepted.
    KeyIsZero,
    /// The file has a registered key and this is not it.
    KeyMismatch,
}

pub open spec fn is_digit(c: char) -> bool {
    48 <= (c as u32) <= 57
}

pub open spec fn digit_value(c: char) -> nat {
    ((c as u32) - 48) as nat
}

/// The number written by the decimal digits `s`.
pub open spec fn digits_value(s: Seq<char>) -> nat
    decreases s.len(),
{
    if s.len() == 0 {
        0
    } else {
        digits_value(s.drop_last()) * 10 + digit_value(s.last())
    }
}

/// The number of decimal digits at the start of `s`.
pub open spec fn leading_digits(s: Seq<char>) -> nat
    decreases s.len(),
{
    if s.len() > 0 && is_digit(s[0]) {
        1 + leading_digits(s.drop_first())
    } else {
        0
    }
}

/// `s` without one leading plus sign.
pub open spec fn unsigned_part(s: Seq<char>) -> Seq<char> {
    if s.len() > 0 && s[0] == '+' {
        s.drop_first()
    } else {
        s
    }
}

/// How the text `s` reads as a key: decimal digits after an optional plus
/// sign. Read from the left, a number past 255 is out of range and any other
/// character is an invalid digit, whichever comes first.
pub open spec fn key_parse(s: Seq<char>) -> Result<u8, KeyParseError> {
    if s.len() == 0 {
        Err(KeyParseError::Empty)
    } else {
        let d = unsigned_part(s);
        let n = leading_digits(d);
        if d.len() == 0 {
            Err(KeyParseError::InvalidDigit)
        } else if digits_value(d.take(n as int)) > 255 {
            Err(KeyParseError::OutOfRange)
        } else if n < d.len() {
            Err(KeyParseError::InvalidDigit)
        } else {
            Ok(digits_value(d) as u8)
        }
    }
}

/// What presenting `key` for `file` leads to: `Ok(true)` where the file has
/// no key yet and one is to be registered, `Ok(false)` where the key matches.
pub open spec fn admission(keys: Map<Seq<char>, u8>, file: Seq<char>, key: u8) -> Result<bool, Refusal> {
    if key == 0 {
        Err(Refusal::KeyIsZero)
    } else {
        match outcome_of(keys, file, key) {
            Outcome::Unregistered => Ok(true),
            Outcome::Accept => Ok(false),
            Outcome::WrongKey => Err(Refusal::KeyMismatch),
        }
    }
}

proof fn lemma_leading_digits(d: Seq<char>, k: int)
    requires
        0 <= k <= d.len(),
        forall|j: int| 0 <= j < k ==> is_digit(#[trigger] d[j]),
    ensures
        k < d.len() && !is_digit(d[k]) ==> leading_digits(d) == k,
        k == d.len() ==> leading_digits(d) == k,
        leading_digits(d) >= k,
    decreases k,
{
    if k > 0 {
        lemma_leading_digits(d.drop_first(), k - 1);
    }
}

proof fn lemma_leading_digits_bound(d: Seq<char>)
    ensures
        leading_digits(d) <= d.len(),
    decreases d.len(),
{
    if d.len() > 0 {
        lemma_leading_digits_bound(d.drop_first());
    }
}

proof fn lemma_digits_grow(d: Seq<char>, k: int, n: int)
    requires
        0 <= k <= n <= d.len(),
    ensures
        digits_value(d.take(k)) <= digits_value(d.take(n)),
    decreases n - k,
{
    if k < n {
        lemma_digits_grow(d, k, n - 1);
        assert(d.take(n).drop_last() =~= d.take(n - 1));
    }
}

/// Zero is never a usable key.
pub fn reject_zero_key(key: u8) -> (r: bool)
    ensures
        r == (key == 0),
{
    key == 0
}

/// Reads a key from `text`.
pub fn parse_key(text: &str) -> (r: Result<u8, KeyParseError>)
    ensures
        r == key_parse(text@),
{
    let len = text.unicode_len();
    if len == 0 {
        return Err(KeyParseError::Empty);
    }
    let start: usize = if text.get_char(0) == '+' { 1 } else { 0 };
    let ghost d = unsigned_part(text@);
    assert(d =~= text@.skip(start as int));
    if start == len {
        return Err(KeyParseError::InvalidDigit);
    }
    let mut value: u32 = 0;
    let mut i: usize = start;
    while i < len
        invariant
            start <= i <= len,
            len == text@.len(),
            d == text@.skip(start as int),
            d == unsigned_part(text@),
            value <= 255,
            value == digits_value(d.take(i - start)),
            forall|j: int| 0 <= j < i - start ==> is_digit(#[trigger] d[j]),
        decreases len - i,
    {
        let c = text.get_char(i);
        assert(c == d[i - start]);
        let code = c as u32;
        if !(48 <= code && code <= 57) {
            proof {
                lemma_leading_digits(d, i - start);
            }
            return Err(KeyParseError::InvalidDigit);
        }
        let next = value * 10 + (code - 48);
        assert(d.take(i - start + 1).drop_last() =~= d.take(i - start));
        if next > 255 {
            proof {
                lemma_leading_digits(d, i - start + 1);
                lemma_leading_digits_bound(d);
                lemma_digits_grow(d, i - start + 1, leading_digits(d) as int);
            }
            return Err(KeyParseError::OutOfRange);
        }
        value = next;
        i = i + 1;
    }
    proof {
        lemma_leading_digits(d, d.len() as int);
        assert(d.take(d.len() as int) =~= d);
    }
    Ok(value as u8)
}

impl FileData {
    /// Decides on a parsed key for `file`, asked for by `address`: zero is
    /// refused outright, a wrong key is refused and counted as a failure of
    /// `address` on `file`, and any other key is admitted. `Ok(true)` says the
    /// file has no key yet, so the key is to be registered once the output is
    /// written.
    pub fn admit_key(&mut self, file: &String, address: &String, key: u8) -> (r: Result<bool, Refusal>)
        requires
            old(self).wf(),
        ensures
            final(self).wf(),
            r == admission(old(self).keys(), file@, key),
            final(self).keys() == old(self).keys(),
            r == Err::<bool, Refusal>(Refusal::KeyMismatch) ==> final(self).attempts() == counted(
                old(self).attempts(),
                file@,
                address@,
            ) && final(self).bans() == banned_after(
                old(self).attempts(),
                old(self).bans(),
                file@,
                address@,
            ),
            r != Err::<bool, Refusal>(Refusal::KeyMismatch) ==> final(self).attempts() == old(
                self,
            ).attempts() && final(self).bans() == old(self).bans(),
    {
        if reject_zero_key(key) {
            return Err(Refusal::KeyIsZero);
        }
        match self.check_key(file, key) {
            Outcome::Unregistered => Ok(true),
            Outcome::Accept => Ok(false),
            Outcome::WrongKey => {
                self.change_ip_attempts(file.clone(), address.clone());
                Err(Refusal::KeyMismatch)
            },
        }
    }
}

} // verus!
