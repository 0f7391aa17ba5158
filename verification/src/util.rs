//! Small shared helpers: decimal digit sequences and the bytes-to-text
//! bridge.

use vstd::prelude::*;
use vstd::utf8::{decode_utf8, valid_utf8};

verus! {

/// An ASCII decimal digit.
pub open spec fn is_digit(b: u8) -> bool {
    48 <= b <= 57
}

/// The shortest decimal digit string of a non-negative integer.
pub open spec fn dec_digits(n: int) -> Seq<u8>
    recommends
        n >= 0,
    decreases n,
{
    if n < 10 {
        seq![(48 + if n >= 0 { n } else { 0 }) as u8]
    } else {
        dec_digits(n / 10).push((48 + n % 10) as u8)
    }
}

/// The value of a digit string.
pub open spec fn dec_val(s: Seq<u8>) -> int
    decreases s.len(),
{
    if s.len() == 0 {
        0
    } else {
        dec_val(s.drop_last()) * 10 + (s.last() - 48)
    }
}

/// Whether every byte of the string is a decimal digit.
pub open spec fn all_digits(s: Seq<u8>) -> bool {
    forall|i: int| 0 <= i < s.len() ==> is_digit(#[trigger] s[i])
}

/// `dec_digits` produces a non-empty string of digits.
pub proof fn lemma_dec_digits_are_digits(n: int)
    requires
        n >= 0,
    ensures
        dec_digits(n).len() >= 1,
        all_digits(dec_digits(n)),
    decreases n,
{
    if n >= 10 {
        lemma_dec_digits_are_digits(n / 10);
        assert forall|i: int| 0 <= i < dec_digits(n).len() implies is_digit(
            #[trigger] dec_digits(n)[i],
        ) by {
            if i < dec_digits(n / 10).len() {
                assert(dec_digits(n)[i] == dec_digits(n / 10)[i]);
            }
        }
    }
}

/// Reading back the digit string of a value yields the value.
pub proof fn lemma_dec_val_of_digits(n: int)
    requires
        n >= 0,
    ensures
        dec_val(dec_digits(n)) == n,
    decreases n,
{
    if n < 10 {
        let s = dec_digits(n);
        assert(s =~= seq![(48 + n) as u8]);
        assert(s.drop_last() =~= Seq::<u8>::empty());
        assert(s.last() == (48 + n) as u8);
        assert((48 + n) as u8 == 48 + n);
        assert(dec_val(Seq::<u8>::empty()) == 0);
        assert(dec_val(s) == 0 * 10 + ((48 + n) - 48));
    } else {
        lemma_dec_val_of_digits(n / 10);
        assert(dec_digits(n).drop_last() =~= dec_digits(n / 10));
    }
}

/// The value of a digit string is non-negative.
pub proof fn lemma_dec_val_nonneg(s: Seq<u8>)
    requires
        all_digits(s),
    ensures
        dec_val(s) >= 0,
    decreases s.len(),
{
    if s.len() > 0 {
        assert(all_digits(s.drop_last()));
        lemma_dec_val_nonneg(s.drop_last());
    }
}

/// Extending a digit string never shrinks its value.
pub proof fn lemma_dec_val_prefix(s: Seq<u8>, i: int)
    requires
        all_digits(s),
        0 <= i <= s.len(),
    ensures
        dec_val(s.take(i)) <= dec_val(s),
    decreases s.len() - i,
{
    if i < s.len() {
        assert(all_digits(s.take(i)));
        lemma_dec_val_nonneg(s.take(i));
        assert(s.take(i + 1).drop_last() =~= s.take(i));
        assert(dec_val(s.take(i + 1)) == dec_val(s.take(i)) * 10 + (s[i] - 48));
        lemma_dec_val_prefix(s, i + 1);
        assert(s.take(s.len() as int) =~= s);
    } else {
        assert(s.take(i) =~= s);
    }
}

/// The decimal digit string of a non-negative integer, as bytes.
pub fn u64_to_decimal(n: u64) -> (digits: Vec<u8>)
    ensures
        digits@ == dec_digits(n as int),
    decreases n,
{
    if n < 10 {
        let mut v: Vec<u8> = Vec::new();
        v.push(48 + (n as u8));
        assert(v@ =~= dec_digits(n as int));
        v
    } else {
        let mut v = u64_to_decimal(n / 10);
        v.push(48 + ((n % 10) as u8));
        assert(v@ =~= dec_digits(n as int));
        v
    }
}

/// Relies on String::from_utf8: it succeeds exactly on valid UTF-8 and
/// decodes the bytes to the characters they encode.
#[verifier::external_body]
pub(crate) fn bytes_to_string(bytes: Vec<u8>) -> (r: Result<String, ()>)
    ensures
        (r is Ok) == valid_utf8(bytes@),
        r matches Ok(s) ==> s@ == decode_utf8(bytes@),
{
    match String::from_utf8(bytes) {
        Ok(s) => Ok(s),
        Err(_) => Err(()),
    }
}


/// Index of the first occurrence of a character, or -1.
pub open spec fn find_char(s: Seq<char>, c: char) -> int
    decreases s.len(),
{
    if s.len() == 0 {
        -1
    } else if s[0] == c {
        0
    } else {
        let rest = find_char(s.drop_first(), c);
        if rest < 0 {
            -1
        } else {
            rest + 1
        }
    }
}

/// `find_char` finds exactly the first occurrence.
pub proof fn lemma_find_char(s: Seq<char>, c: char)
    ensures
        find_char(s, c) == -1 ==> forall|j: int| 0 <= j < s.len() ==> s[j] != c,
        find_char(s, c) >= 0 ==> {
            &&& find_char(s, c) < s.len()
            &&& s[find_char(s, c)] == c
            &&& forall|j: int| 0 <= j < find_char(s, c) ==> s[j] != c
        },
    decreases s.len(),
{
    if s.len() > 0 && s[0] != c {
        lemma_find_char(s.drop_first(), c);
        let rest = find_char(s.drop_first(), c);
        if rest == -1 {
            assert forall|j: int| 0 <= j < s.len() implies s[j] != c by {
                if j > 0 {
                    assert(s.drop_first()[j - 1] != c);
                }
            }
        } else {
            assert(s[rest + 1] == s.drop_first()[rest]);
            assert forall|j: int| 0 <= j < rest + 1 implies s[j] != c by {
                if j > 0 {
                    assert(s.drop_first()[j - 1] != c);
                }
            }
        }
    }
}

/// If position `i` holds the character and nothing before it does, the first
/// occurrence is at `i`.
pub proof fn lemma_find_char_is(s: Seq<char>, c: char, i: int)
    requires
        0 <= i < s.len(),
        s[i] == c,
        forall|j: int| 0 <= j < i ==> s[j] != c,
    ensures
        find_char(s, c) == i,
{
    lemma_find_char(s, c);
    let f = find_char(s, c);
    if f == -1 {
        assert(s[i] != c);
    } else {
        if f < i {
            assert(s[f] != c);
        }
        if f > i {
            assert(s[i] != c);
        }
    }
}

/// If no position holds the character, there is no first occurrence.
pub proof fn lemma_find_char_none(s: Seq<char>, c: char)
    requires
        forall|j: int| 0 <= j < s.len() ==> s[j] != c,
    ensures
        find_char(s, c) == -1,
{
    lemma_find_char(s, c);
    if find_char(s, c) >= 0 {
        assert(s[find_char(s, c)] != c);
    }
}

/// Index of the first occurrence of `target` at or after `from`, if any.
pub fn find_char_in(s: &str, from: usize, target: char) -> (r: Option<usize>)
    ensures
        r matches Some(i) ==> from <= i < s@.len() && s@[i as int] == target && (forall|j: int|
            from <= j < i ==> s@[j] != target),
        r is None ==> forall|j: int| from <= j < s@.len() ==> s@[j] != target,
{
    let n = s.unicode_len();
    if from >= n {
        return None;
    }
    for i in from..n
        invariant
            n == s@.len(),
            from <= n,
            forall|j: int| from <= j < i ==> s@[j] != target,
    {
        if s.get_char(i) == target {
            return Some(i);
        }
    }
    None
}

} // verus!
