//! The claims payload of a session token, as canonical JSON bytes.
//!
//! The wire form is the single object
//! `{"sub":"<id>","username":"<name>","exp":<s>,"iat":<s>}` with the fields
//! in exactly this order: the subject id as a quoted decimal string, the
//! username as a JSON string (quote, backslash and control characters
//! escaped), and the two epoch-second timestamps as bare decimals.  The
//! parser accepts exactly what the serialiser emits, and parsing an emitted
//! payload returns the original claims.

use crate::services::jwt::Claims;
use crate::util::{all_digits, dec_digits, dec_val, is_digit, lemma_dec_digits_are_digits,
    lemma_dec_val_nonneg, lemma_dec_val_of_digits, lemma_dec_val_prefix, bytes_to_string,
    u64_to_decimal};
use vstd::prelude::*;
use vstd::utf8::{decode_utf8, encode_utf8, valid_utf8};

verus! {

/// Abstract claims: subject id, username characters, expiry and issue time.
pub struct ClaimsModel {
    pub sub: int,
    pub username: Seq<char>,
    pub exp: int,
    pub iat: int,
}

/// Models the core can issue or accept: ids and timestamps within their
/// machine ranges.
pub open spec fn model_ok(m: ClaimsModel) -> bool {
    &&& 0 <= m.sub <= 0x7fffffff
    &&& 0 <= m.exp <= 0x7fffffffffffffff
    &&& 0 <= m.iat <= 0x7fffffffffffffff
}

impl View for Claims {
    type V = ClaimsModel;

    open spec fn view(&self) -> ClaimsModel {
        ClaimsModel {
            sub: self.sub as int,
            username: self.username@,
            exp: self.exp as int,
            iat: self.iat as int,
        }
    }
}

/// `{"sub":"`
pub open spec fn lit_open() -> Seq<u8> {
    seq![123u8, 34u8, 115u8, 117u8, 98u8, 34u8, 58u8, 34u8]
}

/// `","username":"`
pub open spec fn lit_user() -> Seq<u8> {
    seq![34u8, 44u8, 34u8, 117u8, 115u8, 101u8, 114u8, 110u8, 97u8, 109u8, 101u8, 34u8, 58u8, 34u8]
}

/// `,"exp":` (the username string's closing quote precedes it and is
/// consumed together with the string content)
pub open spec fn lit_exp() -> Seq<u8> {
    seq![44u8, 34u8, 101u8, 120u8, 112u8, 34u8, 58u8]
}

/// `,"iat":`
pub open spec fn lit_iat() -> Seq<u8> {
    seq![44u8, 34u8, 105u8, 97u8, 116u8, 34u8, 58u8]
}

/// `}`
pub open spec fn lit_close() -> Seq<u8> {
    seq![125u8]
}

/// Lower-case hexadecimal digit of a value below sixteen.
pub open spec fn hex_digit(v: int) -> u8 {
    if v < 10 {
        (48 + v) as u8
    } else {
        (87 + v) as u8
    }
}

/// A lower-case hexadecimal digit byte.
pub open spec fn is_hex_lower(b: u8) -> bool {
    is_digit(b) || (97 <= b <= 102)
}

/// Value of a lower-case hexadecimal digit byte.
pub open spec fn hex_val(b: u8) -> int {
    if is_digit(b) {
        b - 48
    } else {
        b - 87
    }
}

/// The JSON escape of one byte of string content.
pub open spec fn esc_byte(b: u8) -> Seq<u8> {
    if b == 34 {
        seq![92u8, 34u8]
    } else if b == 92 {
        seq![92u8, 92u8]
    } else if b < 32 {
        seq![92u8, 117u8, 48u8, 48u8, hex_digit(b as int / 16), hex_digit(b as int % 16)]
    } else {
        seq![b]
    }
}

/// The JSON escape of a whole byte string.
pub open spec fn escape_bytes(s: Seq<u8>) -> Seq<u8>
    decreases s.len(),
{
    if s.len() == 0 {
        Seq::empty()
    } else {
        escape_bytes(s.drop_last()) + esc_byte(s.last())
    }
}

/// The escape of a string starts with the escape of its first byte.
pub proof fn lemma_escape_first(s: Seq<u8>)
    requires
        s.len() > 0,
    ensures
        escape_bytes(s) == esc_byte(s[0]) + escape_bytes(s.drop_first()),
    decreases s.len(),
{
    if s.len() == 1 {
        assert(s.drop_last() =~= Seq::<u8>::empty());
        assert(s.drop_first() =~= Seq::<u8>::empty());
        assert(escape_bytes(s) =~= esc_byte(s[0]) + escape_bytes(s.drop_first()));
    } else {
        lemma_escape_first(s.drop_last());
        assert(s.drop_last().drop_first() =~= s.drop_first().drop_last());
        assert(s.drop_first().last() == s.last());
        assert(escape_bytes(s.drop_first()) == escape_bytes(s.drop_first().drop_last())
            + esc_byte(s.last()));
        assert(escape_bytes(s) =~= esc_byte(s[0]) + escape_bytes(s.drop_first()));
    }
}

/// Undo the escaping of string content up to the closing quote: the content
/// bytes and how many input bytes were consumed, closing quote included.
pub open spec fn unescape_prefix(s: Seq<u8>) -> Option<(Seq<u8>, int)>
    decreases s.len(),
{
    if s.len() == 0 {
        None
    } else if s[0] == 34 {
        Some((Seq::empty(), 1))
    } else if s[0] == 92 {
        if s.len() < 2 {
            None
        } else if s[1] == 34 || s[1] == 92 {
            match unescape_prefix(s.skip(2)) {
                Some((content, used)) => Some((seq![s[1]] + content, used + 2)),
                None => None,
            }
        } else if s[1] == 117 {
            if s.len() < 6 {
                None
            } else if s[2] == 48 && s[3] == 48 && is_hex_lower(s[4]) && is_hex_lower(s[5])
                && hex_val(s[4]) * 16 + hex_val(s[5]) < 32 {
                match unescape_prefix(s.skip(6)) {
                    Some((content, used)) => Some(
                        (seq![(hex_val(s[4]) * 16 + hex_val(s[5])) as u8] + content, used + 6),
                    ),
                    None => None,
                }
            } else {
                None
            }
        } else {
            None
        }
    } else if s[0] < 32 {
        None
    } else {
        match unescape_prefix(s.drop_first()) {
            Some((content, used)) => Some((seq![s[0]] + content, used + 1)),
            None => None,
        }
    }
}

/// Unescaping inverts escaping: after the escape of `content` and a closing
/// quote, scanning recovers `content` and stops right after the quote.
pub proof fn lemma_unescape_escape(content: Seq<u8>, rest: Seq<u8>)
    ensures
        unescape_prefix(escape_bytes(content) + seq![34u8] + rest) == Some(
            (content, escape_bytes(content).len() as int + 1),
        ),
    decreases content.len(),
{
    let s = escape_bytes(content) + seq![34u8] + rest;
    if content.len() == 0 {
        assert(escape_bytes(content) =~= Seq::<u8>::empty());
        assert(s =~= seq![34u8] + rest);
        assert(s[0] == 34);
        assert(unescape_prefix(s) == Some((Seq::<u8>::empty(), 1int)));
        assert(Seq::<u8>::empty() =~= content);
    } else {
        let b = content[0];
        let tail = content.drop_first();
        lemma_escape_first(content);
        lemma_unescape_escape(tail, rest);
        let s_tail = escape_bytes(tail) + seq![34u8] + rest;
        if b == 34 || b == 92 {
            assert(esc_byte(b) =~= seq![92u8, b]);
            assert(s =~= seq![92u8, b] + s_tail);
            assert(s[0] == 92 && s[1] == b);
            assert(s.skip(2) =~= s_tail);
            assert(seq![s[1]] + tail =~= content);
        } else if b < 32 {
            let h1 = hex_digit(b as int / 16);
            let h2 = hex_digit(b as int % 16);
            assert(esc_byte(b) =~= seq![92u8, 117u8, 48u8, 48u8, h1, h2]);
            assert(s =~= seq![92u8, 117u8, 48u8, 48u8, h1, h2] + s_tail);
            assert(s[0] == 92 && s[1] == 117 && s[2] == 48 && s[3] == 48 && s[4] == h1 && s[5]
                == h2);
            assert(is_hex_lower(h1) && hex_val(h1) == b as int / 16);
            assert(is_hex_lower(h2) && hex_val(h2) == b as int % 16);
            assert(hex_val(h1) * 16 + hex_val(h2) == b as int);
            assert(s.skip(6) =~= s_tail);
            assert(seq![(hex_val(s[4]) * 16 + hex_val(s[5])) as u8] + tail =~= content);
        } else {
            assert(esc_byte(b) =~= seq![b]);
            assert(s =~= seq![b] + s_tail);
            assert(s[0] == b && b != 34 && b != 92 && b >= 32);
            assert(s.drop_first() =~= s_tail);
            assert(seq![s[0]] + tail =~= content);
        }
    }
}

/// Whether `s` begins with `prefix`.
pub open spec fn starts_with(s: Seq<u8>, prefix: Seq<u8>) -> bool {
    prefix.len() <= s.len() && s.take(prefix.len() as int) == prefix
}

/// The maximal run of decimal digits at the front of `s`.
pub open spec fn digits_run(s: Seq<u8>) -> Seq<u8>
    decreases s.len(),
{
    if s.len() > 0 && is_digit(s[0]) {
        seq![s[0]] + digits_run(s.drop_first())
    } else {
        Seq::empty()
    }
}

/// The digit run of a digit string followed by a non-digit is the digit
/// string itself.
pub proof fn lemma_digits_run_exact(digits: Seq<u8>, rest: Seq<u8>)
    requires
        all_digits(digits),
        rest.len() == 0 || !is_digit(rest[0]),
    ensures
        digits_run(digits + rest) == digits,
    decreases digits.len(),
{
    let s = digits + rest;
    if digits.len() == 0 {
        assert(s =~= rest);
        assert(digits_run(s) =~= digits);
    } else {
        assert(is_digit(s[0]));
        assert(s.drop_first() =~= digits.drop_first() + rest);
        assert(all_digits(digits.drop_first()));
        lemma_digits_run_exact(digits.drop_first(), rest);
        assert(digits_run(s) =~= seq![digits[0]] + digits.drop_first());
        assert(seq![digits[0]] + digits.drop_first() =~= digits);
    }
}

/// The digit run is a digit-only prefix of `s`, maximal in `s`.
pub proof fn lemma_digits_run_props(s: Seq<u8>)
    ensures
        digits_run(s).len() <= s.len(),
        all_digits(digits_run(s)),
        s.take(digits_run(s).len() as int) == digits_run(s),
        digits_run(s).len() == s.len() || !is_digit(s[digits_run(s).len() as int]),
    decreases s.len(),
{
    if s.len() > 0 && is_digit(s[0]) {
        lemma_digits_run_props(s.drop_first());
        let run = digits_run(s);
        let tail_run = digits_run(s.drop_first());
        assert(run =~= seq![s[0]] + tail_run);
        assert forall|i: int| 0 <= i < run.len() implies is_digit(#[trigger] run[i]) by {
            if i > 0 {
                assert(run[i] == tail_run[i - 1]);
            }
        }
        assert(s.take(run.len() as int) =~= run) by {
            assert(s.drop_first().take(tail_run.len() as int) == tail_run);
        }
        if run.len() < s.len() {
            assert(s[run.len() as int] == s.drop_first()[tail_run.len() as int]);
        }
    }
}

/// The canonical claims JSON of a model.
pub open spec fn spec_claims_json(m: ClaimsModel) -> Seq<u8> {
    lit_open() + dec_digits(m.sub) + lit_user() + escape_bytes(encode_utf8(m.username))
        + seq![34u8] + lit_exp() + dec_digits(m.exp) + lit_iat() + dec_digits(m.iat) + lit_close()
}

/// Parse the issue-time digits and the closing brace.
pub open spec fn parse_iat_part(s: Seq<u8>) -> Option<int> {
    let run = digits_run(s);
    if run.len() == 0 || dec_val(run) > 0x7fffffffffffffff {
        None
    } else if s.skip(run.len() as int) != lit_close() {
        None
    } else {
        Some(dec_val(run))
    }
}

/// Parse the expiry digits, the issue-time field marker, and the rest.
pub open spec fn parse_exp_part(s: Seq<u8>) -> Option<(int, int)> {
    let run = digits_run(s);
    if run.len() == 0 || dec_val(run) > 0x7fffffffffffffff {
        None
    } else {
        let s2 = s.skip(run.len() as int);
        if !starts_with(s2, lit_iat()) {
            None
        } else {
            match parse_iat_part(s2.skip(lit_iat().len() as int)) {
                None => None,
                Some(iat) => Some((dec_val(run), iat)),
            }
        }
    }
}

/// Parse the escaped username string, the expiry field marker, and the rest.
pub open spec fn parse_user_part(s: Seq<u8>) -> Option<(Seq<char>, int, int)> {
    match unescape_prefix(s) {
        None => None,
        Some((uname, used)) => {
            let s2 = s.skip(used);
            if !starts_with(s2, lit_exp()) {
                None
            } else if !valid_utf8(uname) {
                None
            } else {
                match parse_exp_part(s2.skip(lit_exp().len() as int)) {
                    None => None,
                    Some((exp, iat)) => Some((decode_utf8(uname), exp, iat)),
                }
            }
        },
    }
}

/// Parse canonical claims JSON: the model encoded, or nothing when the
/// bytes are not exactly the canonical form of some in-range model.
pub open spec fn spec_parse_claims(s: Seq<u8>) -> Option<ClaimsModel> {
    if !starts_with(s, lit_open()) {
        None
    } else {
        let s1 = s.skip(lit_open().len() as int);
        let run = digits_run(s1);
        if run.len() == 0 || dec_val(run) > 0x7fffffff {
            None
        } else {
            let s2 = s1.skip(run.len() as int);
            if !starts_with(s2, lit_user()) {
                None
            } else {
                match parse_user_part(s2.skip(lit_user().len() as int)) {
                    None => None,
                    Some((uname, exp, iat)) => Some(
                        ClaimsModel { sub: dec_val(run), username: uname, exp: exp, iat: iat },
                    ),
                }
            }
        }
    }
}

proof fn lemma_parse_iat(iat: int)
    requires
        0 <= iat <= 0x7fffffffffffffff,
    ensures
        parse_iat_part(dec_digits(iat) + lit_close()) == Some(iat),
{
    let s = dec_digits(iat) + lit_close();
    lemma_dec_digits_are_digits(iat);
    lemma_dec_val_of_digits(iat);
    assert(lit_close()[0] == 125 && !is_digit(125u8));
    lemma_digits_run_exact(dec_digits(iat), lit_close());
    assert(s.skip(dec_digits(iat).len() as int) =~= lit_close());
}

proof fn lemma_parse_exp(exp: int, iat: int)
    requires
        0 <= exp <= 0x7fffffffffffffff,
        0 <= iat <= 0x7fffffffffffffff,
    ensures
        parse_exp_part(dec_digits(exp) + lit_iat() + dec_digits(iat) + lit_close()) == Some(
            (exp, iat),
        ),
{
    let s = dec_digits(exp) + lit_iat() + dec_digits(iat) + lit_close();
    let rest = lit_iat() + dec_digits(iat) + lit_close();
    lemma_dec_digits_are_digits(exp);
    lemma_dec_val_of_digits(exp);
    assert(s =~= dec_digits(exp) + rest);
    assert(rest[0] == 44 && !is_digit(44u8));
    lemma_digits_run_exact(dec_digits(exp), rest);
    assert(digits_run(s) == dec_digits(exp));
    let s2 = s.skip(dec_digits(exp).len() as int);
    assert(s2 =~= lit_iat() + (dec_digits(iat) + lit_close()));
    assert(starts_with(s2, lit_iat())) by {
        assert(s2.take(lit_iat().len() as int) =~= lit_iat());
    }
    assert(s2.skip(lit_iat().len() as int) =~= dec_digits(iat) + lit_close());
    lemma_parse_iat(iat);
}

proof fn lemma_parse_user(username: Seq<char>, exp: int, iat: int)
    requires
        0 <= exp <= 0x7fffffffffffffff,
        0 <= iat <= 0x7fffffffffffffff,
    ensures
        parse_user_part(
            escape_bytes(encode_utf8(username)) + seq![34u8] + lit_exp() + dec_digits(exp)
                + lit_iat() + dec_digits(iat) + lit_close(),
        ) == Some((username, exp, iat)),
{
    let uname_bytes = encode_utf8(username);
    let esc = escape_bytes(uname_bytes);
    let nums = dec_digits(exp) + lit_iat() + dec_digits(iat) + lit_close();
    let after = lit_exp() + nums;
    let s = esc + seq![34u8] + lit_exp() + dec_digits(exp) + lit_iat() + dec_digits(iat)
        + lit_close();
    assert(s =~= esc + seq![34u8] + after);
    lemma_unescape_escape(uname_bytes, after);
    assert(unescape_prefix(s) == Some((uname_bytes, esc.len() as int + 1)));
    let s2 = s.skip(esc.len() as int + 1);
    assert(s2 =~= lit_exp() + nums);
    assert(starts_with(s2, lit_exp())) by {
        assert(s2.take(lit_exp().len() as int) =~= lit_exp());
    }
    assert(s2.skip(lit_exp().len() as int) =~= nums);
    vstd::utf8::encode_utf8_valid_utf8(username);
    vstd::utf8::encode_utf8_decode_utf8(username);
    lemma_parse_exp(exp, iat);
}

/// Parsing inverts serialisation: the canonical JSON of an in-range model
/// parses back to exactly that model.
pub proof fn lemma_claims_round_trip(m: ClaimsModel)
    requires
        model_ok(m),
    ensures
        spec_parse_claims(spec_claims_json(m)) == Some(m),
{
    let s = spec_claims_json(m);
    let subd = dec_digits(m.sub);
    let esc = escape_bytes(encode_utf8(m.username));
    let user_tail = esc + seq![34u8] + lit_exp() + dec_digits(m.exp) + lit_iat() + dec_digits(
        m.iat,
    ) + lit_close();
    lemma_dec_digits_are_digits(m.sub);
    lemma_dec_val_of_digits(m.sub);
    assert(starts_with(s, lit_open())) by {
        assert(s.take(lit_open().len() as int) =~= lit_open());
    }
    let s1 = s.skip(lit_open().len() as int);
    assert(s1 =~= subd + (lit_user() + user_tail));
    assert((lit_user() + user_tail)[0] == 34 && !is_digit(34u8));
    lemma_digits_run_exact(subd, lit_user() + user_tail);
    assert(digits_run(s1) == subd);
    let s2 = s1.skip(subd.len() as int);
    assert(s2 =~= lit_user() + user_tail);
    assert(starts_with(s2, lit_user())) by {
        assert(s2.take(lit_user().len() as int) =~= lit_user());
    }
    assert(s2.skip(lit_user().len() as int) =~= user_tail);
    lemma_parse_user(m.username, m.exp, m.iat);
    assert(parse_user_part(user_tail) == Some((m.username, m.exp, m.iat)));
}



fn lit_open_vec() -> (v: Vec<u8>)
    ensures
        v@ == lit_open(),
{
    let mut v: Vec<u8> = Vec::new();
    v.push(123);
    v.push(34);
    v.push(115);
    v.push(117);
    v.push(98);
    v.push(34);
    v.push(58);
    v.push(34);
    proof {
        assert(v@ =~= lit_open());
    }
    v
}

fn lit_user_vec() -> (v: Vec<u8>)
    ensures
        v@ == lit_user(),
{
    let mut v: Vec<u8> = Vec::new();
    v.push(34);
    v.push(44);
    v.push(34);
    v.push(117);
    v.push(115);
    v.push(101);
    v.push(114);
    v.push(110);
    v.push(97);
    v.push(109);
    v.push(101);
    v.push(34);
    v.push(58);
    v.push(34);
    proof {
        assert(v@ =~= lit_user());
    }
    v
}

fn lit_exp_vec() -> (v: Vec<u8>)
    ensures
        v@ == lit_exp(),
{
    let mut v: Vec<u8> = Vec::new();
    v.push(44);
    v.push(34);
    v.push(101);
    v.push(120);
    v.push(112);
    v.push(34);
    v.push(58);
    proof {
        assert(v@ =~= lit_exp());
    }
    v
}

fn lit_iat_vec() -> (v: Vec<u8>)
    ensures
        v@ == lit_iat(),
{
    let mut v: Vec<u8> = Vec::new();
    v.push(44);
    v.push(34);
    v.push(105);
    v.push(97);
    v.push(116);
    v.push(34);
    v.push(58);
    proof {
        assert(v@ =~= lit_iat());
    }
    v
}

fn hex_digit_byte(v: u8) -> (b: u8)
    requires
        v < 16,
    ensures
        b == hex_digit(v as int),
{
    if v < 10 {
        48 + v
    } else {
        87 + v
    }
}

fn is_hex_byte(b: u8) -> (r: bool)
    ensures
        r == is_hex_lower(b),
{
    (48 <= b && b <= 57) || (97 <= b && b <= 102)
}

fn hex_value_byte(b: u8) -> (v: u8)
    requires
        is_hex_lower(b),
    ensures
        v as int == hex_val(b),
        v < 16,
{
    if b <= 57 {
        b - 48
    } else {
        b - 87
    }
}

/// Escape string content for embedding in a JSON string.
fn escape_content(content: &Vec<u8>) -> (out: Vec<u8>)
    ensures
        out@ == escape_bytes(content@),
{
    let mut out: Vec<u8> = Vec::new();
    let n = content.len();
    for i in 0..n
        invariant
            n == content.len(),
            out@ =~= escape_bytes(content@.take(i as int)),
    {
        let b = content[i];
        if b == 34 {
            out.push(92);
            out.push(34);
        } else if b == 92 {
            out.push(92);
            out.push(92);
        } else if b < 32 {
            out.push(92);
            out.push(117);
            out.push(48);
            out.push(48);
            out.push(hex_digit_byte(b / 16));
            out.push(hex_digit_byte(b % 16));
        } else {
            out.push(b);
        }
        proof {
            assert(content@.take(i + 1).drop_last() =~= content@.take(i as int));
            assert(content@.take(i + 1).last() == content@[i as int]);
            assert(out@ =~= escape_bytes(content@.take(i as int)) + esc_byte(content@[i as int]));
        }
    }
    proof {
        assert(content@.take(n as int) =~= content@);
    }
    out
}

/// Serialise claims to their canonical JSON bytes.
pub fn serialize_claims(claims: &Claims) -> (out: Vec<u8>)
    requires
        claims.wf(),
    ensures
        out@ == spec_claims_json(claims@),
{
    let mut out = lit_open_vec();
    let mut sub_digits = u64_to_decimal(claims.sub as u64);
    out.append(&mut sub_digits);
    let mut user_lit = lit_user_vec();
    out.append(&mut user_lit);
    let uname_bytes = claims.username.as_str().as_bytes_vec();
    let mut escaped = escape_content(&uname_bytes);
    out.append(&mut escaped);
    out.push(34);
    let mut exp_lit = lit_exp_vec();
    out.append(&mut exp_lit);
    let mut exp_digits = u64_to_decimal(claims.exp as u64);
    out.append(&mut exp_digits);
    let mut iat_lit = lit_iat_vec();
    out.append(&mut iat_lit);
    let mut iat_digits = u64_to_decimal(claims.iat as u64);
    out.append(&mut iat_digits);
    out.push(125);
    proof {
        assert(out@ =~= spec_claims_json(claims@));
    }
    out
}

/// Whether `lit` occurs in `bytes` at `pos`.
fn check_lit(bytes: &Vec<u8>, pos: usize, lit: &Vec<u8>) -> (r: bool)
    requires
        pos <= bytes.len(),
    ensures
        r == starts_with(bytes@.skip(pos as int), lit@),
{
    if bytes.len() - pos < lit.len() {
        return false;
    }
    let n = lit.len();
    for i in 0..n
        invariant
            n == lit.len(),
            pos + n <= bytes.len(),
            forall|j: int| 0 <= j < i ==> bytes@[pos + j] == lit@[j],
    {
        if bytes[pos + i] != lit[i] {
            proof {
                assert(bytes@.skip(pos as int)[i as int] != lit@[i as int]);
            }
            return false;
        }
    }
    proof {
        assert(bytes@.skip(pos as int).take(lit@.len() as int) =~= lit@);
    }
    true
}

/// The end of the maximal digit run starting at `pos`.
fn digits_end(bytes: &Vec<u8>, pos: usize) -> (end: usize)
    requires
        pos <= bytes.len(),
    ensures
        pos <= end <= bytes@.len(),
        bytes@.subrange(pos as int, end as int) == digits_run(bytes@.skip(pos as int)),
        end == bytes@.len() || !is_digit(bytes@[end as int]),
    decreases bytes@.len() - pos,
{
    if pos < bytes.len() && 48 <= bytes[pos] && bytes[pos] <= 57 {
        let end = digits_end(bytes, pos + 1);
        proof {
            assert(bytes@.skip(pos as int).drop_first() =~= bytes@.skip(pos as int + 1));
            assert(bytes@.subrange(pos as int, end as int) =~= seq![bytes@[pos as int]]
                + bytes@.subrange(pos as int + 1, end as int));
        }
        end
    } else {
        proof {
            assert(bytes@.subrange(pos as int, pos as int) =~= Seq::<u8>::empty());
        }
        pos
    }
}

/// The value of the digit run `bytes[pos..end]`, unless it exceeds `bound`.
fn digits_value(bytes: &Vec<u8>, pos: usize, end: usize, bound: u64) -> (r: Result<u64, ()>)
    requires
        pos <= end <= bytes.len(),
        all_digits(bytes@.subrange(pos as int, end as int)),
    ensures
        ({
            let run = bytes@.subrange(pos as int, end as int);
            &&& r matches Ok(v) ==> v == dec_val(run) && dec_val(run) <= bound
            &&& r is Err ==> dec_val(run) > bound
        }),
{
    let ghost run = bytes@.subrange(pos as int, end as int);
    let mut acc: u128 = 0;
    for i in pos..end
        invariant
            pos <= i <= end <= bytes.len(),
            run == bytes@.subrange(pos as int, end as int),
            all_digits(run),
            acc == dec_val(run.take(i - pos)),
            acc <= bound as u128,
    {
        let d = bytes[i];
        proof {
            assert(run[i - pos] == bytes@[i as int]);
            assert(is_digit(run[i - pos]));
        }
        let step: u128 = acc * 10 + ((d - 48) as u128);
        proof {
            assert(run.take(i - pos + 1).drop_last() =~= run.take(i - pos));
            assert(run.take(i - pos + 1).last() == run[i - pos]);
            assert(step == dec_val(run.take(i - pos + 1)));
        }
        if step > bound as u128 {
            proof {
                lemma_dec_val_prefix(run, i - pos + 1);
                assert(run.take(run.len() as int) =~= run);
            }
            return Err(());
        }
        acc = step;
    }
    proof {
        assert(run.take(end - pos) =~= run);
    }
    Ok(acc as u64)
}

/// Undo JSON string escaping from `pos` up to the closing quote.
fn unescape_from(bytes: &Vec<u8>, pos: usize) -> (r: Result<(Vec<u8>, usize), ()>)
    requires
        pos <= bytes.len(),
    ensures
        r matches Ok((content, end)) ==> pos < end <= bytes@.len() && unescape_prefix(
            bytes@.skip(pos as int),
        ) == Some((content@, end - pos)),
        r is Err ==> unescape_prefix(bytes@.skip(pos as int)) is None,
    decreases bytes@.len() - pos,
{
    let ghost s = bytes@.skip(pos as int);
    if pos >= bytes.len() {
        return Err(());
    }
    let b = bytes[pos];
    proof {
        assert(s[0] == bytes@[pos as int]);
    }
    if b == 34 {
        let content: Vec<u8> = Vec::new();
        proof {
            assert(content@ =~= Seq::<u8>::empty());
        }
        Ok((content, pos + 1))
    } else if b == 92 {
        if pos + 1 >= bytes.len() {
            return Err(());
        }
        let e = bytes[pos + 1];
        proof {
            assert(s[1] == bytes@[pos as int + 1]);
        }
        if e == 34 || e == 92 {
            proof {
                assert(s.skip(2) =~= bytes@.skip(pos as int + 2));
            }
            match unescape_from(bytes, pos + 2) {
                Ok((mut content, end)) => {
                    content.insert(0, e);
                    proof {
                        assert(content@ =~= seq![s[1]] + content@.skip(1));
                    }
                    Ok((content, end))
                },
                Err(_) => Err(()),
            }
        } else if e == 117 {
            if bytes.len() - pos < 6 {
                proof {
                    assert(s.len() < 6);
                }
                return Err(());
            }
            let z1 = bytes[pos + 2];
            let z2 = bytes[pos + 3];
            let h1 = bytes[pos + 4];
            let h2 = bytes[pos + 5];
            proof {
                assert(s[2] == bytes@[pos as int + 2]);
                assert(s[3] == bytes@[pos as int + 3]);
                assert(s[4] == bytes@[pos as int + 4]);
                assert(s[5] == bytes@[pos as int + 5]);
            }
            if z1 == 48 && z2 == 48 && is_hex_byte(h1) && is_hex_byte(h2) {
                let v = hex_value_byte(h1) * 16 + hex_value_byte(h2);
                if v < 32 {
                    proof {
                        assert(s.skip(6) =~= bytes@.skip(pos as int + 6));
                    }
                    match unescape_from(bytes, pos + 6) {
                        Ok((mut content, end)) => {
                            content.insert(0, v);
                            proof {
                                assert(v as int == hex_val(s[4]) * 16 + hex_val(s[5]));
                                assert(content@ =~= seq![(hex_val(s[4]) * 16 + hex_val(
                                    s[5],
                                )) as u8] + content@.skip(1));
                            }
                            Ok((content, end))
                        },
                        Err(_) => Err(()),
                    }
                } else {
                    Err(())
                }
            } else {
                Err(())
            }
        } else {
            Err(())
        }
    } else if b < 32 {
        Err(())
    } else {
        proof {
            assert(s.drop_first() =~= bytes@.skip(pos as int + 1));
        }
        match unescape_from(bytes, pos + 1) {
            Ok((mut content, end)) => {
                content.insert(0, b);
                proof {
                    assert(content@ =~= seq![s[0]] + content@.skip(1));
                }
                Ok((content, end))
            },
            Err(_) => Err(()),
        }
    }
}

fn parse_iat_at(bytes: &Vec<u8>, pos: usize) -> (r: Result<i64, ()>)
    requires
        pos <= bytes.len(),
    ensures
        r matches Ok(v) ==> parse_iat_part(bytes@.skip(pos as int)) == Some(v as int) && v >= 0,
        r is Err ==> parse_iat_part(bytes@.skip(pos as int)) is None,
{
    let ghost s = bytes@.skip(pos as int);
    let end = digits_end(bytes, pos);
    let ghost run = digits_run(s);
    proof {
        lemma_digits_run_props(s);
        lemma_dec_val_nonneg(run);
    }
    if end == pos {
        return Err(());
    }
    let v = match digits_value(bytes, pos, end, 0x7fffffffffffffff) {
        Ok(v) => v,
        Err(_) => {
            return Err(());
        },
    };
    proof {
        assert(s.skip(run.len() as int) =~= bytes@.skip(end as int));
    }
    if end < bytes.len() && bytes.len() - end == 1 && bytes[end] == 125 {
        proof {
            assert(bytes@.skip(end as int) =~= lit_close());
        }
        Ok(v as i64)
    } else {
        proof {
            let tail = bytes@.skip(end as int);
            if end == bytes@.len() {
                assert(tail.len() == 0 && lit_close().len() == 1);
            } else if bytes@.len() - end == 1 {
                assert(tail[0] == bytes@[end as int] && tail[0] != 125);
                assert(tail != lit_close());
            } else {
                assert(tail.len() != 1 && lit_close().len() == 1);
            }
        }
        Err(())
    }
}

fn parse_exp_at(bytes: &Vec<u8>, pos: usize) -> (r: Result<(i64, i64), ()>)
    requires
        pos <= bytes.len(),
    ensures
        r matches Ok(pair) ==> parse_exp_part(bytes@.skip(pos as int)) == Some(
            (pair.0 as int, pair.1 as int),
        ) && pair.0 >= 0 && pair.1 >= 0,
        r is Err ==> parse_exp_part(bytes@.skip(pos as int)) is None,
{
    let ghost s = bytes@.skip(pos as int);
    let end = digits_end(bytes, pos);
    let ghost run = digits_run(s);
    proof {
        lemma_digits_run_props(s);
        lemma_dec_val_nonneg(run);
    }
    if end == pos {
        return Err(());
    }
    let v = match digits_value(bytes, pos, end, 0x7fffffffffffffff) {
        Ok(v) => v,
        Err(_) => {
            return Err(());
        },
    };
    proof {
        assert(s.skip(run.len() as int) =~= bytes@.skip(end as int));
    }
    let iat_lit = lit_iat_vec();
    if !check_lit(bytes, end, &iat_lit) {
        return Err(());
    }
    proof {
        assert(bytes@.skip(end as int).skip(lit_iat().len() as int) =~= bytes@.skip(
            end as int + lit_iat().len() as int,
        ));
    }
    match parse_iat_at(bytes, end + iat_lit.len()) {
        Ok(iat) => Ok((v as i64, iat)),
        Err(_) => Err(()),
    }
}

fn parse_user_at(bytes: &Vec<u8>, pos: usize) -> (r: Result<(String, i64, i64), ()>)
    requires
        pos <= bytes.len(),
    ensures
        r matches Ok(triple) ==> parse_user_part(bytes@.skip(pos as int)) == Some(
            (triple.0@, triple.1 as int, triple.2 as int),
        ) && triple.1 >= 0 && triple.2 >= 0,
        r is Err ==> parse_user_part(bytes@.skip(pos as int)) is None,
{
    let ghost s = bytes@.skip(pos as int);
    let (content, end) = match unescape_from(bytes, pos) {
        Ok(pair) => pair,
        Err(_) => {
            return Err(());
        },
    };
    proof {
        assert(s.skip(end - pos) =~= bytes@.skip(end as int));
    }
    let exp_lit = lit_exp_vec();
    if !check_lit(bytes, end, &exp_lit) {
        return Err(());
    }
    let username = match bytes_to_string(content) {
        Ok(u) => u,
        Err(_) => {
            return Err(());
        },
    };
    proof {
        assert(bytes@.skip(end as int).skip(lit_exp().len() as int) =~= bytes@.skip(
            end as int + lit_exp().len() as int,
        ));
    }
    match parse_exp_at(bytes, end + exp_lit.len()) {
        Ok((exp, iat)) => Ok((username, exp, iat)),
        Err(_) => Err(()),
    }
}

/// Parse canonical claims JSON bytes back into claims.
pub fn parse_claims(bytes: &Vec<u8>) -> (r: Result<Claims, ()>)
    ensures
        r matches Ok(claims) ==> spec_parse_claims(bytes@) == Some(claims@) && claims.wf(),
        r is Err ==> spec_parse_claims(bytes@) is None,
{
    let open_lit = lit_open_vec();
    proof {
        assert(bytes@.skip(0) =~= bytes@);
    }
    if !check_lit(bytes, 0, &open_lit) {
        return Err(());
    }
    let ghost s1 = bytes@.skip(lit_open().len() as int);
    proof {
        assert(bytes@.skip(0).skip(lit_open().len() as int) =~= s1);
    }
    let sub_start = open_lit.len();
    let sub_end = digits_end(bytes, sub_start);
    let ghost run = digits_run(s1);
    proof {
        assert(bytes@.skip(sub_start as int) =~= s1);
        lemma_digits_run_props(s1);
        lemma_dec_val_nonneg(run);
    }
    if sub_end == sub_start {
        return Err(());
    }
    let sub = match digits_value(bytes, sub_start, sub_end, 0x7fffffff) {
        Ok(v) => v,
        Err(_) => {
            return Err(());
        },
    };
    proof {
        assert(s1.skip(run.len() as int) =~= bytes@.skip(sub_end as int));
    }
    let user_lit = lit_user_vec();
    if !check_lit(bytes, sub_end, &user_lit) {
        return Err(());
    }
    proof {
        assert(bytes@.skip(sub_end as int).skip(lit_user().len() as int) =~= bytes@.skip(
            sub_end as int + lit_user().len() as int,
        ));
    }
    let total = bytes.len();
    proof {
        assert(lit_user().len() <= bytes@.skip(sub_end as int).len());
        assert(bytes@.skip(sub_end as int).len() == bytes@.len() - sub_end);
        assert(sub_end + user_lit@.len() <= total);
    }
    match parse_user_at(bytes, sub_end + user_lit.len()) {
        Ok((username, exp, iat)) => {
            let claims = Claims { sub: sub as i32, username, exp, iat };
            Ok(claims)
        },
        Err(_) => Err(()),
    }
}

} // verus!
