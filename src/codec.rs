//! The persisted record of a proof: two field elements as decimal strings and
//! the proof bytes as standard base64.
use vstd::prelude::*;
use crate::field::MODULUS;
use crate::trace::PublicInputs;

verus! {

/// What standard base64 with padding makes of a byte sequence.
pub uninterp spec fn base64_of(b: Seq<u8>) -> Seq<char>;

/// The bytes that a standard base64 string decodes to, if it is well formed.
pub uninterp spec fn base64_decoded(s: Seq<char>) -> Option<Seq<u8>>;

#[verifier::external_type_specification]
#[verifier::external_body]
pub struct ExDecodeError(base64::DecodeError);

/// Relies on `base64::encode`: the standard alphabet, with padding; `base64::decode`
/// gives the bytes back from what it returns.
#[verifier::external_body]
fn base64_encode(b: &Vec<u8>) -> (r: String)
    ensures
        r@ == base64_of(b@),
        base64_decoded(r@) == Some(b@),
{
    base64::encode(b)
}

/// Relies on `base64::decode`: it reads the standard alphabet, and fails on
/// any other character or on a malformed length.
#[verifier::external_body]
fn base64_decode(s: &String) -> (r: Result<Vec<u8>, base64::DecodeError>)
    ensures
        match r {
            Ok(v) => base64_decoded(s@) == Some(v@),
            Err(_) => base64_decoded(s@) is None,
        },
{
    base64::decode(s)
}

/// Why a record cannot be read.
#[derive(Clone, Copy, Debug, PartialEq, Eq, Structural)]
pub enum CodecError {
    /// A number is empty or holds a character that is not a decimal digit.
    InvalidNumber,
    /// A number is at or above the field modulus.
    OutOfField,
    /// The proof is not valid base64.
    InvalidBase64,
}

/// The persisted record.
#[derive(Debug)]
pub struct Data {
    pub start: String,
    pub result: String,
    pub proof: String,
}

impl Default for Data {
    /// Both numbers "0", and no proof.
    fn default() -> (r: Data)
        ensures
            r.start@ == seq!['0'],
            r.result@ == seq!['0'],
            r.proof@ == Seq::<char>::empty(),
    {
        proof {
            reveal_strlit("0");
            reveal_strlit("");
        }
        Data { start: String::from_str("0"), result: String::from_str("0"), proof: String::from_str("") }
    }
}

pub open spec fn is_digit(c: char) -> bool {
    '0' <= c && c <= '9'
}

pub open spec fn digit_value(c: char) -> int {
    c as int - '0' as int
}

/// The digit character of `d`, for `d` below ten.
pub open spec fn digit_char(d: int) -> char {
    if d == 0 { '0' }
    else if d == 1 { '1' }
    else if d == 2 { '2' }
    else if d == 3 { '3' }
    else if d == 4 { '4' }
    else if d == 5 { '5' }
    else if d == 6 { '6' }
    else if d == 7 { '7' }
    else if d == 8 { '8' }
    else { '9' }
}

/// A non-empty string of decimal digits.
pub open spec fn is_decimal(s: Seq<char>) -> bool {
    s.len() > 0 && forall|i: int| 0 <= i < s.len() ==> is_digit(#[trigger] s[i])
}

/// The number that a string of decimal digits writes.
pub open spec fn decimal_value(s: Seq<char>) -> int
    decreases s.len(),
{
    if s.len() == 0 {
        0
    } else {
        decimal_value(s.drop_last()) * 10 + digit_value(s.last())
    }
}

/// The shortest decimal writing of `x`.
pub open spec fn decimal_of(x: nat) -> Seq<char>
    decreases x,
{
    if x < 10 {
        seq![digit_char(x as int)]
    } else {
        decimal_of(x / 10).push(digit_char((x % 10) as int))
    }
}

proof fn lemma_digit_char(d: int)
    requires
        0 <= d < 10,
    ensures
        is_digit(digit_char(d)),
        digit_value(digit_char(d)) == d,
{
}

/// Reading the decimal writing of a number gives the number back.
pub proof fn lemma_decimal_round_trip(x: nat)
    ensures
        is_decimal(decimal_of(x)),
        decimal_value(decimal_of(x)) == x,
    decreases x,
{
    if x < 10 {
        lemma_digit_char(x as int);
        let t = decimal_of(x);
        assert(t.drop_last() =~= Seq::<char>::empty());
        assert(decimal_value(t.drop_last()) == 0);
        assert(t.last() == digit_char(x as int));
    } else {
        lemma_decimal_round_trip(x / 10);
        lemma_digit_char((x % 10) as int);
        let s = decimal_of(x / 10);
        let t = decimal_of(x);
        assert(t.drop_last() =~= s);
        assert(t.last() == digit_char((x % 10) as int));
        assert(decimal_value(t) == decimal_value(s) * 10 + digit_value(t.last()));
        assert(x == (x / 10) * 10 + x % 10);
        assert forall|i: int| 0 <= i < t.len() implies is_digit(#[trigger] t[i]) by {
            if i < s.len() {
                assert(t[i] == s[i]);
            }
        }
    }
}

proof fn lemma_decimal_value_grows(s: Seq<char>, i: int)
    requires
        is_decimal(s),
        0 <= i <= s.len(),
    ensures
        decimal_value(s.take(i)) <= decimal_value(s),
        0 <= decimal_value(s.take(i)),
    decreases s.len() - i,
{
    if i == 0 {
        assert(s.take(0) =~= Seq::<char>::empty());
        lemma_decimal_value_nonneg(s);
    } else {
        lemma_decimal_value_nonneg(s.take(i));
        if i < s.len() {
            lemma_decimal_value_grows(s, i + 1);
            assert(s.take(i + 1).drop_last() =~= s.take(i));
            assert(is_digit(s[i]));
        } else {
            assert(s.take(i) =~= s);
        }
    }
}

proof fn lemma_decimal_value_nonneg(s: Seq<char>)
    requires
        forall|i: int| 0 <= i < s.len() ==> is_digit(#[trigger] s[i]),
    ensures
        0 <= decimal_value(s),
    decreases s.len(),
{
    if s.len() > 0 {
        lemma_decimal_value_nonneg(s.drop_last());
        assert(is_digit(s[s.len() - 1]));
    }
}

/// The string literal of one decimal digit.
fn digit_str(d: u128) -> (r: &'static str)
    requires
        d < 10,
    ensures
        r@ == seq![digit_char(d as int)],
{
    proof {
        reveal_strlit("0");
        reveal_strlit("1");
        reveal_strlit("2");
        reveal_strlit("3");
        reveal_strlit("4");
        reveal_strlit("5");
        reveal_strlit("6");
        reveal_strlit("7");
        reveal_strlit("8");
        reveal_strlit("9");
    }
    if d == 0 { "0" }
    else if d == 1 { "1" }
    else if d == 2 { "2" }
    else if d == 3 { "3" }
    else if d == 4 { "4" }
    else if d == 5 { "5" }
    else if d == 6 { "6" }
    else if d == 7 { "7" }
    else if d == 8 { "8" }
    else { "9" }
}

/// The decimal writing of `x`.
pub fn to_decimal(x: u128) -> (r: String)
    ensures
        r@ == decimal_of(x as nat),
    decreases x,
{
    if x < 10 {
        String::from_str(digit_str(x))
    } else {
        let mut s = to_decimal(x / 10);
        s.append(digit_str(x % 10));
        s
    }
}

/// Reads a decimal string as a field element.
pub fn parse_felt(s: &String) -> (r: Result<u128, CodecError>)
    ensures
        !is_decimal(s@) ==> r == Err::<u128, CodecError>(CodecError::InvalidNumber),
        is_decimal(s@) && decimal_value(s@) >= MODULUS ==> r == Err::<u128, CodecError>(
            CodecError::OutOfField,
        ),
        is_decimal(s@) && decimal_value(s@) < MODULUS ==> r == Ok::<u128, CodecError>(
            decimal_value(s@) as u128,
        ),
{
    let text = s.as_str();
    let len = text.unicode_len();
    if len == 0 {
        return Err(CodecError::InvalidNumber);
    }
    let mut i: usize = 0;
    while i < len
        invariant
            len == s@.len(),
            text@ == s@,
            i <= len,
            forall|k: int| 0 <= k < i ==> is_digit(#[trigger] s@[k]),
        decreases len - i,
    {
        let c = text.get_char(i);
        if !('0' <= c && c <= '9') {
            return Err(CodecError::InvalidNumber);
        }
        i = i + 1;
    }
    let mut acc: u128 = 0;
    i = 0;
    while i < len
        invariant
            len == s@.len(),
            text@ == s@,
            is_decimal(s@),
            i <= len,
            acc == decimal_value(s@.take(i as int)),
            acc < MODULUS,
        decreases len - i,
    {
        let c = text.get_char(i);
        assert(is_digit(s@[i as int]));
        let d: u128 = (c as u32 - '0' as u32) as u128;
        proof {
            assert(s@.take(i + 1).drop_last() =~= s@.take(i as int));
            assert(decimal_value(s@.take(i + 1)) == acc * 10 + d);
        }
        if acc > (MODULUS - 1 - d) / 10 {
            proof {
                let m = MODULUS as int;
                let a = acc as int;
                let di = d as int;
                assert(a * 10 + di >= m) by (nonlinear_arith)
                    requires a > (m - 1 - di) / 10, 0 <= di < 10, m > 10;
                lemma_decimal_value_grows(s@, i + 1);
            }
            return Err(CodecError::OutOfField);
        }
        proof {
            let m = MODULUS as int;
            let a = acc as int;
            let di = d as int;
            assert(a * 10 + di < m) by (nonlinear_arith)
                requires a <= (m - 1 - di) / 10, 0 <= di < 10, m > 10;
        }
        acc = acc * 10 + d;
        i = i + 1;
    }
    assert(s@.take(len as int) =~= s@);
    Ok(acc)
}

/// The record of the public inputs and the proof bytes.
pub fn to_data(proof: Vec<u8>, public_input: PublicInputs) -> (r: Data)
    ensures
        r.start@ == decimal_of(public_input.start as nat),
        r.result@ == decimal_of(public_input.result as nat),
        r.proof@ == base64_of(proof@),
        public_input.wf() ==> read_data(r.start@, r.result@, r.proof@) == Ok::<
            (PublicInputs, Seq<u8>),
            CodecError,
        >((public_input, proof@)),
{
    let r = Data {
        start: to_decimal(public_input.start),
        result: to_decimal(public_input.result),
        proof: base64_encode(&proof),
    };
    proof {
        lemma_decimal_round_trip(public_input.start as nat);
        lemma_decimal_round_trip(public_input.result as nat);
    }
    r
}

/// What a record reads as: the numbers first, in order, then the proof.
pub open spec fn read_data(start: Seq<char>, result: Seq<char>, proof: Seq<char>) -> Result<
    (PublicInputs, Seq<u8>),
    CodecError,
> {
    if !is_decimal(start) {
        Err(CodecError::InvalidNumber)
    } else if decimal_value(start) >= MODULUS {
        Err(CodecError::OutOfField)
    } else if !is_decimal(result) {
        Err(CodecError::InvalidNumber)
    } else if decimal_value(result) >= MODULUS {
        Err(CodecError::OutOfField)
    } else {
        match base64_decoded(proof) {
            Some(b) => Ok(
                (
                    PublicInputs {
                        start: decimal_value(start) as u128,
                        result: decimal_value(result) as u128,
                    },
                    b,
                ),
            ),
            None => Err(CodecError::InvalidBase64),
        }
    }
}

/// Reads a record back into the public inputs and the proof bytes.
pub fn from_data(data: Data) -> (r: Result<(PublicInputs, Vec<u8>), CodecError>)
    ensures
        r matches Ok((p, v)) ==> read_data(data.start@, data.result@, data.proof@) == Ok::<
            (PublicInputs, Seq<u8>),
            CodecError,
        >((p, v@)),
        r matches Err(e) ==> read_data(data.start@, data.result@, data.proof@) == Err::<
            (PublicInputs, Seq<u8>),
            CodecError,
        >(e),
{
    let start = match parse_felt(&data.start) {
        Ok(v) => v,
        Err(e) => return Err(e),
    };
    let result = match parse_felt(&data.result) {
        Ok(v) => v,
        Err(e) => return Err(e),
    };
    match base64_decode(&data.proof) {
        Ok(bytes) => Ok((PublicInputs { start, result }, bytes)),
        Err(_) => Err(CodecError::InvalidBase64),
    }
}

} // verus!
