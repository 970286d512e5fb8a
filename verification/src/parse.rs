//! Sentence framing, checksum validation and the per-type field decoders.
//!
//! A sentence is one line of the form `$TTMMM,field,field,...*HH`: `TT` the
//! two-byte talker id, `MMM` the three-byte message id, then comma-separated
//! payload fields up to the `*`, then two hex checksum digits.  The checksum
//! is the XOR of every byte between `$` and `*` exclusive.
//!
//! Error taxonomy: an input over 102 bytes is rejected before any parsing
//! (`TooLongMessage`); a grammar that runs off the end of the input is
//! `Incomplete`; a mismatched byte is the generic `Nom` failure; a numeric
//! field that is not strict base-10 is `NumberFail`; and time, date and RMC
//! status fields have their own failures.

use vstd::prelude::*;
use vstd::slice::slice_subrange;

use crate::num::{
    all_digits, digits_val, find_byte, is_digit, lemma_find_byte_bounds, lemma_find_byte_from,
    parse_digits, parse_float_num, pow10, spec_parse_decimal, spec_parse_digits, Decimal,
};
use crate::time::{NaiveDate, NaiveTime};

verus! {

/// Everything that can go wrong decoding one sentence.
#[derive(Copy, Clone, Debug, PartialEq, Eq, Structural)]
pub enum ParseError {
    /// The input exceeds the 102-byte protocol ceiling.
    TooLongMessage,
    /// The input ended before the grammar did.
    Incomplete,
    /// A structural mismatch: a required byte is not what the grammar asks.
    Nom,
    /// A GSV sentence whose talker id names no known constellation.
    UnknownGnss,
    /// A decoder was handed a sentence of another message id.
    InvalidMessageId,
    /// The recomputed checksum does not match the transmitted one.
    ChecksumFail,
    /// A numeric field is not strict base-10, or does not fit.
    NumberFail,
    /// A time-of-day field is malformed or out of range.
    InvalidTime,
    /// A date field is malformed or out of range.
    InvalidDate,
    /// An RMC status letter outside `A`, `D`, `V`.
    InvalidFixStatus,
    /// A GSV sentence index of zero, which names no slot.
    InvalidGsvSentenceNum,
    /// A well-formed sentence of a type the stateful parser does not merge.
    UnsupportedSentenceType,
}

/// A framed sentence: the parts between `$` and the checksum digits, plus
/// the transmitted checksum value.
#[derive(Debug, PartialEq)]
pub struct NmeaSentence {
    pub talker_id: Vec<u8>,
    pub message_id: Vec<u8>,
    pub data: Vec<u8>,
    pub checksum: u8,
}

/// The XOR fold of a byte string, the NMEA checksum function.
pub open spec fn xor_seq(s: Seq<u8>) -> u8
    decreases s.len(),
{
    if s.len() == 0 {
        0
    } else {
        xor_seq(s.drop_last()) ^ s.last()
    }
}

/// The byte string a sentence's checksum covers: talker id, message id, the
/// comma after it, and the payload.
pub open spec fn checksum_span(talker: Seq<u8>, message: Seq<u8>, data: Seq<u8>) -> Seq<u8> {
    talker + message + seq![44u8] + data
}

/// XOR-folds the bytes of `s`.
pub fn checksum(bytes: &[u8]) -> (r: u8)
    ensures
        r == xor_seq(bytes@),
{
    let mut c: u8 = 0;
    let mut i: usize = 0;
    while i < bytes.len()
        invariant
            0 <= i <= bytes@.len(),
            c == xor_seq(bytes@.take(i as int)),
        decreases bytes@.len() - i,
    {
        proof {
            assert(bytes@.take(i + 1).drop_last() =~= bytes@.take(i as int));
            assert(bytes@.take(i + 1).last() == bytes@[i as int]);
        }
        c = c ^ bytes[i];
        i = i + 1;
    }
    proof {
        assert(bytes@.take(bytes@.len() as int) =~= bytes@);
    }
    c
}

impl NmeaSentence {
    /// Recomputes the checksum over this sentence's own span.
    pub fn calc_checksum(&self) -> (r: u8)
        ensures
            r == xor_seq(checksum_span(self.talker_id@, self.message_id@, self.data@)),
    {
        let mut span: Vec<u8> = Vec::new();
        append_slice(&mut span, self.talker_id.as_slice());
        append_slice(&mut span, self.message_id.as_slice());
        span.push(44);
        append_slice(&mut span, self.data.as_slice());
        proof {
            assert(span@ =~= checksum_span(self.talker_id@, self.message_id@, self.data@));
        }
        checksum(span.as_slice())
    }
}

/// Appends a byte slice to a vector.
fn append_slice(v: &mut Vec<u8>, s: &[u8])
    ensures
        final(v)@ == old(v)@ + s@,
{
    let mut i: usize = 0;
    while i < s.len()
        invariant
            0 <= i <= s@.len(),
            v@ == old(v)@ + s@.take(i as int),
        decreases s@.len() - i,
    {
        proof {
            assert(old(v)@ + s@.take(i + 1) =~= (old(v)@ + s@.take(i as int)).push(s@[i as int]));
        }
        v.push(s[i]);
        i = i + 1;
    }
    proof {
        assert(old(v)@ + s@.take(s@.len() as int) =~= old(v)@ + s@);
    }
}

/// Flipping bits of one byte shifts the XOR fold by exactly that mask.
pub proof fn lemma_xor_seq_update(s: Seq<u8>, i: int, m: u8)
    requires
        0 <= i < s.len(),
    ensures
        xor_seq(s.update(i, s[i] ^ m)) == xor_seq(s) ^ m,
    decreases s.len(),
{
    let s2 = s.update(i, s[i] ^ m);
    if i == s.len() - 1 {
        assert(s2.drop_last() =~= s.drop_last());
        assert(s2.last() == s.last() ^ m);
        assert(xor_seq(s.drop_last()) ^ (s.last() ^ m) == (xor_seq(s.drop_last()) ^ s.last())
            ^ m) by {
            let a = xor_seq(s.drop_last());
            let b = s.last();
            assert(a ^ (b ^ m) == (a ^ b) ^ m) by (bit_vector);
        }
    } else {
        assert(s2.drop_last() =~= s.drop_last().update(i, s.drop_last()[i] ^ m));
        assert(s2.last() == s.last());
        lemma_xor_seq_update(s.drop_last(), i, m);
        assert((xor_seq(s.drop_last()) ^ m) ^ s.last() == (xor_seq(s.drop_last()) ^ s.last())
            ^ m) by {
            let a = xor_seq(s.drop_last());
            let b = s.last();
            assert((a ^ m) ^ b == (a ^ b) ^ m) by (bit_vector);
        }
    }
}

/// The checksum law: flipping any nonempty set of bits inside one byte of
/// the checksummed span always changes the XOR fold, so a single-bit flip
/// always flips the validation verdict.
pub proof fn lemma_checksum_bit_flip(s: Seq<u8>, i: int, m: u8)
    requires
        0 <= i < s.len(),
        m != 0,
    ensures
        xor_seq(s.update(i, s[i] ^ m)) != xor_seq(s),
{
    lemma_xor_seq_update(s, i, m);
    let x = xor_seq(s);
    assert(m != 0 ==> x ^ m != x) by (bit_vector);
}

/// Whether `b` is an ASCII hex digit.
pub open spec fn is_hex_digit(b: u8) -> bool {
    (48 <= b <= 57) || (65 <= b <= 70) || (97 <= b <= 102)
}

/// The value of an ASCII hex digit.
pub open spec fn hex_digit_val(b: u8) -> int {
    if 48 <= b <= 57 {
        b - 48
    } else if 65 <= b <= 70 {
        b - 55
    } else if 97 <= b <= 102 {
        b - 87
    } else {
        0
    }
}

/// Decodes one hex digit byte.
fn hex_digit(b: u8) -> (r: Option<u8>)
    ensures
        match r {
            Some(v) => is_hex_digit(b) && v == hex_digit_val(b),
            None => !is_hex_digit(b),
        },
{
    if 48 <= b && b <= 57 {
        Some(b - 48)
    } else if 65 <= b && b <= 70 {
        Some(b - 55)
    } else if 97 <= b && b <= 102 {
        Some(b - 87)
    } else {
        None
    }
}

/// Decodes a two-digit hex number, as the checksum field holds one.
pub fn parse_hex(data: &[u8]) -> (r: Result<u8, ParseError>)
    ensures
        match r {
            Ok(v) => data@.len() == 2 && is_hex_digit(data@[0]) && is_hex_digit(data@[1]) && v
                == hex_digit_val(data@[0]) * 16 + hex_digit_val(data@[1]),
            Err(e) => e == ParseError::NumberFail && (data@.len() != 2 || !is_hex_digit(data@[0])
                || !is_hex_digit(data@[1])),
        },
{
    if data.len() != 2 {
        return Err(ParseError::NumberFail);
    }
    let h = match hex_digit(data[0]) {
        Some(v) => v,
        None => {
            return Err(ParseError::NumberFail);
        },
    };
    let l = match hex_digit(data[1]) {
        Some(v) => v,
        None => {
            return Err(ParseError::NumberFail);
        },
    };
    Ok(h * 16 + l)
}

/// The framing grammar.  In order: the length ceiling, the `$`, the fixed
/// positions of talker id, message id and the comma, the `*`, and two hex
/// checksum digits.  Running out of input is `Incomplete`; a wrong byte is
/// `Nom`.  Anything after the checksum digits is ignored.
pub open spec fn spec_frame(s: Seq<u8>) -> Result<(Seq<u8>, Seq<u8>, Seq<u8>, u8), ParseError> {
    if s.len() > 102 {
        Err(ParseError::TooLongMessage)
    } else if s.len() == 0 {
        Err(ParseError::Incomplete)
    } else if s[0] != 36 {
        Err(ParseError::Nom)
    } else if s.len() < 7 {
        Err(ParseError::Incomplete)
    } else if s[6] != 44 {
        Err(ParseError::Nom)
    } else {
        let p = find_byte(s, 42, 7);
        if p == s.len() {
            Err(ParseError::Incomplete)
        } else if p + 3 > s.len() {
            Err(ParseError::Incomplete)
        } else if !is_hex_digit(s[p + 1]) || !is_hex_digit(s[p + 2]) {
            Err(ParseError::Nom)
        } else {
            Ok(
                (
                    s.subrange(1, 3),
                    s.subrange(3, 6),
                    s.subrange(7, p),
                    (hex_digit_val(s[p + 1]) * 16 + hex_digit_val(s[p + 2])) as u8,
                ),
            )
        }
    }
}

/// The framing grammar followed by checksum validation.
pub open spec fn spec_checked_frame(s: Seq<u8>) -> Result<
    (Seq<u8>, Seq<u8>, Seq<u8>, u8),
    ParseError,
> {
    match spec_frame(s) {
        Ok((talker, message, data, cs)) => {
            if xor_seq(checksum_span(talker, message, data)) == cs {
                Ok((talker, message, data, cs))
            } else {
                Err(ParseError::ChecksumFail)
            }
        },
        Err(e) => Err(e),
    }
}

/// The checksum law for valid sentences: whenever framing and validation
/// succeed, the transmitted checksum equals the XOR fold of talker id,
/// message id, the comma and the payload.
pub proof fn lemma_valid_sentence_checksum(
    s: Seq<u8>,
    talker: Seq<u8>,
    message: Seq<u8>,
    data: Seq<u8>,
    cs: u8,
)
    requires
        spec_checked_frame(s) == Ok::<_, ParseError>((talker, message, data, cs)),
    ensures
        cs == xor_seq(checksum_span(talker, message, data)),
{
}

/// Builds an owned sentence out of framed parts.
pub fn construct_sentence(data: (&[u8], &[u8], &[u8], u8)) -> (r: Result<NmeaSentence, ParseError>)
    ensures
        match r {
            Ok(ns) => ns.talker_id@ == data.0@ && ns.message_id@ == data.1@ && ns.data@ == data.2@
                && ns.checksum == data.3,
            Err(_) => false,
        },
{
    Ok(
        NmeaSentence {
            talker_id: slice_to_vec_u8(data.0),
            message_id: slice_to_vec_u8(data.1),
            data: slice_to_vec_u8(data.2),
            checksum: data.3,
        },
    )
}

/// Copies a byte slice into an owned vector.
fn slice_to_vec_u8(s: &[u8]) -> (r: Vec<u8>)
    ensures
        r@ == s@,
{
    let mut v: Vec<u8> = Vec::new();
    append_slice(&mut v, s);
    proof {
        assert(Seq::<u8>::empty() + s@ =~= s@);
    }
    v
}

/// Frames one sentence: enforces the length ceiling, then cuts talker id,
/// message id, payload and checksum out of the input.  The returned parts
/// are exactly what [`spec_frame`] names; every failure is reported as the
/// grammar meets it.
pub fn parse_nmea_sentence(sentence: &[u8]) -> (r: Result<NmeaSentence, ParseError>)
    ensures
        match r {
            Ok(ns) => spec_frame(sentence@) == Ok::<_, ParseError>(
                (ns.talker_id@, ns.message_id@, ns.data@, ns.checksum),
            ),
            Err(e) => spec_frame(sentence@) == Err::<(Seq<u8>, Seq<u8>, Seq<u8>, u8), _>(e),
        },
{
    if sentence.len() > 102 {
        return Err(ParseError::TooLongMessage);
    }
    if sentence.len() == 0 {
        return Err(ParseError::Incomplete);
    }
    if sentence[0] != 36 {
        return Err(ParseError::Nom);
    }
    if sentence.len() < 7 {
        return Err(ParseError::Incomplete);
    }
    if sentence[6] != 44 {
        return Err(ParseError::Nom);
    }
    // find the '*' that ends the payload
    let mut p: usize = 7;
    while p < sentence.len() && sentence[p] != 42
        invariant
            7 <= p <= sentence@.len(),
            forall|j: int| 7 <= j < p ==> sentence@[j] != 42,
        decreases sentence@.len() - p,
    {
        p = p + 1;
    }
    proof {
        lemma_find_byte_from(sentence@, 42, 7, p as int);
    }
    if p == sentence.len() {
        return Err(ParseError::Incomplete);
    }
    if p + 3 > sentence.len() {
        return Err(ParseError::Incomplete);
    }
    let cs = match parse_hex(slice_subrange(sentence, p + 1, p + 3)) {
        Ok(v) => v,
        Err(_) => {
            proof {
                assert(sentence@.subrange(p + 1, p + 3)[0] == sentence@[p + 1]);
                assert(sentence@.subrange(p + 1, p + 3)[1] == sentence@[p + 2]);
            }
            return Err(ParseError::Nom);
        },
    };
    proof {
        assert(sentence@.subrange(p + 1, p + 3)[0] == sentence@[p + 1]);
        assert(sentence@.subrange(p + 1, p + 3)[1] == sentence@[p + 2]);
    }
    construct_sentence(
        (
            slice_subrange(sentence, 1, 3),
            slice_subrange(sentence, 3, 6),
            slice_subrange(sentence, 7, p),
            cs,
        ),
    )
}

/// Splits a payload at its commas; the separators are consumed, empty
/// fields are kept.
pub open spec fn spec_fields(s: Seq<u8>) -> Seq<Seq<u8>>
    decreases s.len(),
    via spec_fields_decreases
{
    let p = find_byte(s, 44, 0);
    if p == s.len() {
        seq![s]
    } else {
        seq![s.take(p)] + spec_fields(s.skip(p + 1))
    }
}

#[via_fn]
proof fn spec_fields_decreases(s: Seq<u8>) {
    lemma_find_byte_bounds(s, 44, 0);
}

/// The sequence of field views of a split payload.
pub open spec fn fields_view(r: Seq<Vec<u8>>) -> Seq<Seq<u8>> {
    r.map_values(|f: Vec<u8>| f@)
}

/// Splits a payload into its comma-separated fields.
pub fn split_fields(data: &[u8]) -> (r: Vec<Vec<u8>>)
    ensures
        fields_view(r@) == spec_fields(data@),
        r@.len() >= 1,
{
    let mut res: Vec<Vec<u8>> = Vec::new();
    let mut start: usize = 0;
    let mut i: usize = 0;
    proof {
        assert(data@.skip(0) =~= data@);
        assert(fields_view(res@) =~= Seq::<Seq<u8>>::empty());
        assert(Seq::<Seq<u8>>::empty() + spec_fields(data@) =~= spec_fields(data@));
    }
    while i < data.len()
        invariant
            0 <= start <= i <= data@.len(),
            forall|j: int| start <= j < i ==> data@[j] != 44,
            fields_view(res@) + spec_fields(data@.skip(start as int)) == spec_fields(data@),
        decreases data@.len() - i,
    {
        if data[i] == 44 {
            let field = slice_subrange(data, start, i);
            let ghost rest = data@.skip(start as int);
            proof {
                assert forall|j: int| 0 <= j < i - start implies rest[j] != 44 by {
                    assert(rest[j] == data@[j + start]);
                }
                assert(rest[i - start] == data@[i as int]);
                lemma_find_byte_from(rest, 44, 0, i - start);
                assert(rest.take(i - start) =~= data@.subrange(start as int, i as int));
                assert(rest.skip(i - start + 1) =~= data@.skip(i + 1));
                assert(spec_fields(rest) == seq![data@.subrange(start as int, i as int)]
                    + spec_fields(data@.skip(i + 1)));
            }
            res.push(slice_to_vec_u8_owned(field));
            proof {
                assert(fields_view(res@) =~= fields_view(res@.drop_last()) + seq![
                    data@.subrange(start as int, i as int),
                ]);
            }
            start = i + 1;
        }
        i = i + 1;
    }
    // the final field runs to the end of the payload
    let field = slice_subrange(data, start, data.len());
    let ghost rest = data@.skip(start as int);
    proof {
        assert forall|j: int| 0 <= j < rest.len() implies rest[j] != 44 by {
            assert(rest[j] == data@[j + start]);
        }
        lemma_find_byte_from(rest, 44, 0, rest.len() as int);
        assert(rest =~= data@.subrange(start as int, data@.len() as int));
        assert(spec_fields(rest) == seq![rest]);
    }
    res.push(slice_to_vec_u8_owned(field));
    proof {
        assert(fields_view(res@) =~= fields_view(res@.drop_last()) + seq![rest]);
        assert(fields_view(res@.drop_last()) + seq![rest] =~= fields_view(res@.drop_last())
            + spec_fields(rest));
    }
    res
}

/// Copies a borrowed field into an owned vector.
fn slice_to_vec_u8_owned(s: &[u8]) -> (r: Vec<u8>)
    ensures
        r@ == s@,
{
    slice_to_vec_u8(s)
}

/// An optional unsigned field: blank is "no data", anything else must be a
/// strict run of digits that fits.
pub open spec fn spec_u32_field(f: Seq<u8>) -> Result<Option<u32>, ParseError> {
    if f.len() == 0 {
        Ok(None)
    } else {
        match spec_parse_digits(f) {
            Some(v) => if v <= u32::MAX {
                Ok(Some(v as u32))
            } else {
                Err(ParseError::NumberFail)
            },
            None => Err(ParseError::NumberFail),
        }
    }
}

/// Decodes an optional unsigned field.
fn u32_field(f: &[u8]) -> (r: Result<Option<u32>, ParseError>)
    ensures
        r == spec_u32_field(f@),
{
    if f.len() == 0 {
        return Ok(None);
    }
    match parse_digits(f) {
        Some(v) => if v <= 0xffff_ffff {
            Ok(Some(v as u32))
        } else {
            Err(ParseError::NumberFail)
        },
        None => Err(ParseError::NumberFail),
    }
}

/// An optional decimal field: blank is "no data", anything else must be a
/// strict base-10 decimal.
pub open spec fn spec_dec_field(f: Seq<u8>) -> Result<Option<Decimal>, ParseError> {
    if f.len() == 0 {
        Ok(None)
    } else {
        match spec_parse_decimal(f) {
            Some(d) => Ok(Some(d)),
            None => Err(ParseError::NumberFail),
        }
    }
}

/// Decodes an optional decimal field.
fn dec_field(f: &[u8]) -> (r: Result<Option<Decimal>, ParseError>)
    ensures
        r == spec_dec_field(f@),
{
    if f.len() == 0 {
        return Ok(None);
    }
    match parse_float_num(f) {
        Some(d) => Ok(Some(d)),
        None => Err(ParseError::NumberFail),
    }
}

/// The nanosecond value of a fractional-seconds digit string: the first
/// nine digits, padded with zeros on the right.
pub open spec fn spec_nanos(fp: Seq<u8>) -> int {
    if fp.len() >= 9 {
        digits_val(fp.take(9))
    } else {
        digits_val(fp) * pow10(9 - fp.len())
    }
}

proof fn lemma_nanos_bound(fp: Seq<u8>)
    requires
        all_digits(fp),
    ensures
        0 <= spec_nanos(fp) < 1_000_000_000,
{
    reveal_with_fuel(pow10, 11);
    if fp.len() >= 9 {
        assert(all_digits(fp.take(9))) by {
            assert forall|j: int| 0 <= j < 9 implies is_digit(#[trigger] fp.take(9)[j]) by {
                assert(fp.take(9)[j] == fp[j]);
            }
        }
        crate::num::lemma_digits_val_bound(fp.take(9));
    } else {
        let l = fp.len() as int;
        crate::num::lemma_digits_val_bound(fp);
        crate::num::lemma_pow10_pos(9 - l);
        crate::num::lemma_pow10_add(l, 9 - l);
        assert(digits_val(fp) * pow10(9 - l) <= (pow10(l) - 1) * pow10(9 - l)) by {
            vstd::arithmetic::mul::lemma_mul_inequality(digits_val(fp), pow10(l) - 1, pow10(9 - l));
        }
        assert((pow10(l) - 1) * pow10(9 - l) == pow10(l) * pow10(9 - l) - pow10(9 - l)) by {
            vstd::arithmetic::mul::lemma_mul_is_distributive_sub_other_way(
                pow10(9 - l),
                pow10(l),
                1,
            );
        }
        assert(digits_val(fp) * pow10(9 - l) >= 0) by {
            vstd::arithmetic::mul::lemma_mul_nonnegative(digits_val(fp), pow10(9 - l));
        }
    }
}

/// The time-of-day grammar `HHMMSS[.fff]`: two digits of hours under 24,
/// two digits of minutes under 60, then whole seconds and an optional
/// fraction, of which the first nine digits are kept as nanoseconds.
/// Anything else in the field is `InvalidTime`.
pub open spec fn spec_hms(f: Seq<u8>) -> Result<NaiveTime, ParseError> {
    if f.len() < 4 {
        Err(ParseError::InvalidTime)
    } else {
        let h2 = f.subrange(0, 2);
        let m2 = f.subrange(2, 4);
        let rest = f.skip(4);
        let p = find_byte(rest, 46, 0);
        let ip = rest.take(p);
        let fp = if p < rest.len() {
            rest.skip(p + 1)
        } else {
            Seq::<u8>::empty()
        };
        if !all_digits(h2) || !all_digits(m2) {
            Err(ParseError::InvalidTime)
        } else if !(all_digits(ip) && all_digits(fp) && ip.len() + fp.len() >= 1) {
            Err(ParseError::InvalidTime)
        } else if digits_val(h2) >= 24 || digits_val(m2) >= 60 {
            Err(ParseError::InvalidTime)
        } else if digits_val(ip) > u32::MAX {
            Err(ParseError::InvalidTime)
        } else {
            Ok(
                NaiveTime {
                    hour: digits_val(h2) as u32,
                    min: digits_val(m2) as u32,
                    sec: digits_val(ip) as u32,
                    nanos: spec_nanos(fp) as u32,
                },
            )
        }
    }
}

/// An optional time-of-day field: blank is "no data".
pub open spec fn spec_time_field(f: Seq<u8>) -> Result<Option<NaiveTime>, ParseError> {
    if f.len() == 0 {
        Ok(None)
    } else {
        match spec_hms(f) {
            Ok(t) => Ok(Some(t)),
            Err(e) => Err(e),
        }
    }
}

/// Computes `10^e` for small exponents.
fn pow10_small(e: usize) -> (r: u64)
    requires
        e <= 9,
    ensures
        r == pow10(e as int),
{
    let mut r: u64 = 1;
    let mut j: usize = 0;
    while j < e
        invariant
            0 <= j <= e <= 9,
            r == pow10(j as int),
        decreases e - j,
    {
        proof {
            reveal_with_fuel(pow10, 11);
            crate::num::lemma_pow10_pos(j as int);
            crate::num::lemma_pow10_pos(8 - j);
            assert(pow10(j as int) <= pow10(8)) by {
                crate::num::lemma_pow10_add(8 - j, j as int);
                vstd::arithmetic::mul::lemma_mul_increases(pow10(8 - j), pow10(j as int));
            }
            assert(pow10(8) == 100000000);
        }
        r = r * 10;
        j = j + 1;
    }
    r
}

/// Decodes a whole time-of-day field.
fn hms_core(f: &[u8]) -> (r: Result<NaiveTime, ParseError>)
    ensures
        r == spec_hms(f@),
{
    if f.len() < 4 {
        return Err(ParseError::InvalidTime);
    }
    let ghost h2 = f@.subrange(0, 2);
    let ghost m2 = f@.subrange(2, 4);
    let ghost rest = f@.skip(4);
    if !crate::num::digits_in_range(f, 0, 2) || !crate::num::digits_in_range(f, 2, 4) {
        return Err(ParseError::InvalidTime);
    }
    // find the dot that separates whole seconds from the fraction
    let mut dp: usize = 4;
    while dp < f.len() && f[dp] != 46
        invariant
            4 <= dp <= f@.len(),
            forall|j: int| 4 <= j < dp ==> f@[j] != 46,
        decreases f@.len() - dp,
    {
        dp = dp + 1;
    }
    proof {
        assert forall|j: int| 0 <= j < dp - 4 implies rest[j] != 46 by {
            assert(rest[j] == f@[j + 4]);
        }
        if dp < f@.len() {
            assert(rest[dp - 4] == f@[dp as int]);
        }
        lemma_find_byte_from(rest, 46, 0, dp - 4);
    }
    let ghost p = dp - 4;
    let ghost ip = rest.take(p);
    let ghost fp = if p < rest.len() {
        rest.skip(p + 1)
    } else {
        Seq::<u8>::empty()
    };
    let fstart: usize = if dp < f.len() {
        dp + 1
    } else {
        dp
    };
    proof {
        assert(ip =~= f@.subrange(4, dp as int));
        assert(fp =~= f@.subrange(fstart as int, f@.len() as int));
    }
    if !crate::num::digits_in_range(f, 4, dp) || !crate::num::digits_in_range(f, fstart, f.len()) {
        return Err(ParseError::InvalidTime);
    }
    if dp == 4 && fstart == f.len() {
        // no seconds digits at all
        assert(ip.len() + fp.len() == 0);
        return Err(ParseError::InvalidTime);
    }
    let hour = match crate::num::fold_digits(f, 0, 2, 0) {
        Some(v) => v,
        None => {
            proof {
                crate::num::lemma_digits_val_bound(h2);
                reveal_with_fuel(pow10, 3);
            }
            return Err(ParseError::InvalidTime);
        },
    };
    let min = match crate::num::fold_digits(f, 2, 4, 0) {
        Some(v) => v,
        None => {
            proof {
                crate::num::lemma_digits_val_bound(m2);
                reveal_with_fuel(pow10, 3);
            }
            return Err(ParseError::InvalidTime);
        },
    };
    proof {
        crate::num::lemma_digits_val_bound(h2);
        crate::num::lemma_digits_val_bound(m2);
        reveal_with_fuel(pow10, 3);
    }
    if hour >= 24 || min >= 60 {
        return Err(ParseError::InvalidTime);
    }
    let sec = match crate::num::fold_digits(f, 4, dp, 0) {
        Some(v) => v,
        None => {
            // seconds wider than any u64 are certainly over the u32 bound
            return Err(ParseError::InvalidTime);
        },
    };
    if sec > 0xffff_ffff {
        return Err(ParseError::InvalidTime);
    }
    let fplen: usize = f.len() - fstart;
    let nanos: u64 = if fplen >= 9 {
        proof {
            assert(fp.take(9) =~= f@.subrange(fstart as int, fstart + 9));
            assert(all_digits(fp.take(9)));
            crate::num::lemma_digits_val_bound(fp.take(9));
            reveal_with_fuel(pow10, 11);
        }
        match crate::num::fold_digits(f, fstart, fstart + 9, 0) {
            Some(v) => v,
            None => {
                proof {
                    assert(false);
                }
                0
            },
        }
    } else {
        let whole = match crate::num::fold_digits(f, fstart, f.len(), 0) {
            Some(v) => v,
            None => {
                proof {
                    crate::num::lemma_digits_val_bound(fp);
                    crate::num::lemma_pow10_add(fp.len() as int, 9 - fp.len());
                    crate::num::lemma_pow10_pos(9 - fp.len());
                    vstd::arithmetic::mul::lemma_mul_increases(
                        pow10(9 - fp.len()),
                        pow10(fp.len() as int),
                    );
                    reveal_with_fuel(pow10, 11);
                    assert(false);
                }
                0
            },
        };
        proof {
            lemma_nanos_bound(fp);
            crate::num::lemma_digits_val_bound(fp);
        }
        whole * pow10_small(9 - fplen)
    };
    proof {
        lemma_nanos_bound(fp);
    }
    Ok(NaiveTime { hour: hour as u32, min: min as u32, sec: sec as u32, nanos: nanos as u32 })
}

/// Decodes an optional time-of-day field.
fn time_field(f: &[u8]) -> (r: Result<Option<NaiveTime>, ParseError>)
    ensures
        r == spec_time_field(f@),
{
    if f.len() == 0 {
        return Ok(None);
    }
    match hms_core(f) {
        Ok(t) => Ok(Some(t)),
        Err(e) => Err(e),
    }
}

/// Decodes a time of day out of a byte stream, up to the comma that ends
/// its field; input without that comma has been cut off.
pub open spec fn spec_parse_hms(s: Seq<u8>) -> Result<NaiveTime, ParseError> {
    let p = find_byte(s, 44, 0);
    if p == s.len() {
        Err(ParseError::Incomplete)
    } else {
        spec_hms(s.take(p))
    }
}

/// Decodes a time of day from the head of a byte stream, as far as the
/// comma that ends its field.
pub fn parse_hms(s: &[u8]) -> (r: Result<NaiveTime, ParseError>)
    ensures
        r == spec_parse_hms(s@),
{
    let mut p: usize = 0;
    while p < s.len() && s[p] != 44
        invariant
            0 <= p <= s@.len(),
            forall|j: int| 0 <= j < p ==> s@[j] != 44,
        decreases s@.len() - p,
    {
        p = p + 1;
    }
    proof {
        lemma_find_byte_from(s@, 44, 0, p as int);
    }
    if p == s.len() {
        return Err(ParseError::Incomplete);
    }
    hms_core(slice_subrange(s, 0, p))
}

/// The date grammar `DDMMYY`: six digits, month 1 to 12, day 1 to 31; the
/// two-digit year is stored as given.  Anything else is `InvalidDate`.
pub open spec fn spec_date_field(f: Seq<u8>) -> Result<Option<NaiveDate>, ParseError> {
    if f.len() == 0 {
        Ok(None)
    } else if f.len() == 6 && all_digits(f) {
        let day = digits_val(f.subrange(0, 2));
        let month = digits_val(f.subrange(2, 4));
        let year = digits_val(f.subrange(4, 6));
        if 1 <= month <= 12 && 1 <= day <= 31 {
            Ok(Some(NaiveDate { year: year as i32, month: month as u32, day: day as u32 }))
        } else {
            Err(ParseError::InvalidDate)
        }
    } else {
        Err(ParseError::InvalidDate)
    }
}

/// Decodes an optional date field.
fn date_field(f: &[u8]) -> (r: Result<Option<NaiveDate>, ParseError>)
    ensures
        r == spec_date_field(f@),
{
    if f.len() == 0 {
        return Ok(None);
    }
    if f.len() != 6 || !crate::num::digits_in_range(f, 0, f.len()) {
        proof {
            if f@.len() == 6 {
                assert(f@.subrange(0, f@.len() as int) =~= f@);
            }
        }
        return Err(ParseError::InvalidDate);
    }
    proof {
        assert(f@.subrange(0, f@.len() as int) =~= f@);
        assert(all_digits(f@.subrange(0, 2)) && all_digits(f@.subrange(2, 4)) && all_digits(
            f@.subrange(4, 6),
        )) by {
            assert forall|j: int| 0 <= j < 2 implies is_digit(#[trigger] f@.subrange(0, 2)[j])
                && is_digit(#[trigger] f@.subrange(2, 4)[j]) && is_digit(
                #[trigger] f@.subrange(4, 6)[j],
            ) by {
                assert(f@.subrange(0, 2)[j] == f@[j]);
                assert(f@.subrange(2, 4)[j] == f@[j + 2]);
                assert(f@.subrange(4, 6)[j] == f@[j + 4]);
            }
        }
        crate::num::lemma_digits_val_bound(f@.subrange(0, 2));
        crate::num::lemma_digits_val_bound(f@.subrange(2, 4));
        crate::num::lemma_digits_val_bound(f@.subrange(4, 6));
        reveal_with_fuel(pow10, 3);
    }
    let day = match crate::num::fold_digits(f, 0, 2, 0) {
        Some(v) => v,
        None => {
            proof {
                assert(false);
            }
            0
        },
    };
    let month = match crate::num::fold_digits(f, 2, 4, 0) {
        Some(v) => v,
        None => {
            proof {
                assert(false);
            }
            0
        },
    };
    let year = match crate::num::fold_digits(f, 4, 6, 0) {
        Some(v) => v,
        None => {
            proof {
                assert(false);
            }
            0
        },
    };
    if 1 <= month && month <= 12 && 1 <= day && day <= 31 {
        Ok(Some(NaiveDate { year: year as i32, month: month as u32, day: day as u32 }))
    } else {
        Err(ParseError::InvalidDate)
    }
}

/// A latitude or longitude in signed degree/minute form, exactly as framed
/// on the wire: the value in degrees is
/// `degrees + (min_scaled / 10^min_scale) / 60`, negated when `negative`
/// (southern or western hemisphere).
#[derive(Debug, Clone, Copy, PartialEq)]
pub struct Coord {
    pub negative: bool,
    pub degrees: u32,
    pub min_scaled: u64,
    pub min_scale: u32,
}

/// The coordinate-field grammar: a fixed-width run of degree digits, then
/// free-form minutes as an unsigned decimal.
pub open spec fn spec_coord(f: Seq<u8>, dlen: int, neg: bool) -> Option<Coord> {
    if f.len() < dlen {
        None
    } else {
        let dd = f.take(dlen);
        let mins = f.skip(dlen);
        if all_digits(dd) {
            match spec_parse_decimal(mins) {
                Some(d) => if !d.negative {
                    Some(
                        Coord {
                            negative: neg,
                            degrees: digits_val(dd) as u32,
                            min_scaled: d.scaled,
                            min_scale: d.scale,
                        },
                    )
                } else {
                    None
                },
                None => None,
            }
        } else {
            None
        }
    }
}

/// Decodes one coordinate field.
fn parse_coord(f: &[u8], dlen: usize, neg: bool) -> (r: Option<Coord>)
    requires
        1 <= dlen <= 3,
    ensures
        r == spec_coord(f@, dlen as int, neg),
{
    if f.len() < dlen {
        return None;
    }
    let ghost dd = f@.take(dlen as int);
    proof {
        assert(dd =~= f@.subrange(0, dlen as int));
    }
    if !crate::num::digits_in_range(f, 0, dlen) {
        return None;
    }
    let deg = match crate::num::fold_digits(f, 0, dlen, 0) {
        Some(v) => v,
        None => {
            proof {
                crate::num::lemma_digits_val_bound(dd);
                reveal_with_fuel(pow10, 4);
                assert(false);
            }
            0
        },
    };
    proof {
        crate::num::lemma_digits_val_bound(dd);
        reveal_with_fuel(pow10, 4);
    }
    let mins = slice_subrange(f, dlen, f.len());
    proof {
        assert(mins@ =~= f@.skip(dlen as int));
    }
    match parse_float_num(mins) {
        Some(d) => if !d.negative {
            Some(
                Coord {
                    negative: neg,
                    degrees: deg as u32,
                    min_scaled: d.scaled,
                    min_scale: d.scale,
                },
            )
        } else {
            None
        },
        None => None,
    }
}

/// The four coordinate fields of a GGA or RMC sentence: all four blank is
/// the legal "no fix" form; otherwise latitude (two degree digits), `N` or
/// `S`, longitude (three degree digits), `E` or `W`.  A malformed number is
/// `NumberFail`; a hemisphere letter outside its set is `Nom`.
pub open spec fn spec_latlon(f1: Seq<u8>, f2: Seq<u8>, f3: Seq<u8>, f4: Seq<u8>) -> Result<
    Option<(Coord, Coord)>,
    ParseError,
> {
    if f1.len() == 0 && f2.len() == 0 && f3.len() == 0 && f4.len() == 0 {
        Ok(None)
    } else if spec_coord(f1, 2, false) is None {
        Err(ParseError::NumberFail)
    } else if !(f2 == seq![78u8] || f2 == seq![83u8]) {
        Err(ParseError::Nom)
    } else if spec_coord(f3, 3, false) is None {
        Err(ParseError::NumberFail)
    } else if !(f4 == seq![69u8] || f4 == seq![87u8]) {
        Err(ParseError::Nom)
    } else {
        Ok(
            Some(
                (
                    spec_coord(f1, 2, f2 == seq![83u8]).unwrap(),
                    spec_coord(f3, 3, f4 == seq![87u8]).unwrap(),
                ),
            ),
        )
    }
}

/// Whether a field is exactly one given byte.
fn field_is(f: &[u8], b: u8) -> (r: bool)
    ensures
        r == (f@ == seq![b]),
{
    let r = f.len() == 1 && f[0] == b;
    proof {
        if r {
            assert(f@ =~= seq![b]);
        } else if f@ == seq![b] {
            assert(f@.len() == 1 && f@[0] == b);
        }
    }
    r
}

/// Decodes the four coordinate fields.
fn parse_latlon(f1: &[u8], f2: &[u8], f3: &[u8], f4: &[u8]) -> (r: Result<
    Option<(Coord, Coord)>,
    ParseError,
>)
    ensures
        r == spec_latlon(f1@, f2@, f3@, f4@),
{
    if f1.len() == 0 && f2.len() == 0 && f3.len() == 0 && f4.len() == 0 {
        return Ok(None);
    }
    let south = field_is(f2, 83);
    let west = field_is(f4, 87);
    let lat = match parse_coord(f1, 2, south) {
        Some(c) => c,
        None => {
            return Err(ParseError::NumberFail);
        },
    };
    if !(field_is(f2, 78) || south) {
        return Err(ParseError::Nom);
    }
    let lon = match parse_coord(f3, 3, west) {
        Some(c) => c,
        None => {
            return Err(ParseError::NumberFail);
        },
    };
    if !(field_is(f4, 69) || west) {
        return Err(ParseError::Nom);
    }
    Ok(Some((lat, lon)))
}

/// The zero-padded decimal rendering of `v` in exactly `w` digit bytes.
pub open spec fn dec_digits(v: int, w: int) -> Seq<u8>
    decreases w,
{
    if w <= 0 {
        Seq::empty()
    } else {
        dec_digits(v / 10, w - 1).push((v % 10 + 48) as u8)
    }
}

/// Rendering a value that fits its width gives digits that read back as
/// the same value.
pub proof fn lemma_dec_digits(v: int, w: int)
    requires
        0 <= v < pow10(w),
        0 <= w,
    ensures
        dec_digits(v, w).len() == w,
        all_digits(dec_digits(v, w)),
        digits_val(dec_digits(v, w)) == v,
    decreases w,
{
    if w == 0 {
    } else {
        assert(pow10(w) == 10 * pow10(w - 1));
        assert(0 <= v / 10 < pow10(w - 1)) by {
            assert(v / 10 <= (10 * pow10(w - 1) - 1) / 10);
        }
        lemma_dec_digits(v / 10, w - 1);
        crate::num::lemma_fold_val_push(0, dec_digits(v / 10, w - 1), (v % 10 + 48) as u8);
        assert(is_digit((v % 10 + 48) as u8));
        assert forall|j: int| 0 <= j < w implies is_digit(#[trigger] dec_digits(v, w)[j]) by {
            if j < w - 1 {
                assert(dec_digits(v, w)[j] == dec_digits(v / 10, w - 1)[j]);
            }
        }
    }
}

/// A coordinate rendered back into its wire field: the degree digits, two
/// minute digits, a dot, and six fractional minute digits.
pub open spec fn format_coord_field(deg: int, dlen: int, min_scaled: int) -> Seq<u8> {
    dec_digits(deg, dlen) + dec_digits(min_scaled / 1000000, 2) + seq![46u8] + dec_digits(
        min_scaled % 1000000,
        6,
    )
}

/// The coordinate round-trip law: a latitude or longitude held as degrees
/// and minutes scaled to six decimal places, rendered into its GGA field
/// and decoded again, comes back exactly — nothing is lost or moved by as
/// much as one scaled unit.
pub proof fn lemma_coord_round_trip(deg: u32, dlen: int, min_scaled: u64, neg: bool)
    requires
        2 <= dlen <= 3,
        deg < pow10(dlen),
        min_scaled < 60_000_000,
    ensures
        spec_coord(format_coord_field(deg as int, dlen, min_scaled as int), dlen, neg) == Some(
            Coord { negative: neg, degrees: deg, min_scaled, min_scale: 6 },
        ),
{
    reveal_with_fuel(pow10, 11);
    let f = format_coord_field(deg as int, dlen, min_scaled as int);
    let hi = min_scaled as int / 1000000;
    let lo = min_scaled as int % 1000000;
    let dd = dec_digits(deg as int, dlen);
    let mm = dec_digits(hi, 2);
    let ff = dec_digits(lo, 6);
    lemma_dec_digits(deg as int, dlen);
    lemma_dec_digits(hi, 2);
    lemma_dec_digits(lo, 6);
    assert(f.len() == dlen + 9);
    assert(f.take(dlen) =~= dd);
    let mins = f.skip(dlen);
    assert(mins =~= mm + seq![46u8] + ff);
    assert(mins.len() == 9);
    // the dot sits after the two whole-minute digits
    assert forall|j: int| 0 <= j < 2 implies mins[j] != 46 by {
        assert(mins[j] == mm[j]);
        assert(is_digit(mm[j]));
    }
    assert(mins[2] == 46);
    lemma_find_byte_from(mins, 46, 0, 2);
    let ip = mins.take(2);
    let fp = mins.skip(3);
    assert(ip =~= mm);
    assert(fp =~= ff);
    // the digits on both sides of the dot read back as the scaled minutes
    crate::num::lemma_digits_val_concat(mm, ff);
    crate::num::lemma_fold_val_expand(digits_val(mm), ff);
    vstd::arithmetic::div_mod::lemma_fundamental_div_mod(min_scaled as int, 1000000);
    assert(digits_val(mm) == hi);
    assert(digits_val(ff) == lo);
    assert(ff.len() == 6);
    assert(pow10(6) == 1000000);
    assert(crate::num::fold_val(digits_val(mm), ff) == hi * 1000000 + lo);
    assert(min_scaled == 1000000 * hi + lo);
    assert(digits_val(mm + ff) == min_scaled);
    assert(mm + ff =~= ip + fp);
    // the field is all digits around one dot, so the decoder accepts it
    assert(mins[0] != 45) by {
        assert(is_digit(mins[0]));
    }
    assert(spec_parse_decimal(mins) == Some(
        Decimal { negative: false, scaled: min_scaled, scale: 6u32 },
    ));
    assert(digits_val(dd) == deg);
}

/// The coordinate round-trip law lifted to the four wire fields: rendering
/// a latitude/longitude pair with their hemisphere letters and decoding
/// the four fields again reproduces both coordinates exactly.
pub proof fn lemma_latlon_round_trip(
    lat_deg: u32,
    lat_min: u64,
    south: bool,
    lon_deg: u32,
    lon_min: u64,
    west: bool,
)
    requires
        lat_deg < 100,
        lon_deg < 1000,
        lat_min < 60_000_000,
        lon_min < 60_000_000,
    ensures
        spec_latlon(
            format_coord_field(lat_deg as int, 2, lat_min as int),
            if south {
                seq![83u8]
            } else {
                seq![78u8]
            },
            format_coord_field(lon_deg as int, 3, lon_min as int),
            if west {
                seq![87u8]
            } else {
                seq![69u8]
            },
        ) == Ok::<_, ParseError>(
            Some(
                (
                    Coord { negative: south, degrees: lat_deg, min_scaled: lat_min, min_scale: 6 },
                    Coord { negative: west, degrees: lon_deg, min_scaled: lon_min, min_scale: 6 },
                ),
            ),
        ),
{
    reveal_with_fuel(pow10, 11);
    lemma_coord_round_trip(lat_deg, 2, lat_min, south);
    lemma_coord_round_trip(lat_deg, 2, lat_min, false);
    lemma_coord_round_trip(lon_deg, 3, lon_min, west);
    lemma_coord_round_trip(lon_deg, 3, lon_min, false);
    let f1 = format_coord_field(lat_deg as int, 2, lat_min as int);
    assert(f1.len() > 0) by {
        lemma_dec_digits(lat_deg as int, 2);
    }
    // the two hemisphere letters of each axis are distinct fields
    assert(seq![78u8][0] != seq![83u8][0]);
    assert(seq![78u8] != seq![83u8]);
    assert(seq![69u8][0] != seq![87u8][0]);
    assert(seq![69u8] != seq![87u8]);
}

/// Appends the zero-padded `w`-digit rendering of `v`.
fn push_dec_digits(out: &mut Vec<u8>, v: u64, w: usize)
    ensures
        final(out)@ == old(out)@ + dec_digits(v as int, w as int),
    decreases w,
{
    if w == 0 {
        proof {
            assert(old(out)@ + dec_digits(v as int, 0) =~= old(out)@);
        }
        return ;
    }
    push_dec_digits(out, v / 10, w - 1);
    proof {
        assert((old(out)@ + dec_digits(v as int / 10, w - 1)).push(((v % 10) + 48) as u8) =~= old(
            out,
        )@ + dec_digits(v as int, w as int));
    }
    out.push((v % 10) as u8 + 48);
}

/// Renders a coordinate back into its wire field, degrees zero-padded to
/// `dlen` digits and minutes to two whole and six fractional digits, as
/// [`lemma_coord_round_trip`] speaks of.
pub fn format_coord(deg: u32, dlen: usize, min_scaled: u64) -> (r: Vec<u8>)
    ensures
        r@ == format_coord_field(deg as int, dlen as int, min_scaled as int),
{
    let mut out: Vec<u8> = Vec::new();
    push_dec_digits(&mut out, deg as u64, dlen);
    push_dec_digits(&mut out, min_scaled / 1000000, 2);
    out.push(46);
    push_dec_digits(&mut out, min_scaled % 1000000, 6);
    proof {
        assert(Seq::<u8>::empty() + dec_digits(deg as int, dlen as int) =~= dec_digits(
            deg as int,
            dlen as int,
        ));
        assert(out@ =~= format_coord_field(deg as int, dlen as int, min_scaled as int));
    }
    out
}

/// The decoded fields of a GGA sentence.
#[derive(Debug, Clone, Copy, PartialEq)]
pub struct GgaData {
    pub fix_time: Option<NaiveTime>,
    pub fix_type: Option<crate::FixType>,
    pub latitude: Option<Coord>,
    pub longitude: Option<Coord>,
    pub fix_satellites: Option<u32>,
    pub hdop: Option<Decimal>,
    pub altitude: Option<Decimal>,
    pub geoid_height: Option<Decimal>,
}

/// The GGA payload grammar, field by field: time, the four coordinate
/// fields, a mandatory fix-quality digit `0`..`8`, tracked-satellite count,
/// horizontal dilution, altitude, an `M` unit letter, geoid height.  The
/// second unit letter and everything after it are consumed unchecked.
pub open spec fn spec_parse_gga(data: Seq<u8>) -> Result<GgaData, ParseError> {
    let fs = spec_fields(data);
    if fs.len() < 12 {
        Err(ParseError::Incomplete)
    } else {
        match spec_time_field(fs[0]) {
            Err(e) => Err(e),
            Ok(time) => match spec_latlon(fs[1], fs[2], fs[3], fs[4]) {
                Err(e) => Err(e),
                Ok(ll) => if !(fs[5].len() == 1 && 48 <= fs[5][0] <= 56) {
                    Err(ParseError::Nom)
                } else {
                    match spec_u32_field(fs[6]) {
                        Err(e) => Err(e),
                        Ok(sats) => match spec_dec_field(fs[7]) {
                            Err(e) => Err(e),
                            Ok(hdop) => match spec_dec_field(fs[8]) {
                                Err(e) => Err(e),
                                Ok(alt) => if !(fs[9].len() == 0 || fs[9] == seq![77u8]) {
                                    Err(ParseError::Nom)
                                } else {
                                    match spec_dec_field(fs[10]) {
                                        Err(e) => Err(e),
                                        Ok(geoid) => Ok(
                                            GgaData {
                                                fix_time: time,
                                                fix_type: Some(
                                                    crate::spec_fix_type_of_byte(fs[5][0]),
                                                ),
                                                latitude: match ll {
                                                    Some(p) => Some(p.0),
                                                    None => None,
                                                },
                                                longitude: match ll {
                                                    Some(p) => Some(p.1),
                                                    None => None,
                                                },
                                                fix_satellites: sats,
                                                hdop,
                                                altitude: alt,
                                                geoid_height: geoid,
                                            },
                                        ),
                                    }
                                },
                            },
                        },
                    }
                },
            },
        }
    }
}

/// Whether a message id is the given three bytes.
fn msg_is(m: &Vec<u8>, a: u8, b: u8, c: u8) -> (r: bool)
    ensures
        r == (m@ == seq![a, b, c]),
{
    let r = m.len() == 3 && m[0] == a && m[1] == b && m[2] == c;
    proof {
        if r {
            assert(m@ =~= seq![a, b, c]);
        } else if m@ == seq![a, b, c] {
            assert(m@.len() == 3);
            assert(m@[0] == a && m@[1] == b && m@[2] == c);
        }
    }
    r
}

/// Decodes the quality digit of a GGA sentence.
fn fix_type_of_digit(b: u8) -> (r: crate::FixType)
    ensures
        r == crate::spec_fix_type_of_byte(b),
{
    if b == 48 {
        crate::FixType::Invalid
    } else if b == 49 {
        crate::FixType::Gps
    } else if b == 50 {
        crate::FixType::DGps
    } else if b == 51 {
        crate::FixType::Pps
    } else if b == 52 {
        crate::FixType::Rtk
    } else if b == 53 {
        crate::FixType::FloatRtk
    } else if b == 54 {
        crate::FixType::Estimated
    } else if b == 55 {
        crate::FixType::Manual
    } else if b == 56 {
        crate::FixType::Simulation
    } else {
        crate::FixType::Invalid
    }
}

/// Decodes a GGA sentence's payload.
pub fn parse_gga(sentence: &NmeaSentence) -> (r: Result<GgaData, ParseError>)
    ensures
        r == (if sentence.message_id@ == seq![71u8, 71u8, 65u8] {
            spec_parse_gga(sentence.data@)
        } else {
            Err::<GgaData, ParseError>(ParseError::InvalidMessageId)
        }),
{
    if !msg_is(&sentence.message_id, 71, 71, 65) {
        return Err(ParseError::InvalidMessageId);
    }
    let fields = split_fields(sentence.data.as_slice());
    let ghost fs = spec_fields(sentence.data@);
    proof {
        assert(fs.len() == fields@.len());
        assert forall|i: int| 0 <= i < fields@.len() implies #[trigger] fields@[i]@ == fs[i] by {
            assert(fields_view(fields@)[i] == fields@[i]@);
        }
    }
    if fields.len() < 12 {
        return Err(ParseError::Incomplete);
    }
    let time = match time_field(fields[0].as_slice()) {
        Ok(t) => t,
        Err(e) => {
            return Err(e);
        },
    };
    let ll = match parse_latlon(
        fields[1].as_slice(),
        fields[2].as_slice(),
        fields[3].as_slice(),
        fields[4].as_slice(),
    ) {
        Ok(v) => v,
        Err(e) => {
            return Err(e);
        },
    };
    if !(fields[5].len() == 1 && 48 <= fields[5][0] && fields[5][0] <= 56) {
        return Err(ParseError::Nom);
    }
    let quality = fields[5][0];
    let sats = match u32_field(fields[6].as_slice()) {
        Ok(v) => v,
        Err(e) => {
            return Err(e);
        },
    };
    let hdop = match dec_field(fields[7].as_slice()) {
        Ok(v) => v,
        Err(e) => {
            return Err(e);
        },
    };
    let alt = match dec_field(fields[8].as_slice()) {
        Ok(v) => v,
        Err(e) => {
            return Err(e);
        },
    };
    if !(fields[9].len() == 0 || field_is(fields[9].as_slice(), 77)) {
        return Err(ParseError::Nom);
    }
    let geoid = match dec_field(fields[10].as_slice()) {
        Ok(v) => v,
        Err(e) => {
            return Err(e);
        },
    };
    Ok(
        GgaData {
            fix_time: time,
            fix_type: Some(fix_type_of_digit(quality)),
            latitude: match ll {
                Some(p) => Some(p.0),
                None => None,
            },
            longitude: match ll {
                Some(p) => Some(p.1),
                None => None,
            },
            fix_satellites: sats,
            hdop,
            altitude: alt,
            geoid_height: geoid,
        },
    )
}

/// The RMC status letter: `A` autonomous, `D` differential, `V` invalid.
#[derive(Debug, Clone, Copy, PartialEq)]
pub enum RmcStatusOfFix {
    Autonomous,
    Differential,
    Invalid,
}

/// The decoded fields of an RMC sentence.
#[derive(Debug, Clone, Copy, PartialEq)]
pub struct RmcData {
    pub fix_time: Option<NaiveTime>,
    pub fix_date: Option<NaiveDate>,
    pub status_of_fix: Option<RmcStatusOfFix>,
    pub lat: Option<Coord>,
    pub lon: Option<Coord>,
    pub speed_over_ground: Option<Decimal>,
    pub true_course: Option<Decimal>,
}

/// The RMC status field: blank is "no status"; a letter outside `A`, `D`,
/// `V` is `InvalidFixStatus`.
pub open spec fn spec_status_field(f: Seq<u8>) -> Result<Option<RmcStatusOfFix>, ParseError> {
    if f.len() == 0 {
        Ok(None)
    } else if f == seq![65u8] {
        Ok(Some(RmcStatusOfFix::Autonomous))
    } else if f == seq![68u8] {
        Ok(Some(RmcStatusOfFix::Differential))
    } else if f == seq![86u8] {
        Ok(Some(RmcStatusOfFix::Invalid))
    } else {
        Err(ParseError::InvalidFixStatus)
    }
}

/// Decodes the RMC status field.
fn status_field(f: &[u8]) -> (r: Result<Option<RmcStatusOfFix>, ParseError>)
    ensures
        r == spec_status_field(f@),
{
    if f.len() == 0 {
        Ok(None)
    } else if field_is(f, 65) {
        Ok(Some(RmcStatusOfFix::Autonomous))
    } else if field_is(f, 68) {
        Ok(Some(RmcStatusOfFix::Differential))
    } else if field_is(f, 86) {
        Ok(Some(RmcStatusOfFix::Invalid))
    } else {
        Err(ParseError::InvalidFixStatus)
    }
}

/// The RMC payload grammar, field by field: time, status, the four
/// coordinate fields, speed over ground in knots, true course, date.
/// Everything after the date field is consumed unchecked.
pub open spec fn spec_parse_rmc(data: Seq<u8>) -> Result<RmcData, ParseError> {
    let fs = spec_fields(data);
    if fs.len() < 10 {
        Err(ParseError::Incomplete)
    } else {
        match spec_time_field(fs[0]) {
            Err(e) => Err(e),
            Ok(time) => match spec_status_field(fs[1]) {
                Err(e) => Err(e),
                Ok(status) => match spec_latlon(fs[2], fs[3], fs[4], fs[5]) {
                    Err(e) => Err(e),
                    Ok(ll) => match spec_dec_field(fs[6]) {
                        Err(e) => Err(e),
                        Ok(speed) => match spec_dec_field(fs[7]) {
                            Err(e) => Err(e),
                            Ok(course) => match spec_date_field(fs[8]) {
                                Err(e) => Err(e),
                                Ok(date) => Ok(
                                    RmcData {
                                        fix_time: time,
                                        fix_date: date,
                                        status_of_fix: status,
                                        lat: match ll {
                                            Some(p) => Some(p.0),
                                            None => None,
                                        },
                                        lon: match ll {
                                            Some(p) => Some(p.1),
                                            None => None,
                                        },
                                        speed_over_ground: speed,
                                        true_course: course,
                                    },
                                ),
                            },
                        },
                    },
                },
            },
        }
    }
}

/// Decodes an RMC sentence's payload.
pub fn parse_rmc(sentence: &NmeaSentence) -> (r: Result<RmcData, ParseError>)
    ensures
        r == (if sentence.message_id@ == seq![82u8, 77u8, 67u8] {
            spec_parse_rmc(sentence.data@)
        } else {
            Err::<RmcData, ParseError>(ParseError::InvalidMessageId)
        }),
{
    if !msg_is(&sentence.message_id, 82, 77, 67) {
        return Err(ParseError::InvalidMessageId);
    }
    let fields = split_fields(sentence.data.as_slice());
    let ghost fs = spec_fields(sentence.data@);
    proof {
        assert(fs.len() == fields@.len());
        assert forall|i: int| 0 <= i < fields@.len() implies #[trigger] fields@[i]@ == fs[i] by {
            assert(fields_view(fields@)[i] == fields@[i]@);
        }
    }
    if fields.len() < 10 {
        return Err(ParseError::Incomplete);
    }
    let time = match time_field(fields[0].as_slice()) {
        Ok(t) => t,
        Err(e) => {
            return Err(e);
        },
    };
    let status = match status_field(fields[1].as_slice()) {
        Ok(v) => v,
        Err(e) => {
            return Err(e);
        },
    };
    let ll = match parse_latlon(
        fields[2].as_slice(),
        fields[3].as_slice(),
        fields[4].as_slice(),
        fields[5].as_slice(),
    ) {
        Ok(v) => v,
        Err(e) => {
            return Err(e);
        },
    };
    let speed = match dec_field(fields[6].as_slice()) {
        Ok(v) => v,
        Err(e) => {
            return Err(e);
        },
    };
    let course = match dec_field(fields[7].as_slice()) {
        Ok(v) => v,
        Err(e) => {
            return Err(e);
        },
    };
    let date = match date_field(fields[8].as_slice()) {
        Ok(v) => v,
        Err(e) => {
            return Err(e);
        },
    };
    Ok(
        RmcData {
            fix_time: time,
            fix_date: date,
            status_of_fix: status,
            lat: match ll {
                Some(p) => Some(p.0),
                None => None,
            },
            lon: match ll {
                Some(p) => Some(p.1),
                None => None,
            },
            speed_over_ground: speed,
            true_course: course,
        },
    )
}

/// The decoded fields of a VTG sentence: true course and speed over ground
/// in knots.
#[derive(Debug, Clone, Copy, PartialEq)]
pub struct VtgData {
    pub true_course: Option<Decimal>,
    pub speed_over_ground: Option<Decimal>,
}

/// Converts a speed in km/h to knots by dividing by 1.852 exactly: six
/// more fractional digits are kept and the rest truncated.
pub open spec fn spec_kmh_to_knots(d: Decimal) -> Option<Decimal> {
    let num = d.scaled * 1000000000 / 1852;
    if num <= u64::MAX && d.scale + 6 <= u32::MAX {
        Some(Decimal { negative: d.negative, scaled: num as u64, scale: (d.scale + 6) as u32 })
    } else {
        None
    }
}

/// Converts a km/h reading to knots.
fn kmh_to_knots(d: Decimal) -> (r: Option<Decimal>)
    ensures
        r == spec_kmh_to_knots(d),
{
    let wide: u128 = (d.scaled as u128) * 1000000000 / 1852;
    if wide <= 0xffff_ffff_ffff_ffff && d.scale <= 0xffff_fff9 {
        Some(Decimal { negative: d.negative, scaled: wide as u64, scale: d.scale + 6 })
    } else {
        None
    }
}

/// The VTG payload grammar, field by field: true course, a `T` unit letter,
/// the magnetic course (consumed, not kept), an `M` letter, speed in knots,
/// an `N` letter, speed in km/h, and a final field that is consumed
/// unchecked.  The reported speed is the knots value when present, else the
/// km/h value converted to knots.
pub open spec fn spec_parse_vtg(data: Seq<u8>) -> Result<VtgData, ParseError> {
    let fs = spec_fields(data);
    if fs.len() < 8 {
        Err(ParseError::Incomplete)
    } else {
        match spec_dec_field(fs[0]) {
            Err(e) => Err(e),
            Ok(course) => if !(fs[1].len() == 0 || fs[1] == seq![84u8]) {
                Err(ParseError::Nom)
            } else {
                match spec_dec_field(fs[2]) {
                    Err(e) => Err(e),
                    Ok(_magn) => if !(fs[3].len() == 0 || fs[3] == seq![77u8]) {
                        Err(ParseError::Nom)
                    } else {
                        match spec_dec_field(fs[4]) {
                            Err(e) => Err(e),
                            Ok(knots) => if !(fs[5].len() == 0 || fs[5] == seq![78u8]) {
                                Err(ParseError::Nom)
                            } else {
                                match spec_dec_field(fs[6]) {
                                    Err(e) => Err(e),
                                    Ok(kmh) => match knots {
                                        Some(k) => Ok(
                                            VtgData {
                                                true_course: course,
                                                speed_over_ground: Some(k),
                                            },
                                        ),
                                        None => match kmh {
                                            Some(x) => match spec_kmh_to_knots(x) {
                                                Some(k) => Ok(
                                                    VtgData {
                                                        true_course: course,
                                                        speed_over_ground: Some(k),
                                                    },
                                                ),
                                                None => Err(ParseError::NumberFail),
                                            },
                                            None => Ok(
                                                VtgData {
                                                    true_course: course,
                                                    speed_over_ground: None,
                                                },
                                            ),
                                        },
                                    },
                                }
                            },
                        }
                    },
                }
            },
        }
    }
}

/// Decodes a VTG sentence's payload.
pub fn parse_vtg(sentence: &NmeaSentence) -> (r: Result<VtgData, ParseError>)
    ensures
        r == (if sentence.message_id@ == seq![86u8, 84u8, 71u8] {
            spec_parse_vtg(sentence.data@)
        } else {
            Err::<VtgData, ParseError>(ParseError::InvalidMessageId)
        }),
{
    if !msg_is(&sentence.message_id, 86, 84, 71) {
        return Err(ParseError::InvalidMessageId);
    }
    let fields = split_fields(sentence.data.as_slice());
    let ghost fs = spec_fields(sentence.data@);
    proof {
        assert(fs.len() == fields@.len());
        assert forall|i: int| 0 <= i < fields@.len() implies #[trigger] fields@[i]@ == fs[i] by {
            assert(fields_view(fields@)[i] == fields@[i]@);
        }
    }
    if fields.len() < 8 {
        return Err(ParseError::Incomplete);
    }
    let course = match dec_field(fields[0].as_slice()) {
        Ok(v) => v,
        Err(e) => {
            return Err(e);
        },
    };
    if !(fields[1].len() == 0 || field_is(fields[1].as_slice(), 84)) {
        return Err(ParseError::Nom);
    }
    let _magn = match dec_field(fields[2].as_slice()) {
        Ok(v) => v,
        Err(e) => {
            return Err(e);
        },
    };
    if !(fields[3].len() == 0 || field_is(fields[3].as_slice(), 77)) {
        return Err(ParseError::Nom);
    }
    let knots = match dec_field(fields[4].as_slice()) {
        Ok(v) => v,
        Err(e) => {
            return Err(e);
        },
    };
    if !(fields[5].len() == 0 || field_is(fields[5].as_slice(), 78)) {
        return Err(ParseError::Nom);
    }
    let kmh = match dec_field(fields[6].as_slice()) {
        Ok(v) => v,
        Err(e) => {
            return Err(e);
        },
    };
    match knots {
        Some(k) => Ok(VtgData { true_course: course, speed_over_ground: Some(k) }),
        None => match kmh {
            Some(x) => match kmh_to_knots(x) {
                Some(k) => Ok(VtgData { true_course: course, speed_over_ground: Some(k) }),
                None => Err(ParseError::NumberFail),
            },
            None => Ok(VtgData { true_course: course, speed_over_ground: None }),
        },
    }
}

/// The GSA operating-mode letter: `M` manual, `A` automatic.
#[derive(Debug, Clone, Copy, PartialEq)]
pub enum GsaMode1 {
    Manual,
    Automatic,
}

/// The GSA fix-mode digit: `1` no fix, `2` two-dimensional, `3`
/// three-dimensional.
#[derive(Debug, Clone, Copy, PartialEq)]
pub enum GsaMode2 {
    NoFix,
    Fix2D,
    Fix3D,
}

/// The decoded fields of a GSA sentence.
#[derive(Debug, PartialEq)]
pub struct GsaData {
    pub mode1: GsaMode1,
    pub mode2: GsaMode2,
    pub fix_sats_prn: Vec<u32>,
    pub pdop: Option<Decimal>,
    pub hdop: Option<Decimal>,
    pub vdop: Option<Decimal>,
}

/// Whether a field can stand in the GSA PRN list: blank, or digits that fit
/// an unsigned PRN.
pub open spec fn gsa_prn_ok(f: Seq<u8>) -> bool {
    f.len() == 0 || (all_digits(f) && digits_val(f) <= u32::MAX)
}

/// How many leading fields of the GSA tail are taken as PRN slots: the scan
/// runs while fields look like PRN slots, and never takes the last field,
/// which must start the dilution values.
pub open spec fn gsa_prefix_len(r: Seq<Seq<u8>>, i: int) -> int
    decreases r.len() - i,
{
    if i < 0 || i >= r.len() - 1 {
        if r.len() >= 1 {
            r.len() - 1
        } else {
            0
        }
    } else if gsa_prn_ok(r[i]) {
        gsa_prefix_len(r, i + 1)
    } else {
        i
    }
}

/// The PRN values among the first `k` fields of the GSA tail, blanks
/// dropped, order kept.
pub open spec fn gsa_prns_of(r: Seq<Seq<u8>>, k: int) -> Seq<u32>
    decreases k,
{
    if k <= 0 {
        Seq::empty()
    } else {
        let pre = gsa_prns_of(r, k - 1);
        if r[k - 1].len() > 0 {
            pre.push(digits_val(r[k - 1]) as u32)
        } else {
            pre
        }
    }
}

/// Whether every field of `r` is blank.
pub open spec fn all_fields_empty(r: Seq<Seq<u8>>) -> bool {
    forall|j: int| 0 <= j < r.len() ==> #[trigger] r[j].len() == 0
}

/// The GSA payload grammar: the mode letter, the fix-mode digit, then the
/// tail.  An all-blank tail is the legal "no data" form.  Otherwise the
/// leading PRN slots are taken greedily and the next three fields must be
/// the PDOP, HDOP and VDOP decimals; fields after them are ignored.
pub open spec fn spec_parse_gsa(data: Seq<u8>) -> Result<
    (GsaMode1, GsaMode2, Seq<u32>, Option<Decimal>, Option<Decimal>, Option<Decimal>),
    ParseError,
> {
    let fs = spec_fields(data);
    if fs.len() < 3 {
        Err(ParseError::Incomplete)
    } else if !(fs[0] == seq![77u8] || fs[0] == seq![65u8]) {
        Err(ParseError::Nom)
    } else if !(fs[1] == seq![49u8] || fs[1] == seq![50u8] || fs[1] == seq![51u8]) {
        Err(ParseError::Nom)
    } else {
        let m1 = if fs[0] == seq![77u8] {
            GsaMode1::Manual
        } else {
            GsaMode1::Automatic
        };
        let m2 = if fs[1] == seq![49u8] {
            GsaMode2::NoFix
        } else if fs[1] == seq![50u8] {
            GsaMode2::Fix2D
        } else {
            GsaMode2::Fix3D
        };
        let r = fs.skip(2);
        if all_fields_empty(r) {
            Ok((m1, m2, Seq::empty(), None, None, None))
        } else {
            let k = gsa_prefix_len(r, 0);
            if k + 3 > r.len() {
                Err(ParseError::Incomplete)
            } else {
                match spec_parse_decimal(r[k]) {
                    None => Err(ParseError::NumberFail),
                    Some(pdop) => match spec_parse_decimal(r[k + 1]) {
                        None => Err(ParseError::NumberFail),
                        Some(hdop) => match spec_parse_decimal(r[k + 2]) {
                            None => Err(ParseError::NumberFail),
                            Some(vdop) => Ok(
                                (m1, m2, gsa_prns_of(r, k), Some(pdop), Some(hdop), Some(vdop)),
                            ),
                        },
                    },
                }
            }
        }
    }
}

/// Decodes a GSA sentence's payload.
pub fn parse_gsa(sentence: &NmeaSentence) -> (r: Result<GsaData, ParseError>)
    ensures
        ({
            let sres = if sentence.message_id@ == seq![71u8, 83u8, 65u8] {
                spec_parse_gsa(sentence.data@)
            } else {
                Err(ParseError::InvalidMessageId)
            };
            match r {
                Ok(g) => sres == Ok::<_, ParseError>(
                    (g.mode1, g.mode2, g.fix_sats_prn@, g.pdop, g.hdop, g.vdop),
                ),
                Err(e) => sres == Err::<
                    (GsaMode1, GsaMode2, Seq<u32>, Option<Decimal>, Option<Decimal>, Option<
                        Decimal,
                    >),
                    ParseError,
                >(e),
            }
        }),
{
    if !msg_is(&sentence.message_id, 71, 83, 65) {
        return Err(ParseError::InvalidMessageId);
    }
    let fields = split_fields(sentence.data.as_slice());
    let ghost fs = spec_fields(sentence.data@);
    proof {
        assert(fs.len() == fields@.len());
        assert forall|i: int| 0 <= i < fields@.len() implies #[trigger] fields@[i]@ == fs[i] by {
            assert(fields_view(fields@)[i] == fields@[i]@);
        }
    }
    if fields.len() < 3 {
        return Err(ParseError::Incomplete);
    }
    let manual = field_is(fields[0].as_slice(), 77);
    if !(manual || field_is(fields[0].as_slice(), 65)) {
        return Err(ParseError::Nom);
    }
    let m1 = if manual {
        GsaMode1::Manual
    } else {
        GsaMode1::Automatic
    };
    let one = field_is(fields[1].as_slice(), 49);
    let two = field_is(fields[1].as_slice(), 50);
    if !(one || two || field_is(fields[1].as_slice(), 51)) {
        return Err(ParseError::Nom);
    }
    let m2 = if one {
        GsaMode2::NoFix
    } else if two {
        GsaMode2::Fix2D
    } else {
        GsaMode2::Fix3D
    };
    let ghost r = fs.skip(2);
    proof {
        assert forall|j: int| 0 <= j < r.len() implies #[trigger] r[j] == fs[j + 2] by {}
    }
    // an all-blank tail is the degenerate "no data" form
    let mut all_empty = true;
    let mut j: usize = 2;
    while j < fields.len()
        invariant
            2 <= j <= fields@.len(),
            fields@.len() == fs.len(),
            3 <= fs.len(),
            r == fs.skip(2),
            forall|i: int| 0 <= i < fields@.len() ==> #[trigger] fields@[i]@ == fs[i],
            all_empty == (forall|i: int| 0 <= i < j - 2 ==> #[trigger] r[i].len() == 0),
        decreases fields@.len() - j,
    {
        if fields[j].len() != 0 {
            proof {
                assert(r[j - 2].len() != 0);
            }
            all_empty = false;
        }
        j = j + 1;
    }
    if all_empty {
        let empty_prns: Vec<u32> = Vec::new();
        return Ok(
            GsaData {
                mode1: m1,
                mode2: m2,
                fix_sats_prn: empty_prns,
                pdop: None,
                hdop: None,
                vdop: None,
            },
        );
    }
    // take the leading PRN slots greedily
    let rlen: usize = fields.len() - 2;
    let mut prns: Vec<u32> = Vec::new();
    let mut k: usize = 0;
    let mut stopped = false;
    proof {
        assert(prns@ =~= gsa_prns_of(r, 0));
    }
    while k < rlen - 1 && !stopped
        invariant
            0 <= k <= rlen - 1,
            rlen == fields@.len() - 2,
            fields@.len() == fs.len(),
            3 <= fs.len(),
            r == fs.skip(2),
            forall|i: int| 0 <= i < fields@.len() ==> #[trigger] fields@[i]@ == fs[i],
            gsa_prefix_len(r, k as int) == gsa_prefix_len(r, 0),
            prns@ == gsa_prns_of(r, k as int),
            stopped ==> k < rlen - 1 && !gsa_prn_ok(r[k as int]),
        decreases 2 * (rlen - k) + (if stopped {
            0int
        } else {
            1int
        }),
    {
        let f = fields[k + 2].as_slice();
        proof {
            assert(f@ == r[k as int]);
        }
        if f.len() == 0 {
            proof {
                assert(gsa_prn_ok(r[k as int]));
            }
            k = k + 1;
        } else {
            let pd = parse_digits(f);
            proof {
                if all_digits(r[k as int]) {
                    crate::num::lemma_digits_val_bound(r[k as int]);
                }
            }
            let mut good = false;
            let mut val: u32 = 0;
            match pd {
                Some(v) => {
                    if v <= 0xffff_ffff {
                        good = true;
                        val = v as u32;
                    }
                },
                None => {},
            }
            if good {
                proof {
                    assert(gsa_prn_ok(r[k as int]));
                    assert(val == digits_val(r[k as int]) as u32);
                }
                prns.push(val);
                k = k + 1;
            } else {
                proof {
                    assert(!gsa_prn_ok(r[k as int]));
                }
                stopped = true;
            }
        }
    }
    proof {
        if stopped {
            assert(gsa_prefix_len(r, k as int) == k as int);
        } else {
            assert(gsa_prefix_len(r, k as int) == r.len() - 1);
        }
    }
    if k + 3 > rlen {
        return Err(ParseError::Incomplete);
    }
    let pdop = match parse_float_num(fields[k + 2].as_slice()) {
        Some(d) => d,
        None => {
            return Err(ParseError::NumberFail);
        },
    };
    let hdop = match parse_float_num(fields[k + 3].as_slice()) {
        Some(d) => d,
        None => {
            return Err(ParseError::NumberFail);
        },
    };
    let vdop = match parse_float_num(fields[k + 4].as_slice()) {
        Some(d) => d,
        None => {
            return Err(ParseError::NumberFail);
        },
    };
    Ok(
        GsaData {
            mode1: m1,
            mode2: m2,
            fix_sats_prn: prns,
            pdop: Some(pdop),
            hdop: Some(hdop),
            vdop: Some(vdop),
        },
    )
}

/// The decoded fields of one GSV sentence: which slot of the scan it is,
/// and up to four satellites.
#[derive(Debug, Clone, Copy, PartialEq)]
pub struct GsvData {
    pub gnss_type: crate::GnssType,
    pub number_of_sentences: u16,
    pub sentence_num: u16,
    pub _sats_in_view: u16,
    pub sats_info: [Option<crate::Satellite>; 4],
}

/// Whether a field can stand as an optional satellite angle or signal
/// value: blank, or digits that fit.
pub open spec fn gsv_opt_ok(f: Seq<u8>) -> bool {
    f.len() == 0 || (all_digits(f) && digits_val(f) <= i32::MAX)
}

/// The value of an optional satellite field.
pub open spec fn gsv_opt_val(f: Seq<u8>) -> Option<i32> {
    if f.len() == 0 {
        None
    } else {
        Some(digits_val(f) as i32)
    }
}

/// Whether the four fields at `b` form a satellite tuple: a PRN that fits,
/// then three optional values.
pub open spec fn gsv_sat_ok(fs: Seq<Seq<u8>>, b: int) -> bool {
    &&& b + 4 <= fs.len()
    &&& fs[b].len() > 0
    &&& all_digits(fs[b])
    &&& digits_val(fs[b]) <= u32::MAX
    &&& gsv_opt_ok(fs[b + 1])
    &&& gsv_opt_ok(fs[b + 2])
    &&& gsv_opt_ok(fs[b + 3])
}

/// The satellite the four fields at `b` describe, stamped with the
/// sentence's constellation.
pub open spec fn gsv_sat_at(g: crate::GnssType, fs: Seq<Seq<u8>>, b: int) -> crate::Satellite {
    crate::Satellite {
        gnss_type: g,
        prn: digits_val(fs[b]) as u32,
        elevation: gsv_opt_val(fs[b + 1]),
        azimuth: gsv_opt_val(fs[b + 2]),
        snr: gsv_opt_val(fs[b + 3]),
    }
}

/// A mandatory counter field of a GSV sentence: digits that fit a `u16`.
pub open spec fn spec_u16_req(f: Seq<u8>) -> Result<u16, ParseError> {
    if f.len() > 0 && all_digits(f) && digits_val(f) <= u16::MAX {
        Ok(digits_val(f) as u16)
    } else {
        Err(ParseError::NumberFail)
    }
}

/// The GSV payload grammar: the constellation from the talker id, then the
/// scan size, this sentence's one-based slot, the satellites in view, and
/// up to four satellite tuples, taken greedily until one is malformed or
/// missing; the rest of the payload is ignored.  The result lists the four
/// slots in order.
pub open spec fn spec_parse_gsv(talker: Seq<u8>, data: Seq<u8>) -> Result<
    (crate::GnssType, u16, u16, u16, Seq<Option<crate::Satellite>>),
    ParseError,
> {
    if !(talker == seq![71u8, 80u8] || talker == seq![71u8, 76u8]) {
        Err(ParseError::UnknownGnss)
    } else {
        let g = if talker == seq![71u8, 80u8] {
            crate::GnssType::Gps
        } else {
            crate::GnssType::Glonass
        };
        let fs = spec_fields(data);
        if fs.len() < 3 {
            Err(ParseError::Incomplete)
        } else {
            match spec_u16_req(fs[0]) {
                Err(e) => Err(e),
                Ok(n) => match spec_u16_req(fs[1]) {
                    Err(e) => Err(e),
                    Ok(idx) => match spec_u16_req(fs[2]) {
                        Err(e) => Err(e),
                        Ok(inview) => {
                            let s0 = if gsv_sat_ok(fs, 3) {
                                Some(gsv_sat_at(g, fs, 3))
                            } else {
                                None
                            };
                            let s1 = if s0 is Some && gsv_sat_ok(fs, 7) {
                                Some(gsv_sat_at(g, fs, 7))
                            } else {
                                None
                            };
                            let s2 = if s1 is Some && gsv_sat_ok(fs, 11) {
                                Some(gsv_sat_at(g, fs, 11))
                            } else {
                                None
                            };
                            let s3 = if s2 is Some && gsv_sat_ok(fs, 15) {
                                Some(gsv_sat_at(g, fs, 15))
                            } else {
                                None
                            };
                            Ok((g, n, idx, inview, seq![s0, s1, s2, s3]))
                        },
                    },
                },
            }
        }
    }
}

/// Decodes a mandatory counter field.
fn u16_req(f: &[u8]) -> (r: Result<u16, ParseError>)
    ensures
        r == spec_u16_req(f@),
{
    proof {
        if all_digits(f@) {
            crate::num::lemma_digits_val_bound(f@);
        }
    }
    match parse_digits(f) {
        Some(v) => if v <= 0xffff {
            Ok(v as u16)
        } else {
            Err(ParseError::NumberFail)
        },
        None => Err(ParseError::NumberFail),
    }
}

/// Decodes an optional satellite angle or signal field.
fn gsv_opt(f: &[u8]) -> (r: Option<Option<i32>>)
    ensures
        match r {
            Some(v) => gsv_opt_ok(f@) && v == gsv_opt_val(f@),
            None => !gsv_opt_ok(f@),
        },
{
    if f.len() == 0 {
        return Some(None);
    }
    proof {
        if all_digits(f@) {
            crate::num::lemma_digits_val_bound(f@);
        }
    }
    match parse_digits(f) {
        Some(v) => if v <= 0x7fff_ffff {
            Some(Some(v as i32))
        } else {
            None
        },
        None => None,
    }
}

/// Decodes the satellite tuple at field `base`, if its four fields are
/// there and well formed.
fn gsv_sat(fields: &Vec<Vec<u8>>, base: usize, g: crate::GnssType) -> (r: Option<crate::Satellite>)
    ensures
        ({
            let fs = fields_view(fields@);
            match r {
                Some(s) => gsv_sat_ok(fs, base as int) && s == gsv_sat_at(g, fs, base as int),
                None => !gsv_sat_ok(fs, base as int),
            }
        }),
{
    let ghost fs = fields_view(fields@);
    proof {
        assert forall|i: int| 0 <= i < fields@.len() implies #[trigger] fields@[i]@ == fs[i] by {
            assert(fields_view(fields@)[i] == fields@[i]@);
        }
    }
    if base > fields.len() || fields.len() - base < 4 {
        return None;
    }
    let pf = fields[base].as_slice();
    proof {
        if all_digits(fs[base as int]) {
            crate::num::lemma_digits_val_bound(fs[base as int]);
        }
    }
    if pf.len() == 0 {
        return None;
    }
    let prn = match parse_digits(pf) {
        Some(v) => if v <= 0xffff_ffff {
            v as u32
        } else {
            return None;
        },
        None => {
            return None;
        },
    };
    let elevation = match gsv_opt(fields[base + 1].as_slice()) {
        Some(v) => v,
        None => {
            return None;
        },
    };
    let azimuth = match gsv_opt(fields[base + 2].as_slice()) {
        Some(v) => v,
        None => {
            return None;
        },
    };
    let snr = match gsv_opt(fields[base + 3].as_slice()) {
        Some(v) => v,
        None => {
            return None;
        },
    };
    Some(crate::Satellite { gnss_type: g, prn, elevation, azimuth, snr })
}

/// Decodes a GSV sentence's payload, stamping the constellation from the
/// talker id onto every satellite.
pub fn parse_gsv(sentence: &NmeaSentence) -> (r: Result<GsvData, ParseError>)
    ensures
        ({
            let sres = if sentence.message_id@ == seq![71u8, 83u8, 86u8] {
                spec_parse_gsv(sentence.talker_id@, sentence.data@)
            } else {
                Err(ParseError::InvalidMessageId)
            };
            match r {
                Ok(g) => sres == Ok::<_, ParseError>(
                    (
                        g.gnss_type,
                        g.number_of_sentences,
                        g.sentence_num,
                        g._sats_in_view,
                        g.sats_info@,
                    ),
                ),
                Err(e) => sres == Err::<
                    (crate::GnssType, u16, u16, u16, Seq<Option<crate::Satellite>>),
                    ParseError,
                >(e),
            }
        }),
{
    if !msg_is(&sentence.message_id, 71, 83, 86) {
        return Err(ParseError::InvalidMessageId);
    }
    let gp = talker_is(&sentence.talker_id, 71, 80);
    let gl = talker_is(&sentence.talker_id, 71, 76);
    if !(gp || gl) {
        return Err(ParseError::UnknownGnss);
    }
    let g = if gp {
        crate::GnssType::Gps
    } else {
        crate::GnssType::Glonass
    };
    let fields = split_fields(sentence.data.as_slice());
    let ghost fs = spec_fields(sentence.data@);
    proof {
        assert(fs.len() == fields@.len());
        assert forall|i: int| 0 <= i < fields@.len() implies #[trigger] fields@[i]@ == fs[i] by {
            assert(fields_view(fields@)[i] == fields@[i]@);
        }
    }
    if fields.len() < 3 {
        return Err(ParseError::Incomplete);
    }
    let n = match u16_req(fields[0].as_slice()) {
        Ok(v) => v,
        Err(e) => {
            return Err(e);
        },
    };
    let idx = match u16_req(fields[1].as_slice()) {
        Ok(v) => v,
        Err(e) => {
            return Err(e);
        },
    };
    let inview = match u16_req(fields[2].as_slice()) {
        Ok(v) => v,
        Err(e) => {
            return Err(e);
        },
    };
    proof {
        assert(fields_view(fields@) =~= fs);
    }
    let s0 = gsv_sat(&fields, 3, g);
    let s1 = match s0 {
        Some(_) => gsv_sat(&fields, 7, g),
        None => None,
    };
    let s2 = match s1 {
        Some(_) => gsv_sat(&fields, 11, g),
        None => None,
    };
    let s3 = match s2 {
        Some(_) => gsv_sat(&fields, 15, g),
        None => None,
    };
    let sats: [Option<crate::Satellite>; 4] = [s0, s1, s2, s3];
    proof {
        assert(sats@ =~= seq![s0, s1, s2, s3]);
    }
    Ok(
        GsvData {
            gnss_type: g,
            number_of_sentences: n,
            sentence_num: idx,
            _sats_in_view: inview,
            sats_info: sats,
        },
    )
}

/// One decoded sentence, or the raw message id of a type outside the five
/// supported ones; an unrecognised but well-formed sentence is expected
/// traffic, not an error.
#[derive(Debug, PartialEq)]
pub enum ParseResult {
    GGA(GgaData),
    RMC(RmcData),
    GSA(GsaData),
    VTG(VtgData),
    GSV(GsvData),
    Unsupported(Vec<u8>),
}

/// Decodes one sentence: frames it, validates the checksum, then runs the
/// decoder its message id names.
pub fn parse(xs: &[u8]) -> (r: Result<ParseResult, ParseError>)
    ensures
        ({
            match spec_checked_frame(xs@) {
                Err(e) => r == Err::<ParseResult, ParseError>(e),
                Ok((talker, message, data, cs)) => {
                    if message == seq![71u8, 71u8, 65u8] {
                        match spec_parse_gga(data) {
                            Ok(g) => r == Ok::<ParseResult, ParseError>(ParseResult::GGA(g)),
                            Err(e) => r == Err::<ParseResult, ParseError>(e),
                        }
                    } else if message == seq![82u8, 77u8, 67u8] {
                        match spec_parse_rmc(data) {
                            Ok(g) => r == Ok::<ParseResult, ParseError>(ParseResult::RMC(g)),
                            Err(e) => r == Err::<ParseResult, ParseError>(e),
                        }
                    } else if message == seq![71u8, 83u8, 65u8] {
                        match spec_parse_gsa(data) {
                            Ok(t) => match r {
                                Ok(ParseResult::GSA(g)) => g.mode1 == t.0 && g.mode2 == t.1
                                    && g.fix_sats_prn@ == t.2 && g.pdop == t.3 && g.hdop == t.4
                                    && g.vdop == t.5,
                                _ => false,
                            },
                            Err(e) => r == Err::<ParseResult, ParseError>(e),
                        }
                    } else if message == seq![86u8, 84u8, 71u8] {
                        match spec_parse_vtg(data) {
                            Ok(g) => r == Ok::<ParseResult, ParseError>(ParseResult::VTG(g)),
                            Err(e) => r == Err::<ParseResult, ParseError>(e),
                        }
                    } else if message == seq![71u8, 83u8, 86u8] {
                        match spec_parse_gsv(talker, data) {
                            Ok(t) => match r {
                                Ok(ParseResult::GSV(g)) => g.gnss_type == t.0
                                    && g.number_of_sentences == t.1 && g.sentence_num == t.2
                                    && g._sats_in_view == t.3 && g.sats_info@ == t.4,
                                _ => false,
                            },
                            Err(e) => r == Err::<ParseResult, ParseError>(e),
                        }
                    } else {
                        match r {
                            Ok(ParseResult::Unsupported(m)) => m@ == message,
                            _ => false,
                        }
                    }
                },
            }
        }),
{
    let ns = match parse_nmea_sentence(xs) {
        Ok(ns) => ns,
        Err(e) => {
            return Err(e);
        },
    };
    if ns.checksum != ns.calc_checksum() {
        return Err(ParseError::ChecksumFail);
    }
    if msg_is(&ns.message_id, 71, 71, 65) {
        match parse_gga(&ns) {
            Ok(g) => Ok(ParseResult::GGA(g)),
            Err(e) => Err(e),
        }
    } else if msg_is(&ns.message_id, 82, 77, 67) {
        match parse_rmc(&ns) {
            Ok(g) => Ok(ParseResult::RMC(g)),
            Err(e) => Err(e),
        }
    } else if msg_is(&ns.message_id, 71, 83, 65) {
        match parse_gsa(&ns) {
            Ok(g) => Ok(ParseResult::GSA(g)),
            Err(e) => Err(e),
        }
    } else if msg_is(&ns.message_id, 86, 84, 71) {
        match parse_vtg(&ns) {
            Ok(g) => Ok(ParseResult::VTG(g)),
            Err(e) => Err(e),
        }
    } else if msg_is(&ns.message_id, 71, 83, 86) {
        match parse_gsv(&ns) {
            Ok(g) => Ok(ParseResult::GSV(g)),
            Err(e) => Err(e),
        }
    } else {
        Ok(ParseResult::Unsupported(ns.message_id))
    }
}

/// Whether a talker id is the given two bytes.
fn talker_is(m: &Vec<u8>, a: u8, b: u8) -> (r: bool)
    ensures
        r == (m@ == seq![a, b]),
{
    let r = m.len() == 2 && m[0] == a && m[1] == b;
    proof {
        if r {
            assert(m@ =~= seq![a, b]);
        } else if m@ == seq![a, b] {
            assert(m@.len() == 2);
            assert(m@[0] == a && m@[1] == b);
        }
    }
    r
}

} // verus!
