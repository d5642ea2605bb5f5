//! Decimal, hexadecimal and fixed-point rendering of the integers that
//! appear in file names and in the audio tool's arguments.

use vstd::prelude::*;

verus! {

/// Decimal digits of `n`, most significant first, with no leading zero
/// (the single digit `0` for zero).
pub open spec fn dec_digits(n: nat) -> Seq<u8>
    decreases n,
{
    if n < 10 {
        seq![(48 + n) as u8]
    } else {
        dec_digits(n / 10).push((48 + n % 10) as u8)
    }
}

pub open spec fn is_digit(c: u8) -> bool {
    48 <= c <= 57
}

/// Value denoted by a sequence of decimal digit bytes, most significant first.
pub open spec fn dec_value(s: Seq<u8>) -> int
    decreases s.len(),
{
    if s.len() == 0 {
        0
    } else {
        dec_value(s.drop_last()) * 10 + (s.last() - 48)
    }
}

pub open spec fn all_digits(s: Seq<u8>) -> bool {
    forall|i: int| 0 <= i < s.len() ==> is_digit(s[i])
}

/// Rendering a number and reading it back yields the number.
pub proof fn lemma_dec_round_trip(n: nat)
    ensures
        dec_value(dec_digits(n)) == n,
    decreases n,
{
    if n < 10 {
        assert(dec_digits(n).drop_last() =~= Seq::<u8>::empty());
        assert(dec_value(Seq::<u8>::empty()) == 0);
    } else {
        lemma_dec_round_trip(n / 10);
        assert(dec_digits(n).drop_last() =~= dec_digits(n / 10));
    }
}

pub proof fn lemma_dec_digits_are_digits(n: nat)
    ensures
        all_digits(dec_digits(n)),
        dec_digits(n).len() >= 1,
    decreases n,
{
    if n < 10 {
    } else {
        lemma_dec_digits_are_digits(n / 10);
    }
}

/// A rendered number has a leading zero only when it is zero itself.
pub proof fn lemma_dec_digits_no_leading_zero(n: nat)
    ensures
        dec_digits(n)[0] == 48 ==> n == 0,
        dec_digits(n).len() > 1 ==> dec_digits(n)[0] != 48,
    decreases n,
{
    if n < 10 {
    } else {
        lemma_dec_digits_no_leading_zero(n / 10);
    }
}

pub fn u64_to_dec(n: u64) -> (r: Vec<u8>)
    ensures
        r@ == dec_digits(n as nat),
    decreases n,
{
    if n < 10 {
        let mut v: Vec<u8> = Vec::new();
        v.push(48 + (n as u8));
        v
    } else {
        let mut v = u64_to_dec(n / 10);
        v.push(48 + ((n % 10) as u8));
        v
    }
}

/// Lowercase hexadecimal digit for `d < 16`.
pub open spec fn hex_digit(d: nat) -> u8 {
    if d < 10 {
        (48 + d) as u8
    } else {
        (87 + d) as u8
    }
}

/// Lowercase hexadecimal digits of `n`, most significant first, no leading zero.
pub open spec fn hex_digits(n: nat) -> Seq<u8>
    decreases n,
{
    if n < 16 {
        seq![hex_digit(n)]
    } else {
        hex_digits(n / 16).push(hex_digit(n % 16))
    }
}

/// The file-name component for a key code: its lowercase hexadecimal form,
/// zero-padded on the left to at least two characters, never truncated.
pub open spec fn hex_component(n: nat) -> Seq<u8> {
    if n < 16 {
        seq![48u8] + hex_digits(n)
    } else {
        hex_digits(n)
    }
}

pub open spec fn is_hex_lower(c: u8) -> bool {
    (48 <= c <= 57) || (97 <= c <= 102)
}

proof fn lemma_hex_digits_shape(n: nat)
    ensures
        hex_digits(n).len() >= 1,
        n < 16 ==> hex_digits(n).len() == 1,
        16 <= n < 256 ==> hex_digits(n).len() == 2,
        n >= 256 ==> hex_digits(n).len() >= 3,
        forall|i: int| 0 <= i < hex_digits(n).len() ==> is_hex_lower(#[trigger] hex_digits(n)[i]),
    decreases n,
{
    if n < 16 {
    } else {
        lemma_hex_digits_shape(n / 16);
    }
}

/// The key-code file-name component is exactly two lowercase hex characters
/// for codes below 256, and grows without truncation above that.
pub proof fn lemma_hex_component_shape(n: nat)
    ensures
        n < 256 ==> hex_component(n).len() == 2,
        n >= 256 ==> hex_component(n).len() >= 3,
        forall|i: int| 0 <= i < hex_component(n).len() ==> is_hex_lower(#[trigger] hex_component(n)[i]),
{
    lemma_hex_digits_shape(n);
}

pub fn u64_to_hex_digits(n: u64) -> (r: Vec<u8>)
    ensures
        r@ == hex_digits(n as nat),
    decreases n,
{
    let d: u64 = n % 16;
    let db: u8 = if d < 10 {
        48 + (d as u8)
    } else {
        87 + (d as u8)
    };
    if n < 16 {
        let mut v: Vec<u8> = Vec::new();
        v.push(db);
        v
    } else {
        let mut v = u64_to_hex_digits(n / 16);
        v.push(db);
        v
    }
}

/// Key code rendered as its zero-padded lowercase hexadecimal file-name
/// component.
pub fn key_hex(n: u64) -> (r: Vec<u8>)
    ensures
        r@ == hex_component(n as nat),
{
    if n < 16 {
        let mut v: Vec<u8> = Vec::new();
        v.push(48);
        let d = u64_to_hex_digits(n);
        let mut k: usize = 0;
        while k < d.len()
            invariant
                v@ == seq![48u8] + d@.subrange(0, k as int),
                k <= d.len(),
            decreases d.len() - k,
        {
            v.push(d[k]);
            k = k + 1;
        }
        assert(v@ =~= seq![48u8] + d@);
        v
    } else {
        u64_to_hex_digits(n)
    }
}

/// Three decimal digits, zero padded, for a value below 1000.
pub open spec fn pad3(r: nat) -> Seq<u8> {
    if r < 10 {
        seq![48u8, 48u8] + dec_digits(r)
    } else if r < 100 {
        seq![48u8] + dec_digits(r)
    } else {
        dec_digits(r)
    }
}

/// A millisecond count rendered as seconds with exactly three decimal
/// places, e.g. 1500 becomes `1.500`.
pub open spec fn ms_text(ms: nat) -> Seq<u8> {
    dec_digits(ms / 1000) + seq![46u8] + pad3(ms % 1000)
}

pub fn append_bytes(dst: &mut Vec<u8>, src: &Vec<u8>)
    ensures
        final(dst)@ == old(dst)@ + src@,
{
    let mut k: usize = 0;
    while k < src.len()
        invariant
            dst@ == old(dst)@ + src@.subrange(0, k as int),
            k <= src.len(),
        decreases src.len() - k,
    {
        dst.push(src[k]);
        assert(dst@ =~= old(dst)@ + src@.subrange(0, k + 1));
        k = k + 1;
    }
    assert(dst@ =~= old(dst)@ + src@);
}

/// Milliseconds rendered as three-decimal seconds text.
pub fn format_ms(ms: u64) -> (r: Vec<u8>)
    ensures
        r@ == ms_text(ms as nat),
{
    let mut v = u64_to_dec(ms / 1000);
    v.push(46);
    let rem: u64 = ms % 1000;
    let digits = u64_to_dec(rem);
    if rem < 10 {
        v.push(48);
        v.push(48);
    } else if rem < 100 {
        v.push(48);
    }
    append_bytes(&mut v, &digits);
    assert(v@ =~= ms_text(ms as nat));
    v
}

} // verus!
