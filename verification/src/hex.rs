//! Hexadecimal text as the wire protocol uses it: two digits per byte, numbers
//! most significant digit first.

use vstd::prelude::*;

verus! {

/// The upper-case ASCII digit for a value below sixteen.
pub open spec fn spec_hex_digit(n: int) -> u8
    recommends
        0 <= n < 16,
{
    if n < 10 {
        (48 + n) as u8
    } else {
        (55 + n) as u8
    }
}

/// The value of an ASCII hexadecimal digit of either case, `None` for any other byte.
pub open spec fn spec_hex_value(c: u8) -> Option<u8> {
    if 48 <= c <= 57 {
        Some((c - 48) as u8)
    } else if 65 <= c <= 70 {
        Some((c - 55) as u8)
    } else if 97 <= c <= 102 {
        Some((c - 87) as u8)
    } else {
        None
    }
}

/// Every byte of `text` is a hexadecimal digit.
pub open spec fn spec_is_hex(text: Seq<u8>) -> bool {
    forall|i: int| 0 <= i < text.len() ==> (#[trigger] spec_hex_value(text[i])) is Some
}

/// Two upper-case digits per byte, high nibble first.
pub open spec fn spec_encode_hex(bytes: Seq<u8>) -> Seq<u8> {
    Seq::new(
        2 * bytes.len(),
        |i: int|
            if i % 2 == 0 {
                spec_hex_digit(bytes[i / 2] as int / 16)
            } else {
                spec_hex_digit(bytes[i / 2] as int % 16)
            },
    )
}

/// The byte that the digit pair `hi`, `lo` stands for, if both are digits.
pub open spec fn spec_hex_pair(hi: u8, lo: u8) -> Option<u8> {
    match (spec_hex_value(hi), spec_hex_value(lo)) {
        (Some(h), Some(l)) => Some((h * 16 + l) as u8),
        _ => None,
    }
}

/// The bytes that an even-length run of digits stands for.
pub open spec fn spec_decode_hex(text: Seq<u8>) -> Option<Seq<u8>> {
    if text.len() % 2 == 0 && spec_is_hex(text) {
        Some(Seq::new((text.len() / 2) as nat, |i: int| spec_hex_pair(text[2 * i], text[2 * i + 1])->0))
    } else {
        None
    }
}

/// The number that a run of digits denotes, most significant digit first.
pub open spec fn spec_hex_number(text: Seq<u8>) -> nat
    decreases text.len(),
{
    if text.len() == 0 {
        0
    } else {
        16 * spec_hex_number(text.drop_last()) + spec_hex_value(text.last()).unwrap_or(0) as nat
    }
}

/// The value of one to sixteen digits; anything else is not a number.
pub open spec fn spec_parse_hex(text: Seq<u8>) -> Option<u64> {
    if 1 <= text.len() <= 16 && spec_is_hex(text) {
        Some(spec_hex_number(text) as u64)
    } else {
        None
    }
}

/// Sixteen to the power `n`.
pub open spec fn spec_pow16(n: nat) -> nat
    decreases n,
{
    if n == 0 {
        1
    } else {
        16 * spec_pow16((n - 1) as nat)
    }
}

/// A run of `n` digits denotes a number below sixteen to the `n`.
pub proof fn lemma_hex_number_bound(text: Seq<u8>)
    ensures
        spec_hex_number(text) < spec_pow16(text.len()),
    decreases text.len(),
{
    if text.len() > 0 {
        lemma_hex_number_bound(text.drop_last());
    }
}

/// Decoding undoes encoding.
pub proof fn lemma_decode_encode_hex(bytes: Seq<u8>)
    ensures
        spec_is_hex(spec_encode_hex(bytes)),
        spec_decode_hex(spec_encode_hex(bytes)) == Some(bytes),
{
    let text = spec_encode_hex(bytes);
    assert forall|i: int| 0 <= i < text.len() implies (#[trigger] spec_hex_value(text[i])) is Some by {
        let b = bytes[i / 2];
        assert(0 <= b as int / 16 < 16 && 0 <= b as int % 16 < 16);
    }
    let back = spec_decode_hex(text)->0;
    assert forall|i: int| 0 <= i < bytes.len() implies back[i] == bytes[i] by {
        let b = bytes[i];
        assert((2 * i) / 2 == i && (2 * i) % 2 == 0);
        assert((2 * i + 1) / 2 == i && (2 * i + 1) % 2 == 1);
        assert(text[2 * i] == spec_hex_digit(b as int / 16));
        assert(text[2 * i + 1] == spec_hex_digit(b as int % 16));
        assert(0 <= b as int / 16 < 16 && 0 <= b as int % 16 < 16);
        assert((b as int / 16) * 16 + b as int % 16 == b as int);
    }
    assert(back =~= bytes);
}

/// The upper-case digit for the low four bits of `n`.
pub fn hex_digit(n: u8) -> (c: u8)
    ensures
        c == spec_hex_digit(n as int % 16),
        spec_hex_value(c) == Some((n % 16) as u8),
{
    let low: u8 = n % 16;
    if low < 10 {
        48 + low
    } else {
        55 + low
    }
}

/// The value of a hexadecimal digit of either case.
pub fn hex_value(c: u8) -> (v: Option<u8>)
    ensures
        v == spec_hex_value(c),
        v matches Some(n) ==> n < 16,
{
    if 48 <= c && c <= 57 {
        Some(c - 48)
    } else if 65 <= c && c <= 70 {
        Some(c - 55)
    } else if 97 <= c && c <= 102 {
        Some(c - 87)
    } else {
        None
    }
}

/// The byte written as the digit pair `hi`, `lo`.
pub fn hex_pair(hi: u8, lo: u8) -> (v: Option<u8>)
    ensures
        v == spec_hex_pair(hi, lo),
{
    match (hex_value(hi), hex_value(lo)) {
        (Some(h), Some(l)) => Some(h * 16 + l),
        _ => None,
    }
}

/// Appends the two digits of `byte` to `out`.
pub fn push_hex_byte(out: &mut Vec<u8>, byte: u8)
    ensures
        final(out)@ == old(out)@ + spec_encode_hex(seq![byte]),
{
    out.push(hex_digit(byte / 16));
    out.push(hex_digit(byte % 16));
    proof {
        let two = spec_encode_hex(seq![byte]);
        assert(two.len() == 2);
        assert(two[0] == spec_hex_digit(byte as int / 16));
        assert(two[1] == spec_hex_digit(byte as int % 16));
        assert((byte / 16) as int % 16 == byte as int / 16);
        assert(out@ =~= old(out)@ + two);
    }
}

/// Encoding distributes over appending one byte.
pub proof fn lemma_encode_hex_push(bytes: Seq<u8>, byte: u8)
    ensures
        spec_encode_hex(bytes.push(byte)) == spec_encode_hex(bytes) + spec_encode_hex(seq![byte]),
{
    let whole = spec_encode_hex(bytes.push(byte));
    let parts = spec_encode_hex(bytes) + spec_encode_hex(seq![byte]);
    assert(whole.len() == parts.len());
    assert forall|i: int| 0 <= i < whole.len() implies whole[i] == parts[i] by {
        if i < 2 * bytes.len() {
            assert(bytes.push(byte)[i / 2] == bytes[i / 2]);
        } else {
            let j = i - 2 * bytes.len();
            assert(i / 2 == bytes.len());
            assert(j / 2 == 0);
            assert(j % 2 == i % 2);
            assert(bytes.push(byte)[i / 2] == byte);
            assert(seq![byte][0] == byte);
        }
    }
    assert(whole =~= parts);
}

/// Renders `bytes` as hexadecimal text.
pub fn encode_hex(bytes: &[u8]) -> (text: Vec<u8>)
    ensures
        text@ == spec_encode_hex(bytes@),
{
    let mut text: Vec<u8> = Vec::new();
    let mut i: usize = 0;
    assert(text@ =~= spec_encode_hex(bytes@.subrange(0, 0)));
    while i < bytes.len()
        invariant
            i <= bytes.len(),
            text@ == spec_encode_hex(bytes@.subrange(0, i as int)),
        decreases bytes.len() - i,
    {
        proof {
            lemma_encode_hex_push(bytes@.subrange(0, i as int), bytes@[i as int]);
            assert(bytes@.subrange(0, i as int).push(bytes@[i as int]) =~= bytes@.subrange(
                0,
                i as int + 1,
            ));
        }
        push_hex_byte(&mut text, bytes[i]);
        i = i + 1;
    }
    assert(bytes@.subrange(0, i as int) =~= bytes@);
    text
}

/// Reads hexadecimal text back into bytes; `None` unless `text` is an even
/// number of digits.
pub fn decode_hex(text: &[u8]) -> (bytes: Option<Vec<u8>>)
    ensures
        bytes is Some == spec_decode_hex(text@) is Some,
        bytes matches Some(b) ==> Some(b@) == spec_decode_hex(text@),
{
    if text.len() % 2 != 0 {
        return None;
    }
    let mut bytes: Vec<u8> = Vec::new();
    let mut i: usize = 0;
    while i < text.len() / 2
        invariant
            text.len() % 2 == 0,
            i <= text.len() / 2,
            bytes@.len() == i,
            forall|j: int| 0 <= j < 2 * i ==> (#[trigger] spec_hex_value(text@[j])) is Some,
            forall|j: int|
                0 <= j < i ==> #[trigger] bytes@[j] == spec_hex_pair(
                    text@[2 * j],
                    text@[2 * j + 1],
                )->0,
        decreases text.len() / 2 - i,
    {
        match hex_pair(text[2 * i], text[2 * i + 1]) {
            Some(b) => {
                bytes.push(b);
            },
            None => {
                proof {
                    let k = if spec_hex_value(text@[2 * i as int]) is None {
                        2 * i as int
                    } else {
                        2 * i as int + 1
                    };
                    assert(spec_hex_value(text@[k]) is None);
                }
                return None;
            },
        }
        i = i + 1;
    }
    proof {
        assert(spec_is_hex(text@));
        assert(bytes@ =~= spec_decode_hex(text@)->0);
    }
    Some(bytes)
}

/// Reads one to sixteen digits as a number; `None` for anything else.
pub fn parse_hex(text: &[u8]) -> (value: Option<u64>)
    ensures
        value == spec_parse_hex(text@),
{
    if text.len() == 0 || text.len() > 16 {
        return None;
    }
    let mut acc: u64 = 0;
    let mut i: usize = 0;
    assert(text@.subrange(0, 0) =~= Seq::<u8>::empty());
    while i < text.len()
        invariant
            1 <= text.len() <= 16,
            i <= text.len(),
            acc as nat == spec_hex_number(text@.subrange(0, i as int)),
            forall|j: int| 0 <= j < i ==> (#[trigger] spec_hex_value(text@[j])) is Some,
        decreases text.len() - i,
    {
        let digit: u8 = match hex_value(text[i]) {
            Some(d) => d,
            None => {
                return None;
            },
        };
        proof {
            let before = text@.subrange(0, i as int);
            let after = text@.subrange(0, i as int + 1);
            assert(after.drop_last() =~= before);
            assert(after.last() == text@[i as int]);
            lemma_hex_number_bound(before);
            lemma_pow16_monotonic(i as nat, 15);
            reveal_with_fuel(spec_pow16, 17);
            assert(spec_pow16(15) == 0x1000_0000_0000_0000);
        }
        acc = acc * 16 + digit as u64;
        i = i + 1;
    }
    proof {
        assert(text@.subrange(0, i as int) =~= text@);
        assert(spec_is_hex(text@));
    }
    Some(acc)
}

/// Powers of sixteen grow with the exponent.
pub proof fn lemma_pow16_monotonic(a: nat, b: nat)
    requires
        a <= b,
    ensures
        spec_pow16(a) <= spec_pow16(b),
    decreases b,
{
    if a < b {
        lemma_pow16_monotonic(a, (b - 1) as nat);
    }
}

/// The digits of `value`, most significant first, without leading zeros.
pub open spec fn spec_hex_of(value: nat) -> Seq<u8>
    decreases value,
{
    if value < 16 {
        seq![spec_hex_digit(value as int)]
    } else {
        spec_hex_of(value / 16).push(spec_hex_digit((value % 16) as int))
    }
}

/// The digits of a number are digits, and they denote the number.
pub proof fn lemma_hex_of_number(value: nat)
    ensures
        spec_is_hex(spec_hex_of(value)),
        spec_hex_number(spec_hex_of(value)) == value,
        spec_hex_of(value).len() >= 1,
    decreases value,
{
    let text = spec_hex_of(value);
    if value < 16 {
        assert(text.drop_last() =~= Seq::<u8>::empty());
        assert(spec_hex_number(text.drop_last()) == 0);
    } else {
        lemma_hex_of_number(value / 16);
        assert(text.drop_last() =~= spec_hex_of(value / 16));
        assert forall|i: int| 0 <= i < text.len() implies (#[trigger] spec_hex_value(text[i])) is Some by {
            if i < text.len() - 1 {
                assert(text[i] == spec_hex_of(value / 16)[i]);
            }
        }
    }
}

/// Appends the digits of `value` to `out`, most significant first, without
/// leading zeros.
pub fn push_hex_number(out: &mut Vec<u8>, value: u64)
    ensures
        final(out)@ == old(out)@ + spec_hex_of(value as nat),
    decreases value,
{
    if value < 16 {
        out.push(hex_digit(value as u8));
        assert(out@ =~= old(out)@ + spec_hex_of(value as nat));
    } else {
        push_hex_number(out, value / 16);
        out.push(hex_digit((value % 16) as u8));
        assert(out@ =~= old(out)@ + spec_hex_of(value as nat));
    }
}

/// A number below sixteen to the `digits` has at most `digits` digits.
pub proof fn lemma_hex_of_len(value: nat, digits: nat)
    requires
        digits >= 1,
        value < spec_pow16(digits),
    ensures
        1 <= spec_hex_of(value).len() <= digits,
    decreases value,
{
    if value >= 16 {
        reveal_with_fuel(spec_pow16, 2);
        lemma_hex_of_len(value / 16, (digits - 1) as nat);
    }
}

/// Numbers go round: the digits of a number are read back as that number.
pub proof fn lemma_parse_hex_of(value: u64)
    ensures
        spec_parse_hex(spec_hex_of(value as nat)) == Some(value),
{
    lemma_hex_of_number(value as nat);
    assert(spec_pow16(16) == 0x1_0000_0000_0000_0000) by {
        reveal_with_fuel(spec_pow16, 17);
    }
    lemma_hex_of_len(value as nat, 16);
}

} // verus!
