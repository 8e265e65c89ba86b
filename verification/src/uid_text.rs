//! The text form of an identifier: four hexadecimal digits of manufacturer
//! id, a colon, eight hexadecimal digits of device id.

use vstd::prelude::*;
use vstd::utf8::encode_utf8;
use crate::text::utf8_text;
use crate::uid::Uid;

verus! {

/// The value of a hexadecimal digit, in either case.
pub open spec fn hex_digit(b: u8) -> Option<int> {
    if 0x30 <= b <= 0x39 {
        Some(b - 0x30)
    } else if 0x41 <= b <= 0x46 {
        Some(b - 0x41 + 10)
    } else if 0x61 <= b <= 0x66 {
        Some(b - 0x61 + 10)
    } else {
        None
    }
}

/// The number that a sequence of hexadecimal digits spells, if every byte
/// is a digit. No digits spell zero.
pub open spec fn hex_number(digits: Seq<u8>) -> Option<int>
    decreases digits.len(),
{
    if digits.len() == 0 {
        Some(0)
    } else {
        match (hex_number(digits.drop_last()), hex_digit(digits.last())) {
            (Some(v), Some(d)) => Some(16 * v + d),
            _ => None,
        }
    }
}

/// The number that a text spells in hexadecimal: an optional `+`, then at
/// least one digit and nothing else, with a value of at most `max`.
pub open spec fn parse_hex(text: Seq<u8>, max: int) -> Option<int> {
    let digits = if text.len() > 0 && text[0] == 0x2B {
        text.drop_first()
    } else {
        text
    };
    if digits.len() == 0 {
        None
    } else {
        match hex_number(digits) {
            Some(v) => if v <= max {
                Some(v)
            } else {
                None
            },
            None => None,
        }
    }
}

/// The number that a text spells, or zero where it spells none.
pub open spec fn hex_or_zero(text: Seq<u8>, max: int) -> int {
    match parse_hex(text, max) {
        Some(v) => v,
        None => 0,
    }
}

/// The identifier that a text of at least five bytes spells: the first four
/// bytes give the manufacturer id, the bytes from the sixth on the device
/// id. A part that is not a hexadecimal number of its width gives zero.
pub open spec fn uid_from_text(text: Seq<u8>) -> Uid
    recommends
        text.len() >= 5,
{
    Uid {
        mfg: hex_or_zero(text.subrange(0, 4), 0xFFFF) as u16,
        dev: hex_or_zero(text.subrange(5, text.len() as int), 0xFFFF_FFFF) as u32,
    }
}

/// The upper-case hexadecimal digit of a value below 16.
pub open spec fn hex_char(d: int) -> char
    recommends
        0 <= d < 16,
{
    if d < 10 {
        (0x30 + d) as char
    } else {
        (0x41 + d - 10) as char
    }
}

/// The last `width` hexadecimal digits of `v`, upper case, zeros included.
pub open spec fn hex_text(v: int, width: nat) -> Seq<char>
    decreases width,
{
    if width == 0 {
        Seq::<char>::empty()
    } else {
        hex_text(v / 16, (width - 1) as nat).push(hex_char(v % 16))
    }
}

/// The text form of an identifier.
pub open spec fn uid_text(uid: Uid) -> Seq<char> {
    hex_text(uid.mfg as int, 4) + seq![':'] + hex_text(uid.dev as int, 8)
}

/// What the digits up to `i` spell bounds what all of them spell: where a
/// prefix spells nothing, so does the whole, and the whole spells no less
/// than a prefix.
proof fn lemma_hex_prefix(digits: Seq<u8>, i: int)
    requires
        0 <= i <= digits.len(),
    ensures
        hex_number(digits.take(i)).is_none() ==> hex_number(digits).is_none(),
        hex_number(digits.take(i)).is_some() && hex_number(digits).is_some() ==> hex_number(
            digits,
        ).unwrap() >= hex_number(digits.take(i)).unwrap() >= 0,
    decreases digits.len() - i,
{
    if i == digits.len() {
        assert(digits.take(i) =~= digits);
        lemma_hex_nonnegative(digits);
    } else {
        lemma_hex_prefix(digits.drop_last(), i);
        assert(digits.drop_last().take(i) =~= digits.take(i));
        lemma_hex_nonnegative(digits.drop_last());
    }
}

/// Digits spell no negative number.
proof fn lemma_hex_nonnegative(digits: Seq<u8>)
    ensures
        hex_number(digits).is_some() ==> hex_number(digits).unwrap() >= 0,
    decreases digits.len(),
{
    if digits.len() > 0 {
        lemma_hex_nonnegative(digits.drop_last());
    }
}

/// 16 to the power `width`.
pub open spec fn pow16(width: nat) -> int
    decreases width,
{
    if width == 0 {
        1
    } else {
        16 * pow16((width - 1) as nat)
    }
}

/// The bytes of a text of ASCII characters.
pub open spec fn ascii_bytes(chars: Seq<char>) -> Seq<u8> {
    Seq::new(chars.len(), |i: int| chars[i] as u8)
}

/// The digits of a number that `width` digits can hold are hexadecimal
/// digits in upper case, and spell the number.
pub proof fn lemma_hex_text_spells(v: int, width: nat)
    requires
        0 <= v < pow16(width),
    ensures
        hex_text(v, width).len() == width,
        forall|i: int|
            0 <= i < width ==> hex_digit(#[trigger] hex_text(v, width)[i] as u8).is_some()
                && hex_text(v, width)[i] as u8 != 0x2B && '0' <= hex_text(v, width)[i] <= 'F',
        hex_number(ascii_bytes(hex_text(v, width))) == Some(v),
    decreases width,
{
    if width > 0 {
        let rest = hex_text(v / 16, (width - 1) as nat);
        lemma_hex_text_spells(v / 16, (width - 1) as nat);
        let all = hex_text(v, width);
        assert(all == rest.push(hex_char(v % 16)));
        assert(ascii_bytes(all).drop_last() =~= ascii_bytes(rest));
        assert(ascii_bytes(all).last() == hex_char(v % 16) as u8);
        assert(hex_digit(hex_char(v % 16) as u8) == Some(v % 16));
        assert forall|i: int| 0 <= i < width implies hex_digit(#[trigger] all[i] as u8).is_some()
            && all[i] as u8 != 0x2B && '0' <= all[i] <= 'F' by {
            if i < width - 1 {
                assert(all[i] == rest[i]);
            }
        }
    } else {
        assert(ascii_bytes(hex_text(v, width)) =~= Seq::<u8>::empty());
    }
}

/// The text form of an identifier is 13 ASCII characters, whose bytes are
/// its UTF-8 encoding.
pub proof fn lemma_uid_text_bytes(uid: Uid)
    ensures
        uid_text(uid).len() == 13,
        encode_utf8(uid_text(uid)) == ascii_bytes(uid_text(uid)),
{
    let m = hex_text(uid.mfg as int, 4);
    let d = hex_text(uid.dev as int, 8);
    let text = uid_text(uid);
    reveal_with_fuel(pow16, 9);
    lemma_hex_text_spells(uid.mfg as int, 4);
    lemma_hex_text_spells(uid.dev as int, 8);
    assert forall|i: int| 0 <= i < text.len() implies '\0' <= #[trigger] text[i] <= '\u{7f}' by {
        if i < 4 {
            assert(text[i] == m[i]);
        } else if i > 4 {
            assert(text[i] == d[i - 5]);
        } else {
            assert(text[i] == ':');
        }
    }
    vstd::utf8::is_ascii_chars_encode_utf8(text);
    assert(encode_utf8(text) =~= ascii_bytes(text));
}

/// The text form of an identifier reads back as the identifier.
pub proof fn lemma_text_round_trip(uid: Uid)
    ensures
        encode_utf8(uid_text(uid)).len() == 13,
        uid_from_text(encode_utf8(uid_text(uid))) == uid,
{
    let m = hex_text(uid.mfg as int, 4);
    let d = hex_text(uid.dev as int, 8);
    let text = uid_text(uid);
    let bytes = encode_utf8(text);
    reveal_with_fuel(pow16, 9);
    lemma_hex_text_spells(uid.mfg as int, 4);
    lemma_hex_text_spells(uid.dev as int, 8);
    lemma_uid_text_bytes(uid);
    assert(bytes.subrange(0, 4) =~= ascii_bytes(m));
    assert(bytes.subrange(5, 13) =~= ascii_bytes(d));
    assert(ascii_bytes(m)[0] == m[0] as u8);
    assert(ascii_bytes(d)[0] == d[0] as u8);
}

/// Reads the hexadecimal number that `text[from..to]` spells, if it spells
/// one of at most `max`.
fn read_hex(text: &[u8], from: usize, to: usize, max: u64) -> (parsed: Option<u64>)
    requires
        from <= to <= text@.len(),
        max <= 0xFFFF_FFFF,
    ensures
        parsed.is_some() == parse_hex(text@.subrange(from as int, to as int), max as int).is_some(),
        parsed matches Some(v) ==> v == parse_hex(
            text@.subrange(from as int, to as int),
            max as int,
        ).unwrap(),
{
    let ghost whole = text@.subrange(from as int, to as int);
    let mut i: usize = from;
    if i < to && text[i] == 0x2B {
        i += 1;
    }
    let start = i;
    let ghost digits = text@.subrange(start as int, to as int);
    assert(digits =~= if whole.len() > 0 && whole[0] == 0x2B {
        whole.drop_first()
    } else {
        whole
    });
    if start == to {
        return None;
    }
    let mut acc: u64 = 0;
    assert(digits.take(0) =~= Seq::<u8>::empty());
    while i < to
        invariant
            from <= start <= i <= to <= text@.len(),
            start < to,
            whole == text@.subrange(from as int, to as int),
            digits == text@.subrange(start as int, to as int),
            digits == if whole.len() > 0 && whole[0] == 0x2B {
                whole.drop_first()
            } else {
                whole
            },
            hex_number(digits.take(i - start)) == Some(acc as int),
            acc <= max <= 0xFFFF_FFFF,
        decreases to - i,
    {
        let b = text[i];
        let d: u64 = if 0x30 <= b && b <= 0x39 {
            (b - 0x30) as u64
        } else if 0x41 <= b && b <= 0x46 {
            (b - 0x41 + 10) as u64
        } else if 0x61 <= b && b <= 0x66 {
            (b - 0x61 + 10) as u64
        } else {
            16
        };
        proof {
            assert(digits.take(i - start + 1).drop_last() =~= digits.take(i - start));
            assert(digits.take(i - start + 1).last() == b);
            lemma_hex_prefix(digits, i - start + 1);
        }
        if d == 16 {
            return None;
        }
        let next: u64 = 16 * acc + d;
        if next > max {
            return None;
        }
        acc = next;
        i += 1;
    }
    assert(digits.take(to - start) =~= digits);
    Some(acc)
}

/// The byte of the upper-case hexadecimal digit of `d`.
fn hex_byte(d: u8) -> (b: u8)
    requires
        d < 16,
    ensures
        b == hex_char(d as int) as u8,
{
    if d < 10 {
        0x30 + d
    } else {
        0x41 + (d - 10)
    }
}

/// Appends the last `width` hexadecimal digits of `v`.
fn push_hex(out: &mut Vec<u8>, v: u32, width: u8)
    ensures
        final(out)@ == old(out)@ + ascii_bytes(hex_text(v as int, width as nat)),
    decreases width,
{
    if width > 0 {
        push_hex(out, v / 16, width - 1);
        out.push(hex_byte((v % 16) as u8));
        assert(out@ =~= old(out)@ + ascii_bytes(hex_text(v as int, width as nat)));
    } else {
        assert(out@ =~= old(out)@ + ascii_bytes(hex_text(v as int, width as nat)));
    }
}

impl Uid {
    /// Reads an identifier from its text form such as `044E:00123456`. A
    /// part that is not a hexadecimal number of its width reads as zero.
    pub fn from_string(data: String) -> (uid: Uid)
        requires
            encode_utf8(data@).len() >= 5,
        ensures
            uid == uid_from_text(encode_utf8(data@)),
    {
        let text = data.as_str().as_bytes();
        let mfg: u16 = match read_hex(text, 0, 4, 0xFFFF) {
            Some(v) => v as u16,
            None => 0,
        };
        let dev: u32 = match read_hex(text, 5, text.len(), 0xFFFF_FFFF) {
            Some(v) => v as u32,
            None => 0,
        };
        Uid { mfg, dev }
    }

    /// The text form of the identifier: `MMMM:DDDDDDDD`, in upper-case
    /// hexadecimal.
    pub fn to_string(&self) -> (text: String)
        ensures
            text@ == uid_text(*self),
    {
        let mut bytes: Vec<u8> = Vec::new();
        push_hex(&mut bytes, self.mfg as u32, 4);
        bytes.push(0x3A);
        push_hex(&mut bytes, self.dev, 8);
        proof {
            lemma_uid_text_bytes(*self);
            assert(bytes@ =~= ascii_bytes(uid_text(*self)));
            vstd::utf8::encode_utf8_valid_utf8(uid_text(*self));
            vstd::utf8::encode_utf8_decode_utf8(uid_text(*self));
        }
        // The bytes are ASCII, so they always read as text.
        match utf8_text(bytes.as_slice()) {
            Some(t) => t.to_owned(),
            None => String::new(),
        }
    }
}

} // verus!
