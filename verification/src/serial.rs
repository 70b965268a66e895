//! What goes out on the COM1 serial line: framed lines and hexadecimal numbers.
use vstd::prelude::*;
use vstd::string::StringSliceAdditionalSpecFns;
use crate::text::to_string;

verus! {

/// Line-status bit: the transmitter holding register is empty.
pub const LSR_THR_EMPTY: u8 = 0x20;

/// Whether a line-status byte lets the next byte be sent.
pub fn transmit_ready(lsr: u8) -> (r: bool)
    ensures
        r == ((lsr / 0x20) % 2 == 1),
{
    (lsr / 0x20) % 2 == 1
}

/// The bytes sent for a line: the text's UTF-8 bytes, then carriage return and line feed.
pub fn line_bytes(text: &str) -> (r: Vec<u8>)
    ensures
        r@ == text.spec_bytes() + seq![13u8, 10u8],
{
    let bs = text.as_bytes();
    let mut r: Vec<u8> = Vec::new();
    let mut i: usize = 0;
    while i < bs.len()
        invariant
            i <= bs@.len(),
            bs@ == text.spec_bytes(),
            r@ == bs@.subrange(0, i as int),
        decreases bs@.len() - i,
    {
        r.push(bs[i]);
        i += 1;
    }
    r.push(13);
    r.push(10);
    assert(r@ =~= text.spec_bytes() + seq![13u8, 10u8]);
    r
}

/// Lower-case hexadecimal digit for `d < 16`.
pub open spec fn hex_digit(d: nat) -> char {
    if d < 10 {
        ((d + 48) as u32) as char
    } else {
        ((d + 87) as u32) as char
    }
}

/// Hexadecimal digits of `n`, without leading zeros (`"0"` for zero).
pub open spec fn hex_spec(n: nat) -> Seq<char>
    decreases n,
{
    if n < 16 {
        seq![hex_digit(n)]
    } else {
        hex_spec(n / 16).push(hex_digit(n % 16))
    }
}

fn hex_digits(n: u64) -> (r: Vec<char>)
    ensures
        r@ == hex_spec(n as nat),
    decreases n,
{
    let d = (n % 16) as u8;
    let c = if d < 10 {
        crate::text::char_from_ascii(d + 48)
    } else {
        crate::text::char_from_ascii(d + 87)
    };
    if n < 16 {
        let mut r: Vec<char> = Vec::new();
        r.push(c);
        assert(r@ =~= seq![hex_digit(n as nat)]);
        r
    } else {
        let mut r = hex_digits(n / 16);
        r.push(c);
        r
    }
}

/// `val` as the serial log prints it: `0x` and its lower-case hexadecimal digits.
pub fn hex_text(val: u64) -> (s: String)
    ensures
        s@ == seq!['0', 'x'] + hex_spec(val as nat),
{
    let mut v: Vec<char> = Vec::new();
    v.push('0');
    v.push('x');
    let d = hex_digits(val);
    crate::text::push_chars(&mut v, d.as_slice());
    to_string(v.as_slice())
}

} // verus!
