//! Big-endian numbers and hexadecimal text.

use vstd::prelude::*;

verus! {

/// The two bytes of a number, most significant first.
pub open spec fn be16(n: u16) -> Seq<u8> {
    seq![(n / 0x100) as u8, (n % 0x100) as u8]
}

/// The four bytes of a number, most significant first.
pub open spec fn be32(n: u32) -> Seq<u8> {
    seq![
        (n / 0x100_0000) as u8,
        (n / 0x1_0000 % 0x100) as u8,
        (n / 0x100 % 0x100) as u8,
        (n % 0x100) as u8,
    ]
}

/// The number whose four bytes, most significant first, these are.
pub open spec fn be32_value(b: Seq<u8>) -> u32 {
    (b[0] * 0x100_0000 + b[1] * 0x1_0000 + b[2] * 0x100 + b[3]) as u32
}

/// Reading a number's bytes gives the number back.
pub proof fn be32_reads_back(n: u32)
    ensures
        be32_value(be32(n)) == n,
{
}

/// The bytes that a number was read from are the number's bytes.
pub proof fn be32_writes_back(b: Seq<u8>)
    requires
        b.len() == 4,
    ensures
        be32(be32_value(b)) == b,
{
    let n = be32_value(b);
    let high = b[0] * 0x100 + b[1];
    let upper = high * 0x100 + b[2];
    assert(n == upper * 0x100 + b[3]);
    assert(n / 0x100 == upper && n % 0x100 == b[3]);
    assert(n / 0x1_0000 == high) by {
        assert(n == high * 0x1_0000 + (b[2] * 0x100 + b[3]));
    }
    assert(n / 0x100_0000 == b[0]) by {
        assert(n == b[0] * 0x100_0000 + (b[1] * 0x1_0000 + b[2] * 0x100 + b[3]));
    }
    assert(upper % 0x100 == b[2]);
    assert(high % 0x100 == b[1]);
    assert(be32(n) =~= b);
}

/// Appends a 16-bit number, most significant byte first.
pub fn push_be16(buf: &mut Vec<u8>, n: u16)
    ensures
        final(buf)@ == old(buf)@ + be16(n),
{
    buf.push((n / 0x100) as u8);
    buf.push((n % 0x100) as u8);
    assert(buf@ =~= old(buf)@ + be16(n));
}

/// Appends a 32-bit number, most significant byte first.
pub fn push_be32(buf: &mut Vec<u8>, n: u32)
    ensures
        final(buf)@ == old(buf)@ + be32(n),
{
    buf.push((n / 0x100_0000) as u8);
    buf.push((n / 0x1_0000 % 0x100) as u8);
    buf.push((n / 0x100 % 0x100) as u8);
    buf.push((n % 0x100) as u8);
    assert(buf@ =~= old(buf)@ + be32(n));
}

/// Reads a 32-bit number, most significant byte first.
pub fn read_be32(bytes: &Vec<u8>) -> (n: u32)
    requires
        bytes@.len() >= 4,
    ensures
        n == be32_value(bytes@),
{
    bytes[0] as u32 * 0x100_0000 + bytes[1] as u32 * 0x1_0000 + bytes[2] as u32 * 0x100
        + bytes[3] as u32
}

/// The lower-case hexadecimal digit of a number below sixteen.
pub open spec fn hex_digit(n: int) -> char {
    if n < 10 {
        (n + '0' as int) as char
    } else {
        (n - 10 + 'a' as int) as char
    }
}

/// Bytes in lower-case hexadecimal, two digits each.
pub open spec fn hex_text(bytes: Seq<u8>) -> Seq<char> {
    Seq::new(
        2 * bytes.len(),
        |i: int|
            hex_digit(
                if i % 2 == 0 {
                    bytes[i / 2] as int / 16
                } else {
                    bytes[i / 2] as int % 16
                },
            ),
    )
}

/// Different bytes have different hexadecimal texts.
pub proof fn hex_is_faithful(a: Seq<u8>, b: Seq<u8>)
    requires
        hex_text(a) == hex_text(b),
    ensures
        a == b,
{
    assert(hex_text(a).len() == 2 * a.len());
    assert(hex_text(b).len() == 2 * b.len());
    assert forall|i: int| 0 <= i < a.len() implies a[i] == b[i] by {
        assert((2 * i) / 2 == i && (2 * i) % 2 == 0);
        assert((2 * i + 1) / 2 == i && (2 * i + 1) % 2 == 1);
        assert(hex_text(a)[2 * i] == hex_digit(a[i] as int / 16));
        assert(hex_text(b)[2 * i] == hex_digit(b[i] as int / 16));
        assert(hex_text(a)[2 * i + 1] == hex_digit(a[i] as int % 16));
        assert(hex_text(b)[2 * i + 1] == hex_digit(b[i] as int % 16));
    }
    assert(a =~= b);
}

/// Calls `hex::encode`, which writes each byte as two lower-case hexadecimal digits, the
/// high one first.
#[verifier::external_body]
pub(crate) fn hex_encode(bytes: &[u8]) -> (text: String)
    requires
        2 * bytes@.len() <= isize::MAX,
    ensures
        text@ == hex_text(bytes@),
{
    hex::encode(bytes)
}

/// The number whose bytes, most significant first, these are, however many.
pub open spec fn big_endian(b: Seq<u8>) -> nat
    decreases b.len(),
{
    if b.len() == 0 {
        0
    } else {
        256 * big_endian(b.drop_last()) + b.last() as nat
    }
}

/// Four bytes as a number.
pub proof fn big_endian_of_four(b: Seq<u8>)
    requires
        b.len() == 4,
    ensures
        big_endian(b) == b[0] * 0x100_0000 + b[1] * 0x1_0000 + b[2] * 0x100 + b[3],
{
    reveal_with_fuel(big_endian, 5);
    assert(b.drop_last().drop_last().drop_last().drop_last().len() == 0);
}

/// Two bytes as a number.
pub proof fn big_endian_of_two(b: Seq<u8>)
    requires
        b.len() == 2,
    ensures
        big_endian(b) == b[0] * 0x100 + b[1],
{
    reveal_with_fuel(big_endian, 3);
    assert(b.drop_last().drop_last().len() == 0);
}

/// Numbers are written and read most significant byte first.
pub proof fn numbers_are_big_endian(short: u16, long: u32, bytes: Seq<u8>)
    requires
        bytes.len() >= 4,
    ensures
        be16(short).len() == 2,
        big_endian(be16(short)) == short,
        be32(long).len() == 4,
        big_endian(be32(long)) == long,
        be32_value(bytes) == big_endian(bytes.take(4)),
{
    big_endian_of_two(be16(short));
    big_endian_of_four(be32(long));
    be32_reads_back(long);
    big_endian_of_four(bytes.take(4));
}

/// What is appended as a number are its bytes, most significant first, and what was there
/// before stays.
pub proof fn appended_numbers_are_big_endian(
    short_buf: &mut Vec<u8>,
    short: u16,
    long_buf: &mut Vec<u8>,
    long: u32,
)
    requires
        call_ensures(push_be16, (short_buf, short), ()),
        call_ensures(push_be32, (long_buf, long), ()),
    ensures
        ({
            let n = old(short_buf)@.len() as int;
            &&& final(short_buf)@.len() == n + 2
            &&& final(short_buf)@.take(n) == old(short_buf)@
            &&& big_endian(final(short_buf)@.skip(n)) == short
        }),
        ({
            let n = old(long_buf)@.len() as int;
            &&& final(long_buf)@.len() == n + 4
            &&& final(long_buf)@.take(n) == old(long_buf)@
            &&& big_endian(final(long_buf)@.skip(n)) == long
        }),
{
    let n = old(short_buf)@.len() as int;
    let m = old(long_buf)@.len() as int;
    numbers_are_big_endian(short, long, be32(long));
    assert(final(short_buf)@.take(n) =~= old(short_buf)@);
    assert(final(short_buf)@.skip(n) =~= be16(short));
    assert(final(long_buf)@.take(m) =~= old(long_buf)@);
    assert(final(long_buf)@.skip(m) =~= be32(long));
}

/// The value of a lower-case hexadecimal digit.
pub open spec fn hex_value(c: char) -> int {
    if '0' <= c && c <= '9' {
        c as int - '0' as int
    } else {
        c as int - 'a' as int + 10
    }
}

/// Each byte stands in hexadecimal text as two digits, the high one first.
pub proof fn hex_texts_hold_their_bytes(bytes: Seq<u8>, i: int)
    requires
        0 <= i < bytes.len(),
    ensures
        hex_text(bytes).len() == 2 * bytes.len(),
        ({
            let high = hex_text(bytes)[2 * i];
            let low = hex_text(bytes)[2 * i + 1];
            &&& ('0' <= high && high <= '9') || ('a' <= high && high <= 'f')
            &&& ('0' <= low && low <= '9') || ('a' <= low && low <= 'f')
            &&& 16 * hex_value(high) + hex_value(low) == bytes[i]
        }),
{
    assert((2 * i) / 2 == i && (2 * i) % 2 == 0);
    assert((2 * i + 1) / 2 == i && (2 * i + 1) % 2 == 1);
}

} // verus!
