//! The part of the protobuf wire format that cast messages use: varints and
//! length-delimited text.

use vstd::arithmetic::power::*;
use vstd::prelude::*;
use vstd::string::StringSliceAdditionalSpecFns;
use vstd::utf8::*;

verus! {

/// A number in base 128, least significant group first, with the high bit set on every
/// byte but the last.
pub open spec fn varint(v: nat) -> Seq<u8>
    decreases v,
{
    if v < 0x80 {
        seq![v as u8]
    } else {
        seq![(v % 0x80 + 0x80) as u8] + varint(v / 0x80)
    }
}

/// A field with a varint value.
pub open spec fn varint_field(tag: u32, v: u64) -> Seq<u8> {
    varint(tag as nat * 8) + varint(v as nat)
}

/// A length-delimited field of UTF-8 text.
pub open spec fn text_field(tag: u32, s: Seq<char>) -> Seq<u8> {
    varint(tag as nat * 8 + 2) + varint(encode_utf8(s).len()) + encode_utf8(s)
}

/// Why a varint cannot be read.
#[derive(Debug, Clone, Copy, PartialEq, Eq, Structural)]
pub enum VarintError {
    /// The data end before the last byte of the varint.
    Overrun,
    /// No byte within the first ten ends the varint.
    TooLong,
}

/// How many bytes with the high bit set follow one another from `pos` on.
pub open spec fn continuation_run(data: Seq<u8>, pos: int) -> nat
    decreases data.len() - pos,
{
    if 0 <= pos < data.len() && data[pos] >= 0x80 {
        1 + continuation_run(data, pos + 1)
    } else {
        0
    }
}

/// The number whose base-128 groups, least significant first, are the low seven bits of
/// these bytes.
pub open spec fn groups_value(bytes: Seq<u8>) -> nat
    decreases bytes.len(),
{
    if bytes.len() == 0 {
        0
    } else {
        (bytes[0] % 0x80) as nat + 0x80 * groups_value(bytes.skip(1))
    }
}

/// The varint at `pos`: its value modulo 2^64 and the position after it.
pub open spec fn varint_at(data: Seq<u8>, pos: int) -> Result<(u64, int), VarintError> {
    let run = continuation_run(data, pos);
    if run >= 10 {
        Err(VarintError::TooLong)
    } else if pos + run >= data.len() {
        Err(VarintError::Overrun)
    } else {
        let value = groups_value(data.subrange(pos, pos + run + 1)) as int % 0x1_0000_0000_0000_0000;
        Ok((value as u64, pos + run + 1))
    }
}

/// Appends a number as a varint.
pub fn write_varint(buf: &mut Vec<u8>, v: u64)
    ensures
        final(buf)@ == old(buf)@ + varint(v as nat),
{
    let ghost start = buf@;
    let mut rest: u64 = v;
    while rest >= 0x80
        invariant
            start + varint(v as nat) == buf@ + varint(rest as nat),
        decreases rest,
    {
        let ghost before = buf@;
        buf.push((rest % 0x80 + 0x80) as u8);
        proof {
            assert(before + varint(rest as nat) =~= buf@ + varint(rest as nat / 0x80));
        }
        rest = rest / 0x80;
    }
    let ghost before = buf@;
    buf.push(rest as u8);
    assert(before + varint(rest as nat) =~= buf@);
}

/// Appends a length-delimited field of text.
pub fn write_string(buf: &mut Vec<u8>, tag: u32, s: &str)
    ensures
        final(buf)@ == old(buf)@ + text_field(tag, s@),
{
    let ghost start = buf@;
    let bytes: &[u8] = s.as_bytes();
    write_varint(buf, tag as u64 * 8 + 2);
    write_varint(buf, bytes.len() as u64);
    buf.extend_from_slice(bytes);
    assert(buf@ =~= start + text_field(tag, s@));
}

/// Appends a field with a varint value.
pub fn write_varint_field(buf: &mut Vec<u8>, tag: u32, v: u64)
    ensures
        final(buf)@ == old(buf)@ + varint_field(tag, v),
{
    let ghost start = buf@;
    write_varint(buf, tag as u64 * 8);
    write_varint(buf, v);
    assert(buf@ =~= start + varint_field(tag, v));
}

/// The last byte holds the most significant group.
proof fn lemma_groups_push(bytes: Seq<u8>, b: u8)
    ensures
        groups_value(bytes.push(b)) == groups_value(bytes) + pow(0x80, bytes.len()) * (b % 0x80),
    decreases bytes.len(),
{
    reveal(pow);
    if bytes.len() == 0 {
        assert(bytes.push(b).skip(1) =~= Seq::<u8>::empty());
        assert(groups_value(Seq::<u8>::empty()) == 0);
    } else {
        let rest = bytes.skip(1);
        lemma_groups_push(rest, b);
        assert(bytes.push(b).skip(1) =~= rest.push(b));
        assert(pow(0x80, bytes.len()) == 0x80 * pow(0x80, rest.len()));
        assert(0x80 * (pow(0x80, rest.len()) * (b % 0x80)) == pow(0x80, bytes.len()) * (b % 0x80))
            by (nonlinear_arith)
            requires
                pow(0x80, bytes.len()) == 0x80 * pow(0x80, rest.len()),
        ;
    }
}

proof fn lemma_groups_bound(bytes: Seq<u8>)
    ensures
        groups_value(bytes) < pow(0x80, bytes.len()),
    decreases bytes.len(),
{
    reveal(pow);
    if bytes.len() > 0 {
        lemma_groups_bound(bytes.skip(1));
    }
}

proof fn lemma_run(data: Seq<u8>, pos: int, n: nat)
    requires
        0 <= pos,
        pos + n <= data.len(),
        forall|k: int| pos <= k < pos + n ==> data[k] >= 0x80,
    ensures
        continuation_run(data, pos) == n + continuation_run(data, pos + n),
    decreases n,
{
    if n > 0 {
        lemma_run(data, pos + 1, (n - 1) as nat);
    }
}

proof fn lemma_scales(n: nat)
    requires
        n <= 9,
    ensures
        pow(0x80, n) <= 0x8000_0000_0000_0000,
        n <= 8 ==> pow(0x80, n) <= 0x100_0000_0000_0000,
{
    reveal_with_fuel(pow, 11);
    assert(pow(0x80, 8) == 0x100_0000_0000_0000);
    assert(pow(0x80, 9) == 0x8000_0000_0000_0000);
    if n <= 8 {
        lemma_pow_increases(0x80, n, 8);
    }
}

/// Reads the varint at `*pos` and moves `*pos` behind what was read.
pub fn read_varint(data: &[u8], pos: &mut usize) -> (result: Result<u64, VarintError>)
    requires
        *old(pos) <= data@.len(),
    ensures
        *old(pos) <= *final(pos) <= data@.len(),
        match varint_at(data@, *old(pos) as int) {
            Ok((v, next)) => result == Ok::<u64, VarintError>(v) && *final(pos) == next,
            Err(VarintError::Overrun) => result == Err::<u64, VarintError>(VarintError::Overrun)
                && *final(pos) == data@.len(),
            Err(VarintError::TooLong) => result == Err::<u64, VarintError>(VarintError::TooLong)
                && *final(pos) == *old(pos) + 10,
        },
{
    let start: usize = *pos;
    let len: usize = data.len();
    let mut result: u64 = 0;
    let mut scale: u64 = 1;
    let mut n: usize = 0;
    proof {
        reveal(pow);
        assert(data@.subrange(start as int, start as int) =~= Seq::<u8>::empty());
    }
    loop
        invariant
            n <= 9,
            len == data@.len(),
            start == *old(pos),
            start + n == *pos,
            *pos <= len,
            forall|k: int| start <= k < start + n ==> data@[k] >= 0x80,
            result == groups_value(data@.subrange(start as int, start + n)),
            scale == pow(0x80, n as nat),
        decreases 10 - n,
    {
        let ghost groups = data@.subrange(start as int, start + n);
        proof {
            lemma_run(data@, start as int, n as nat);
        }
        if *pos >= len {
            return Err(VarintError::Overrun);
        }
        let b: u8 = data[*pos];
        *pos = *pos + 1;
        let group: u64 = (b % 0x80) as u64;
        proof {
            assert(data@.subrange(start as int, start + n + 1) =~= groups.push(b));
            lemma_groups_push(groups, b);
            lemma_groups_bound(groups);
            lemma_groups_bound(groups.push(b));
            lemma_scales(n as nat);
            let m = 0x1_0000_0000_0000_0000int;
            vstd::arithmetic::div_mod::lemma_add_mod_noop_right(result as int, group * scale, m);
            assert(group * scale == scale * group) by (nonlinear_arith);
            let sum = result + (group * scale) % m;
            if sum < m {
                vstd::arithmetic::div_mod::lemma_small_mod(sum as nat, m as nat);
            } else {
                vstd::arithmetic::div_mod::lemma_fundamental_div_mod_converse(sum, m, 1, sum - m);
            }
        }
        result = result.wrapping_add(group.wrapping_mul(scale));
        if b < 0x80 {
            return Ok(result);
        }
        if n == 9 {
            proof {
                lemma_run(data@, start as int, 10);
            }
            return Err(VarintError::TooLong);
        }
        proof {
            lemma_scales((n + 1) as nat);
            reveal(pow);
            vstd::arithmetic::div_mod::lemma_small_mod(
                groups_value(groups.push(b)),
                0x1_0000_0000_0000_0000nat,
            );
        }
        scale = scale * 0x80;
        n = n + 1;
    }
}

proof fn lemma_varint_len(v: nat, k: nat)
    requires
        k > 0,
        v < pow(0x80, k),
    ensures
        0 < varint(v).len() <= k,
    decreases v,
{
    if v >= 0x80 {
        reveal(pow);
        assert(k > 1) by {
            if k == 1 {
                assert(pow(0x80, 1) == 0x80 * pow(0x80, 0));
            }
        }
        assert(pow(0x80, k) == 0x80 * pow(0x80, (k - 1) as nat));
        lemma_varint_len(v / 0x80, (k - 1) as nat);
    }
}

proof fn lemma_varint_bytes(v: nat)
    ensures
        varint(v).len() > 0,
        groups_value(varint(v)) == v,
        varint(v).last() < 0x80,
        forall|k: int| 0 <= k < varint(v).len() - 1 ==> varint(v)[k] >= 0x80,
    decreases v,
{
    reveal_with_fuel(groups_value, 2);
    if v < 0x80 {
        assert(varint(v).skip(1) =~= Seq::<u8>::empty());
    } else {
        let rest = varint(v / 0x80);
        lemma_varint_bytes(v / 0x80);
        assert(varint(v).skip(1) =~= rest);
        assert forall|k: int| 0 <= k < varint(v).len() - 1 implies varint(v)[k] >= 0x80 by {
            if k > 0 {
                assert(varint(v)[k] == rest[k - 1]);
            }
        }
        assert(varint(v).last() == rest.last());
    }
}

/// A varint reads back as the number that was written, wherever it stands.
pub proof fn varint_reads_back(data: Seq<u8>, pos: int, v: u64)
    requires
        0 <= pos,
        pos + varint(v as nat).len() <= data.len(),
        data.subrange(pos, pos + varint(v as nat).len()) == varint(v as nat),
    ensures
        varint_at(data, pos) == Ok::<(u64, int), VarintError>((v, pos + varint(v as nat).len())),
        0 < varint(v as nat).len() <= 10,
{
    let bytes = varint(v as nat);
    let n = (bytes.len() - 1) as nat;
    lemma_varint_bytes(v as nat);
    reveal_with_fuel(pow, 12);
    assert(pow(0x80, 10) > u64::MAX);
    lemma_varint_len(v as nat, 10);
    assert forall|k: int| pos <= k < pos + n implies data[k] >= 0x80 by {
        assert(data[k] == data.subrange(pos, pos + bytes.len())[k - pos]);
    }
    lemma_run(data, pos, n);
    assert(data[pos + n] == data.subrange(pos, pos + bytes.len())[n as int]);
    vstd::arithmetic::div_mod::lemma_small_mod(v as nat, 0x1_0000_0000_0000_0000nat);
}

proof fn lemma_run_in_prefix(first: Seq<u8>, second: Seq<u8>, pos: int)
    requires
        0 <= pos,
        pos + continuation_run(first, pos) < first.len(),
    ensures
        continuation_run(first + second, pos) == continuation_run(first, pos),
    decreases first.len() - pos,
{
    if pos < first.len() && first[pos] >= 0x80 {
        lemma_run_in_prefix(first, second, pos + 1);
    }
}

proof fn lemma_run_in_suffix(first: Seq<u8>, second: Seq<u8>, pos: int)
    requires
        0 <= pos,
    ensures
        continuation_run(first + second, first.len() + pos) == continuation_run(second, pos),
    decreases second.len() - pos,
{
    if pos < second.len() && second[pos] >= 0x80 {
        lemma_run_in_suffix(first, second, pos + 1);
    }
}

/// What follows a varint has no part in it.
pub proof fn varints_end_by_themselves(first: Seq<u8>, second: Seq<u8>, pos: int)
    requires
        0 <= pos,
        varint_at(first, pos) is Ok,
    ensures
        varint_at(first + second, pos) == varint_at(first, pos),
        pos < (varint_at(first, pos)->Ok_0).1 <= first.len(),
{
    lemma_run_in_prefix(first, second, pos);
    let run = continuation_run(first, pos);
    assert((first + second).subrange(pos, pos + run + 1) =~= first.subrange(pos, pos + run + 1));
}

/// What precedes a varint has no part in it.
pub proof fn varints_begin_by_themselves(first: Seq<u8>, second: Seq<u8>, pos: int)
    requires
        0 <= pos,
    ensures
        varint_at(first + second, first.len() + pos) == (match varint_at(second, pos) {
            Ok((v, next)) => Ok::<(u64, int), VarintError>((v, first.len() + next)),
            Err(e) => Err(e),
        }),
{
    lemma_run_in_suffix(first, second, pos);
    let run = continuation_run(second, pos);
    if pos + run < second.len() {
        assert((first + second).subrange(first.len() + pos, first.len() + pos + run + 1)
            =~= second.subrange(pos, pos + run + 1));
    }
}

/// The value of groups is theirs in base 128: later groups weigh 128 to the number of those
/// before them, and a group is the low seven bits of its byte.
pub proof fn groups_are_base_128(first: Seq<u8>, second: Seq<u8>, byte: u8)
    ensures
        groups_value(first + second) == groups_value(first) + pow(0x80, first.len())
            * groups_value(second),
        groups_value(seq![byte]) == byte % 0x80,
        groups_value(Seq::<u8>::empty()) == 0,
    decreases first.len(),
{
    reveal(pow);
    reveal_with_fuel(groups_value, 2);
    assert(seq![byte].skip(1) =~= Seq::<u8>::empty());
    if first.len() == 0 {
        assert(first + second =~= second);
        assert(pow(0x80, 0) == 1);
    } else {
        let rest = first.skip(1);
        groups_are_base_128(rest, second, byte);
        assert((first + second).skip(1) =~= rest + second);
        assert((first + second)[0] == first[0]);
        assert(pow(0x80, first.len()) == 0x80 * pow(0x80, rest.len()));
        let p = pow(0x80, rest.len());
        let g = groups_value(second) as int;
        assert(0x80 * (p * g) == (0x80 * p) * g) by (nonlinear_arith);
    }
}

/// A number is appended as the fewest groups whose value it is: all bytes but the last have the
/// high bit set, and the last group is not zero unless it is the only one.
pub proof fn varints_are_shortest_groups(buf: &mut Vec<u8>, v: u64)
    requires
        call_ensures(write_varint, (buf, v), ()),
    ensures
        ({
            let n = old(buf)@.len() as int;
            let bytes = final(buf)@.skip(n);
            &&& final(buf)@.take(n) == old(buf)@
            &&& 0 < bytes.len() <= 10
            &&& groups_value(bytes) == v
            &&& bytes.last() < 0x80
            &&& forall|k: int| 0 <= k < bytes.len() - 1 ==> bytes[k] >= 0x80
            &&& bytes.len() > 1 ==> bytes.last() != 0
        }),
{
    let n = old(buf)@.len() as int;
    assert(final(buf)@.take(n) =~= old(buf)@);
    assert(final(buf)@.skip(n) =~= varint(v as nat));
    lemma_varint_bytes(v as nat);
    lemma_varint_is_short(v as nat);
    reveal_with_fuel(pow, 12);
    assert(pow(0x80, 10) > u64::MAX);
    lemma_varint_len(v as nat, 10);
}

proof fn lemma_varint_is_short(v: nat)
    ensures
        v > 0 ==> varint(v).last() != 0,
        v < 0x80 ==> varint(v).len() == 1,
    decreases v,
{
    if v >= 0x80 {
        lemma_varint_is_short(v / 0x80);
        lemma_varint_bytes(v / 0x80);
        assert(varint(v).last() == varint(v / 0x80).last());
    }
}

/// A varint is read up to its first byte without the high bit, as the value of its groups
/// modulo 2^64. Ten bytes with the high bit are too many; fewer, up to the end of the data,
/// overrun them.
pub proof fn varints_are_read_to_their_last_group(
    data: &[u8],
    pos: &mut usize,
    result: Result<u64, VarintError>,
    n: nat,
)
    requires
        call_ensures(read_varint, (data, pos), result),
        *old(pos) + n <= data@.len(),
        forall|k: int| *old(pos) <= k < *old(pos) + n ==> data@[k] >= 0x80,
    ensures
        ({
            let start = *old(pos) as int;
            let end = start + n;
            &&& n < 10 && end < data@.len() && data@[end] < 0x80 ==> {
                &&& result matches Ok(v) && v == groups_value(data@.subrange(start, end + 1))
                    % 0x1_0000_0000_0000_0000
                &&& *final(pos) == end + 1
            }
            &&& n >= 10 ==> result == Err::<u64, VarintError>(VarintError::TooLong)
            &&& n < 10 && end == data@.len() ==> result == Err::<u64, VarintError>(
                VarintError::Overrun,
            )
        }),
{
    let start = *old(pos) as int;
    lemma_run(data@, start, n);
}

/// A field is appended as its key, which is eight times the tag and two for text, and then its
/// value, or the length of the text and its UTF-8.
pub proof fn fields_are_appended_behind_their_key(
    text_buf: &mut Vec<u8>,
    tag: u32,
    text: &str,
    number_buf: &mut Vec<u8>,
    v: u64,
)
    requires
        call_ensures(write_string, (text_buf, tag, text), ()),
        call_ensures(write_varint_field, (number_buf, tag, v), ()),
    ensures
        final(text_buf)@ == old(text_buf)@ + varint((8 * tag + 2) as nat) + varint(
            encode_utf8(text@).len(),
        ) + encode_utf8(text@),
        final(number_buf)@ == old(number_buf)@ + varint((8 * tag) as nat) + varint(v as nat),
{
    assert(final(text_buf)@ =~= old(text_buf)@ + varint((8 * tag + 2) as nat) + varint(
        encode_utf8(text@).len(),
    ) + encode_utf8(text@));
    assert(final(number_buf)@ =~= old(number_buf)@ + varint((8 * tag) as nat) + varint(v as nat));
}

} // verus!
