//! Characters, decimal numbers and ASCII letter case.

use vstd::arithmetic::power::*;
use vstd::prelude::*;
use vstd::string::StringSliceAdditionalSpecFns;
use vstd::utf8::*;

verus! {

/// `String::push` appends one character.
pub assume_specification[ String::push ](string: &mut String, ch: char)
    ensures
        final(string)@ == old(string)@.push(ch),
;

/// The characters of a string that may be absent.
pub open spec fn text_view(text: Option<String>) -> Option<Seq<char>> {
    match text {
        Some(text) => Some(text@),
        None => None,
    }
}

/// The characters of a string.
pub fn chars_of(s: &str) -> (chars: Vec<char>)
    ensures
        chars@ == s@,
{
    let mut chars: Vec<char> = Vec::new();
    for c in iter: s.chars()
        invariant
            chars@ == iter.seq().take(iter.index() as int),
            iter.seq() == s@,
    {
        proof {
            assert(iter.seq().take(iter.index() + 1) =~= iter.seq().take(iter.index() as int).push(c));
        }
        chars.push(c);
    }
    assert(s@.take(s@.len() as int) =~= s@);
    chars
}

/// Whether two strings hold the same characters.
pub fn same_text(a: &str, b: &str) -> (same: bool)
    ensures
        same == (a@ == b@),
{
    let x: &[u8] = a.as_bytes();
    let y: &[u8] = b.as_bytes();
    if x.len() != y.len() {
        return false;
    }
    let mut i: usize = 0;
    while i < x.len()
        invariant
            i <= x@.len(),
            x@.len() == y@.len(),
            x@ == a.spec_bytes(),
            y@ == b.spec_bytes(),
            forall|k: int| 0 <= k < i ==> x@[k] == y@[k],
        decreases x@.len() - i,
    {
        if x[i] != y[i] {
            return false;
        }
        i = i + 1;
    }
    proof {
        assert(x@ =~= y@);
        encode_utf8_decode_utf8(a@);
        encode_utf8_decode_utf8(b@);
    }
    true
}

/// The lower-case form of an ASCII letter; any other character is its own.
pub open spec fn lower_char(c: char) -> char {
    if 'A' <= c && c <= 'Z' {
        (c as u32 + 32) as char
    } else {
        c
    }
}

/// Text with its ASCII letters in lower case.
pub open spec fn lower(s: Seq<char>) -> Seq<char> {
    s.map_values(|c: char| lower_char(c))
}

/// Puts an ASCII letter in lower case.
pub fn ascii_lower(c: char) -> (lowered: char)
    ensures
        lowered == lower_char(c),
{
    if 'A' <= c && c <= 'Z' {
        (c as u8 + 32) as char
    } else {
        c
    }
}

/// The characters of a string, with ASCII letters in lower case.
pub fn lower_chars_of(s: &str) -> (chars: Vec<char>)
    ensures
        chars@ == lower(s@),
{
    let mut chars: Vec<char> = Vec::new();
    for c in iter: s.chars()
        invariant
            chars@ == lower(iter.seq().take(iter.index() as int)),
            iter.seq() == s@,
    {
        proof {
            assert(iter.seq().take(iter.index() + 1) =~= iter.seq().take(iter.index() as int).push(c));
            assert(lower(iter.seq().take(iter.index() as int).push(c)) =~= lower(
                iter.seq().take(iter.index() as int),
            ).push(lower_char(c)));
        }
        chars.push(ascii_lower(c));
    }
    assert(s@.take(s@.len() as int) =~= s@);
    assert(lower(s@.take(0)) =~= Seq::<char>::empty());
    chars
}

/// Whether two strings differ at most in the case of ASCII letters.
pub fn eq_ignore_ascii_case(a: &str, b: &str) -> (same: bool)
    ensures
        same == (lower(a@) == lower(b@)),
{
    let x: Vec<char> = lower_chars_of(a);
    let y: Vec<char> = lower_chars_of(b);
    if x.len() != y.len() {
        return false;
    }
    let mut i: usize = 0;
    while i < x.len()
        invariant
            i <= x@.len(),
            x@.len() == y@.len(),
            x@ == lower(a@),
            y@ == lower(b@),
            forall|k: int| 0 <= k < i ==> x@[k] == y@[k],
        decreases x@.len() - i,
    {
        if x[i] != y[i] {
            return false;
        }
        i = i + 1;
    }
    assert(x@ =~= y@);
    true
}

/// Whether `needle` stands in `text` at position `at`.
pub open spec fn occurs_at(text: Seq<char>, needle: Seq<char>, at: int) -> bool {
    &&& 0 <= at
    &&& at + needle.len() <= text.len()
    &&& text.subrange(at, at + needle.len()) == needle
}

/// Whether `needle` stands in `text` anywhere.
pub open spec fn occurs(text: Seq<char>, needle: Seq<char>) -> bool {
    exists|at: int| occurs_at(text, needle, at)
}

fn is_at(text: &Vec<char>, needle: &Vec<char>, at: usize) -> (found: bool)
    requires
        at + needle@.len() <= text@.len(),
    ensures
        found == occurs_at(text@, needle@, at as int),
{
    let len: usize = text.len();
    let mut i: usize = 0;
    while i < needle.len()
        invariant
            i <= needle@.len(),
            len == text@.len(),
            at + needle@.len() <= text@.len(),
            forall|k: int| 0 <= k < i ==> text@[at + k] == needle@[k],
        decreases needle@.len() - i,
    {
        if text[at + i] != needle[i] {
            proof {
                assert(text@.subrange(at as int, at + needle@.len())[i as int] == text@[at + i]);
            }
            return false;
        }
        i = i + 1;
    }
    assert(text@.subrange(at as int, at + needle@.len()) =~= needle@);
    true
}

/// Searches text for a string.
pub fn contains(text: &Vec<char>, needle: &str) -> (found: bool)
    ensures
        found == occurs(text@, needle@),
{
    let pattern: Vec<char> = chars_of(needle);
    if pattern.len() > text.len() {
        return false;
    }
    let last: usize = text.len() - pattern.len();
    let mut at: usize = 0;
    while at <= last
        invariant
            pattern@ == needle@,
            last + pattern@.len() == text@.len(),
            at <= last + 1,
            forall|k: int| 0 <= k < at ==> !occurs_at(text@, needle@, k),
        decreases last + 1 - at,
    {
        if is_at(text, &pattern, at) {
            return true;
        }
        if at == last {
            assert(forall|k: int| occurs_at(text@, needle@, k) ==> k <= last);
            return false;
        }
        at = at + 1;
    }
    false
}

/// The decimal digit of a number below ten.
pub open spec fn digit(n: int) -> char {
    (n + '0' as int) as char
}

/// A number in decimal, without leading zeros.
pub open spec fn decimal(n: nat) -> Seq<char>
    decreases n,
{
    if n < 10 {
        seq![digit(n as int)]
    } else {
        decimal(n / 10).push(digit(n as int % 10))
    }
}

/// Appends a number in decimal.
pub fn push_decimal(text: &mut String, n: u64)
    ensures
        final(text)@ == old(text)@ + decimal(n as nat),
    decreases n,
{
    if n >= 10 {
        push_decimal(text, n / 10);
    }
    let ghost before = text@;
    let d: u8 = (n % 10) as u8;
    text.push((d + 48) as char);
    proof {
        if n < 10 {
            assert(text@ =~= old(text)@ + decimal(n as nat));
        } else {
            assert(text@ =~= old(text)@ + decimal(n as nat));
        }
    }
}

/// Whether a character is a decimal digit.
pub open spec fn is_digit(c: char) -> bool {
    '0' <= c && c <= '9'
}

/// The number that a string of decimal digits stands for.
pub open spec fn digits_value(s: Seq<char>) -> nat
    decreases s.len(),
{
    if s.len() == 0 {
        0
    } else {
        10 * digits_value(s.drop_last()) + (s.last() as int - '0' as int) as nat
    }
}

/// Whether a text is made of decimal digits alone.
pub open spec fn all_digits(s: Seq<char>) -> bool {
    forall|i: int| 0 <= i < s.len() ==> is_digit(#[trigger] s[i])
}

/// A text without the plus sign before it, if it has one.
pub open spec fn without_plus(s: Seq<char>) -> Seq<char> {
    if s.len() > 0 && s[0] == '+' {
        s.skip(1)
    } else {
        s
    }
}

/// The 32-bit number that a text stands for: decimal digits, at least one, with or
/// without a plus sign before them.
pub open spec fn parsed_u32(s: Seq<char>) -> Option<u32> {
    let digits = without_plus(s);
    if digits.len() > 0 && all_digits(digits) && digits_value(digits) <= u32::MAX {
        Some(digits_value(digits) as u32)
    } else {
        None
    }
}

proof fn lemma_digits_grow(s: Seq<char>, n: int)
    requires
        0 <= n <= s.len(),
        all_digits(s),
    ensures
        digits_value(s.take(n)) <= digits_value(s),
    decreases s.len() - n,
{
    if n < s.len() {
        lemma_digits_grow(s, n + 1);
        assert(s.take(n + 1).drop_last() =~= s.take(n));
        assert(is_digit(s[n]));
    } else {
        assert(s.take(n) =~= s);
    }
}

/// Reads an unsigned 32-bit number.
pub fn parse_u32(s: &str) -> (n: Option<u32>)
    ensures
        n == parsed_u32(s@),
{
    let chars: Vec<char> = chars_of(s);
    let start: usize = if chars.len() > 0 && chars[0] == '+' {
        1
    } else {
        0
    };
    let ghost digits = s@.skip(start as int);
    proof {
        if start == 0 {
            assert(digits =~= s@);
        }
    }
    if chars.len() == start {
        return None;
    }
    let mut value: u32 = 0;
    let mut i: usize = start;
    while i < chars.len()
        invariant
            start <= i <= chars@.len(),
            start < chars@.len(),
            chars@ == s@,
            digits == s@.skip(start as int),
            digits == without_plus(s@),
            forall|k: int| 0 <= k < i - start ==> is_digit(#[trigger] digits[k]),
            value == digits_value(digits.take(i - start)),
        decreases chars@.len() - i,
    {
        let c: char = chars[i];
        let ghost n = i - start;
        assert(digits[n] == c);
        assert(digits.take(n + 1).drop_last() =~= digits.take(n));
        if !('0' <= c && c <= '9') {
            assert(!is_digit(digits[n]));
            return None;
        }
        let next: u64 = value as u64 * 10 + (c as u8 - 48) as u64;
        if next > u32::MAX as u64 {
            proof {
                if all_digits(digits) {
                    lemma_digits_grow(digits, n + 1);
                }
            }
            return None;
        }
        value = next as u32;
        i = i + 1;
    }
    assert(digits.take(digits.len() as int) =~= digits);
    Some(value)
}

/// Lexicographic order of texts by character code.
pub open spec fn text_less(a: Seq<char>, b: Seq<char>) -> bool
    decreases a.len(),
{
    if b.len() == 0 {
        false
    } else if a.len() == 0 {
        true
    } else if a[0] != b[0] {
        a[0] < b[0]
    } else {
        text_less(a.skip(1), b.skip(1))
    }
}

proof fn lemma_common_prefix(a: Seq<char>, b: Seq<char>, n: int)
    requires
        0 <= n <= a.len(),
        n <= b.len(),
        forall|i: int| 0 <= i < n ==> a[i] == b[i],
    ensures
        text_less(a, b) == text_less(a.skip(n), b.skip(n)),
    decreases n,
{
    if n == 0 {
        assert(a.skip(0) =~= a);
        assert(b.skip(0) =~= b);
    } else {
        lemma_common_prefix(a.skip(1), b.skip(1), n - 1);
        assert(a.skip(1).skip(n - 1) =~= a.skip(n));
        assert(b.skip(1).skip(n - 1) =~= b.skip(n));
        assert(a[0] == b[0]);
    }
}

/// Compares two texts.
pub fn is_text_less(a: &str, b: &str) -> (less: bool)
    ensures
        less == text_less(a@, b@),
{
    let x: Vec<char> = chars_of(a);
    let y: Vec<char> = chars_of(b);
    let mut i: usize = 0;
    while i < x.len() && i < y.len()
        invariant
            i <= x@.len(),
            i <= y@.len(),
            x@ == a@,
            y@ == b@,
            forall|k: int| 0 <= k < i ==> x@[k] == y@[k],
        decreases x@.len() - i,
    {
        if x[i] != y[i] {
            proof {
                lemma_common_prefix(a@, b@, i as int);
            }
            return x[i] < y[i];
        }
        i = i + 1;
    }
    proof {
        lemma_common_prefix(a@, b@, i as int);
    }
    i < y.len()
}

/// No text comes before itself.
pub proof fn text_order_is_irreflexive(a: Seq<char>)
    ensures
        !text_less(a, a),
    decreases a.len(),
{
    if a.len() > 0 {
        text_order_is_irreflexive(a.skip(1));
    }
}

/// Of two different texts one comes before the other, and not both ways.
pub proof fn text_order_is_total(a: Seq<char>, b: Seq<char>)
    requires
        a != b,
    ensures
        text_less(a, b) != text_less(b, a),
    decreases a.len(),
{
    if a.len() == 0 || b.len() == 0 {
        assert(a.len() == 0 && b.len() == 0 ==> a =~= b);
    } else if a[0] == b[0] {
        if a.skip(1) == b.skip(1) {
            assert(a =~= seq![a[0]] + a.skip(1));
            assert(b =~= seq![b[0]] + b.skip(1));
        }
        text_order_is_total(a.skip(1), b.skip(1));
    }
}

/// The order of texts is transitive.
pub proof fn text_order_is_transitive(a: Seq<char>, b: Seq<char>, c: Seq<char>)
    requires
        text_less(a, b),
        text_less(b, c),
    ensures
        text_less(a, c),
    decreases a.len(),
{
    if a.len() > 0 && a[0] == b[0] && b[0] == c[0] {
        text_order_is_transitive(a.skip(1), b.skip(1), c.skip(1));
    }
}

/// Digits count in base ten: the value of two strings of digits in a row is that of the first,
/// times ten to the length of the second, and that of the second; a digit counts as itself.
pub proof fn digits_are_base_ten(first: Seq<char>, second: Seq<char>, d: int)
    requires
        all_digits(second),
        0 <= d < 10,
    ensures
        digits_value(first + second) == digits_value(first) * pow(10, second.len()) + digits_value(
            second,
        ),
        digits_value(seq![('0' as int + d) as char]) == d,
        digits_value(Seq::<char>::empty()) == 0,
    decreases second.len(),
{
    reveal(pow);
    reveal_with_fuel(digits_value, 2);
    assert(seq![('0' as int + d) as char].drop_last() =~= Seq::<char>::empty());
    if second.len() == 0 {
        assert(first + second =~= first);
        assert(pow(10, 0) == 1);
    } else {
        let rest = second.drop_last();
        assert forall|i: int| 0 <= i < rest.len() implies is_digit(#[trigger] rest[i]) by {
            assert(second[i] == rest[i]);
        }
        digits_are_base_ten(first, rest, d);
        assert((first + second).drop_last() =~= first + rest);
        assert((first + second).last() == second.last());
        assert(is_digit(second[second.len() - 1]));
        let v = digits_value(first) as int;
        let p = pow(10, rest.len());
        assert(pow(10, second.len()) == 10 * p);
        assert(10 * (v * p) == v * (10 * p)) by (nonlinear_arith);
    }
}

proof fn lemma_decimal(n: nat)
    ensures
        decimal(n).len() > 0,
        forall|i: int|
            0 <= i < decimal(n).len() ==> '0' <= (#[trigger] decimal(n)[i]) && decimal(n)[i] <= '9',
        digits_value(decimal(n)) == n,
        n > 0 ==> decimal(n)[0] != '0',
        n == 0 ==> decimal(n) == seq!['0'],
    decreases n,
{
    reveal_with_fuel(digits_value, 2);
    if n < 10 {
        assert(decimal(n).drop_last() =~= Seq::<char>::empty());
    } else {
        lemma_decimal(n / 10);
        assert(decimal(n).drop_last() =~= decimal(n / 10));
    }
}

/// A number is appended as the decimal digits whose value it is, without leading zeros.
pub proof fn numbers_are_appended_in_decimal(text: &mut String, n: u64)
    requires
        call_ensures(push_decimal, (text, n), ()),
    ensures
        ({
            let len = old(text)@.len() as int;
            let digits = final(text)@.skip(len);
            &&& final(text)@.take(len) == old(text)@
            &&& digits.len() > 0
            &&& forall|i: int|
                0 <= i < digits.len() ==> '0' <= (#[trigger] digits[i]) && digits[i] <= '9'
            &&& digits_value(digits) == n
            &&& n > 0 ==> digits[0] != '0'
            &&& n == 0 ==> digits == seq!['0']
        }),
{
    let len = old(text)@.len() as int;
    lemma_decimal(n as nat);
    assert(final(text)@.take(len) =~= old(text)@);
    assert(final(text)@.skip(len) =~= decimal(n as nat));
}

/// Different numbers are different in decimal.
pub proof fn decimals_are_faithful(n: nat, m: nat)
    requires
        decimal(n) == decimal(m),
    ensures
        n == m,
{
    lemma_decimal(n);
    lemma_decimal(m);
}

/// A text is a number exactly if it is decimal digits, with or without a plus sign before them,
/// whose value fits in 32 bits; it is the number of that value.
pub proof fn numbers_are_parsed_by_their_digits(
    text: &str,
    result: Option<u32>,
    digits: Seq<char>,
    n: u32,
)
    requires
        call_ensures(parse_u32, (text,), result),
        text@ == digits && (digits.len() == 0 || digits[0] != '+') || text@ == seq!['+'] + digits,
    ensures
        digits.len() > 0 && (forall|i: int|
            0 <= i < digits.len() ==> '0' <= (#[trigger] digits[i]) && digits[i] <= '9') ==> result
            == (if digits_value(digits) <= u32::MAX {
            Some(digits_value(digits) as u32)
        } else {
            None
        }),
        digits.len() == 0 ==> result is None,
        (exists|i: int|
            0 <= i < digits.len() && !('0' <= (#[trigger] digits[i]) && digits[i] <= '9'))
            ==> result is None,
        digits == decimal(n as nat) ==> result == Some(n),
{
    assert(without_plus(text@) =~= digits);
    lemma_decimal(n as nat);
    if exists|i: int| 0 <= i < digits.len() && !('0' <= (#[trigger] digits[i]) && digits[i] <= '9') {
        let i = choose|i: int|
            0 <= i < digits.len() && !('0' <= (#[trigger] digits[i]) && digits[i] <= '9');
        assert(!is_digit(digits[i]));
    }
}

/// Of characters only the capital ASCII letters change: each becomes the small letter 32 codes
/// on.
pub proof fn capitals_become_small(c: char, lowered: char)
    requires
        call_ensures(ascii_lower, (c,), lowered),
    ensures
        65 <= c as u32 <= 90 ==> lowered as u32 == c as u32 + 32,
        !(65 <= c as u32 <= 90) ==> lowered == c,
{
}

/// Whether two characters are the same, or the same ASCII letter in different case.
pub open spec fn same_letter(a: char, b: char) -> bool {
    ||| a == b
    ||| 65 <= a as u32 <= 90 && b as u32 == a as u32 + 32
    ||| 65 <= b as u32 <= 90 && a as u32 == b as u32 + 32
}

/// Two texts are the same but for case exactly if they have the same letters in order.
pub proof fn case_is_all_that_is_ignored(a: Seq<char>, b: Seq<char>)
    ensures
        lower(a) == lower(b) <==> a.len() == b.len() && forall|i: int|
            0 <= i < a.len() ==> same_letter(#[trigger] a[i], b[i]),
{
    if lower(a) == lower(b) {
        assert(a.len() == lower(a).len() == b.len());
        assert forall|i: int| 0 <= i < a.len() implies same_letter(#[trigger] a[i], b[i]) by {
            assert(lower(a)[i] == lower_char(a[i]));
            assert(lower(b)[i] == lower_char(b[i]));
        }
    }
    if a.len() == b.len() && forall|i: int|
        0 <= i < a.len() ==> same_letter(#[trigger] a[i], b[i]) {
        assert forall|i: int| 0 <= i < a.len() implies lower(a)[i] == lower(b)[i] by {
            assert(same_letter(a[i], b[i]));
        }
        assert(lower(a) =~= lower(b));
    }
}

/// Two strings count as equal without regard to case exactly if they have the same letters in
/// order.
pub proof fn equal_strings_have_the_same_letters(a: &str, b: &str, same: bool)
    requires
        call_ensures(eq_ignore_ascii_case, (a, b), same),
    ensures
        same <==> a@.len() == b@.len() && forall|i: int|
            0 <= i < a@.len() ==> same_letter(#[trigger] a@[i], b@[i]),
{
    case_is_all_that_is_ignored(a@, b@);
}

/// A string is found in a text exactly if it stands there, with anything before and after it.
pub proof fn found_texts_stand_somewhere(text: &Vec<char>, needle: &str, found: bool)
    requires
        call_ensures(contains, (text, needle), found),
    ensures
        found <==> exists|before: Seq<char>, after: Seq<char>|
            text@ == #[trigger] (before + needle@ + after),
{
    if found {
        let at = choose|at: int| occurs_at(text@, needle@, at);
        let before = text@.take(at);
        let after = text@.skip(at + needle@.len());
        assert(text@ =~= before + needle@ + after);
    }
    if exists|before: Seq<char>, after: Seq<char>| text@ == #[trigger] (before + needle@ + after) {
        let (before, after) = choose|before: Seq<char>, after: Seq<char>|
            text@ == #[trigger] (before + needle@ + after);
        let at = before.len() as int;
        assert(text@.subrange(at, at + needle@.len()) =~= needle@);
        assert(occurs_at(text@, needle@, at));
    }
}

/// Of two texts the one with the smaller character where they first differ comes first, and a
/// text comes before those that go on after it.
pub proof fn first_difference_decides(
    common: Seq<char>,
    c: char,
    d: char,
    one: Seq<char>,
    other: Seq<char>,
)
    requires
        c != d,
    ensures
        text_less(common + seq![c] + one, common + seq![d] + other) == ((c as u32) < (d as u32)),
        text_less(common, common + seq![c] + one),
        !text_less(common + seq![c] + one, common),
{
    let a = common + seq![c] + one;
    let b = common + seq![d] + other;
    let n = common.len() as int;
    lemma_common_prefix(a, b, n);
    assert(a.skip(n)[0] == c && b.skip(n)[0] == d);
    lemma_common_prefix(common, a, n);
    lemma_common_prefix(a, common, n);
    assert(common.skip(n).len() == 0);
}

/// A 32-bit number in decimal is read as that number.
pub proof fn decimal_is_parsed(n: u32)
    ensures
        parsed_u32(decimal(n as nat)) == Some(n),
{
    lemma_decimal(n as nat);
    assert(decimal(n as nat)[0] != '+');
    assert forall|i: int| 0 <= i < decimal(n as nat).len() implies is_digit(
        #[trigger] decimal(n as nat)[i],
    ) by {}
}

} // verus!
