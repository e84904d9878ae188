use vstd::prelude::*;

verus! {

/// `String::push` appends one character to the end of the string and leaves
/// the characters before it as they were.
pub assume_specification[ String::push ](s: &mut String, c: char)
    ensures
        final(s)@ == old(s)@.push(c),
;

/// Collects the characters of a text, in order.
pub fn chars_of(s: &str) -> (v: Vec<char>)
    ensures
        v@ == s@,
{
    let n = s.unicode_len();
    let mut v: Vec<char> = Vec::new();
    let mut i: usize = 0;
    while i < n
        invariant
            n == s@.len(),
            i <= n,
            v@ == s@.subrange(0, i as int),
        decreases n - i,
    {
        v.push(s.get_char(i));
        i += 1;
    }
    v
}

/// Builds the text that holds the given characters, in order.
pub fn text_of(v: &Vec<char>) -> (s: String)
    ensures
        s@ == v@,
{
    let mut s = String::new();
    let mut i: usize = 0;
    while i < v.len()
        invariant
            i <= v.len(),
            s@ == v@.subrange(0, i as int),
        decreases v.len() - i,
    {
        s.push(v[i]);
        i += 1;
    }
    s
}


/// Whether a character separates fields: the white space of Unicode.
pub open spec fn is_space(c: char) -> bool {
    let u = c as u32;
    (0x09 <= u <= 0x0D) || u == 0x20 || u == 0x85 || u == 0xA0 || u == 0x1680 || (0x2000 <= u
        <= 0x200A) || u == 0x2028 || u == 0x2029 || u == 0x202F || u == 0x205F || u == 0x3000
}

/// Whether a character is one of the digits `0` to `9`.
pub open spec fn is_digit(c: char) -> bool {
    0x30 <= c as u32 <= 0x39
}

/// The value of a digit.
pub open spec fn digit_value(c: char) -> int {
    c as u32 - 0x30
}

/// Whether a character is one of the letters `A` to `Z`.
pub open spec fn is_upper(c: char) -> bool {
    0x41 <= c as u32 <= 0x5A
}

pub fn char_is_space(c: char) -> (r: bool)
    ensures
        r == is_space(c),
{
    let u = c as u32;
    (0x09 <= u && u <= 0x0D) || u == 0x20 || u == 0x85 || u == 0xA0 || u == 0x1680 || (0x2000 <= u
        && u <= 0x200A) || u == 0x2028 || u == 0x2029 || u == 0x202F || u == 0x205F || u
        == 0x3000
}

pub fn char_is_digit(c: char) -> (r: bool)
    ensures
        r == is_digit(c),
{
    let u = c as u32;
    0x30 <= u && u <= 0x39
}

pub fn char_digit_value(c: char) -> (r: u8)
    requires
        is_digit(c),
    ensures
        r == digit_value(c),
        r < 10,
{
    (c as u32 - 0x30) as u8
}

pub fn char_is_upper(c: char) -> (r: bool)
    ensures
        r == is_upper(c),
{
    let u = c as u32;
    0x41 <= u && u <= 0x5A
}

/// What a scan for separators has found: the pieces that are complete, and
/// the piece that is being read.
pub struct Scan {
    pub done: Seq<Seq<char>>,
    pub current: Seq<char>,
}

/// Scans a text for fields: a separator ends the field being read, if any
/// character of it was read.
pub open spec fn scan_fields(s: Seq<char>) -> Scan
    decreases s.len(),
{
    if s.len() == 0 {
        Scan { done: Seq::empty(), current: Seq::empty() }
    } else {
        let before = scan_fields(s.drop_last());
        if is_space(s.last()) {
            if before.current.len() > 0 {
                Scan { done: before.done.push(before.current), current: Seq::empty() }
            } else {
                before
            }
        } else {
            Scan { done: before.done, current: before.current.push(s.last()) }
        }
    }
}

/// The fields of a text: its maximal runs of characters that are no white space.
pub open spec fn fields_of(s: Seq<char>) -> Seq<Seq<char>> {
    let scan = scan_fields(s);
    if scan.current.len() > 0 {
        scan.done.push(scan.current)
    } else {
        scan.done
    }
}

/// Scans a text for the pieces between occurrences of a separator.
pub open spec fn scan_pieces(s: Seq<char>, sep: char) -> Scan
    decreases s.len(),
{
    if s.len() == 0 {
        Scan { done: Seq::empty(), current: Seq::empty() }
    } else {
        let before = scan_pieces(s.drop_last(), sep);
        if s.last() == sep {
            Scan { done: before.done.push(before.current), current: Seq::empty() }
        } else {
            Scan { done: before.done, current: before.current.push(s.last()) }
        }
    }
}

/// The pieces of a text between the occurrences of a separator; a text
/// without one is a single piece.
pub open spec fn pieces_of(s: Seq<char>, sep: char) -> Seq<Seq<char>> {
    let scan = scan_pieces(s, sep);
    scan.done.push(scan.current)
}

/// The views of the texts in a list.
pub open spec fn texts(v: Seq<Vec<char>>) -> Seq<Seq<char>> {
    Seq::new(v.len(), |i: int| v[i]@)
}

/// Splits a text into its fields.
pub fn split_fields(s: &Vec<char>) -> (fields: Vec<Vec<char>>)
    ensures
        texts(fields@) == fields_of(s@),
{
    let mut done: Vec<Vec<char>> = Vec::new();
    let mut current: Vec<char> = Vec::new();
    let mut i: usize = 0;
    assert(texts(done@) =~= scan_fields(s@.take(0)).done);
    while i < s.len()
        invariant
            i <= s.len(),
            texts(done@) == scan_fields(s@.take(i as int)).done,
            current@ == scan_fields(s@.take(i as int)).current,
        decreases s.len() - i,
    {
        let c = s[i];
        proof {
            assert(s@.take(i as int + 1).drop_last() =~= s@.take(i as int));
        }
        let ghost before = done@;
        if char_is_space(c) {
            if current.len() > 0 {
                let ghost cur = current@;
                done.push(current);
                current = Vec::new();
                assert(texts(done@) =~= texts(before).push(cur));
            }
        } else {
            current.push(c);
        }
        i += 1;
    }
    proof {
        assert(s@.take(s@.len() as int) =~= s@);
    }
    if current.len() > 0 {
        let ghost before = done@;
        let ghost cur = current@;
        done.push(current);
        assert(texts(done@) =~= texts(before).push(cur));
    }
    done
}

/// Splits a text at every occurrence of a separator.
pub fn split_pieces(s: &Vec<char>, sep: char) -> (pieces: Vec<Vec<char>>)
    ensures
        texts(pieces@) == pieces_of(s@, sep),
{
    let mut done: Vec<Vec<char>> = Vec::new();
    let mut current: Vec<char> = Vec::new();
    let mut i: usize = 0;
    assert(texts(done@) =~= scan_pieces(s@.take(0), sep).done);
    while i < s.len()
        invariant
            i <= s.len(),
            texts(done@) == scan_pieces(s@.take(i as int), sep).done,
            current@ == scan_pieces(s@.take(i as int), sep).current,
        decreases s.len() - i,
    {
        let c = s[i];
        proof {
            assert(s@.take(i as int + 1).drop_last() =~= s@.take(i as int));
        }
        let ghost before = done@;
        if c == sep {
            let ghost cur = current@;
            done.push(current);
            current = Vec::new();
            assert(texts(done@) =~= texts(before).push(cur));
        } else {
            current.push(c);
        }
        i += 1;
    }
    proof {
        assert(s@.take(s@.len() as int) =~= s@);
    }
    let ghost before = done@;
    let ghost cur = current@;
    done.push(current);
    assert(texts(done@) =~= texts(before).push(cur));
    done
}

/// The number that a run of digits writes, most significant digit first.
pub open spec fn digits_value(s: Seq<char>) -> nat
    decreases s.len(),
{
    if s.len() == 0 {
        0
    } else {
        (digits_value(s.drop_last()) * 10 + digit_value(s.last())) as nat
    }
}

/// Whether every character of a text is a digit.
pub open spec fn all_digits(s: Seq<char>) -> bool {
    forall|i: int| 0 <= i < s.len() ==> is_digit(#[trigger] s[i])
}

/// The number that a run of digits writes, if there is a digit, nothing
/// but digits, and the number is no more than `max`.
pub open spec fn number_of(digits: Seq<char>, max: nat) -> Option<nat> {
    if digits.len() > 0 && all_digits(digits) && digits_value(digits) <= max {
        Some(digits_value(digits))
    } else {
        None
    }
}

/// A text without the `+` that may stand before it.
pub open spec fn without_plus(s: Seq<char>) -> Seq<char> {
    if s.len() > 0 && s[0] == '+' {
        s.skip(1)
    } else {
        s
    }
}

/// The number that a text writes in decimal, with an optional `+` before
/// it, if it writes one that fits in 32 bits.
pub open spec fn parse_decimal(s: Seq<char>) -> Option<nat> {
    number_of(without_plus(s), 0xFFFF_FFFF)
}

/// The number that a text writes in decimal, with an optional `+` before
/// it, if it writes one that is no more than `max`.
pub open spec fn parse_unsigned(s: Seq<char>, max: nat) -> Option<nat> {
    number_of(without_plus(s), max)
}

/// The number that a text writes in decimal, with an optional `+` or `-`
/// before it, if it writes one that fits in 32 bits with a sign.
pub open spec fn parse_signed(s: Seq<char>) -> Option<int> {
    if s.len() > 0 && s[0] == '-' {
        match number_of(s.skip(1), 0x8000_0000) {
            Some(v) => Some(-(v as int)),
            None => None,
        }
    } else {
        match number_of(without_plus(s), 0x7FFF_FFFF) {
            Some(v) => Some(v as int),
            None => None,
        }
    }
}

/// A number written by more digits is no smaller.
pub proof fn lemma_digits_value_grows(s: Seq<char>, n: int)
    requires
        all_digits(s),
        0 <= n <= s.len(),
    ensures
        digits_value(s.take(n)) <= digits_value(s),
    decreases s.len() - n,
{
    if n < s.len() {
        lemma_digits_value_grows(s, n + 1);
        assert(s.take(n + 1).drop_last() =~= s.take(n));
        assert(is_digit(s[n]));
    } else {
        assert(s.take(n) =~= s);
    }
}

/// Reads the digits of a text from `start` on as a number of at most `max`.
pub fn read_digits(s: &Vec<char>, start: usize, max: u64) -> (r: Option<u64>)
    requires
        start <= s.len(),
    ensures
        r is Some <==> number_of(s@.skip(start as int), max as nat) is Some,
        r is Some ==> r->0 == number_of(s@.skip(start as int), max as nat)->0,
{
    if start >= s.len() {
        return None;
    }
    let ghost digits = s@.skip(start as int);
    let mut value: u64 = 0;
    let mut i: usize = start;
    assert(digits.take(0) =~= Seq::<char>::empty());
    while i < s.len()
        invariant
            start <= i <= s.len(),
            digits == s@.skip(start as int),
            all_digits(digits.take(i - start)),
            value == digits_value(digits.take(i - start)),
            value <= max,
        decreases s.len() - i,
    {
        let c = s[i];
        proof {
            assert(digits.take(i - start + 1).drop_last() =~= digits.take(i - start));
            assert(digits[i - start] == c);
        }
        if !char_is_digit(c) {
            proof {
                assert(!is_digit(digits[i - start]));
            }
            return None;
        }
        let next: u128 = value as u128 * 10 + char_digit_value(c) as u128;
        proof {
            assert(all_digits(digits.take(i - start + 1))) by {
                assert forall|j: int| 0 <= j < i - start + 1 implies is_digit(
                    #[trigger] digits.take(i - start + 1)[j],
                ) by {
                    if j < i - start {
                        assert(digits.take(i - start + 1)[j] == digits.take(i - start)[j]);
                    }
                }
            }
        }
        if next > max as u128 {
            proof {
                if all_digits(digits) {
                    lemma_digits_value_grows(digits, i - start + 1);
                }
            }
            return None;
        }
        value = next as u64;
        i += 1;
    }
    proof {
        assert(digits.take(digits.len() as int) =~= digits);
    }
    Some(value)
}

/// Reads a decimal number of at most `max`, with an optional `+` before it.
pub fn read_unsigned(s: &Vec<char>, max: u64) -> (r: Option<u64>)
    ensures
        r is Some <==> parse_unsigned(s@, max as nat) is Some,
        r is Some ==> r->0 == parse_unsigned(s@, max as nat)->0,
{
    let start: usize = if s.len() > 0 && s[0] == '+' {
        1
    } else {
        0
    };
    proof {
        assert(s@.skip(0) =~= s@);
    }
    read_digits(s, start, max)
}

/// Reads a decimal number that fits in 32 bits, with an optional `+` before it.
pub fn read_decimal(s: &Vec<char>) -> (r: Option<u32>)
    ensures
        r is Some <==> parse_decimal(s@) is Some,
        r is Some ==> r->0 == parse_decimal(s@)->0,
{
    match read_unsigned(s, 0xFFFF_FFFF) {
        Some(v) => Some(v as u32),
        None => None,
    }
}

/// Reads a decimal number that fits in 32 bits with a sign, with an
/// optional `+` or `-` before it.
pub fn read_signed(s: &Vec<char>) -> (r: Option<i32>)
    ensures
        r is Some <==> parse_signed(s@) is Some,
        r is Some ==> r->0 == parse_signed(s@)->0,
{
    if s.len() > 0 && s[0] == '-' {
        match read_digits(s, 1, 0x8000_0000) {
            Some(v) => Some((-(v as i64)) as i32),
            None => None,
        }
    } else {
        match read_unsigned(s, 0x7FFF_FFFF) {
            Some(v) => Some(v as i32),
            None => None,
        }
    }
}

/// The decimal text of a number: no leading zero, and `0` for zero.
pub open spec fn decimal_text(n: nat) -> Seq<char>
    decreases n,
{
    if n < 10 {
        seq![crate::hand::digit_char(n as int)]
    } else {
        decimal_text(n / 10).push(crate::hand::digit_char((n % 10) as int))
    }
}

/// Appends the decimal text of a number to `out`.
pub fn push_decimal(out: &mut Vec<char>, n: u32)
    ensures
        final(out)@ == old(out)@ + decimal_text(n as nat),
    decreases n,
{
    if n < 10 {
        out.push(crate::hand::digit_of(n as u8));
        assert(out@ =~= old(out)@ + decimal_text(n as nat));
    } else {
        push_decimal(out, n / 10);
        out.push(crate::hand::digit_of((n % 10) as u8));
        assert(out@ =~= old(out)@ + decimal_text(n as nat));
    }
}

/// Appends the decimal text of a number of 64 bits to `out`.
pub fn push_decimal_u64(out: &mut Vec<char>, n: u64)
    ensures
        final(out)@ == old(out)@ + decimal_text(n as nat),
    decreases n,
{
    if n < 10 {
        out.push(crate::hand::digit_of(n as u8));
        assert(out@ =~= old(out)@ + decimal_text(n as nat));
    } else {
        push_decimal_u64(out, n / 10);
        out.push(crate::hand::digit_of((n % 10) as u8));
        assert(out@ =~= old(out)@ + decimal_text(n as nat));
    }
}

/// The decimal text of a number with a sign: `-` before a negative one.
pub open spec fn signed_text(n: int) -> Seq<char> {
    if n < 0 {
        seq!['-'] + decimal_text((-n) as nat)
    } else {
        decimal_text(n as nat)
    }
}

/// Appends the decimal text of a number with a sign to `out`.
pub fn push_signed(out: &mut Vec<char>, n: i32)
    ensures
        final(out)@ == old(out)@ + signed_text(n as int),
{
    if n < 0 {
        out.push('-');
        push_decimal_u64(out, (-(n as i64)) as u64);
        assert(out@ =~= old(out)@ + signed_text(n as int));
    } else {
        push_decimal_u64(out, n as u64);
    }
}

/// Appends a text to `out`.
pub fn push_text(out: &mut Vec<char>, text: &str)
    ensures
        final(out)@ == old(out)@ + text@,
{
    let mut chars = chars_of(text);
    out.append(&mut chars);
}

} // verus!
