//! Small text and number helpers shared by the commands.

use vstd::prelude::*;
use vstd::string::*;

verus! {

/// Length of an MD5 digest in bytes.
pub const MD5LEN: usize = 16;

/// Length of an MD5 digest written as hexadecimal text.
pub const MD5STRLEN: usize = 32;

/// One step of the xorshift64 generator (shifts 13, 7, 17).
pub open spec fn xorshift64_step(x: u64) -> u64 {
    let a = x ^ (x << 13u64);
    let b = a ^ (a >> 7u64);
    b ^ (b << 17u64)
}

/// The generator state after `n` steps from `state`.
pub open spec fn xorshift64_iter(state: u64, n: nat) -> u64
    decreases n,
{
    if n == 0 {
        state
    } else {
        xorshift64_step(xorshift64_iter(state, (n - 1) as nat))
    }
}

/// Byte `k` (0 = least significant) of `x`.
pub open spec fn le_byte(x: u64, k: int) -> u8 {
    ((x >> (8 * k) as u64) & 0xffu64) as u8
}

pub fn xorshift64(x: u64) -> (r: u64)
    ensures
        r == xorshift64_step(x),
{
    let mut x = x;
    x ^= x << 13u64;
    x ^= x >> 7u64;
    x ^= x << 17u64;
    x
}

/// Fills `v` with pseudo-random bytes, eight per generator step, and returns
/// the final generator state. Each group of eight bytes holds the state of
/// one step, least significant byte first.
pub fn xorshift64_fill(v: &mut [u8], state: u64) -> (r: u64)
    requires
        old(v)@.len() % 8 == 0,
    ensures
        final(v)@.len() == old(v)@.len(),
        forall|b: int, k: int|
            0 <= b < old(v)@.len() / 8 && 0 <= k < 8 ==> #[trigger] final(v)@[8 * b + k]
                == le_byte(xorshift64_iter(state, (b + 1) as nat), k),
        r == xorshift64_iter(state, (old(v)@.len() / 8) as nat),
{
    let len = v.len();
    let mut x = state;
    let mut i: usize = 0;
    let ghost blocks: nat = 0;
    while i < len
        invariant
            len == old(v)@.len(),
            v@.len() == len,
            len % 8 == 0,
            i == 8 * blocks,
            i <= len,
            x == xorshift64_iter(state, blocks),
            forall|b: int, k: int|
                0 <= b < blocks && 0 <= k < 8 ==> #[trigger] v@[8 * b + k] == le_byte(
                    xorshift64_iter(state, (b + 1) as nat),
                    k,
                ),
        decreases len - i,
    {
        x = xorshift64(x);
        proof {
            blocks = blocks + 1;
        }
        let mut k: usize = 0;
        while k < 8
            invariant
                len == old(v)@.len(),
                v@.len() == len,
                len % 8 == 0,
                i + 8 <= len,
                i == 8 * (blocks - 1),
                blocks >= 1,
                k <= 8,
                x == xorshift64_iter(state, blocks),
                forall|b: int, kk: int|
                    0 <= b < blocks - 1 && 0 <= kk < 8 ==> #[trigger] v@[8 * b + kk] == le_byte(
                        xorshift64_iter(state, (b + 1) as nat),
                        kk,
                    ),
                forall|kk: int|
                    0 <= kk < k ==> #[trigger] v@[i + kk] == le_byte(x, kk),
            decreases 8 - k,
        {
            let byte: u8 = ((x >> (8 * k) as u64) & 0xffu64) as u8;
            v[i + k] = byte;
            k = k + 1;
        }
        assert forall|b: int, kk: int|
            0 <= b < blocks && 0 <= kk < 8 implies #[trigger] v@[8 * b + kk] == le_byte(
                xorshift64_iter(state, (b + 1) as nat),
                kk,
            ) by {
            if b == blocks - 1 {
                assert(v@[i + kk] == le_byte(x, kk));
            }
        }
        i = i + 8;
    }
    assert(blocks == len / 8);
    x
}

/// True when two strings hold the same characters.
pub fn str_eq(a: &str, b: &str) -> (r: bool)
    ensures
        r == (a@ == b@),
{
    let n = a.unicode_len();
    if n != b.unicode_len() {
        return false;
    }
    let mut i: usize = 0;
    while i < n
        invariant
            n == a@.len(),
            n == b@.len(),
            i <= n,
            forall|j: int| 0 <= j < i ==> a@[j] == b@[j],
        decreases n - i,
    {
        if a.get_char(i) != b.get_char(i) {
            return false;
        }
        i = i + 1;
    }
    assert(a@ =~= b@);
    true
}

/// True when one of `args` equals one of `optstrs`.
///
/// Looking for `--help` this way works even where a required option is
/// missing and a full option parse would fail.
pub fn find_option(args: &[&str], optstrs: &[&str]) -> (r: bool)
    ensures
        r == exists|i: int, j: int|
            0 <= i < args@.len() && 0 <= j < optstrs@.len() && (#[trigger] args@[i])@ == (
            #[trigger] optstrs@[j])@,
{
    let mut i: usize = 0;
    while i < args.len()
        invariant
            i <= args@.len(),
            forall|ii: int, j: int|
                0 <= ii < i && 0 <= j < optstrs@.len() ==> (#[trigger] args@[ii])@ != (
                #[trigger] optstrs@[j])@,
        decreases args@.len() - i,
    {
        let mut j: usize = 0;
        while j < optstrs.len()
            invariant
                i < args@.len(),
                j <= optstrs@.len(),
                forall|ii: int, jj: int|
                    0 <= ii < i && 0 <= jj < optstrs@.len() ==> (#[trigger] args@[ii])@ != (
                    #[trigger] optstrs@[jj])@,
                forall|jj: int| 0 <= jj < j ==> args@[i as int]@ != (#[trigger] optstrs@[jj])@,
            decreases optstrs@.len() - j,
        {
            if str_eq(args[i], optstrs[j]) {
                return true;
            }
            j = j + 1;
        }
        i = i + 1;
    }
    false
}

/// Value of an ASCII decimal digit.
pub open spec fn digit_value(c: char) -> nat {
    (c as u32 - '0' as u32) as nat
}

pub open spec fn is_digit(c: char) -> bool {
    '0' <= c <= '9'
}

/// A non-empty run of ASCII decimal digits.
pub open spec fn is_decimal(d: Seq<char>) -> bool {
    d.len() > 0 && forall|i: int| 0 <= i < d.len() ==> is_digit(#[trigger] d[i])
}

/// The number written by the digits `d`, most significant first.
pub open spec fn decimal_value(d: Seq<char>) -> nat
    decreases d.len(),
{
    if d.len() == 0 {
        0
    } else {
        decimal_value(d.drop_last()) * 10 + digit_value(d.last())
    }
}

/// The multiplier that a trailing unit letter stands for (1 when none).
pub open spec fn unit_multiplier(c: char) -> nat {
    if c == 'k' || c == 'K' {
        0x400
    } else if c == 'm' || c == 'M' {
        0x10_0000
    } else if c == 'g' || c == 'G' {
        0x4000_0000
    } else if c == 't' || c == 'T' {
        0x100_0000_0000
    } else {
        1
    }
}

/// A size text without its trailing unit letter, if it has one.
pub open spec fn size_body(s: Seq<char>) -> Seq<char> {
    if s.len() > 0 && unit_multiplier(s.last()) != 1 {
        s.drop_last()
    } else {
        s
    }
}

/// The number part of a size text: the body without one leading `+`.
pub open spec fn size_digits(s: Seq<char>) -> Seq<char> {
    let b = size_body(s);
    if b.len() > 0 && b[0] == '+' {
        b.drop_first()
    } else {
        b
    }
}

/// The multiplier of a size text.
pub open spec fn size_unit(s: Seq<char>) -> nat {
    if s.len() > 0 {
        unit_multiplier(s.last())
    } else {
        1
    }
}

/// Why a size text was refused.
#[derive(Debug, Clone, Copy, PartialEq, Eq)]
pub enum SizeError {
    /// The text is empty.
    Empty,
    /// The number part is not a non-empty run of decimal digits.
    InvalidNumber,
    /// The size does not fit in 64 bits.
    Overflow,
}

/// Parses a size such as `12345`, `+5`, `64m` or `1G`: decimal digits,
/// optionally after one `+`, followed by an optional unit letter k, m, g or
/// t (either case), each a power of 1024.
pub fn parse_size(s: &str) -> (r: Result<u64, SizeError>)
    ensures
        s@.len() == 0 <==> r == Err::<u64, SizeError>(SizeError::Empty),
        s@.len() > 0 && !is_decimal(size_digits(s@)) <==> r == Err::<u64, SizeError>(
            SizeError::InvalidNumber,
        ),
        is_decimal(size_digits(s@)) && decimal_value(size_digits(s@)) * size_unit(s@)
            > u64::MAX <==> r == Err::<u64, SizeError>(SizeError::Overflow),
        r is Ok <==> is_decimal(size_digits(s@)) && decimal_value(size_digits(s@)) * size_unit(
            s@,
        ) <= u64::MAX,
        r is Ok ==> r->Ok_0 == decimal_value(size_digits(s@)) * size_unit(s@),
{
    let n = s.unicode_len();
    if n == 0 {
        return Err(SizeError::Empty);
    }
    let last = s.get_char(n - 1);
    let unit: u64 = if last == 'k' || last == 'K' {
        0x400
    } else if last == 'm' || last == 'M' {
        0x10_0000
    } else if last == 'g' || last == 'G' {
        0x4000_0000
    } else if last == 't' || last == 'T' {
        0x100_0000_0000
    } else {
        1
    };
    let end: usize = if unit != 1 {
        n - 1
    } else {
        n
    };
    let start: usize = if end > 0 && s.get_char(0) == '+' {
        1
    } else {
        0
    };
    let ghost d = size_digits(s@);
    assert(size_body(s@) =~= s@.subrange(0, end as int));
    assert(d =~= s@.subrange(start as int, end as int));
    if end == start {
        return Err(SizeError::InvalidNumber);
    }
    let mut i: usize = start;
    while i < end
        invariant
            start < end <= n,
            n == s@.len(),
            d == s@.subrange(start as int, end as int),
            d == size_digits(s@),
            start <= i <= end,
            forall|j: int| 0 <= j < i - start ==> is_digit(#[trigger] d[j]),
        decreases end - i,
    {
        let c = s.get_char(i);
        assert(c == d[i - start]);
        if !('0' <= c && c <= '9') {
            assert(!is_digit(d[i - start]));
            return Err(SizeError::InvalidNumber);
        }
        i = i + 1;
    }
    assert(is_decimal(d));
    match decimal_range_value(s, start, end) {
        Some(num) => {
            match num.checked_mul(unit) {
                Some(v) => Ok(v),
                None => Err(SizeError::Overflow),
            }
        },
        None => {
            assert(decimal_value(d) * size_unit(s@) >= decimal_value(d)) by (nonlinear_arith)
                requires
                    size_unit(s@) >= 1,
            ;
            Err(SizeError::Overflow)
        },
    }
}

/// A value read from digits is at least as large as every value read from
/// a prefix of them.
proof fn lemma_decimal_value_prefix(d: Seq<char>, i: int)
    requires
        0 <= i <= d.len(),
    ensures
        decimal_value(d.subrange(0, i)) <= decimal_value(d),
    decreases d.len(),
{
    if i < d.len() {
        assert(d.drop_last() =~= d.subrange(0, d.len() - 1));
        assert(d.subrange(0, i) =~= d.drop_last().subrange(0, i));
        lemma_decimal_value_prefix(d.drop_last(), i);
        let p = decimal_value(d.drop_last());
        assert(p * 10 >= p) by (nonlinear_arith);
    } else {
        assert(d.subrange(0, i) =~= d);
    }
}

/// Reads the value of the characters of `s` from `start` to `end`, all
/// decimal digits, or `None` where it exceeds 64 bits.
fn decimal_range_value(s: &str, start: usize, end: usize) -> (r: Option<u64>)
    requires
        start <= end <= s@.len(),
        is_decimal(s@.subrange(start as int, end as int)),
    ensures
        r is Some <==> decimal_value(s@.subrange(start as int, end as int)) <= u64::MAX,
        r is Some ==> r->Some_0 == decimal_value(s@.subrange(start as int, end as int)),
{
    let ghost d = s@.subrange(start as int, end as int);
    let mut acc: u64 = 0;
    let mut i: usize = start;
    assert(d.subrange(0, 0) =~= Seq::<char>::empty());
    while i < end
        invariant
            start <= i <= end <= s@.len(),
            d == s@.subrange(start as int, end as int),
            is_decimal(d),
            acc == decimal_value(d.subrange(0, i - start)),
        decreases end - i,
    {
        let c = s.get_char(i);
        assert(c == d[i - start]);
        assert(is_digit(d[i - start]));
        let digit: u64 = (c as u32 - '0' as u32) as u64;
        assert(d.subrange(0, i + 1 - start).drop_last() =~= d.subrange(0, i - start));
        if acc > (u64::MAX - digit) / 10 {
            proof {
                lemma_decimal_value_prefix(d, i + 1 - start);
            }
            return None;
        }
        acc = acc * 10 + digit;
        i = i + 1;
    }
    assert(d.subrange(0, end - start) =~= d);
    Some(acc)
}

/// The lower-case hexadecimal digit for `d` (which is below 16).
pub open spec fn hex_char(d: int) -> char {
    if d == 0 {
        '0'
    } else if d == 1 {
        '1'
    } else if d == 2 {
        '2'
    } else if d == 3 {
        '3'
    } else if d == 4 {
        '4'
    } else if d == 5 {
        '5'
    } else if d == 6 {
        '6'
    } else if d == 7 {
        '7'
    } else if d == 8 {
        '8'
    } else if d == 9 {
        '9'
    } else if d == 10 {
        'a'
    } else if d == 11 {
        'b'
    } else if d == 12 {
        'c'
    } else if d == 13 {
        'd'
    } else if d == 14 {
        'e'
    } else {
        'f'
    }
}

/// The value of a hexadecimal digit of either case.
pub open spec fn hex_value(c: char) -> int {
    if '0' <= c <= '9' {
        c as u32 - '0' as u32
    } else if 'a' <= c <= 'f' {
        c as u32 - 'a' as u32 + 10
    } else {
        c as u32 - 'A' as u32 + 10
    }
}

pub open spec fn is_hex(c: char) -> bool {
    ('0' <= c <= '9') || ('a' <= c <= 'f') || ('A' <= c <= 'F')
}

/// Bytes written as lower-case hexadecimal, two digits each, high digit first.
pub open spec fn hex_text(b: Seq<u8>) -> Seq<char>
    decreases b.len(),
{
    if b.len() == 0 {
        Seq::empty()
    } else {
        hex_text(b.drop_last()) + seq![hex_char(b.last() as int / 16), hex_char(b.last() as int % 16)]
    }
}

/// The one-digit text for `d`.
fn hex_digit_text(d: u8) -> (r: &'static str)
    requires
        d < 16,
    ensures
        r@ == seq![hex_char(d as int)],
{
    match d {
        0u8 => {
            proof {
                reveal_strlit("0");
            }
            "0"
        },
        1u8 => {
            proof {
                reveal_strlit("1");
            }
            "1"
        },
        2u8 => {
            proof {
                reveal_strlit("2");
            }
            "2"
        },
        3u8 => {
            proof {
                reveal_strlit("3");
            }
            "3"
        },
        4u8 => {
            proof {
                reveal_strlit("4");
            }
            "4"
        },
        5u8 => {
            proof {
                reveal_strlit("5");
            }
            "5"
        },
        6u8 => {
            proof {
                reveal_strlit("6");
            }
            "6"
        },
        7u8 => {
            proof {
                reveal_strlit("7");
            }
            "7"
        },
        8u8 => {
            proof {
                reveal_strlit("8");
            }
            "8"
        },
        9u8 => {
            proof {
                reveal_strlit("9");
            }
            "9"
        },
        10u8 => {
            proof {
                reveal_strlit("a");
            }
            "a"
        },
        11u8 => {
            proof {
                reveal_strlit("b");
            }
            "b"
        },
        12u8 => {
            proof {
                reveal_strlit("c");
            }
            "c"
        },
        13u8 => {
            proof {
                reveal_strlit("d");
            }
            "d"
        },
        14u8 => {
            proof {
                reveal_strlit("e");
            }
            "e"
        },
        15u8 => {
            proof {
                reveal_strlit("f");
            }
            "f"
        },
        _ => {
            proof {
                reveal_strlit("f");
            }
            "f"
        },
    }
}

/// Why a digest text was refused.
#[derive(Debug, Clone, Copy, PartialEq, Eq)]
pub enum DigestTextError {
    /// The text is not 32 characters long.
    WrongLength,
    /// A character is not a hexadecimal digit.
    NotHex,
}

/// Reads an MD5 digest from its 32-digit hexadecimal text (either case).
pub fn str_to_md5(s: &str) -> (r: Result<[u8; MD5LEN], DigestTextError>)
    ensures
        s@.len() != 32 <==> r == Err::<[u8; MD5LEN], DigestTextError>(
            DigestTextError::WrongLength,
        ),
        r is Ok <==> s@.len() == 32 && forall|i: int| 0 <= i < 32 ==> is_hex(#[trigger] s@[i]),
        r is Ok ==> forall|i: int|
            0 <= i < 16 ==> (#[trigger] r->Ok_0@[i]) as int == hex_value(s@[2 * i]) * 16
                + hex_value(s@[2 * i + 1]),
{
    if s.unicode_len() != MD5STRLEN {
        return Err(DigestTextError::WrongLength);
    }
    let mut hash = [0u8; MD5LEN];
    let mut i: usize = 0;
    while i < MD5LEN
        invariant
            s@.len() == 32,
            i <= 16,
            hash@.len() == 16,
            forall|j: int| 0 <= j < 2 * i ==> is_hex(#[trigger] s@[j]),
            forall|j: int|
                0 <= j < i ==> (#[trigger] hash@[j]) as int == hex_value(s@[2 * j]) * 16
                    + hex_value(s@[2 * j + 1]),
        decreases 16 - i,
    {
        let hi = hex_digit_value(s.get_char(2 * i));
        let lo = hex_digit_value(s.get_char(2 * i + 1));
        match (hi, lo) {
            (Some(h), Some(l)) => {
                hash[i] = h * 16 + l;
            },
            _ => {
                return Err(DigestTextError::NotHex);
            },
        }
        i = i + 1;
    }
    Ok(hash)
}

/// The value of one hexadecimal digit, or `None` for any other character.
fn hex_digit_value(c: char) -> (r: Option<u8>)
    ensures
        r is Some <==> is_hex(c),
        r is Some ==> r->Some_0 < 16 && r->Some_0 as int == hex_value(c),
{
    if '0' <= c && c <= '9' {
        Some((c as u32 - '0' as u32) as u8)
    } else if 'a' <= c && c <= 'f' {
        Some((c as u32 - 'a' as u32 + 10) as u8)
    } else if 'A' <= c && c <= 'F' {
        Some((c as u32 - 'A' as u32 + 10) as u8)
    } else {
        None
    }
}

/// Writes bytes as lower-case hexadecimal, two digits each.
pub fn bytes_to_hex(bytes: &[u8]) -> (r: String)
    ensures
        r@ == hex_text(bytes@),
        r@.len() == 2 * bytes@.len(),
{
    let mut result = String::new();
    let mut i: usize = 0;
    while i < bytes.len()
        invariant
            i <= bytes@.len(),
            result@ == hex_text(bytes@.subrange(0, i as int)),
            result@.len() == 2 * i,
        decreases bytes@.len() - i,
    {
        let b = bytes[i];
        result.append(hex_digit_text(b / 16));
        result.append(hex_digit_text(b % 16));
        assert(bytes@.subrange(0, i + 1).drop_last() =~= bytes@.subrange(0, i as int));
        i = i + 1;
    }
    assert(bytes@.subrange(0, bytes@.len() as int) =~= bytes@);
    result
}

/// Writes an MD5 digest as 32 lower-case hexadecimal digits.
pub fn md5_to_str(md5: &[u8]) -> (r: String)
    requires
        md5@.len() == MD5LEN,
    ensures
        r@ == hex_text(md5@),
        r@.len() == MD5STRLEN,
{
    bytes_to_hex(md5)
}

proof fn lemma_hex_char_value(d: int)
    requires
        0 <= d < 16,
    ensures
        is_hex(hex_char(d)),
        hex_value(hex_char(d)) == d,
{
}

proof fn lemma_hex_text_at(b: Seq<u8>)
    ensures
        hex_text(b).len() == 2 * b.len(),
        forall|i: int|
            0 <= i < b.len() ==> hex_text(b)[2 * i] == hex_char(#[trigger] b[i] as int / 16)
                && hex_text(b)[2 * i + 1] == hex_char(b[i] as int % 16),
    decreases b.len(),
{
    if b.len() > 0 {
        lemma_hex_text_at(b.drop_last());
        assert forall|i: int| 0 <= i < b.len() implies hex_text(b)[2 * i] == hex_char(
            #[trigger] b[i] as int / 16,
        ) && hex_text(b)[2 * i + 1] == hex_char(b[i] as int % 16) by {
            if i < b.len() - 1 {
                assert(b.drop_last()[i] == b[i]);
            }
        }
    }
}

/// Digest text written by [`md5_to_str`] reads back, through
/// [`str_to_md5`], as the same bytes.
pub proof fn lemma_digest_text_round_trip(b: Seq<u8>)
    requires
        b.len() == MD5LEN,
    ensures
        hex_text(b).len() == MD5STRLEN,
        forall|i: int| 0 <= i < 32 ==> is_hex(#[trigger] hex_text(b)[i]),
        forall|i: int|
            0 <= i < 16 ==> hex_value(hex_text(b)[2 * i]) * 16 + hex_value(hex_text(b)[2 * i + 1])
                == (#[trigger] b[i]) as int,
{
    lemma_hex_text_at(b);
    assert forall|i: int| 0 <= i < 32 implies is_hex(#[trigger] hex_text(b)[i]) by {
        let j = i / 2;
        assert(0 <= j < 16);
        lemma_hex_char_value(b[j] as int / 16);
        lemma_hex_char_value(b[j] as int % 16);
        if i % 2 == 0 {
            assert(i == 2 * j);
        } else {
            assert(i == 2 * j + 1);
        }
    }
    assert forall|i: int| 0 <= i < 16 implies hex_value(hex_text(b)[2 * i]) * 16 + hex_value(
        hex_text(b)[2 * i + 1],
    ) == (#[trigger] b[i]) as int by {
        lemma_hex_char_value(b[i] as int / 16);
        lemma_hex_char_value(b[i] as int % 16);
    }
}

/// Decimal text of `n`, without leading zeros.
pub open spec fn decimal_text(n: nat) -> Seq<char>
    decreases n,
{
    if n < 10 {
        seq![hex_char(n as int)]
    } else {
        decimal_text(n / 10) + seq![hex_char((n % 10) as int)]
    }
}

/// Appends the decimal text of `n` to `out`.
pub fn push_decimal(out: &mut String, n: u128)
    ensures
        final(out)@ == old(out)@ + decimal_text(n as nat),
    decreases n,
{
    if n >= 10 {
        push_decimal(out, n / 10);
    }
    out.append(hex_digit_text((n % 10) as u8));
    assert(final(out)@ =~= old(out)@ + decimal_text(n as nat));
}

/// `size * 10 / unit` rounded to the nearest integer, ties to even.
pub open spec fn tenths(size: nat, unit: nat) -> nat
    recommends
        unit > 0,
{
    let t = (size * 10) / unit;
    let rem = (size * 10) % unit;
    if rem * 2 > unit || (rem * 2 == unit && t % 2 == 1) {
        t + 1
    } else {
        t
    }
}

/// `size / unit` with one decimal, then a space and the unit's name.
pub open spec fn scaled_text(size: nat, unit: nat, name: Seq<char>) -> Seq<char> {
    let t = tenths(size, unit);
    decimal_text(t / 10) + seq!['.'] + decimal_text(t % 10) + seq![' '] + name
}

/// A byte count as people read it: bytes below 1 KiB, else the largest of
/// KiB, MiB, GiB and TiB that keeps the number below 1024, with one decimal.
pub open spec fn human_readable_text(size: nat) -> Seq<char> {
    if size < 0x400 {
        decimal_text(size) + seq![' ', 'B']
    } else if size < 0x10_0000 {
        scaled_text(size, 0x400, seq!['K', 'i', 'B'])
    } else if size < 0x4000_0000 {
        scaled_text(size, 0x10_0000, seq!['M', 'i', 'B'])
    } else if size < 0x100_0000_0000 {
        scaled_text(size, 0x4000_0000, seq!['G', 'i', 'B'])
    } else {
        scaled_text(size, 0x100_0000_0000, seq!['T', 'i', 'B'])
    }
}

/// Appends `size / unit` with one decimal, rounded half to even.
fn push_tenths(out: &mut String, size: u64, unit: u64)
    requires
        0 < unit <= 0x100_0000_0000,
    ensures
        final(out)@ == old(out)@ + decimal_text(tenths(size as nat, unit as nat) / 10) + seq!['.']
            + decimal_text(tenths(size as nat, unit as nat) % 10),
{
    let x: u128 = size as u128 * 10;
    let u: u128 = unit as u128;
    let t0: u128 = x / u;
    let rem: u128 = x % u;
    assert(t0 <= x) by (nonlinear_arith)
        requires
            t0 == x / u,
            u > 0,
    ;
    let t: u128 = if rem * 2 > u || (rem * 2 == u && t0 % 2 == 1) {
        t0 + 1
    } else {
        t0
    };
    assert(t == tenths(size as nat, unit as nat));
    push_decimal(out, t / 10);
    proof {
        reveal_strlit(".");
    }
    out.append(".");
    push_decimal(out, t % 10);
}

/// Formats a byte count for people, such as `512 B` or `1.5 MiB`.
pub fn size_to_human_readable(size: u64) -> (r: String)
    ensures
        r@ == human_readable_text(size as nat),
{
    let mut out = String::new();
    if size < 0x400 {
        push_decimal(&mut out, size as u128);
        proof {
            reveal_strlit(" B");
        }
        out.append(" B");
    } else if size < 0x10_0000 {
        push_tenths(&mut out, size, 0x400);
        proof {
            reveal_strlit(" KiB");
        }
        out.append(" KiB");
    } else if size < 0x4000_0000 {
        push_tenths(&mut out, size, 0x10_0000);
        proof {
            reveal_strlit(" MiB");
        }
        out.append(" MiB");
    } else if size < 0x100_0000_0000 {
        push_tenths(&mut out, size, 0x4000_0000);
        proof {
            reveal_strlit(" GiB");
        }
        out.append(" GiB");
    } else {
        push_tenths(&mut out, size, 0x100_0000_0000);
        proof {
            reveal_strlit(" TiB");
        }
        out.append(" TiB");
    }
    assert(out@ =~= human_readable_text(size as nat));
    out
}

} // verus!
