//! Decimal and hexadecimal numerals: reading them as the standard library's
//! `from_str` and `from_str_radix` do, and writing the zero-padded two-digit
//! fields of the clock face.

use vstd::prelude::*;

verus! {

/// An ASCII decimal digit.
pub open spec fn is_digit(c: char) -> bool {
    '0' <= c <= '9'
}

/// An ASCII hexadecimal digit, either case.
pub open spec fn is_hex_digit(c: char) -> bool {
    ||| '0' <= c <= '9'
    ||| 'a' <= c <= 'f'
    ||| 'A' <= c <= 'F'
}

/// The value of a hexadecimal digit.
pub open spec fn hex_digit_value(c: char) -> int {
    if '0' <= c <= '9' {
        c as int - '0' as int
    } else if 'a' <= c <= 'f' {
        c as int - 'a' as int + 10
    } else {
        c as int - 'A' as int + 10
    }
}

/// Every character of `s` is a decimal digit.
pub open spec fn all_digits(s: Seq<char>) -> bool {
    forall|i: int| 0 <= i < s.len() ==> is_digit(#[trigger] s[i])
}

/// Every character of `s` is a hexadecimal digit.
pub open spec fn all_hex_digits(s: Seq<char>) -> bool {
    forall|i: int| 0 <= i < s.len() ==> is_hex_digit(#[trigger] s[i])
}

/// The value of a numeral in base `radix`, most significant digit first.
pub open spec fn numeral_value(s: Seq<char>, radix: int) -> int
    decreases s.len(),
{
    if s.len() == 0 {
        0
    } else {
        numeral_value(s.drop_last(), radix) * radix + hex_digit_value(s.last())
    }
}

/// The signed magnitude `s` spells, as `i32::from_str` reads it: an optional
/// `+` or `-`, then one or more decimal digits. `None` for anything else.
pub open spec fn signed_numeral(s: Seq<char>) -> Option<int> {
    if s.len() == 0 {
        None
    } else {
        let neg = s[0] == '-';
        let ds = if s[0] == '-' || s[0] == '+' { s.drop_first() } else { s };
        if ds.len() == 0 || !all_digits(ds) {
            None
        } else if neg {
            Some(-numeral_value(ds, 10))
        } else {
            Some(numeral_value(ds, 10))
        }
    }
}

/// The value `s` spells, as `u32::from_str` reads it: an optional `+`, then
/// one or more decimal digits. `None` for anything else, a `-` included.
pub open spec fn unsigned_numeral(s: Seq<char>) -> Option<int> {
    if s.len() == 0 {
        None
    } else {
        let ds = if s[0] == '+' { s.drop_first() } else { s };
        if ds.len() == 0 || !all_digits(ds) {
            None
        } else {
            Some(numeral_value(ds, 10))
        }
    }
}

/// `i32::from_str`: the numeral's value where it fits an `i32`.
pub open spec fn spec_parse_i32(s: Seq<char>) -> Option<i32> {
    match signed_numeral(s) {
        Some(v) => if i32::MIN <= v <= i32::MAX {
            Some(v as i32)
        } else {
            None
        },
        None => None,
    }
}

/// `u32::from_str`: the numeral's value where it fits a `u32`.
pub open spec fn spec_parse_u32(s: Seq<char>) -> Option<u32> {
    match unsigned_numeral(s) {
        Some(v) => if v <= u32::MAX {
            Some(v as u32)
        } else {
            None
        },
        None => None,
    }
}

/// Where the digits count stops mattering for a 32-bit result.
pub open spec fn cap() -> int {
    0x1_0000_0000
}

pub open spec fn min(a: int, b: int) -> int {
    if a <= b {
        a
    } else {
        b
    }
}

proof fn lemma_numeral_nonneg(s: Seq<char>, radix: int)
    requires
        radix >= 1,
        forall|i: int| 0 <= i < s.len() ==> 0 <= hex_digit_value(#[trigger] s[i]),
    ensures
        numeral_value(s, radix) >= 0,
    decreases s.len(),
{
    if s.len() > 0 {
        lemma_numeral_nonneg(s.drop_last(), radix);
        assert(0 <= hex_digit_value(s[s.len() - 1]));
        assert(numeral_value(s.drop_last(), radix) * radix >= 0) by (nonlinear_arith)
            requires numeral_value(s.drop_last(), radix) >= 0, radix >= 1;
    }
}

/// The value of the decimal digits `s[from..]`, capped at `cap()`, or `None`
/// when that range is empty or holds a non-digit.
fn capped_decimal(s: &[char], from: usize) -> (r: Option<u64>)
    requires
        from <= s@.len(),
    ensures
        r is Some <==> (from < s@.len() && all_digits(s@.subrange(from as int, s@.len() as int))),
        r matches Some(v) ==> v == min(numeral_value(s@.subrange(from as int, s@.len() as int), 10), cap()),
{
    let n = s.len();
    if from >= n {
        return None;
    }
    let mut acc: u64 = 0;
    let mut i = from;
    while i < n
        invariant
            n == s@.len(),
            from < n,
            from <= i <= n,
            all_digits(s@.subrange(from as int, i as int)),
            acc == min(numeral_value(s@.subrange(from as int, i as int), 10), cap()),
        decreases n - i,
    {
        let c = s[i];
        if !('0' <= c && c <= '9') {
            assert(!is_digit(s@.subrange(from as int, n as int)[i - from]));
            return None;
        }
        let d = (c as u64) - ('0' as u64);
        let ghost pre = s@.subrange(from as int, i as int);
        let ghost next = s@.subrange(from as int, i + 1);
        assert(next.drop_last() =~= pre);
        assert(next.last() == c);
        proof {
            lemma_numeral_nonneg(pre, 10);
            let v = numeral_value(pre, 10);
            assert(numeral_value(next, 10) == v * 10 + d);
            assert(min(v * 10 + d, cap()) == min(min(v, cap()) * 10 + d, cap())) by (nonlinear_arith)
                requires v >= 0, 0 <= d <= 9;
        }
        let t = acc * 10 + d;
        acc = if t > 0x1_0000_0000 { 0x1_0000_0000 } else { t };
        i = i + 1;
    }
    assert(all_digits(s@.subrange(from as int, n as int)));
    Some(acc)
}

/// Reads a decimal `i32` as `i32::from_str` does.
pub fn parse_i32(s: &[char]) -> (r: Option<i32>)
    ensures
        r == spec_parse_i32(s@),
{
    if s.len() == 0 {
        return None;
    }
    let neg = s[0] == '-';
    let from: usize = if s[0] == '-' || s[0] == '+' { 1 } else { 0 };
    let ghost ds = if s@[0] == '-' || s@[0] == '+' { s@.drop_first() } else { s@ };
    assert(ds =~= s@.subrange(from as int, s@.len() as int));
    match capped_decimal(s, from) {
        None => None,
        Some(v) => {
            proof { lemma_numeral_nonneg(ds, 10); }
            if neg {
                if v <= 0x8000_0000 {
                    Some((0 - (v as i64)) as i32)
                } else {
                    None
                }
            } else {
                if v <= 0x7fff_ffff {
                    Some(v as i32)
                } else {
                    None
                }
            }
        },
    }
}

/// Reads a decimal `u32` as `u32::from_str` does.
pub fn parse_u32(s: &[char]) -> (r: Option<u32>)
    ensures
        r == spec_parse_u32(s@),
{
    if s.len() == 0 {
        return None;
    }
    let from: usize = if s[0] == '+' { 1 } else { 0 };
    let ghost ds = if s@[0] == '+' { s@.drop_first() } else { s@ };
    assert(ds =~= s@.subrange(from as int, s@.len() as int));
    match capped_decimal(s, from) {
        None => None,
        Some(v) => {
            proof { lemma_numeral_nonneg(ds, 10); }
            if v <= 0xffff_ffff {
                Some(v as u32)
            } else {
                None
            }
        },
    }
}

/// The value of a hexadecimal digit.
pub fn hex_digit(c: char) -> (d: u32)
    requires
        is_hex_digit(c),
    ensures
        d == hex_digit_value(c),
        d < 16,
{
    if '0' <= c && c <= '9' {
        (c as u32) - ('0' as u32)
    } else if 'a' <= c && c <= 'f' {
        (c as u32) - ('a' as u32) + 10
    } else {
        (c as u32) - ('A' as u32) + 10
    }
}

/// Sixteen to the `k`.
pub open spec fn pow16(k: nat) -> int
    decreases k,
{
    if k == 0 {
        1
    } else {
        16 * pow16((k - 1) as nat)
    }
}

proof fn lemma_pow16_pos(k: nat)
    ensures
        pow16(k) >= 1,
    decreases k,
{
    if k > 0 {
        lemma_pow16_pos((k - 1) as nat);
    }
}

/// The value of at most seven hexadecimal digits, which always fits a `u32`.
pub fn hex_value(s: &[char]) -> (v: u32)
    requires
        s@.len() <= 7,
        all_hex_digits(s@),
    ensures
        v == numeral_value(s@, 16),
        v < 0x1000_0000,
{
    let mut acc: u32 = 0;
    let mut i: usize = 0;
    let ghost mut bound: int = 1;
    assert(pow16(7) == 0x1000_0000) by {
        reveal_with_fuel(pow16, 8);
    }
    while i < s.len()
        invariant
            i <= s@.len() <= 7,
            all_hex_digits(s@),
            acc == numeral_value(s@.subrange(0, i as int), 16),
            0 <= acc < bound,
            bound * pow16((7 - i) as nat) == 0x1000_0000,
        decreases s@.len() - i,
    {
        let d = hex_digit(s[i]);
        assert(s@.subrange(0, i + 1).drop_last() =~= s@.subrange(0, i as int));
        proof {
            let p = pow16((6 - i) as nat);
            assert(pow16((7 - i) as nat) == 16 * p);
            lemma_pow16_pos((6 - i) as nat);
            assert(acc * 16 + d < bound * 16) by (nonlinear_arith)
                requires acc < bound, d < 16;
            assert((bound * 16) * p == 0x1000_0000) by (nonlinear_arith)
                requires bound * (16 * p) == 0x1000_0000;
            assert(bound * 16 <= 0x1000_0000) by (nonlinear_arith)
                requires (bound * 16) * p == 0x1000_0000, p >= 1, bound >= 1;
            bound = bound * 16;
        }
        acc = acc * 16 + d;
        i = i + 1;
    }
    proof {
        lemma_pow16_pos((7 - i) as nat);
        assert(bound <= 0x1000_0000) by (nonlinear_arith)
            requires bound * pow16((7 - i) as nat) == 0x1000_0000, pow16((7 - i) as nat) >= 1, bound >= 1;
    }
    assert(s@.subrange(0, s@.len() as int) =~= s@);
    acc
}

/// The decimal digits of `n`, most significant first, with no leading zero.
pub open spec fn decimal(n: nat) -> Seq<char>
    decreases n,
{
    if n < 10 {
        seq![((n + '0' as int) as char)]
    } else {
        decimal(n / 10).push(((n % 10) + '0' as int) as char)
    }
}

/// `n` as `format!("{:02}", n)` writes it: its decimal digits, zero-padded to
/// at least two.
pub open spec fn two_digits(n: nat) -> Seq<char> {
    if n < 10 {
        seq!['0', ((n + '0' as int) as char)]
    } else {
        decimal(n)
    }
}

/// The digit character for `d`.
pub open spec fn digit_char(d: int) -> char {
    (d + '0' as int) as char
}

/// `decimal(n)` is a numeral of one or more digits whose value is `n`.
pub proof fn lemma_decimal(n: nat)
    ensures
        decimal(n).len() >= 1,
        all_digits(decimal(n)),
        numeral_value(decimal(n), 10) == n,
        decimal(n)[0] != '-' && decimal(n)[0] != '+',
    decreases n,
{
    if n < 10 {
        let s = decimal(n);
        assert(s.drop_last() =~= Seq::<char>::empty());
        assert(numeral_value(s.drop_last(), 10) == 0);
    } else {
        lemma_decimal(n / 10);
        let d = decimal(n / 10);
        let s = decimal(n);
        assert(s.drop_last() =~= d);
        assert forall|i: int| 0 <= i < s.len() implies is_digit(#[trigger] s[i]) by {
            if i < d.len() {
                assert(s[i] == d[i]);
            }
        }
        assert(n == (n / 10) * 10 + n % 10);
    }
}

/// Law: every number from 0 to `i32::MAX`, written in decimal, reads back as
/// itself, and with a `-` in front, as its negation (down to `i32::MIN`).
pub proof fn lemma_parse_i32_decimal(n: nat)
    requires
        n <= 0x8000_0000,
    ensures
        n <= i32::MAX ==> spec_parse_i32(decimal(n)) == Some(n as i32),
        n <= i32::MAX ==> spec_parse_i32(seq!['+'] + decimal(n)) == Some(n as i32),
        spec_parse_i32(seq!['-'] + decimal(n)) == Some((-n) as i32),
{
    lemma_decimal(n);
    assert((seq!['+'] + decimal(n)).drop_first() =~= decimal(n));
    assert((seq!['-'] + decimal(n)).drop_first() =~= decimal(n));
}

/// Law: every `u32`, written in decimal, reads back as itself; a `-` in front
/// is refused, even before zero.
pub proof fn lemma_parse_u32_decimal(n: nat)
    requires
        n <= u32::MAX,
    ensures
        spec_parse_u32(decimal(n)) == Some(n as u32),
        spec_parse_u32(seq!['+'] + decimal(n)) == Some(n as u32),
        spec_parse_u32(seq!['-'] + decimal(n)) is None,
{
    lemma_decimal(n);
    assert((seq!['+'] + decimal(n)).drop_first() =~= decimal(n));
    assert(!is_digit((seq!['-'] + decimal(n))[0]));
}

/// Law: a number past the range of the type does not read, however it is
/// written, and a reading needs one or more decimal digits after at most one
/// leading sign.
pub proof fn lemma_parse_rejects(n: nat, s: Seq<char>)
    ensures
        n > i32::MAX ==> spec_parse_i32(decimal(n)) is None,
        n > 0x8000_0000 ==> spec_parse_i32(seq!['-'] + decimal(n)) is None,
        n > u32::MAX ==> spec_parse_u32(decimal(n)) is None,
        spec_parse_i32(s) is Some || spec_parse_u32(s) is Some ==> {
            let start = if s[0] == '-' || s[0] == '+' { 1int } else { 0int };
            &&& s.len() > start
            &&& forall|i: int| start <= i < s.len() ==> '0' <= #[trigger] s[i] <= '9'
        },
{
    lemma_decimal(n);
    assert((seq!['-'] + decimal(n)).drop_first() =~= decimal(n));
    if spec_parse_i32(s) is Some || spec_parse_u32(s) is Some {
        assert forall|i: int| (if s[0] == '-' || s[0] == '+' { 1int } else { 0int }) <= i < s.len() implies '0' <= #[trigger] s[i] <= '9' by {
            if s[0] == '-' || s[0] == '+' {
                assert(s.drop_first()[i - 1] == s[i]);
                assert(is_digit(s.drop_first()[i - 1]));
            } else {
                assert(is_digit(s[i]));
            }
        }
    }
}

} // verus!
