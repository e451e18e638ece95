//! Parsing and rendering of the integer payloads of `Int` and `Hex`
//! symbols: decimal and `0x`-prefixed hexadecimal `u64` values.

use vstd::prelude::*;

verus! {

/// Value of a decimal digit character, absent for any other character.
pub open spec fn spec_dec_digit(c: char) -> Option<int> {
    if c == '0' {
        Some(0)
    } else if c == '1' {
        Some(1)
    } else if c == '2' {
        Some(2)
    } else if c == '3' {
        Some(3)
    } else if c == '4' {
        Some(4)
    } else if c == '5' {
        Some(5)
    } else if c == '6' {
        Some(6)
    } else if c == '7' {
        Some(7)
    } else if c == '8' {
        Some(8)
    } else if c == '9' {
        Some(9)
    } else {
        None
    }
}

/// Value of a hexadecimal digit character, either case, absent otherwise.
pub open spec fn spec_hex_digit(c: char) -> Option<int> {
    if c == 'a' || c == 'A' {
        Some(10)
    } else if c == 'b' || c == 'B' {
        Some(11)
    } else if c == 'c' || c == 'C' {
        Some(12)
    } else if c == 'd' || c == 'D' {
        Some(13)
    } else if c == 'e' || c == 'E' {
        Some(14)
    } else if c == 'f' || c == 'F' {
        Some(15)
    } else {
        spec_dec_digit(c)
    }
}

/// All characters are decimal digits and there is at least one.
pub open spec fn spec_is_dec(s: Seq<char>) -> bool {
    s.len() > 0 && forall|i: int| 0 <= i < s.len() ==> spec_dec_digit(s[i]) is Some
}

/// All characters are hexadecimal digits and there is at least one.
pub open spec fn spec_is_hex(s: Seq<char>) -> bool {
    s.len() > 0 && forall|i: int| 0 <= i < s.len() ==> spec_hex_digit(s[i]) is Some
}

/// Mathematical value of a sequence of decimal digits.
pub open spec fn spec_dec_val(s: Seq<char>) -> int
    decreases s.len(),
{
    if s.len() == 0 {
        0
    } else {
        spec_dec_val(s.drop_last()) * 10 + spec_dec_digit(s.last()).unwrap_or(0)
    }
}

/// Mathematical value of a sequence of hexadecimal digits.
pub open spec fn spec_hex_val(s: Seq<char>) -> int
    decreases s.len(),
{
    if s.len() == 0 {
        0
    } else {
        spec_hex_val(s.drop_last()) * 16 + spec_hex_digit(s.last()).unwrap_or(0)
    }
}

/// What parsing a decimal string yields: the value if every character is a
/// digit and the value fits in a `u64`, nothing otherwise.
pub open spec fn spec_parse_dec(s: Seq<char>) -> Option<u64> {
    if spec_is_dec(s) && spec_dec_val(s) <= u64::MAX {
        Some(spec_dec_val(s) as u64)
    } else {
        None
    }
}

/// What parsing a string of hexadecimal digits (without a `0x` prefix) yields.
pub open spec fn spec_parse_hex(s: Seq<char>) -> Option<u64> {
    if spec_is_hex(s) && spec_hex_val(s) <= u64::MAX {
        Some(spec_hex_val(s) as u64)
    } else {
        None
    }
}

proof fn lemma_dec_val_grows(s: Seq<char>, i: int)
    requires
        0 <= i <= s.len(),
        forall|j: int| 0 <= j < s.len() ==> spec_dec_digit(s[j]) is Some,
    ensures
        spec_dec_val(s.take(i)) <= spec_dec_val(s),
    decreases s.len() - i,
{
    if i < s.len() {
        assert(s.take(i + 1).drop_last() =~= s.take(i));
        assert(spec_dec_val(s.take(i)) * 10 + spec_dec_digit(s[i]).unwrap_or(0) == spec_dec_val(
            s.take(i + 1),
        ));
        assert(spec_dec_val(s.take(i)) <= spec_dec_val(s.take(i + 1))) by {
            lemma_dec_val_nonneg(s.take(i));
        }
        lemma_dec_val_grows(s, i + 1);
    } else {
        assert(s.take(i) =~= s);
    }
}

proof fn lemma_dec_val_nonneg(s: Seq<char>)
    ensures
        spec_dec_val(s) >= 0,
    decreases s.len(),
{
    if s.len() > 0 {
        lemma_dec_val_nonneg(s.drop_last());
    }
}

proof fn lemma_hex_val_grows(s: Seq<char>, i: int)
    requires
        0 <= i <= s.len(),
        forall|j: int| 0 <= j < s.len() ==> spec_hex_digit(s[j]) is Some,
    ensures
        spec_hex_val(s.take(i)) <= spec_hex_val(s),
    decreases s.len() - i,
{
    if i < s.len() {
        assert(s.take(i + 1).drop_last() =~= s.take(i));
        assert(spec_hex_val(s.take(i)) * 16 + spec_hex_digit(s[i]).unwrap_or(0) == spec_hex_val(
            s.take(i + 1),
        ));
        assert(spec_hex_val(s.take(i)) <= spec_hex_val(s.take(i + 1))) by {
            lemma_hex_val_nonneg(s.take(i));
        }
        lemma_hex_val_grows(s, i + 1);
    } else {
        assert(s.take(i) =~= s);
    }
}

proof fn lemma_hex_val_nonneg(s: Seq<char>)
    ensures
        spec_hex_val(s) >= 0,
    decreases s.len(),
{
    if s.len() > 0 {
        lemma_hex_val_nonneg(s.drop_last());
    }
}

fn dec_digit(c: char) -> (r: Option<u64>)
    ensures
        r is Some <==> spec_dec_digit(c) is Some,
        r is Some ==> r->Some_0 as int == spec_dec_digit(c)->Some_0,
{
    if c == '0' {
        Some(0)
    } else if c == '1' {
        Some(1)
    } else if c == '2' {
        Some(2)
    } else if c == '3' {
        Some(3)
    } else if c == '4' {
        Some(4)
    } else if c == '5' {
        Some(5)
    } else if c == '6' {
        Some(6)
    } else if c == '7' {
        Some(7)
    } else if c == '8' {
        Some(8)
    } else if c == '9' {
        Some(9)
    } else {
        None
    }
}

fn hex_digit(c: char) -> (r: Option<u64>)
    ensures
        r is Some <==> spec_hex_digit(c) is Some,
        r is Some ==> r->Some_0 as int == spec_hex_digit(c)->Some_0,
{
    if c == 'a' || c == 'A' {
        Some(10)
    } else if c == 'b' || c == 'B' {
        Some(11)
    } else if c == 'c' || c == 'C' {
        Some(12)
    } else if c == 'd' || c == 'D' {
        Some(13)
    } else if c == 'e' || c == 'E' {
        Some(14)
    } else if c == 'f' || c == 'F' {
        Some(15)
    } else {
        dec_digit(c)
    }
}

/// Parse a decimal `u64`, refusing empty strings, non-digit characters and
/// values that do not fit.
pub fn parse_dec(s: &str) -> (r: Option<u64>)
    ensures
        r == spec_parse_dec(s@),
{
    let n = s.unicode_len();
    if n == 0 {
        return None;
    }
    let mut acc: u64 = 0;
    let mut i: usize = 0;
    while i < n
        invariant
            n == s@.len(),
            0 <= i <= n,
            forall|j: int| 0 <= j < i ==> spec_dec_digit(s@[j]) is Some,
            acc as int == spec_dec_val(s@.take(i as int)),
        decreases n - i,
    {
        let c = s.get_char(i);
        match dec_digit(c) {
            None => {
                return None;
            },
            Some(d) => {
                proof {
                    assert(s@.take(i + 1).drop_last() =~= s@.take(i as int));
                }
                if acc > (u64::MAX - d) / 10 {
                    proof {
                        assert(acc as int * 10 + d > u64::MAX) by (nonlinear_arith)
                            requires
                                acc > (u64::MAX - d) / 10,
                                0 <= d <= 9,
                        ;
                        if spec_is_dec(s@) {
                            lemma_dec_val_grows(s@, i + 1);
                        }
                    }
                    return None;
                }
                proof {
                    assert(acc as int * 10 + d <= u64::MAX) by (nonlinear_arith)
                        requires
                            acc <= (u64::MAX - d) / 10,
                            0 <= d <= 9,
                    ;
                }
                acc = acc * 10 + d;
            },
        }
        i += 1;
    }
    proof {
        assert(s@.take(n as int) =~= s@);
    }
    Some(acc)
}

/// Parse a `u64` from hexadecimal digits (no `0x` prefix, either case),
/// refusing empty strings, other characters and values that do not fit.
pub fn parse_hex(s: &str) -> (r: Option<u64>)
    ensures
        r == spec_parse_hex(s@),
{
    let n = s.unicode_len();
    if n == 0 {
        return None;
    }
    let mut acc: u64 = 0;
    let mut i: usize = 0;
    while i < n
        invariant
            n == s@.len(),
            0 <= i <= n,
            forall|j: int| 0 <= j < i ==> spec_hex_digit(s@[j]) is Some,
            acc as int == spec_hex_val(s@.take(i as int)),
        decreases n - i,
    {
        let c = s.get_char(i);
        match hex_digit(c) {
            None => {
                return None;
            },
            Some(d) => {
                proof {
                    assert(s@.take(i + 1).drop_last() =~= s@.take(i as int));
                }
                if acc > (u64::MAX - d) / 16 {
                    proof {
                        assert(acc as int * 16 + d > u64::MAX) by (nonlinear_arith)
                            requires
                                acc > (u64::MAX - d) / 16,
                                0 <= d <= 15,
                        ;
                        if spec_is_hex(s@) {
                            lemma_hex_val_grows(s@, i + 1);
                        }
                    }
                    return None;
                }
                proof {
                    assert(acc as int * 16 + d <= u64::MAX) by (nonlinear_arith)
                        requires
                            acc <= (u64::MAX - d) / 16,
                            0 <= d <= 15,
                    ;
                }
                acc = acc * 16 + d;
            },
        }
        i += 1;
    }
    proof {
        assert(s@.take(n as int) =~= s@);
    }
    Some(acc)
}

/// The decimal digit character for a value below ten.
pub open spec fn spec_dec_digit_char(d: int) -> char {
    if d == 0 {
        '0'
    } else if d == 1 {
        '1'
    } else if d == 2 {
        '2'
    } else if d == 3 {
        '3'
    } else if d == 4 {
        '4'
    } else if d == 5 {
        '5'
    } else if d == 6 {
        '6'
    } else if d == 7 {
        '7'
    } else if d == 8 {
        '8'
    } else {
        '9'
    }
}

/// The lower-case hexadecimal digit character for a value below sixteen.
pub open spec fn spec_hex_digit_char(d: int) -> char {
    if d < 10 {
        spec_dec_digit_char(d)
    } else if d == 10 {
        'a'
    } else if d == 11 {
        'b'
    } else if d == 12 {
        'c'
    } else if d == 13 {
        'd'
    } else if d == 14 {
        'e'
    } else {
        'f'
    }
}

/// Canonical decimal rendering of a value.
pub open spec fn spec_dec_str(v: int) -> Seq<char>
    decreases v,
{
    if v < 10 {
        seq![spec_dec_digit_char(v)]
    } else {
        spec_dec_str(v / 10).push(spec_dec_digit_char(v % 10))
    }
}

/// Canonical lower-case hexadecimal rendering of a value, without prefix.
pub open spec fn spec_hex_str(v: int) -> Seq<char>
    decreases v,
{
    if v < 16 {
        seq![spec_hex_digit_char(v)]
    } else {
        spec_hex_str(v / 16).push(spec_hex_digit_char(v % 16))
    }
}

fn dec_digit_str(d: u64) -> (r: &'static str)
    requires
        d < 10,
    ensures
        r@ =~= seq![spec_dec_digit_char(d as int)],
{
    proof {
        reveal_strlit("0");
        reveal_strlit("1");
        reveal_strlit("2");
        reveal_strlit("3");
        reveal_strlit("4");
        reveal_strlit("5");
        reveal_strlit("6");
        reveal_strlit("7");
        reveal_strlit("8");
        reveal_strlit("9");
    }
    if d == 0 {
        "0"
    } else if d == 1 {
        "1"
    } else if d == 2 {
        "2"
    } else if d == 3 {
        "3"
    } else if d == 4 {
        "4"
    } else if d == 5 {
        "5"
    } else if d == 6 {
        "6"
    } else if d == 7 {
        "7"
    } else if d == 8 {
        "8"
    } else {
        "9"
    }
}

fn hex_digit_str(d: u64) -> (r: &'static str)
    requires
        d < 16,
    ensures
        r@ =~= seq![spec_hex_digit_char(d as int)],
{
    proof {
        reveal_strlit("a");
        reveal_strlit("b");
        reveal_strlit("c");
        reveal_strlit("d");
        reveal_strlit("e");
        reveal_strlit("f");
    }
    if d < 10 {
        dec_digit_str(d)
    } else if d == 10 {
        "a"
    } else if d == 11 {
        "b"
    } else if d == 12 {
        "c"
    } else if d == 13 {
        "d"
    } else if d == 14 {
        "e"
    } else {
        "f"
    }
}

/// Render a value in decimal.
pub fn format_dec(v: u64) -> (r: String)
    ensures
        r@ == spec_dec_str(v as int),
    decreases v,
{
    if v < 10 {
        let mut s = String::new();
        s.append(dec_digit_str(v));
        proof {
            assert(s@ =~= spec_dec_str(v as int));
        }
        s
    } else {
        let mut s = format_dec(v / 10);
        s.append(dec_digit_str(v % 10));
        proof {
            assert(s@ =~= spec_dec_str(v as int));
        }
        s
    }
}

/// Render a value as `0x` followed by lower-case hexadecimal digits.
pub fn format_hex_prefixed(v: u64) -> (r: String)
    ensures
        r@ == seq!['0', 'x'] + spec_hex_str(v as int),
{
    proof {
        reveal_strlit("0x");
    }
    let mut s = String::new();
    s.append("0x");
    let digits = format_hex_digits(v);
    s.append(digits.as_str());
    s
}

fn format_hex_digits(v: u64) -> (r: String)
    ensures
        r@ == spec_hex_str(v as int),
    decreases v,
{
    if v < 16 {
        let mut s = String::new();
        s.append(hex_digit_str(v));
        proof {
            assert(s@ =~= spec_hex_str(v as int));
        }
        s
    } else {
        let mut s = format_hex_digits(v / 16);
        s.append(hex_digit_str(v % 16));
        proof {
            assert(s@ =~= spec_hex_str(v as int));
        }
        s
    }
}

/// The decimal rendering of any `u64` parses back to the same value.
pub proof fn lemma_dec_round_trip(v: u64)
    ensures
        spec_parse_dec(spec_dec_str(v as int)) == Some(v),
{
    lemma_dec_str_digits(v as int);
    lemma_dec_str_val(v as int);
}

proof fn lemma_dec_str_digits(v: int)
    requires
        v >= 0,
    ensures
        spec_is_dec(spec_dec_str(v)),
    decreases v,
{
    if v >= 10 {
        lemma_dec_str_digits(v / 10);
        assert forall|i: int| 0 <= i < spec_dec_str(v).len() implies spec_dec_digit(
            spec_dec_str(v)[i],
        ) is Some by {
            if i < spec_dec_str(v / 10).len() {
                assert(spec_dec_str(v)[i] == spec_dec_str(v / 10)[i]);
            }
        }
    }
}

proof fn lemma_digit_char_val(d: int)
    requires
        0 <= d < 10,
    ensures
        spec_dec_digit(spec_dec_digit_char(d)) == Some(d),
{
}

proof fn lemma_hex_digit_char_val(d: int)
    requires
        0 <= d < 16,
    ensures
        spec_hex_digit(spec_hex_digit_char(d)) == Some(d),
{
}

proof fn lemma_dec_str_val(v: int)
    requires
        v >= 0,
    ensures
        spec_dec_val(spec_dec_str(v)) == v,
    decreases v,
{
    if v < 10 {
        lemma_digit_char_val(v);
        assert(spec_dec_val(Seq::<char>::empty()) == 0);
        assert(spec_dec_str(v).drop_last() =~= Seq::<char>::empty());
        assert(spec_dec_str(v).last() == spec_dec_digit_char(v));
    } else {
        lemma_digit_char_val(v % 10);
        lemma_dec_str_val(v / 10);
        assert(spec_dec_str(v).drop_last() =~= spec_dec_str(v / 10));
        assert(spec_dec_str(v).last() == spec_dec_digit_char(v % 10));
    }
}

/// The hexadecimal rendering of any `u64` parses back to the same value.
pub proof fn lemma_hex_round_trip(v: u64)
    ensures
        spec_parse_hex(spec_hex_str(v as int)) == Some(v),
{
    lemma_hex_str_digits(v as int);
    lemma_hex_str_val(v as int);
}

proof fn lemma_hex_str_digits(v: int)
    requires
        v >= 0,
    ensures
        spec_is_hex(spec_hex_str(v)),
    decreases v,
{
    if v >= 16 {
        lemma_hex_str_digits(v / 16);
        assert forall|i: int| 0 <= i < spec_hex_str(v).len() implies spec_hex_digit(
            spec_hex_str(v)[i],
        ) is Some by {
            if i < spec_hex_str(v / 16).len() {
                assert(spec_hex_str(v)[i] == spec_hex_str(v / 16)[i]);
            }
        }
    }
}

proof fn lemma_hex_str_val(v: int)
    requires
        v >= 0,
    ensures
        spec_hex_val(spec_hex_str(v)) == v,
    decreases v,
{
    if v < 16 {
        lemma_hex_digit_char_val(v);
        assert(spec_hex_val(Seq::<char>::empty()) == 0);
        assert(spec_hex_str(v).drop_last() =~= Seq::<char>::empty());
        assert(spec_hex_str(v).last() == spec_hex_digit_char(v));
    } else {
        lemma_hex_digit_char_val(v % 16);
        lemma_hex_str_val(v / 16);
        assert(spec_hex_str(v).drop_last() =~= spec_hex_str(v / 16));
        assert(spec_hex_str(v).last() == spec_hex_digit_char(v % 16));
    }
}

/// Where the first `.` in a version string sits, if any.
pub open spec fn spec_dot_from(s: Seq<char>, i: int) -> Option<int>
    decreases s.len() - i,
{
    if i < 0 || i >= s.len() {
        None
    } else if s[i] == '.' {
        Some(i)
    } else {
        spec_dot_from(s, i + 1)
    }
}

/// What parsing `major.minor[.patch]` yields: the three decimal parts,
/// with a missing patch read as zero; anything else is refused.
pub open spec fn spec_kernel_version(s: Seq<char>) -> Option<(u32, u32, u32)> {
    match spec_dot_from(s, 0) {
        None => None,
        Some(d1) => {
            let major = spec_parse_dec(s.take(d1));
            let rest = s.skip(d1 + 1);
            match major {
                None => None,
                Some(ma) => {
                    if ma > u32::MAX {
                        None
                    } else {
                        match spec_dot_from(rest, 0) {
                            None => match spec_parse_dec(rest) {
                                Some(mi) => if mi > u32::MAX {
                                    None
                                } else {
                                    Some((ma as u32, mi as u32, 0))
                                },
                                None => None,
                            },
                            Some(d2) => match (
                                spec_parse_dec(rest.take(d2)),
                                spec_parse_dec(rest.skip(d2 + 1)),
                            ) {
                                (Some(mi), Some(pa)) => if mi > u32::MAX || pa > u32::MAX {
                                    None
                                } else {
                                    Some((ma as u32, mi as u32, pa as u32))
                                },
                                _ => None,
                            },
                        }
                    }
                },
            }
        },
    }
}

fn find_dot(s: &str) -> (r: Option<usize>)
    ensures
        match r {
            Some(p) => spec_dot_from(s@, 0) == Some(p as int) && p < s@.len(),
            None => spec_dot_from(s@, 0) is None,
        },
{
    let n = s.unicode_len();
    let mut i: usize = 0;
    while i < n
        invariant
            n == s@.len(),
            0 <= i <= n,
            spec_dot_from(s@, 0) == spec_dot_from(s@, i as int),
        decreases n - i,
    {
        if s.get_char(i) == '.' {
            return Some(i);
        }
        i += 1;
    }
    None
}

fn parse_dec_u32(s: &str) -> (r: Option<u32>)
    ensures
        r == (match spec_parse_dec(s@) {
            Some(v) => if v > u32::MAX {
                None::<u32>
            } else {
                Some(v as u32)
            },
            None => None::<u32>,
        }),
{
    match parse_dec(s) {
        Some(v) => {
            if v > 0xffff_ffff {
                None
            } else {
                Some(v as u32)
            }
        },
        None => None,
    }
}

/// Parse a kernel version string `major.minor[.patch]` into its three
/// decimal parts, a missing patch read as zero.
pub fn parse_kernel_version(ver: &str) -> (r: Option<(u32, u32, u32)>)
    ensures
        r == spec_kernel_version(ver@),
{
    let n = ver.unicode_len();
    let d1 = match find_dot(ver) {
        Some(d) => d,
        None => {
            return None;
        },
    };
    let major_str = ver.substring_char(0, d1);
    proof {
        assert(major_str@ =~= ver@.take(d1 as int));
    }
    let major = match parse_dec_u32(major_str) {
        Some(m) => m,
        None => {
            return None;
        },
    };
    let rest = ver.substring_char(d1 + 1, n);
    proof {
        assert(rest@ =~= ver@.skip(d1 + 1));
    }
    match find_dot(rest) {
        None => match parse_dec_u32(rest) {
            Some(mi) => Some((major, mi, 0)),
            None => None,
        },
        Some(d2) => {
            let rn = rest.unicode_len();
            let mi_str = rest.substring_char(0, d2);
            let pa_str = rest.substring_char(d2 + 1, rn);
            proof {
                assert(mi_str@ =~= rest@.take(d2 as int));
                assert(pa_str@ =~= rest@.skip(d2 + 1));
            }
            match (parse_dec_u32(mi_str), parse_dec_u32(pa_str)) {
                (Some(mi), Some(pa)) => Some((major, mi, pa)),
                _ => None,
            }
        },
    }
}

} // verus!
