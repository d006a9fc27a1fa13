use vstd::prelude::*;

use vstd::arithmetic::div_mod::lemma_div_pos_is_pos;

use crate::decimal::{
    all_digits, digit_value, digits_value, is_digit, lemma_digits_concat, lemma_fraction_below,
    lemma_fraction_step, lemma_pow10_positive, lemma_scale_split, lemma_single_digit, pow10, saturate,
};
use crate::error::{ByteError, SizeFault, UnitIncorrectError, ValueIncorrectError};

verus! {

/// Bytes in one KB.
pub const KILOBYTE: u128 = 1_000;
/// Bytes in one KiB.
pub const KIBIBYTE: u128 = 1_024;
/// Bytes in one MB.
pub const MEGABYTE: u128 = 1_000_000;
/// Bytes in one MiB.
pub const MEBIBYTE: u128 = 1_048_576;
/// Bytes in one GB.
pub const GIGABYTE: u128 = 1_000_000_000;
/// Bytes in one GiB.
pub const GIBIBYTE: u128 = 1_073_741_824;
/// Bytes in one TB.
pub const TERABYTE: u128 = 1_000_000_000_000;
/// Bytes in one TiB.
pub const TEBIBYTE: u128 = 1_099_511_627_776;
/// Bytes in one PB.
pub const PETABYTE: u128 = 1_000_000_000_000_000;
/// Bytes in one PiB.
pub const PEBIBYTE: u128 = 1_125_899_906_842_624;
/// Bytes in one EB.
pub const EXABYTE: u128 = 1_000_000_000_000_000_000;
/// Bytes in one EiB.
pub const EXBIBYTE: u128 = 1_152_921_504_606_846_976;
/// Bytes in one ZB.
pub const ZETTABYTE: u128 = 1_000_000_000_000_000_000_000;
/// Bytes in one ZiB.
pub const ZEBIBYTE: u128 = 1_180_591_620_717_411_303_424;
/// Bytes in one YB.
pub const YOTTABYTE: u128 = 1_000_000_000_000_000_000_000_000;
/// Bytes in one YiB.
pub const YOBIBYTE: u128 = 1_208_925_819_614_629_174_706_176;

/// Convert n KB to bytes.
pub fn n_kb_bytes(bytes: u128) -> (r: u128)
    requires
        bytes * KILOBYTE <= u128::MAX,
    ensures
        r == bytes * KILOBYTE,
{
    bytes * KILOBYTE
}

/// Convert n KiB to bytes.
pub fn n_kib_bytes(bytes: u128) -> (r: u128)
    requires
        bytes * KIBIBYTE <= u128::MAX,
    ensures
        r == bytes * KIBIBYTE,
{
    bytes * KIBIBYTE
}

/// Convert n MB to bytes.
pub fn n_mb_bytes(bytes: u128) -> (r: u128)
    requires
        bytes * MEGABYTE <= u128::MAX,
    ensures
        r == bytes * MEGABYTE,
{
    bytes * MEGABYTE
}

/// Convert n MiB to bytes.
pub fn n_mib_bytes(bytes: u128) -> (r: u128)
    requires
        bytes * MEBIBYTE <= u128::MAX,
    ensures
        r == bytes * MEBIBYTE,
{
    bytes * MEBIBYTE
}

/// Convert n GB to bytes.
pub fn n_gb_bytes(bytes: u128) -> (r: u128)
    requires
        bytes * GIGABYTE <= u128::MAX,
    ensures
        r == bytes * GIGABYTE,
{
    bytes * GIGABYTE
}

/// Convert n GiB to bytes.
pub fn n_gib_bytes(bytes: u128) -> (r: u128)
    requires
        bytes * GIBIBYTE <= u128::MAX,
    ensures
        r == bytes * GIBIBYTE,
{
    bytes * GIBIBYTE
}

/// Convert n TB to bytes.
pub fn n_tb_bytes(bytes: u128) -> (r: u128)
    requires
        bytes * TERABYTE <= u128::MAX,
    ensures
        r == bytes * TERABYTE,
{
    bytes * TERABYTE
}

/// Convert n TiB to bytes.
pub fn n_tib_bytes(bytes: u128) -> (r: u128)
    requires
        bytes * TEBIBYTE <= u128::MAX,
    ensures
        r == bytes * TEBIBYTE,
{
    bytes * TEBIBYTE
}

/// Convert n PB to bytes.
pub fn n_pb_bytes(bytes: u128) -> (r: u128)
    requires
        bytes * PETABYTE <= u128::MAX,
    ensures
        r == bytes * PETABYTE,
{
    bytes * PETABYTE
}

/// Convert n PiB to bytes.
pub fn n_pib_bytes(bytes: u128) -> (r: u128)
    requires
        bytes * PEBIBYTE <= u128::MAX,
    ensures
        r == bytes * PEBIBYTE,
{
    bytes * PEBIBYTE
}

/// Convert n EB to bytes.
pub fn n_eb_bytes(bytes: u128) -> (r: u128)
    requires
        bytes * EXABYTE <= u128::MAX,
    ensures
        r == bytes * EXABYTE,
{
    bytes * EXABYTE
}

/// Convert n EiB to bytes.
pub fn n_eib_bytes(bytes: u128) -> (r: u128)
    requires
        bytes * EXBIBYTE <= u128::MAX,
    ensures
        r == bytes * EXBIBYTE,
{
    bytes * EXBIBYTE
}

/// A unit of byte count: plain bytes, or a decimal (`..B`) or binary (`..iB`)
/// multiple of kilo, mega, giga, tera, peta, exa, zetta or yotta.
#[derive(Copy, Clone, Debug, PartialEq, Eq, Structural)]
pub enum ByteUnit {
    B,
    KB,
    KiB,
    MB,
    MiB,
    GB,
    GiB,
    TB,
    TiB,
    PB,
    PiB,
    EB,
    EiB,
    ZB,
    ZiB,
    YB,
    YiB,
}

/// How many bytes one `u` stands for.
pub open spec fn multiplier(u: ByteUnit) -> nat {
    match u {
        ByteUnit::B => 1,
        ByteUnit::KB => KILOBYTE as nat,
        ByteUnit::KiB => KIBIBYTE as nat,
        ByteUnit::MB => MEGABYTE as nat,
        ByteUnit::MiB => MEBIBYTE as nat,
        ByteUnit::GB => GIGABYTE as nat,
        ByteUnit::GiB => GIBIBYTE as nat,
        ByteUnit::TB => TERABYTE as nat,
        ByteUnit::TiB => TEBIBYTE as nat,
        ByteUnit::PB => PETABYTE as nat,
        ByteUnit::PiB => PEBIBYTE as nat,
        ByteUnit::EB => EXABYTE as nat,
        ByteUnit::EiB => EXBIBYTE as nat,
        ByteUnit::ZB => ZETTABYTE as nat,
        ByteUnit::ZiB => ZEBIBYTE as nat,
        ByteUnit::YB => YOTTABYTE as nat,
        ByteUnit::YiB => YOBIBYTE as nat,
    }
}

/// The position of a unit letter in K, M, G, T, P, E, Z, Y (from 1), in
/// either case; 0 for any other character.
pub open spec fn magnitude(c: char) -> nat {
    if c == 'K' || c == 'k' {
        1
    } else if c == 'M' || c == 'm' {
        2
    } else if c == 'G' || c == 'g' {
        3
    } else if c == 'T' || c == 't' {
        4
    } else if c == 'P' || c == 'p' {
        5
    } else if c == 'E' || c == 'e' {
        6
    } else if c == 'Z' || c == 'z' {
        7
    } else if c == 'Y' || c == 'y' {
        8
    } else {
        0
    }
}

/// The unit of magnitude `m` (1 to 8), binary or decimal.
pub open spec fn unit_for(m: nat, binary: bool) -> ByteUnit {
    if m == 1 {
        if binary { ByteUnit::KiB } else { ByteUnit::KB }
    } else if m == 2 {
        if binary { ByteUnit::MiB } else { ByteUnit::MB }
    } else if m == 3 {
        if binary { ByteUnit::GiB } else { ByteUnit::GB }
    } else if m == 4 {
        if binary { ByteUnit::TiB } else { ByteUnit::TB }
    } else if m == 5 {
        if binary { ByteUnit::PiB } else { ByteUnit::PB }
    } else if m == 6 {
        if binary { ByteUnit::EiB } else { ByteUnit::EB }
    } else if m == 7 {
        if binary { ByteUnit::ZiB } else { ByteUnit::ZB }
    } else if binary {
        ByteUnit::YiB
    } else {
        ByteUnit::YB
    }
}

pub open spec fn unit_fault(c: char, expected: Seq<char>, also_none: bool) -> SizeFault {
    SizeFault::UnitIncorrect { character: c, expected, also_none }
}

pub open spec fn is_b(c: char) -> bool {
    c == 'B' || c == 'b'
}

/// What follows a magnitude letter: `true` for a binary unit (`i`, `iB`, or
/// nothing), `false` for a decimal one (`B`).
pub open spec fn ib_suffix(r: Seq<char>) -> Result<bool, SizeFault> {
    if r.len() == 0 {
        Ok(true)
    } else if r[0] == 'i' || r[0] == 'I' {
        if r.len() == 1 || is_b(r[1]) {
            Ok(true)
        } else {
            Err(unit_fault(r[1], seq!['B'], true))
        }
    } else if is_b(r[0]) {
        if r.len() == 1 {
            Ok(false)
        } else {
            Err(unit_fault(r[1], seq![], false))
        }
    } else {
        Err(unit_fault(r[0], seq!['B', 'i'], true))
    }
}

/// The unit that the characters `u` after the number name.
pub open spec fn unit_of(u: Seq<char>) -> Result<ByteUnit, SizeFault> {
    if u.len() == 0 {
        Ok(ByteUnit::B)
    } else if is_b(u[0]) {
        if u.len() == 1 {
            Ok(ByteUnit::B)
        } else {
            Err(unit_fault(u[1], seq![], false))
        }
    } else if magnitude(u[0]) > 0 {
        match ib_suffix(u.drop_first()) {
            Ok(binary) => Ok(unit_for(magnitude(u[0]), binary)),
            Err(e) => Err(e),
        }
    } else {
        Err(unit_fault(u[0], seq!['B', 'K', 'M', 'G', 'T', 'P', 'E', 'Z'], true))
    }
}

pub open spec fn unit_error_matches(e: UnitIncorrectError, f: SizeFault) -> bool {
    f == (SizeFault::UnitIncorrect {
        character: e.character,
        expected: e.expected_characters@,
        also_none: e.also_expect_no_character,
    })
}

fn unit_error(character: char, expected_characters: Vec<char>, also_expect_no_character: bool) -> (r: UnitIncorrectError)
    ensures
        unit_error_matches(r, unit_fault(character, expected_characters@, also_expect_no_character)),
{
    UnitIncorrectError { character, expected_characters, also_expect_no_character }
}

fn is_b_char(c: char) -> (r: bool)
    ensures
        r == is_b(c),
{
    c == 'B' || c == 'b'
}

fn unit_magnitude(c: char) -> (r: u8)
    ensures
        r as nat == magnitude(c),
{
    if c == 'K' || c == 'k' {
        1
    } else if c == 'M' || c == 'm' {
        2
    } else if c == 'G' || c == 'g' {
        3
    } else if c == 'T' || c == 't' {
        4
    } else if c == 'P' || c == 'p' {
        5
    } else if c == 'E' || c == 'e' {
        6
    } else if c == 'Z' || c == 'z' {
        7
    } else if c == 'Y' || c == 'y' {
        8
    } else {
        0
    }
}

fn unit_of_magnitude(m: u8, binary: bool) -> (r: ByteUnit)
    ensures
        r == unit_for(m as nat, binary),
{
    if m == 1 {
        if binary { ByteUnit::KiB } else { ByteUnit::KB }
    } else if m == 2 {
        if binary { ByteUnit::MiB } else { ByteUnit::MB }
    } else if m == 3 {
        if binary { ByteUnit::GiB } else { ByteUnit::GB }
    } else if m == 4 {
        if binary { ByteUnit::TiB } else { ByteUnit::TB }
    } else if m == 5 {
        if binary { ByteUnit::PiB } else { ByteUnit::PB }
    } else if m == 6 {
        if binary { ByteUnit::EiB } else { ByteUnit::EB }
    } else if m == 7 {
        if binary { ByteUnit::ZiB } else { ByteUnit::ZB }
    } else if binary {
        ByteUnit::YiB
    } else {
        ByteUnit::YB
    }
}

/// Reads the suffix after a magnitude letter, from position `k` of `t` on.
fn read_ib(t: &Vec<char>, k: usize) -> (r: Result<bool, UnitIncorrectError>)
    requires
        k <= t.len(),
    ensures
        match (r, ib_suffix(t@.subrange(k as int, t.len() as int))) {
            (Ok(b), Ok(s)) => b == s,
            (Err(e), Err(f)) => unit_error_matches(e, f),
            _ => false,
        },
{
    let ghost rest = t@.subrange(k as int, t.len() as int);
    if k == t.len() {
        return Ok(true);
    }
    let c = t[k];
    assert(rest[0] == c);
    if c == 'i' || c == 'I' {
        if k + 1 == t.len() {
            Ok(true)
        } else {
            let d = t[k + 1];
            assert(rest[1] == d);
            if is_b_char(d) {
                Ok(true)
            } else {
                let expected = vec!['B'];
                assert(expected@ =~= seq!['B']);
                Err(unit_error(d, expected, true))
            }
        }
    } else if is_b_char(c) {
        if k + 1 == t.len() {
            Ok(false)
        } else {
            let d = t[k + 1];
            assert(rest[1] == d);
            Err(unit_error(d, vec![], false))
        }
    } else {
        let expected = vec!['B', 'i'];
        assert(expected@ =~= seq!['B', 'i']);
        Err(unit_error(c, expected, true))
    }
}

/// Reads the unit named by the characters of `t` from position `k` on.
fn read_xib(t: &Vec<char>, k: usize) -> (r: Result<ByteUnit, UnitIncorrectError>)
    requires
        k <= t.len(),
    ensures
        match (r, unit_of(t@.subrange(k as int, t.len() as int))) {
            (Ok(u), Ok(v)) => u == v,
            (Err(e), Err(f)) => unit_error_matches(e, f),
            _ => false,
        },
{
    let ghost u = t@.subrange(k as int, t.len() as int);
    if k == t.len() {
        return Ok(ByteUnit::B);
    }
    let c = t[k];
    if is_b_char(c) {
        if k + 1 == t.len() {
            Ok(ByteUnit::B)
        } else {
            Err(unit_error(t[k + 1], vec![], false))
        }
    } else {
        let m = unit_magnitude(c);
        if m > 0 {
            assert(u.drop_first() =~= t@.subrange(k + 1, t.len() as int));
            match read_ib(t, k + 1) {
                Ok(binary) => Ok(unit_of_magnitude(m, binary)),
                Err(e) => Err(e),
            }
        } else {
            Err(unit_error(c, vec!['B', 'K', 'M', 'G', 'T', 'P', 'E', 'Z'], true))
        }
    }
}

fn unit_multiplier(u: ByteUnit) -> (r: u128)
    ensures
        r as nat == multiplier(u),
        1 <= r <= YOBIBYTE,
{
    match u {
        ByteUnit::B => 1,
        ByteUnit::KB => KILOBYTE,
        ByteUnit::KiB => KIBIBYTE,
        ByteUnit::MB => MEGABYTE,
        ByteUnit::MiB => MEBIBYTE,
        ByteUnit::GB => GIGABYTE,
        ByteUnit::GiB => GIBIBYTE,
        ByteUnit::TB => TERABYTE,
        ByteUnit::TiB => TEBIBYTE,
        ByteUnit::PB => PETABYTE,
        ByteUnit::PiB => PEBIBYTE,
        ByteUnit::EB => EXABYTE,
        ByteUnit::EiB => EXBIBYTE,
        ByteUnit::ZB => ZETTABYTE,
        ByteUnit::ZiB => ZEBIBYTE,
        ByteUnit::YB => YOTTABYTE,
        ByteUnit::YiB => YOBIBYTE,
    }
}

fn digit_of(c: char) -> (r: u8)
    requires
        is_digit(c),
    ensures
        r as nat == digit_value(c),
        r <= 9,
{
    (c as u32 - '0' as u32) as u8
}

fn is_digit_char(c: char) -> (r: bool)
    ensures
        r == is_digit(c),
{
    '0' <= c && c <= '9'
}

/// The whole bytes in `int_part.frac` units of `u`, where the two parts are
/// the digits of `t` in `0..int_end` and in `frac_start..frac_end`: exact,
/// rounded toward zero, and the largest `u128` where it would not fit.
fn get_bytes(t: &Vec<char>, int_end: usize, frac_start: usize, frac_end: usize, u: ByteUnit) -> (r: u128)
    requires
        int_end <= frac_start <= frac_end <= t.len(),
        all_digits(t@.subrange(0, int_end as int)),
        all_digits(t@.subrange(frac_start as int, frac_end as int)),
    ensures
        r as nat == saturate(
            digits_value(t@.subrange(0, int_end as int) + t@.subrange(frac_start as int, frac_end as int))
                * multiplier(u) / pow10((frac_end - frac_start) as nat),
        ),
{
    let m = unit_multiplier(u);
    let ghost ip = t@.subrange(0, int_end as int);
    let ghost fp = t@.subrange(frac_start as int, frac_end as int);
    proof {
        lemma_scale_split(ip, fp, m as nat);
        lemma_fraction_below(fp, m as nat);
        assert(fp.len() == (frac_end - frac_start) as nat);
    }
    let mut acc: u128 = 0;
    let mut over = false;
    let mut p: usize = 0;
    while p < int_end
        invariant
            p <= int_end <= t.len(),
            all_digits(ip),
            ip == t@.subrange(0, int_end as int),
            !over ==> acc as nat == digits_value(t@.subrange(0, p as int)),
            over ==> digits_value(t@.subrange(0, p as int)) > u128::MAX,
        decreases int_end - p,
    {
        assert(is_digit(ip[p as int]));
        let d = digit_of(t[p]);
        assert(t@.subrange(0, p + 1).drop_last() =~= t@.subrange(0, p as int));
        if !over {
            match acc.checked_mul(10) {
                Some(x) => match x.checked_add(d as u128) {
                    Some(y) => {
                        acc = y;
                    },
                    None => {
                        over = true;
                    },
                },
                None => {
                    over = true;
                },
            }
        }
        p += 1;
    }
    assert(t@.subrange(0, p as int) == ip);
    let ghost whole_value = digits_value(ip) * m as nat;
    let ghost total = digits_value(ip + fp) * multiplier(u) / pow10(fp.len());
    let ghost frac_value = digits_value(fp) * m as nat / pow10(fp.len());
    proof {
        lemma_pow10_positive(fp.len());
        lemma_div_pos_is_pos((digits_value(fp) * m as nat) as int, pow10(fp.len()) as int);
    }
    assert(total == whole_value + frac_value);
    if over {
        assert(whole_value >= digits_value(ip)) by (nonlinear_arith)
            requires
                whole_value == digits_value(ip) * m as nat,
                m >= 1,
        ;
        assert(digits_value(ip) > u128::MAX);
        assert(total > u128::MAX);
        assert(saturate(total) == u128::MAX);
        return u128::MAX;
    }
    assert(acc as nat == digits_value(ip));
    let whole = match acc.checked_mul(m) {
        Some(w) => w,
        None => {
            assert(whole_value > u128::MAX);
            assert(total > u128::MAX);
            assert(saturate(total) == u128::MAX);
            return u128::MAX;
        },
    };
    let mut y: u128 = 0;
    let mut q: usize = frac_end;
    assert(digits_value(t@.subrange(q as int, frac_end as int)) == 0);
    assert(pow10(0) == 1);
    while q > frac_start
        invariant
            frac_start <= q <= frac_end <= t.len(),
            all_digits(fp),
            fp == t@.subrange(frac_start as int, frac_end as int),
            1 <= m <= YOBIBYTE,
            y as nat == digits_value(t@.subrange(q as int, frac_end as int)) * m as nat / pow10(
                (frac_end - q) as nat,
            ),
            y < m,
        decreases q,
    {
        assert(is_digit(fp[q - 1 - frac_start]));
        let d = digit_of(t[q - 1]);
        let ghost rest = t@.subrange(q as int, frac_end as int);
        let ghost longer = t@.subrange(q - 1, frac_end as int);
        proof {
            assert(longer =~= seq![t@[q - 1]] + rest);
            assert(seq![t@[q - 1]].drop_last() =~= Seq::<char>::empty());
            lemma_digits_concat(seq![t@[q - 1]], rest);
            lemma_single_digit(t@[q - 1]);
            assert(digits_value(longer) == d as nat * pow10(rest.len()) + digits_value(rest));
            lemma_fraction_step(d as nat, digits_value(rest), rest.len(), m as nat);
            assert(rest.len() + 1 == (frac_end - (q - 1)) as nat);
            assert forall|i: int| 0 <= i < longer.len() implies is_digit(#[trigger] longer[i]) by {
                assert(longer[i] == fp[q - 1 - frac_start + i]);
            }
            lemma_fraction_below(longer, m as nat);
            assert(d as u128 * m + y <= 10 * YOBIBYTE) by (nonlinear_arith)
                requires
                    d <= 9,
                    m <= YOBIBYTE,
                    y < m,
            ;
        }
        y = (d as u128 * m + y) / 10;
        q -= 1;
    }
    assert(t@.subrange(q as int, frac_end as int) == fp);
    match whole.checked_add(y) {
        Some(r) => r,
        None => u128::MAX,
    }
}

/// Unicode's White_Space characters, which `str::trim` removes.
pub open spec fn is_white_space(c: char) -> bool {
    ('\u{9}' <= c && c <= '\u{d}') || c == ' ' || c == '\u{85}' || c == '\u{a0}' || c == '\u{1680}'
        || ('\u{2000}' <= c && c <= '\u{200a}') || c == '\u{2028}' || c == '\u{2029}' || c
        == '\u{202f}' || c == '\u{205f}' || c == '\u{3000}'
}

fn white_space(c: char) -> (r: bool)
    ensures
        r == is_white_space(c),
{
    ('\u{9}' <= c && c <= '\u{d}') || c == ' ' || c == '\u{85}' || c == '\u{a0}' || c == '\u{1680}'
        || ('\u{2000}' <= c && c <= '\u{200a}') || c == '\u{2028}' || c == '\u{2029}' || c
        == '\u{202f}' || c == '\u{205f}' || c == '\u{3000}'
}

/// The first position at or after `i` that holds no whitespace.
pub open spec fn white_run_end(s: Seq<char>, i: int) -> int
    decreases s.len() - i,
{
    if 0 <= i < s.len() && is_white_space(s[i]) {
        white_run_end(s, i + 1)
    } else {
        i
    }
}

/// The position after the last character before `j` that is no whitespace.
pub open spec fn white_run_start(s: Seq<char>, j: int) -> int
    decreases j,
{
    if 0 < j <= s.len() && is_white_space(s[j - 1]) {
        white_run_start(s, j - 1)
    } else {
        j
    }
}

/// `s` without its leading and trailing whitespace.
pub open spec fn trim(s: Seq<char>) -> Seq<char> {
    let a = white_run_end(s, 0);
    if a >= s.len() {
        Seq::empty()
    } else {
        s.subrange(a, white_run_start(s, s.len() as int))
    }
}

/// The first position at or after `i` that holds no digit.
pub open spec fn digit_run_end(t: Seq<char>, i: int) -> int
    decreases t.len() - i,
{
    if 0 <= i < t.len() && is_digit(t[i]) {
        digit_run_end(t, i + 1)
    } else {
        i
    }
}

/// The byte count written by the digits `int_part`, the fraction digits
/// `frac` and the unit that the text of `t` names from position `k` on, after
/// any whitespace.
pub open spec fn size_with_unit(t: Seq<char>, int_part: Seq<char>, frac: Seq<char>, k: int) -> Result<
    nat,
    SizeFault,
> {
    match unit_of(t.subrange(white_run_end(t, k), t.len() as int)) {
        Ok(u) => Ok(saturate(digits_value(int_part + frac) * multiplier(u) / pow10(frac.len()))),
        Err(e) => Err(e),
    }
}

/// The byte count that the trimmed text `t` writes: digits, optionally a
/// point and more digits, optionally whitespace, then a unit.
pub open spec fn size_of_trimmed(t: Seq<char>) -> Result<nat, SizeFault> {
    if t.len() == 0 {
        Err(SizeFault::NoValue)
    } else if !is_digit(t[0]) {
        Err(SizeFault::NotNumber(t[0]))
    } else {
        let i = digit_run_end(t, 0);
        if i < t.len() && t[i] == '.' {
            let j = digit_run_end(t, i + 1);
            if j == i + 1 {
                Err(SizeFault::NotNumber(if j < t.len() { t[j] } else { '.' }))
            } else {
                size_with_unit(t, t.subrange(0, i), t.subrange(i + 1, j), j)
            }
        } else {
            size_with_unit(t, t.subrange(0, i), Seq::empty(), i)
        }
    }
}

/// The byte count that the size string `s` writes, or why it writes none.
pub open spec fn parse_size(s: Seq<char>) -> Result<nat, SizeFault> {
    size_of_trimmed(trim(s))
}

fn str_chars(s: &str) -> (r: Vec<char>)
    ensures
        r@ == s@,
{
    let n = s.unicode_len();
    let mut v: Vec<char> = Vec::new();
    let mut i: usize = 0;
    while i < n
        invariant
            i <= n,
            n == s@.len(),
            v@ == s@.take(i as int),
        decreases n - i,
    {
        v.push(s.get_char(i));
        i += 1;
        assert(v@ =~= s@.take(i as int));
    }
    assert(v@ =~= s@);
    v
}

fn trim_chars(v: &Vec<char>) -> (r: Vec<char>)
    ensures
        r@ == trim(v@),
{
    let mut a: usize = 0;
    while a < v.len() && white_space(v[a])
        invariant
            a <= v.len(),
            white_run_end(v@, 0) == white_run_end(v@, a as int),
        decreases v.len() - a,
    {
        a += 1;
    }
    if a == v.len() {
        return Vec::new();
    }
    let mut b: usize = v.len();
    while b > a + 1 && white_space(v[b - 1])
        invariant
            a < b <= v.len(),
            white_run_start(v@, v.len() as int) == white_run_start(v@, b as int),
            !is_white_space(v@[a as int]),
        decreases b,
    {
        b -= 1;
    }
    let mut r: Vec<char> = Vec::new();
    let mut i: usize = a;
    while i < b
        invariant
            a <= i <= b <= v.len(),
            r@ == v@.subrange(a as int, i as int),
        decreases b - i,
    {
        r.push(v[i]);
        i += 1;
        assert(r@ =~= v@.subrange(a as int, i as int));
    }
    r
}

fn digit_run(t: &Vec<char>, start: usize) -> (r: usize)
    requires
        start <= t.len(),
    ensures
        r as int == digit_run_end(t@, start as int),
        start <= r <= t.len(),
        all_digits(t@.subrange(start as int, r as int)),
{
    let mut i = start;
    while i < t.len() && is_digit_char(t[i])
        invariant
            start <= i <= t.len(),
            digit_run_end(t@, start as int) == digit_run_end(t@, i as int),
            all_digits(t@.subrange(start as int, i as int)),
        decreases t.len() - i,
    {
        i += 1;
        assert forall|k: int| 0 <= k < i - start implies is_digit(
            #[trigger] t@.subrange(start as int, i as int)[k],
        ) by {
            assert(t@.subrange(start as int, i as int)[k] == t@[start + k]);
            if k < i - 1 - start {
                assert(t@.subrange(start as int, i - 1)[k] == t@[start + k]);
            }
        }
    }
    i
}

fn white_run(t: &Vec<char>, start: usize) -> (r: usize)
    requires
        start <= t.len(),
    ensures
        r as int == white_run_end(t@, start as int),
        start <= r <= t.len(),
{
    let mut i = start;
    while i < t.len() && white_space(t[i])
        invariant
            start <= i <= t.len(),
            white_run_end(t@, start as int) == white_run_end(t@, i as int),
        decreases t.len() - i,
    {
        i += 1;
    }
    i
}

/// An exact count of bytes, read from a size string.
pub struct Byte(u128);

impl View for Byte {
    type V = nat;

    closed spec fn view(&self) -> nat {
        self.0 as nat
    }
}

impl Byte {
    /// Reads a size string such as `128`, `12.8 KB` or `1.25 KiB`.
    ///
    /// Surrounding whitespace is ignored. A bare magnitude letter means its
    /// binary unit. The count is exact, rounded toward zero, and the largest
    /// `u128` where it does not fit.
    pub fn from_str(s: &str) -> (r: Result<Byte, ByteError>)
        ensures
            match (r, parse_size(s@)) {
                (Ok(b), Ok(n)) => b@ == n,
                (Err(e), Err(f)) => e@ == f,
                _ => false,
            },
    {
        let t = trim_chars(&str_chars(s));
        if t.len() == 0 {
            return Err(ByteError::ValueIncorrect(ValueIncorrectError::NoValue));
        }
        if !is_digit_char(t[0]) {
            return Err(ByteError::ValueIncorrect(ValueIncorrectError::NotNumber(t[0])));
        }
        let i = digit_run(&t, 0);
        let frac_start: usize;
        let frac_end: usize;
        if i < t.len() && t[i] == '.' {
            let j = digit_run(&t, i + 1);
            if j == i + 1 {
                let c = if j < t.len() { t[j] } else { '.' };
                return Err(ByteError::ValueIncorrect(ValueIncorrectError::NotNumber(c)));
            }
            frac_start = i + 1;
            frac_end = j;
        } else {
            frac_start = i;
            frac_end = i;
        }
        let k = white_run(&t, frac_end);
        let unit = match read_xib(&t, k) {
            Ok(u) => u,
            Err(e) => {
                return Err(ByteError::UnitIncorrect(e));
            },
        };
        assert(t@.subrange(frac_start as int, frac_end as int).len() == (frac_end - frac_start) as nat);
        assert(frac_start == frac_end ==> t@.subrange(frac_start as int, frac_end as int) =~= Seq::<
            char,
        >::empty());
        Ok(Byte(get_bytes(&t, i, frac_start, frac_end, unit)))
    }

    /// The count of bytes.
    pub fn get_bytes(&self) -> (r: u128)
        ensures
            r as nat == self@,
    {
        self.0
    }
}

/// Reads a size string into an exact count of bytes (see `Byte::from_str`).
pub fn parse_bytes(s: &str) -> (r: Result<u128, ByteError>)
    ensures
        match (r, parse_size(s@)) {
            (Ok(b), Ok(n)) => b as nat == n,
            (Err(e), Err(f)) => e@ == f,
            _ => false,
        },
{
    match Byte::from_str(s) {
        Ok(b) => Ok(b.get_bytes()),
        Err(e) => Err(e),
    }
}

proof fn lemma_digit_run_to_end(s: Seq<char>, i: int)
    requires
        0 <= i <= s.len(),
        all_digits(s),
    ensures
        digit_run_end(s, i) == s.len(),
    decreases s.len() - i,
{
    if i < s.len() {
        lemma_digit_run_to_end(s, i + 1);
    }
}

/// A string of decimal digits alone reads as the number it writes, whenever
/// that number fits in a `u128`.
pub proof fn lemma_plain_digits(s: Seq<char>)
    requires
        s.len() > 0,
        all_digits(s),
        digits_value(s) <= u128::MAX,
    ensures
        parse_size(s) == Ok::<nat, SizeFault>(digits_value(s)),
{
    let n = s.len() as int;
    assert(is_digit(s[0]));
    assert(is_digit(s[n - 1]));
    assert(white_run_end(s, 0) == 0);
    assert(white_run_start(s, n) == n);
    assert(trim(s) =~= s);
    lemma_digit_run_to_end(s, 0);
    assert(s.subrange(0, n) =~= s);
    assert(s + Seq::<char>::empty() =~= s);
    assert(s.subrange(n, n) =~= Seq::<char>::empty());
    assert(pow10(0) == 1);
}

} // verus!
