use hexdump::{
    n_eib_bytes, n_gb_bytes, n_kb_bytes, n_kib_bytes, parse_bytes, Byte, ByteError,
    ValueIncorrectError,
};

fn unit_error(s: &str) -> (char, Vec<char>, bool) {
    match parse_bytes(s) {
        Err(ByteError::UnitIncorrect(e)) => {
            (e.character, e.expected_characters, e.also_expect_no_character)
        }
        other => panic!("expected a unit error for {:?}, got {:?}", s, other),
    }
}

#[test]
fn bytes() {
    assert_eq!(parse_bytes("128").unwrap(), 128);
    assert_eq!(parse_bytes("128B").unwrap(), 128);
}

#[test]
fn kilobytes() {
    assert_eq!(parse_bytes("128KB").unwrap(), 128_000);
    assert_eq!(parse_bytes("12.8  KB").unwrap(), 12_800);
}

#[test]
fn kibibytes() {
    assert_eq!(parse_bytes("128KiB").unwrap(), 131_072);
    assert_eq!(parse_bytes("12.5  KiB").unwrap(), 12_800);
    assert_eq!(parse_bytes("1.25 K").unwrap(), 1_280);
}

#[test]
fn digits_alone_read_as_their_number() {
    assert_eq!(parse_bytes("0").unwrap(), 0);
    assert_eq!(parse_bytes("9007199254740993").unwrap(), 9_007_199_254_740_993);
    assert_eq!(
        parse_bytes("340282366920938463463374607431768211455").unwrap(),
        u128::MAX
    );
}

#[test]
fn listed_examples() {
    assert_eq!(parse_bytes("128KB").unwrap(), 128_000);
    assert_eq!(parse_bytes("128KiB").unwrap(), 131_072);
    assert_eq!(parse_bytes("12.8 KB").unwrap(), 12_800);
    assert_eq!(parse_bytes("12.5 KiB").unwrap(), 12_800);
    assert_eq!(parse_bytes("1.25 K").unwrap(), 1_280);
}

#[test]
fn empty_and_non_numbers() {
    assert!(matches!(
        parse_bytes(""),
        Err(ByteError::ValueIncorrect(ValueIncorrectError::NoValue))
    ));
    assert!(matches!(
        parse_bytes("   \t "),
        Err(ByteError::ValueIncorrect(ValueIncorrectError::NoValue))
    ));
    assert!(matches!(
        parse_bytes("abc"),
        Err(ByteError::ValueIncorrect(ValueIncorrectError::NotNumber('a')))
    ));
    assert!(matches!(
        parse_bytes("é1"),
        Err(ByteError::ValueIncorrect(ValueIncorrectError::NotNumber('é')))
    ));
}

#[test]
fn point_needs_a_digit() {
    assert!(matches!(
        parse_bytes("1.x"),
        Err(ByteError::ValueIncorrect(ValueIncorrectError::NotNumber('x')))
    ));
    assert!(matches!(
        parse_bytes("1."),
        Err(ByteError::ValueIncorrect(ValueIncorrectError::NotNumber('.')))
    ));
}

#[test]
fn unknown_unit_letter() {
    assert_eq!(
        unit_error("12Q"),
        ('Q', vec!['B', 'K', 'M', 'G', 'T', 'P', 'E', 'Z'], true)
    );
}

#[test]
fn unit_suffix_errors() {
    assert_eq!(unit_error("12Bx"), ('x', vec![], false));
    assert_eq!(unit_error("12Kx"), ('x', vec!['B', 'i'], true));
    assert_eq!(unit_error("12Kix"), ('x', vec!['B'], true));
    assert_eq!(unit_error("12KBx"), ('x', vec![], false));
    assert_eq!(unit_error("12 5"), ('5', vec!['B', 'K', 'M', 'G', 'T', 'P', 'E', 'Z'], true));
    assert_eq!(unit_error("12K€"), ('€', vec!['B', 'i'], true));
}

#[test]
fn units_in_either_case() {
    assert_eq!(parse_bytes("1mb").unwrap(), 1_000_000);
    assert_eq!(parse_bytes("1mib").unwrap(), 1_048_576);
    assert_eq!(parse_bytes("1Mi").unwrap(), 1_048_576);
    assert_eq!(parse_bytes("2 G").unwrap(), 2 * 1_073_741_824);
    assert_eq!(parse_bytes("1 TB").unwrap(), 1_000_000_000_000);
    assert_eq!(parse_bytes("1 YB").unwrap(), 1_000_000_000_000_000_000_000_000);
    assert_eq!(parse_bytes("1 YiB").unwrap(), 1u128 << 80);
    assert_eq!(parse_bytes("  7 b  ").unwrap(), 7);
}

#[test]
fn fractions_round_toward_zero() {
    assert_eq!(parse_bytes("1.5").unwrap(), 1);
    assert_eq!(parse_bytes("0.0009 KB").unwrap(), 0);
    assert_eq!(parse_bytes("0.3 KB").unwrap(), 300);
    assert_eq!(parse_bytes("1.0000001 GB").unwrap(), 1_000_000_100);
    assert_eq!(parse_bytes("0.5 KiB").unwrap(), 512);
}

#[test]
fn too_large_saturates() {
    assert_eq!(parse_bytes("1000000000000000000000000 YB").unwrap(), u128::MAX);
    assert_eq!(
        parse_bytes("999999999999999999999999999999999999999999").unwrap(),
        u128::MAX
    );
}

#[test]
fn byte_holds_the_count() {
    assert_eq!(Byte::from_str("3 KB").unwrap().get_bytes(), 3000);
}

#[test]
fn unit_multiples() {
    assert_eq!(n_kb_bytes(3), 3000);
    assert_eq!(n_kib_bytes(3), 3072);
    assert_eq!(n_gb_bytes(2), 2_000_000_000);
    assert_eq!(n_eib_bytes(1), 1u128 << 60);
}

#[test]
fn error_messages() {
    let m = |s: &str| parse_bytes(s).unwrap_err().message();
    assert_eq!(m(""), "no value");
    assert_eq!(m("abc"), "the character 'a' is not a number");
    assert_eq!(
        m("12Q"),
        "The character 'Q' is incorrect. 'B', 'K', 'M', 'G', 'T', 'P', 'E', 'Z' or no character is expected."
    );
    assert_eq!(m("12Bx"), "The character 'x' is incorrect. No character is expected.");
    assert_eq!(
        m("12Kix"),
        "The character 'x' is incorrect. 'B' or no character is expected."
    );
    assert_eq!(
        m("12Kx"),
        "The character 'x' is incorrect. 'B', 'i' or no character is expected."
    );
}

#[test]
fn composed_messages() {
    let strings = |v: &[&str]| v.iter().map(|s| s.to_string()).collect::<Vec<String>>();
    assert_eq!(
        hexdump::compose_unit_message("<c>", &strings(&["<a>"]), false),
        "The character <c> is incorrect. <a> is expected."
    );
    assert_eq!(
        hexdump::compose_unit_message("<c>", &strings(&["<a>", "<b>", "<d>"]), false),
        "The character <c> is incorrect. <a>, <b> or <d> is expected."
    );
}

#[test]
fn errors_convert() {
    assert!(matches!(
        ByteError::from(ValueIncorrectError::NoValue),
        ByteError::ValueIncorrect(ValueIncorrectError::NoValue)
    ));
    let e = hexdump::UnitIncorrectError {
        character: 'q',
        expected_characters: vec!['B'],
        also_expect_no_character: false,
    };
    assert_eq!(
        ByteError::from(e).message(),
        "The character 'q' is incorrect. 'B' is expected."
    );
}

#[test]
fn any_whitespace_before_the_unit() {
    assert_eq!(parse_bytes("12\tKB").unwrap(), 12_000);
    assert_eq!(parse_bytes("12 \t\u{a0} KiB").unwrap(), 12_288);
    assert_eq!(parse_bytes("1.5\u{3000}\nK").unwrap(), 1_536);
    assert_eq!(parse_bytes("12\tKB").unwrap(), parse_bytes("12KB").unwrap());
}
