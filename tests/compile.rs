use ezbin::{compile, concat_units, float_literals, AbsType, CompileError, ErrorKind};

fn host_is_little() -> bool {
    u16::from_ne_bytes([1, 0]) == 1
}

fn float_bits(text: &[char], wide: bool) -> Option<u64> {
    let s: String = text.iter().collect();
    if wide {
        s.parse::<f64>().ok().map(|f| f.to_bits())
    } else {
        s.parse::<f32>().ok().map(|f| f.to_bits() as u64)
    }
}

fn build(src: &str) -> Result<Vec<u8>, CompileError> {
    let literals = float_literals(src)?;
    let floats: Vec<Option<u64>> = literals
        .iter()
        .map(|l| float_bits(&l.text, l.wide))
        .collect();
    compile(src, host_is_little(), &floats)
}

fn fails(kind: ErrorKind, at: usize) -> Result<Vec<u8>, CompileError> {
    Err(CompileError { kind, at })
}

#[test]
fn test_basic() {
    assert_eq!(
        build("65 \"Hi\" -1i8"),
        Ok(vec![0x00, 0x00, 0x00, 0x41, 0x48, 0x69, 0xFF])
    );
}

#[test]
fn test_defaults() {
    assert_eq!(build("[AUTO u8] 200"), Ok(vec![0xC8]));
    assert_eq!(build("7 -1"), Ok(vec![0, 0, 0, 7, 0xFF, 0xFF, 0xFF, 0xFF]));
    assert_eq!(build("1b 2s 3i 4l 5u"), Ok(vec![1, 0, 2, 0, 0, 0, 3, 0, 0, 0, 0, 0, 0, 0, 4, 0, 0, 0, 5]));
}

#[test]
fn test_endian() {
    assert_eq!(build("[ENDIAN LITTLE] 1u16"), Ok(vec![0x01, 0x00]));
    assert_eq!(build("[ENDIAN BIG] 1u16"), Ok(vec![0x00, 0x01]));
    assert_eq!(build("[ENDIAN LITTLE] [ENDIAN DEFAULT] 1u16"), Ok(vec![0x00, 0x01]));
    assert_eq!(build("[ENDIAN LITTLE] 258u32"), Ok(vec![0x02, 0x01, 0x00, 0x00]));
}

#[test]
fn type_before_payload_is_an_empty_literal() {
    assert_eq!(build("65 \"Hi\" i8 -1"), fails(ErrorKind::BadNumber(AbsType::I8), 10));
}

#[test]
fn auto_u8_out_of_range() {
    assert_eq!(build("[AUTO u8] 300"), fails(ErrorKind::BadNumber(AbsType::U8), 13));
}

#[test]
fn endian_small_has_its_own_failure() {
    assert_eq!(build("[ENDIAN SMALL]"), fails(ErrorKind::SmallEndian, 13));
    assert_eq!(build("[ENDIAN FOO]"), fails(ErrorKind::UnknownEndian, 11));
    assert_eq!(build("1b [ENDIAN SMALL] 2b"), fails(ErrorKind::SmallEndian, 16));
}

#[test]
fn custom_alias_matches_its_type() {
    assert_eq!(build("[x u16] 5x"), build("5u16"));
    assert_eq!(build("[x u16] 5x"), Ok(vec![0x00, 0x05]));
    assert_eq!(build("[ENDIAN LITTLE] [x u16] 5x"), build("[ENDIAN LITTLE] 5u16"));
    assert_eq!(build("[ENDIAN LITTLE] [x u16] 5x"), Ok(vec![0x05, 0x00]));
}

#[test]
fn units_join_in_listed_order() {
    let a = compile("1b 2b", false, &vec![]);
    let b = compile("3u16", false, &vec![]);
    assert_eq!(concat_units(&vec![a.clone(), b.clone()]), Ok(vec![1, 2, 0, 3]));
    assert_eq!(concat_units(&vec![b, a]), Ok(vec![0, 3, 1, 2]));
    assert_eq!(concat_units(&vec![]), Ok(vec![]));
}

#[test]
fn first_listed_failure_wins() {
    let ok = compile("1b", false, &vec![]);
    let e1 = compile("zz", false, &vec![]);
    let e2 = compile("[ENDIAN SMALL]", false, &vec![]);
    assert_eq!(
        concat_units(&vec![ok.clone(), e1.clone(), e2.clone()]),
        fails(ErrorKind::UnknownType, 2)
    );
    assert_eq!(concat_units(&vec![e2, ok, e1]), fails(ErrorKind::SmallEndian, 13));
}

#[test]
fn integers_round_trip() {
    let cases: Vec<(&str, usize, i128)> = vec![
        ("0u8", 1, 0),
        ("255u8", 1, 255),
        ("-128i8", 1, -128),
        ("127i8", 1, 127),
        ("-2i16", 2, -2),
        ("65535u16", 2, 65535),
        ("-2147483648i32", 4, -2147483648),
        ("4294967295u32", 4, 4294967295),
        ("-9223372036854775808i64", 8, -9223372036854775808),
        ("18446744073709551615u64", 8, 18446744073709551615),
        ("+42u64", 8, 42),
    ];
    for (src, n, v) in cases {
        let signed = src.contains('i');
        for little in [false, true] {
            let text = if little {
                format!("[ENDIAN LITTLE] {}", src)
            } else {
                src.to_string()
            };
            let bytes = build(&text).unwrap();
            assert_eq!(bytes.len(), n);
            let mut u: u128 = 0;
            for k in 0..n {
                let b = if little { bytes[n - 1 - k] } else { bytes[k] };
                u = u * 256 + b as u128;
            }
            let half: u128 = 1u128 << (8 * n - 1);
            let back: i128 = if signed && u >= half {
                u as i128 - (half as i128) * 2
            } else {
                u as i128
            };
            assert_eq!(back, v);
        }
    }
}

#[test]
fn integer_limits() {
    assert_eq!(build("18446744073709551616u64"), fails(ErrorKind::BadNumber(AbsType::U64), 23));
    assert_eq!(build("-129i8"), fails(ErrorKind::BadNumber(AbsType::I8), 6));
    assert_eq!(build("-0b"), fails(ErrorKind::BadNumber(AbsType::U8), 3));
    assert_eq!(build("-0i8"), Ok(vec![0]));
    assert_eq!(build("1.5b"), fails(ErrorKind::BadNumber(AbsType::U8), 4));
    assert_eq!(build("+b"), fails(ErrorKind::BadNumber(AbsType::U8), 2));
    assert_eq!(build("u8"), fails(ErrorKind::BadNumber(AbsType::U8), 2));
}

#[test]
fn alias_chains_resolve() {
    assert_eq!(build("[a b] [b c] [c u8] 7a"), Ok(vec![7]));
    assert_eq!(build("[n s] 1n"), Ok(vec![0, 1]));
    assert_eq!(build("[x x] 1x"), fails(ErrorKind::AliasCycle, 8));
    assert_eq!(build("[x y] [y x] 1x"), fails(ErrorKind::AliasCycle, 14));
    assert_eq!(build("1zz"), fails(ErrorKind::UnknownType, 3));
    assert_eq!(build("[AUTO w] 1"), fails(ErrorKind::UnknownType, 10));
}

#[test]
fn settings_are_checked() {
    assert_eq!(build("[u8 u16]"), fails(ErrorKind::AbsoluteRedefined, 7));
    assert_eq!(build("[Foo u8]"), fails(ErrorKind::UnknownSetting, 7));
    assert_eq!(build("[AUTO]"), fails(ErrorKind::MalformedSetting, 5));
    assert_eq!(build("[ u8]"), fails(ErrorKind::MalformedSetting, 1));
    assert_eq!(build("[AUTO ]"), fails(ErrorKind::MalformedSetting, 6));
    assert_eq!(build("[AUTO u8 x]"), fails(ErrorKind::SpaceInSetting, 8));
    assert_eq!(build("5[AUTO u8]"), fails(ErrorKind::MisplacedBracket, 1));
    assert_eq!(build("5b]"), fails(ErrorKind::MisplacedBracket, 2));
    assert_eq!(build("[AUTO [u8]"), fails(ErrorKind::MisplacedBracket, 6));
}

#[test]
fn strings_encode() {
    assert_eq!(build("\"\u{e9}\""), Ok(vec![0xC3, 0xA9]));
    assert_eq!(build("\"Hi\"ASCII"), Ok(vec![0x48, 0x69]));
    assert_eq!(build("\"\u{e9}\"ASCII"), fails(ErrorKind::NotAscii, 8));
    assert_eq!(build("\"A\u{20ac}\"UTF16"), Ok(vec![0x00, 0x41, 0x20, 0xAC]));
    assert_eq!(build("[ENDIAN LITTLE] \"A\"UTF16"), Ok(vec![0x41, 0x00]));
    assert_eq!(build("\"\u{1F600}\"UTF16"), Ok(vec![0xD8, 0x3D, 0xDE, 0x00]));
    assert_eq!(build("\"a\\\"b\\\\c\\n\""), Ok(vec![0x61, 0x22, 0x62, 0x5C, 0x63, 0x0A]));
    assert_eq!(build("\"a b\" \"\""), Ok(vec![0x61, 0x20, 0x62]));
    assert_eq!(build("\"a\\q\""), fails(ErrorKind::BadEscape('q'), 3));
    assert_eq!(build("5\"a\""), fails(ErrorKind::StringWithNumber, 4));
    assert_eq!(build("[t \"ASCII] \"x\"t"), fails(ErrorKind::UnknownType, 15));
}

#[test]
fn comments_are_skipped() {
    assert_eq!(build("1b (one (nested) two) 2b"), Ok(vec![1, 2]));
    assert_eq!(build(") 1b"), Ok(vec![1]));
    assert_eq!(build("1(x)b"), Ok(vec![1]));
    assert_eq!(build("\"(not a comment)\""), Ok(b"(not a comment)".to_vec()));
}

#[test]
fn unterminated_constructs_fail() {
    assert_eq!(build("\"abc"), fails(ErrorKind::Unterminated, 4));
    assert_eq!(build("1b (abc"), fails(ErrorKind::Unterminated, 7));
    assert_eq!(build("[AUTO u8"), fails(ErrorKind::Unterminated, 8));
    assert_eq!(build(""), Ok(vec![]));
    assert_eq!(build("  \n\t "), Ok(vec![]));
}

#[test]
fn floats_take_supplied_bits() {
    assert_eq!(build("1.5f"), Ok(vec![0x3F, 0xC0, 0x00, 0x00]));
    assert_eq!(build("[ENDIAN LITTLE] 1.5f"), Ok(vec![0x00, 0x00, 0xC0, 0x3F]));
    assert_eq!(build("-2d"), Ok(vec![0xC0, 0, 0, 0, 0, 0, 0, 0]));
    assert_eq!(build("1..2f"), fails(ErrorKind::BadNumber(AbsType::F32), 5));
    let lits = float_literals("1b 2.5f 3d").unwrap();
    assert_eq!(lits.len(), 2);
    assert_eq!(lits[0].text, vec!['2', '.', '5']);
    assert!(!lits[0].wide);
    assert_eq!(lits[1].text, vec!['3']);
    assert!(lits[1].wide);
    assert_eq!(compile("1.5f 2b", false, &vec![]), fails(ErrorKind::MissingFloat, 4));
}

#[test]
fn system_order_follows_the_host() {
    assert_eq!(compile("[ENDIAN SYSTEM] 1u16", true, &vec![]), Ok(vec![0x01, 0x00]));
    assert_eq!(compile("[ENDIAN SYSTEM] 1u16", false, &vec![]), Ok(vec![0x00, 0x01]));
}
