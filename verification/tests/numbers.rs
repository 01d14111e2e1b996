use thanos::number::{parse_u16, parse_u64, IntError};

fn chars(s: &str) -> Vec<char> {
    s.chars().collect()
}

#[test]
fn reads_u16_as_std_does() {
    for text in ["0", "80", "+80", "0080", "65535", "65536", "-1", "+", "-", "", "9x", "99999x", "1 2", "+-1", "٣"] {
        let ours = parse_u16(&chars(text));
        let std = text.parse::<u16>();
        match (ours, std) {
            (Ok(a), Ok(b)) => assert_eq!(a, b, "{text}"),
            (Err(e), Err(f)) => {
                let kind = match e {
                    IntError::Empty => std::num::IntErrorKind::Empty,
                    IntError::InvalidDigit => std::num::IntErrorKind::InvalidDigit,
                    IntError::PosOverflow => std::num::IntErrorKind::PosOverflow,
                };
                assert_eq!(&kind, f.kind(), "{text}");
            }
            (a, b) => panic!("{text}: {a:?} vs {b:?}"),
        }
    }
}

#[test]
fn reads_u64_limits() {
    assert_eq!(parse_u64(&chars("18446744073709551615")), Ok(u64::MAX));
    assert_eq!(parse_u64(&chars("18446744073709551616")), Err(IntError::PosOverflow));
    assert_eq!(parse_u64(&chars("2")), Ok(2));
    assert_eq!(parse_u64(&chars("two")), Err(IntError::InvalidDigit));
    assert_eq!(parse_u64(&chars("")), Err(IntError::Empty));
}

#[test]
fn u16_error_kinds() {
    assert_eq!(parse_u16(&chars("")), Err(IntError::Empty));
    assert_eq!(parse_u16(&chars("+")), Err(IntError::InvalidDigit));
    assert_eq!(parse_u16(&chars("-5")), Err(IntError::InvalidDigit));
    assert_eq!(parse_u16(&chars("70000")), Err(IntError::PosOverflow));
    assert_eq!(parse_u16(&chars("99999x")), Err(IntError::PosOverflow));
    assert_eq!(parse_u16(&chars("9x")), Err(IntError::InvalidDigit));
    assert_eq!(parse_u16(&chars("+9000")), Ok(9000));
}
