use tds::codec::get_c_from_charset;
use tds::codec::get_n_from_charset;
use tds::codec::DecodeError;

#[test]
fn test_charset_conv() {
    assert_eq!(get_c_from_charset(0), "0");
    assert_eq!(get_c_from_charset(9), "9");
    assert_eq!(get_c_from_charset(10), "a");
    assert_eq!(get_c_from_charset(35), "z");
    assert_eq!(get_c_from_charset(36), "10");

    assert_eq!(get_n_from_charset("0"), Ok(0));
    assert_eq!(get_n_from_charset("9"), Ok(9));
    assert_eq!(get_n_from_charset("a"), Ok(10));
    assert_eq!(get_n_from_charset("z"), Ok(35));
    assert_eq!(get_n_from_charset("10"), Ok(36));

    assert_eq!(get_n_from_charset("10F"), Err(DecodeError::InvalidSymbol));
}

#[test]
fn test_round_trip() {
    let mut n: i32 = 0;
    while n <= 100000 {
        let s = get_c_from_charset(n);
        assert_eq!(get_n_from_charset(s.as_str()), Ok(n));
        n += 1;
    }
}

#[test]
fn test_decode_rejects_foreign_symbols() {
    assert_eq!(get_n_from_charset("1 2"), Err(DecodeError::InvalidSymbol));
    assert_eq!(get_n_from_charset("A"), Err(DecodeError::InvalidSymbol));
    assert_eq!(get_n_from_charset("-1"), Err(DecodeError::InvalidSymbol));
}

#[test]
fn test_decode_overflow() {
    // i32::MAX is "zik0zj"; one more does not fit
    assert_eq!(get_n_from_charset("zik0zj"), Ok(i32::MAX));
    assert_eq!(get_n_from_charset("zik0zk"), Err(DecodeError::Overflow));
    assert_eq!(get_n_from_charset("zzzzzzzz"), Err(DecodeError::Overflow));
}

#[test]
fn test_encode_of_max() {
    assert_eq!(get_c_from_charset(i32::MAX), "zik0zj");
}
