use bkupman::util::{
    find_option, md5_to_str, parse_size, size_to_human_readable, str_to_md5, xorshift64,
    xorshift64_fill, DigestTextError, SizeError,
};

#[test]
fn test_find_option() {
    assert!(find_option(&["-h", "a"], &["-h", "--help"]));
    assert!(find_option(&["a", "--help"], &["-h", "--help"]));
    assert!(!find_option(&([] as [&str; 0]), &["-h", "--help"]));
    assert!(!find_option(&["a", "b", "c"], &["-h", "--help"]));
}

#[test]
fn test_parse_size() {
    assert_eq!(0, parse_size("0").unwrap());
    assert_eq!(1, parse_size("1").unwrap());
    assert_eq!(u64::MAX, parse_size(&u64::MAX.to_string()).unwrap());

    assert_eq!(12345, parse_size("12345").unwrap());
    assert_eq!(12345 << 10usize, parse_size("12345k").unwrap());
    assert_eq!(12345 << 10usize, parse_size("12345K").unwrap());
    assert_eq!(12345 << 20usize, parse_size("12345m").unwrap());
    assert_eq!(12345 << 20usize, parse_size("12345M").unwrap());
    assert_eq!(12345 << 30usize, parse_size("12345g").unwrap());
    assert_eq!(12345 << 30usize, parse_size("12345G").unwrap());
    assert_eq!(12345 << 40usize, parse_size("12345t").unwrap());
    assert_eq!(12345 << 40usize, parse_size("12345T").unwrap());

    assert!(parse_size("0x123").is_err());
    assert!(parse_size("123x").is_err());
    assert!(parse_size(&(usize::MAX.to_string() + "0")).is_err());
    assert!(parse_size(&(usize::MAX.to_string() + "k")).is_err());
}

#[test]
fn parse_size_error_kinds() {
    assert_eq!(parse_size(""), Err(SizeError::Empty));
    assert_eq!(parse_size("k"), Err(SizeError::InvalidNumber));
    assert_eq!(parse_size("1 k"), Err(SizeError::InvalidNumber));
    assert_eq!(parse_size("18446744073709551616"), Err(SizeError::Overflow));
    assert_eq!(parse_size("16777216t"), Err(SizeError::Overflow));
    assert_eq!(parse_size("16777215t"), Ok(16777215u64 << 40));
    assert_eq!(parse_size("64m"), Ok(64 * 1024 * 1024));
    assert_eq!(parse_size("+5"), Ok(5));
    assert_eq!(parse_size("+5k"), Ok(5 * 1024));
    assert_eq!(parse_size("+"), Err(SizeError::InvalidNumber));
    assert_eq!(parse_size("+k"), Err(SizeError::InvalidNumber));
    assert_eq!(parse_size("++5"), Err(SizeError::InvalidNumber));
    assert_eq!(parse_size("5+"), Err(SizeError::InvalidNumber));
}

#[test]
fn test_size_to_human_readable() {
    for size in 0..1024 {
        let s = size_to_human_readable(size);
        assert_eq!(s, format!("{size} B"));
    }
    assert_eq!(size_to_human_readable(1024), "1.0 KiB");
    assert_eq!(size_to_human_readable(1024 * 1024), "1.0 MiB");
    assert_eq!(size_to_human_readable(1024 * 1024 * 1024), "1.0 GiB");
    assert_eq!(size_to_human_readable(1024 * 1024 * 1024 * 1024), "1.0 TiB");
}

#[test]
fn size_to_human_readable_rounds_to_one_decimal() {
    assert_eq!(size_to_human_readable(1536), "1.5 KiB");
    assert_eq!(size_to_human_readable(1280), "1.2 KiB");
    assert_eq!(size_to_human_readable(1024 * 1024 - 1), "1024.0 KiB");
    assert_eq!(size_to_human_readable(10 * 1024 * 1024), "10.0 MiB");
    assert_eq!(size_to_human_readable(u64::MAX), "16777216.0 TiB");
}

#[test]
fn test_md5() {
    let s = "0123456789abcdef0123456789abcdef";
    let b = [
        0x01, 0x23, 0x45, 0x67, 0x89, 0xab, 0xcd, 0xef, 0x01, 0x23, 0x45, 0x67, 0x89, 0xab,
        0xcd, 0xef,
    ];

    let x = str_to_md5(s).unwrap();
    assert_eq!(x, b);

    let y = md5_to_str(&b);
    assert_eq!(y, s);
}

#[test]
fn str_to_md5_errors_and_upper_case() {
    assert_eq!(str_to_md5("0123"), Err(DigestTextError::WrongLength));
    assert_eq!(
        str_to_md5("0123456789abcdef0123456789abcdeg"),
        Err(DigestTextError::NotHex)
    );
    assert_eq!(
        str_to_md5("FFFFFFFFFFFFFFFFFFFFFFFFFFFFFFFF").unwrap(),
        [0xffu8; 16]
    );
}

#[test]
fn xorshift_known_values() {
    let mut x: u64 = 1;
    x ^= x << 13;
    x ^= x >> 7;
    x ^= x << 17;
    assert_eq!(xorshift64(1), x);
    assert_eq!(xorshift64(1), 1082269761);
    assert_eq!(xorshift64(0), 0);
}

#[test]
fn xorshift_fill_writes_each_state_little_endian() {
    let mut v = [0u8; 16];
    let last = xorshift64_fill(&mut v, 1);
    let s1 = xorshift64(1);
    let s2 = xorshift64(s1);
    assert_eq!(last, s2);
    assert_eq!(&v[0..8], &s1.to_le_bytes());
    assert_eq!(&v[8..16], &s2.to_le_bytes());
}

#[test]
fn digest_text_reads_back() {
    let b: [u8; 16] = [0, 1, 0x7f, 0x80, 0xfe, 0xff, 0x10, 0x0a, 0xa0, 0x55, 0xaa, 0x33, 0xcc, 0x99, 0x66, 0x42];
    let text = md5_to_str(&b);
    assert_eq!(text, "00017f80feff100aa055aa33cc996642");
    assert_eq!(str_to_md5(&text).unwrap(), b);
}
