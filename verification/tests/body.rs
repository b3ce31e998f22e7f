use ppm::{
    parse_ppm_data_ascii, parse_ppm_data_bytes, read_sample, scale_sample, Color, ErrorKind,
    PPMData, ParseError,
};

fn error(kind: ErrorKind, offset: usize, remaining: usize) -> ParseError {
    ParseError { kind, offset, remaining }
}

fn rgb(red: u8, green: u8, blue: u8) -> Color {
    Color { red, green, blue }
}

#[test]
fn scale_formula_values() {
    assert_eq!(scale_sample(0, 15), 0);
    assert_eq!(scale_sample(15, 15), 255);
    assert_eq!(scale_sample(7, 15), 119);
    assert_eq!(scale_sample(8, 15), 136);
    assert_eq!(scale_sample(1, 3), 85);
    assert_eq!(scale_sample(2, 3), 170);
    assert_eq!(scale_sample(1000, 1023), 249);
    assert_eq!(scale_sample(512, 1023), 128);
    assert_eq!(scale_sample(1, 1), 255);
    assert_eq!(scale_sample(0, 1), 0);
}

#[test]
fn scale_rounds_halves_up() {
    assert_eq!(scale_sample(1, 2), 128);
    assert_eq!(scale_sample(5, 10), 128);
    assert_eq!(scale_sample(1, 510), 1);
    assert_eq!(scale_sample(3, 510), 2);
    assert_eq!(scale_sample(128, 65535), 0);
    assert_eq!(scale_sample(129, 65535), 1);
    assert_eq!(scale_sample(32768, 65535), 128);
    assert_eq!(scale_sample(32767, 65535), 127);
}

#[test]
fn scale_is_exact_at_both_ends() {
    for max_value in 1u32..=65535 {
        assert_eq!(scale_sample(0, max_value), 0);
        assert_eq!(scale_sample(max_value, max_value), 255);
    }
}

#[test]
fn scale_is_the_identity_at_255() {
    for sample in 0u32..=255 {
        assert_eq!(scale_sample(sample, 255), sample as u8);
    }
}

#[test]
fn scale_keeps_the_order_and_stays_nearest() {
    for max_value in [1u32, 2, 3, 15, 100, 254, 255, 256, 1023, 4095, 65535] {
        let mut last = 0u8;
        for sample in 0..=max_value {
            let scaled = scale_sample(sample, max_value);
            assert!(last <= scaled);
            let exact = 2 * 255 * sample as i64;
            let got = 2 * scaled as i64 * max_value as i64;
            assert!(got - exact <= max_value as i64);
            assert!(exact - got < max_value as i64);
            last = scaled;
        }
    }
}

#[test]
fn ascii_body_of_four_pixels() {
    let body = b"0  0  0    0  0  0\n 0  0  0    0 15  7";
    let expected: PPMData = vec![
        vec![rgb(0, 0, 0), rgb(0, 0, 0)],
        vec![rgb(0, 0, 0), rgb(0, 255, 119)],
    ];
    assert_eq!(parse_ppm_data_ascii(body, 2, 2, 15), Ok((&b""[..], expected)));
}

#[test]
fn ascii_body_is_row_major() {
    let body = b"1 2 3 4 5 6 7 8 9 10 11 12 13 14 15 16 17 18";
    let expected: PPMData = vec![
        vec![rgb(1, 2, 3), rgb(4, 5, 6), rgb(7, 8, 9)],
        vec![rgb(10, 11, 12), rgb(13, 14, 15), rgb(16, 17, 18)],
    ];
    assert_eq!(parse_ppm_data_ascii(body, 3, 2, 255), Ok((&b""[..], expected)));
    let expected: PPMData = vec![
        vec![rgb(1, 2, 3), rgb(4, 5, 6)],
        vec![rgb(7, 8, 9), rgb(10, 11, 12)],
        vec![rgb(13, 14, 15), rgb(16, 17, 18)],
    ];
    assert_eq!(parse_ppm_data_ascii(body, 2, 3, 255), Ok((&b""[..], expected)));
}

#[test]
fn ascii_body_with_max_255_is_unchanged() {
    let mut body = String::new();
    for sample in 0..=255 {
        body.push_str(&format!("{} ", sample));
    }
    body.push_str("255 255");
    let (rest, grid) = parse_ppm_data_ascii(body.as_bytes(), 86, 1, 255).unwrap();
    assert_eq!(rest, &b""[..]);
    assert_eq!(grid.len(), 1);
    assert_eq!(grid[0].len(), 86);
    for (i, pixel) in grid[0].iter().enumerate().take(85) {
        assert_eq!(*pixel, rgb((3 * i) as u8, (3 * i + 1) as u8, (3 * i + 2) as u8));
    }
    assert_eq!(grid[0][85], rgb(255, 255, 255));
}

#[test]
fn ascii_body_consumes_surrounding_whitespace() {
    let expected: PPMData = vec![vec![rgb(1, 2, 3)]];
    assert_eq!(
        parse_ppm_data_ascii(b"\n\t 1\r\n2   3 \n\n", 1, 1, 255),
        Ok((&b""[..], expected.clone()))
    );
    assert_eq!(
        parse_ppm_data_ascii(b"1 2 3\nP3 1 1 255 4 5 6", 1, 1, 255),
        Ok((&b"P3 1 1 255 4 5 6"[..], expected.clone()))
    );
    assert_eq!(
        parse_ppm_data_ascii(b"001 02 0003", 1, 1, 255),
        Ok((&b""[..], expected))
    );
}

#[test]
fn ascii_body_that_ends_early() {
    assert_eq!(
        parse_ppm_data_ascii(b"", 1, 1, 255),
        Err(error(ErrorKind::UnexpectedEndOfInput, 0, 0))
    );
    assert_eq!(
        parse_ppm_data_ascii(b"1 2", 1, 1, 255),
        Err(error(ErrorKind::UnexpectedEndOfInput, 3, 0))
    );
    assert_eq!(
        parse_ppm_data_ascii(b"1 2 \n", 1, 1, 255),
        Err(error(ErrorKind::UnexpectedEndOfInput, 5, 0))
    );
    assert_eq!(
        parse_ppm_data_ascii(b"1 2 3 4 5 6 7 8 9 10 11", 2, 2, 255),
        Err(error(ErrorKind::UnexpectedEndOfInput, 23, 0))
    );
    assert_eq!(
        parse_ppm_data_ascii(b"1 2 3", u32::MAX, u32::MAX, 255),
        Err(error(ErrorKind::UnexpectedEndOfInput, 5, 0))
    );
}

#[test]
fn ascii_sample_out_of_range() {
    assert_eq!(
        parse_ppm_data_ascii(b"1 16 3", 1, 1, 15),
        Err(error(ErrorKind::SampleOutOfRange, 2, 4))
    );
    assert_eq!(
        parse_ppm_data_ascii(b"256 0 0", 1, 1, 255),
        Err(error(ErrorKind::SampleOutOfRange, 0, 7))
    );
    assert_eq!(
        parse_ppm_data_ascii(b"0 0 99999999999999999999999999", 1, 1, 65535),
        Err(error(ErrorKind::SampleOutOfRange, 4, 26))
    );
    assert_eq!(
        parse_ppm_data_ascii(b"1 -2 3", 1, 1, 15),
        Err(error(ErrorKind::SampleOutOfRange, 2, 4))
    );
    assert_eq!(
        parse_ppm_data_ascii(b"-0 0 0", 1, 1, 15),
        Err(error(ErrorKind::SampleOutOfRange, 0, 6))
    );
}

#[test]
fn ascii_token_that_is_no_number() {
    assert_eq!(
        parse_ppm_data_ascii(b"1 x2 3", 1, 1, 255),
        Err(error(ErrorKind::InvalidDimension, 2, 4))
    );
    assert_eq!(
        parse_ppm_data_ascii(b"1 2,3 4", 1, 1, 255),
        Err(error(ErrorKind::InvalidDimension, 2, 5))
    );
    assert_eq!(
        parse_ppm_data_ascii(b"1 - 3", 1, 1, 255),
        Err(error(ErrorKind::InvalidDimension, 2, 3))
    );
    assert_eq!(
        parse_ppm_data_ascii(b"1 +2 3", 1, 1, 255),
        Err(error(ErrorKind::InvalidDimension, 2, 4))
    );
    assert_eq!(
        parse_ppm_data_ascii(b"1 --2 3", 1, 1, 255),
        Err(error(ErrorKind::InvalidDimension, 2, 5))
    );
    assert_eq!(
        parse_ppm_data_ascii(b"1 2.5 3", 1, 1, 255),
        Err(error(ErrorKind::InvalidDimension, 2, 5))
    );
}

#[test]
fn ascii_body_reports_the_first_wrong_token() {
    assert_eq!(
        parse_ppm_data_ascii(b"1 300 x", 1, 1, 255),
        Err(error(ErrorKind::SampleOutOfRange, 2, 5))
    );
    assert_eq!(
        parse_ppm_data_ascii(b"1 x 300", 1, 1, 255),
        Err(error(ErrorKind::InvalidDimension, 2, 5))
    );
    assert_eq!(
        parse_ppm_data_ascii(b"1 2 3 4 5 6 7 8 9 0 0 x", 2, 2, 9),
        Err(error(ErrorKind::InvalidDimension, 22, 1))
    );
}

#[test]
fn ascii_body_without_pixels() {
    let three_empty_rows: PPMData = vec![vec![], vec![], vec![]];
    assert_eq!(
        parse_ppm_data_ascii(b" 5", 0, 3, 255),
        Ok((&b"5"[..], three_empty_rows))
    );
    let no_rows: PPMData = vec![];
    assert_eq!(parse_ppm_data_ascii(b"x", 3, 0, 255), Ok((&b"x"[..], no_rows)));
}

#[test]
fn read_sample_moves_the_cursor() {
    assert_eq!(read_sample(b"  7 15", 0, 15), Ok((119, 3)));
    assert_eq!(read_sample(b"  7 15", 3, 15), Ok((255, 6)));
    assert_eq!(
        read_sample(b"  7 15", 6, 15),
        Err(error(ErrorKind::UnexpectedEndOfInput, 6, 0))
    );
    assert_eq!(
        read_sample(b"  7 15", 3, 14),
        Err(error(ErrorKind::SampleOutOfRange, 4, 2))
    );
}

#[test]
fn binary_body_takes_bytes_as_they_are() {
    let expected: PPMData = vec![vec![rgb(1, 2, 3), rgb(4, 5, 6)]];
    assert_eq!(
        parse_ppm_data_bytes(&[1, 2, 3, 4, 5, 6, 7], 2, 1, 255),
        Ok((&[7u8][..], expected))
    );
    let expected: PPMData = vec![vec![rgb(200, 0, 15)], vec![rgb(32, 10, 9)]];
    assert_eq!(
        parse_ppm_data_bytes(&[200, 0, 15, 32, 10, 9], 1, 2, 15),
        Ok((&b""[..], expected))
    );
}

#[test]
fn binary_body_is_row_major() {
    let body: Vec<u8> = (0u8..24).collect();
    let (rest, grid) = parse_ppm_data_bytes(&body, 4, 2, 255).unwrap();
    assert_eq!(rest, &b""[..]);
    assert_eq!(grid.len(), 2);
    for r in 0..2 {
        assert_eq!(grid[r].len(), 4);
        for c in 0..4 {
            let k = (3 * (r * 4 + c)) as u8;
            assert_eq!(grid[r][c], rgb(k, k + 1, k + 2));
        }
    }
}

#[test]
fn binary_body_that_ends_early() {
    assert_eq!(
        parse_ppm_data_bytes(&[1, 2, 3, 4, 5], 2, 1, 255),
        Err(error(ErrorKind::UnexpectedEndOfInput, 5, 0))
    );
    assert_eq!(
        parse_ppm_data_bytes(&[], 1, 1, 255),
        Err(error(ErrorKind::UnexpectedEndOfInput, 0, 0))
    );
    assert_eq!(
        parse_ppm_data_bytes(&[0, 1, 0, 2, 0], 1, 1, 256),
        Err(error(ErrorKind::UnexpectedEndOfInput, 5, 0))
    );
    assert_eq!(
        parse_ppm_data_bytes(&[9, 9, 9, 9, 9, 9], u32::MAX, u32::MAX, 255),
        Err(error(ErrorKind::UnexpectedEndOfInput, 6, 0))
    );
    assert_eq!(
        parse_ppm_data_bytes(&[9, 9, 9, 9, 9, 9], u32::MAX, u32::MAX, 65535),
        Err(error(ErrorKind::UnexpectedEndOfInput, 6, 0))
    );
}

#[test]
fn binary_body_with_two_byte_samples() {
    let body = [0xff, 0xff, 0x00, 0x00, 0x80, 0x00, 0x00, 0x81, 0x7f, 0xff, 0x00, 0x80, 0xaa];
    let expected: PPMData = vec![vec![rgb(255, 0, 128), rgb(1, 127, 0)]];
    assert_eq!(
        parse_ppm_data_bytes(&body, 2, 1, 65535),
        Ok((&[0xaau8][..], expected))
    );
    let body = [0x03, 0xff, 0x02, 0x00, 0x00, 0x01];
    let expected: PPMData = vec![vec![rgb(255, 128, 0)]];
    assert_eq!(parse_ppm_data_bytes(&body, 1, 1, 1023), Ok((&b""[..], expected)));
    let body = [0x01, 0x00, 0x00, 0x80, 0x00, 0x00];
    let expected: PPMData = vec![vec![rgb(255, 128, 0)]];
    assert_eq!(parse_ppm_data_bytes(&body, 1, 1, 256), Ok((&b""[..], expected)));
}

#[test]
fn binary_two_byte_sample_out_of_range() {
    let body = [0x00, 0x01, 0x04, 0x00, 0x00, 0x00];
    assert_eq!(
        parse_ppm_data_bytes(&body, 1, 1, 1023),
        Err(error(ErrorKind::SampleOutOfRange, 2, 4))
    );
    let body = [0x00, 0x01, 0x03, 0xff, 0xff, 0xff, 0x04, 0x00, 0, 0, 0, 0];
    assert_eq!(
        parse_ppm_data_bytes(&body, 2, 1, 1023),
        Err(error(ErrorKind::SampleOutOfRange, 4, 8))
    );
    let body = [0x00, 0x01, 0x04, 0x00, 0x00];
    assert_eq!(
        parse_ppm_data_bytes(&body, 1, 1, 1023),
        Err(error(ErrorKind::UnexpectedEndOfInput, 5, 0))
    );
}

#[test]
fn binary_body_without_pixels() {
    let two_empty_rows: PPMData = vec![vec![], vec![]];
    assert_eq!(
        parse_ppm_data_bytes(&[1, 2], 0, 2, 255),
        Ok((&[1u8, 2][..], two_empty_rows))
    );
    let no_rows: PPMData = vec![];
    assert_eq!(parse_ppm_data_bytes(&[1, 2], 7, 0, 65535), Ok((&[1u8, 2][..], no_rows)));
}
