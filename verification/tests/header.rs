use ppm::{
    parse_ppm_header, read_dimension, read_max_value, ErrorKind, Header, PPMDataType, ParseError,
};

fn error(kind: ErrorKind, offset: usize, remaining: usize) -> ParseError {
    ParseError { kind, offset, remaining }
}

fn header(data_type: PPMDataType, width: u32, height: u32, max_value: u32) -> Header {
    Header { data_type, width, height, max_value }
}

#[test]
fn parse_header() {
    assert_eq!(
        parse_ppm_header("P3 32 32 255".as_bytes()),
        Ok((
            "".as_bytes(),
            Header {
                data_type: PPMDataType::ASCII,
                width: 32,
                height: 32,
                max_value: 255,
            }
        ))
    );
}

#[test]
fn parse_header2() {
    assert_eq!(
        parse_ppm_header("P6 109 23 10".as_bytes()),
        Ok((
            "".as_bytes(),
            Header {
                data_type: PPMDataType::BYTE,
                width: 109,
                height: 23,
                max_value: 10,
            }
        ))
    );
}

#[test]
fn header_does_not_transpose() {
    assert_eq!(
        parse_ppm_header(b"P3 640 480 255"),
        Ok((&b""[..], header(PPMDataType::ASCII, 640, 480, 255)))
    );
    assert_eq!(
        parse_ppm_header(b"P3 480 640 255"),
        Ok((&b""[..], header(PPMDataType::ASCII, 480, 640, 255)))
    );
    assert_eq!(
        parse_ppm_header(b"P6 23 109 10"),
        Ok((&b""[..], header(PPMDataType::BYTE, 23, 109, 10)))
    );
    assert_eq!(
        parse_ppm_header(b"P6 1 2 3"),
        Ok((&b""[..], header(PPMDataType::BYTE, 1, 2, 3)))
    );
}

#[test]
fn header_accepts_any_whitespace() {
    assert_eq!(
        parse_ppm_header(b"P3\n2 2\n15\n"),
        Ok((&b""[..], header(PPMDataType::ASCII, 2, 2, 15)))
    );
    assert_eq!(
        parse_ppm_header(b"P6\t7\r\n8 \n 9 \n\n"),
        Ok((&b""[..], header(PPMDataType::BYTE, 7, 8, 9)))
    );
    assert_eq!(
        parse_ppm_header(b"P3 007 0010 0255"),
        Ok((&b""[..], header(PPMDataType::ASCII, 7, 10, 255)))
    );
}

#[test]
fn header_stops_at_the_body() {
    assert_eq!(
        parse_ppm_header(b"P3 1 1 255\n 10 20 30\n"),
        Ok((&b"10 20 30\n"[..], header(PPMDataType::ASCII, 1, 1, 255)))
    );
    assert_eq!(
        parse_ppm_header(b"P6 1 1 255\n\x01\x02\x03"),
        Ok((&b"\x01\x02\x03"[..], header(PPMDataType::BYTE, 1, 1, 255)))
    );
    assert_eq!(
        parse_ppm_header(b"P6 1 1 255#"),
        Ok((&b"#"[..], header(PPMDataType::BYTE, 1, 1, 255)))
    );
}

#[test]
fn header_limits() {
    assert_eq!(
        parse_ppm_header(b"P3 4294967295 4294967295 65535"),
        Ok((&b""[..], header(PPMDataType::ASCII, u32::MAX, u32::MAX, 65535)))
    );
    assert_eq!(
        parse_ppm_header(b"P3 1 1 1"),
        Ok((&b""[..], header(PPMDataType::ASCII, 1, 1, 1)))
    );
}

#[test]
fn header_without_magic_number() {
    assert_eq!(parse_ppm_header(b""), Err(error(ErrorKind::ExpectedMagicNumber, 0, 0)));
    assert_eq!(
        parse_ppm_header(b"Q3 1 1 1"),
        Err(error(ErrorKind::ExpectedMagicNumber, 0, 8))
    );
    assert_eq!(
        parse_ppm_header(b"p3 1 1 1"),
        Err(error(ErrorKind::ExpectedMagicNumber, 0, 8))
    );
    assert_eq!(
        parse_ppm_header(b" P3 1 1 1"),
        Err(error(ErrorKind::ExpectedMagicNumber, 0, 9))
    );
    assert_eq!(parse_ppm_header(b"P"), Err(error(ErrorKind::ExpectedMagicNumber, 1, 0)));
    assert_eq!(
        parse_ppm_header(b"Px 1 1 1"),
        Err(error(ErrorKind::ExpectedMagicNumber, 1, 7))
    );
    assert_eq!(
        parse_ppm_header(b"P 3 1 1 1"),
        Err(error(ErrorKind::ExpectedMagicNumber, 1, 8))
    );
}

#[test]
fn header_of_another_format() {
    for digit in b"01245789" {
        let mut input = vec![b'P', *digit];
        input.extend_from_slice(b" 1 1 255\n");
        assert_eq!(
            parse_ppm_header(&input),
            Err(error(ErrorKind::UnsupportedFormat, 1, 10))
        );
    }
}

#[test]
fn header_with_invalid_dimension() {
    assert_eq!(parse_ppm_header(b"P3"), Err(error(ErrorKind::InvalidDimension, 2, 0)));
    assert_eq!(parse_ppm_header(b"P3 "), Err(error(ErrorKind::InvalidDimension, 3, 0)));
    assert_eq!(parse_ppm_header(b"P3 12"), Err(error(ErrorKind::InvalidDimension, 5, 0)));
    assert_eq!(parse_ppm_header(b"P3 12 "), Err(error(ErrorKind::InvalidDimension, 6, 0)));
    assert_eq!(parse_ppm_header(b"P3 1 1"), Err(error(ErrorKind::InvalidDimension, 6, 0)));
    assert_eq!(
        parse_ppm_header(b"P3 12a 4 255"),
        Err(error(ErrorKind::InvalidDimension, 3, 9))
    );
    assert_eq!(
        parse_ppm_header(b"P3 12 x4 255"),
        Err(error(ErrorKind::InvalidDimension, 6, 6))
    );
    assert_eq!(
        parse_ppm_header(b"P3 12 4 0xff"),
        Err(error(ErrorKind::InvalidDimension, 8, 4))
    );
    assert_eq!(
        parse_ppm_header(b"P3 -1 4 255"),
        Err(error(ErrorKind::InvalidDimension, 3, 8))
    );
    assert_eq!(
        parse_ppm_header(b"P3 1,1 255"),
        Err(error(ErrorKind::InvalidDimension, 4, 6))
    );
    assert_eq!(
        parse_ppm_header(b"P3 4294967296 1 255"),
        Err(error(ErrorKind::InvalidDimension, 3, 16))
    );
    assert_eq!(
        parse_ppm_header(b"P3 1 99999999999999999999 255"),
        Err(error(ErrorKind::InvalidDimension, 5, 24))
    );
}

#[test]
fn header_with_zero_dimension() {
    assert_eq!(
        parse_ppm_header(b"P3 0 5 255"),
        Err(error(ErrorKind::ZeroDimension, 3, 7))
    );
    assert_eq!(
        parse_ppm_header(b"P3 5 0 255"),
        Err(error(ErrorKind::ZeroDimension, 5, 5))
    );
    assert_eq!(
        parse_ppm_header(b"P6 000 5 255"),
        Err(error(ErrorKind::ZeroDimension, 3, 9))
    );
    assert_eq!(
        parse_ppm_header(b"P6 0 0 0"),
        Err(error(ErrorKind::ZeroDimension, 3, 5))
    );
}

#[test]
fn header_with_invalid_max_value() {
    assert_eq!(
        parse_ppm_header(b"P3 5 5 0"),
        Err(error(ErrorKind::InvalidMaxValue, 7, 1))
    );
    assert_eq!(
        parse_ppm_header(b"P3 5 5 65536"),
        Err(error(ErrorKind::InvalidMaxValue, 7, 5))
    );
    assert_eq!(
        parse_ppm_header(b"P6 5 5\n99999999999999999999\n"),
        Err(error(ErrorKind::InvalidMaxValue, 7, 21))
    );
    assert_eq!(
        parse_ppm_header(b"P3 5 5 65535"),
        Ok((&b""[..], header(PPMDataType::ASCII, 5, 5, 65535)))
    );
}

#[test]
fn header_reports_the_first_wrong_field() {
    assert_eq!(
        parse_ppm_header(b"P3 0 x 0"),
        Err(error(ErrorKind::ZeroDimension, 3, 5))
    );
    assert_eq!(
        parse_ppm_header(b"P3 x 0 0"),
        Err(error(ErrorKind::InvalidDimension, 3, 5))
    );
    assert_eq!(
        parse_ppm_header(b"P9 0 0 0"),
        Err(error(ErrorKind::UnsupportedFormat, 1, 7))
    );
}

#[test]
fn dimensions_and_max_value_fields() {
    assert_eq!(read_dimension(b"32"), Ok(32));
    assert_eq!(read_dimension(b"4294967295"), Ok(u32::MAX));
    assert_eq!(read_dimension(b"0"), Err(ErrorKind::ZeroDimension));
    assert_eq!(read_dimension(b""), Err(ErrorKind::InvalidDimension));
    assert_eq!(read_dimension(b"3x"), Err(ErrorKind::InvalidDimension));
    assert_eq!(read_dimension(b"4294967296"), Err(ErrorKind::InvalidDimension));
    assert_eq!(read_max_value(b"255"), Ok(255));
    assert_eq!(read_max_value(b"1"), Ok(1));
    assert_eq!(read_max_value(b"65535"), Ok(65535));
    assert_eq!(read_max_value(b"0"), Err(ErrorKind::InvalidMaxValue));
    assert_eq!(read_max_value(b"65536"), Err(ErrorKind::InvalidMaxValue));
    assert_eq!(read_max_value(b""), Err(ErrorKind::InvalidDimension));
    assert_eq!(read_max_value(b"ff"), Err(ErrorKind::InvalidDimension));
}
