use multipart::boundary::boundary_byte;
use multipart::header::{apply_line, parse_disposition, Fields};
use multipart::quoting::{escape_into, is_header_safe, unquote};
use multipart::scan::{
    after_prefix, copy_range, eq_ignoring_case, find_byte, same_bytes, skip_blanks, to_lower,
};
use multipart::{Body, Boundary, Entry, Error, ErrorKind};

#[test]
fn validate_accepts_tokens_of_permitted_bytes() {
    let b = Boundary::validate(b"XYZ").unwrap();
    assert_eq!(b.token(), &b"XYZ".to_vec());
    let all = b"AZaz09'()+_,-./:=?";
    assert_eq!(Boundary::validate(all).unwrap().token(), &all.to_vec());
    assert!(Boundary::validate(&[b'a'; 70]).is_ok());
    assert!(Boundary::validate(b"a").is_ok());
}

#[test]
fn validate_rejects_empty_long_and_forbidden_tokens() {
    assert_eq!(Boundary::validate(b"").err(), Some(Error::InvalidBoundary));
    assert_eq!(Boundary::validate(&[b'a'; 71]).err(), Some(Error::InvalidBoundary));
    for bad in [
        &b"a b"[..],
        b"a\"b",
        b"a\\b",
        b"a\rb",
        b"a\nb",
        b"a;b",
        b"a@b",
        b"caf\xc3\xa9",
        b"a*b",
        b"[a]",
    ] {
        assert_eq!(Boundary::validate(bad).err(), Some(Error::InvalidBoundary));
    }
}

#[test]
fn boundary_bytes_are_letters_digits_and_a_few_signs() {
    let allowed: Vec<u8> = (0..=255u8).filter(|b| boundary_byte(*b)).collect();
    let mut expected: Vec<u8> = b"'()+,-./0123456789:=?".to_vec();
    expected.extend(b'A'..=b'Z');
    expected.push(b'_');
    expected.extend(b'a'..=b'z');
    assert_eq!(allowed, expected);
}

#[test]
fn generate_maps_each_random_byte_to_a_letter_or_digit() {
    let entropy: Vec<u8> = vec![0, 9, 10, 35, 36, 61, 62, 71, 72, 97, 98, 123, 124, 185, 186, 255];
    let b = Boundary::generate(&entropy).unwrap();
    assert_eq!(b.token(), &b"09AZaz09AZaz0z07".to_vec());
}

#[test]
fn generate_needs_sixteen_bytes_and_uses_at_most_seventy() {
    assert_eq!(Boundary::generate(&[1; 15]).err(), Some(Error::InsufficientEntropy));
    assert_eq!(Boundary::generate(&[]).err(), Some(Error::InsufficientEntropy));
    assert_eq!(Boundary::generate(&[1; 16]).unwrap().token().len(), 16);
    assert_eq!(Boundary::generate(&[1; 70]).unwrap().token().len(), 70);
    let long = Boundary::generate(&[11; 200]).unwrap();
    assert_eq!(long.token(), &vec![b'B'; 70]);
    assert!(Boundary::validate(long.token()).is_ok());
}

#[test]
fn delimiter_and_terminal_lines() {
    let b = Boundary::validate(b"XYZ").unwrap();
    assert_eq!(b.delimiter_line(), b"--XYZ".to_vec());
    assert_eq!(b.terminal_line(), b"--XYZ--".to_vec());
    assert_eq!(b.duplicate().token(), &b"XYZ".to_vec());
}

#[test]
fn error_kinds() {
    for e in [
        Error::InvalidBoundary,
        Error::InsufficientEntropy,
        Error::InvalidName,
        Error::InvalidFileName,
        Error::InvalidContentType,
    ] {
        assert_eq!(e.kind(), ErrorKind::Construction);
    }
    for e in [
        Error::BoundaryNotFound,
        Error::TruncatedHeaders,
        Error::TruncatedBody,
        Error::MissingDisposition,
        Error::MissingName,
        Error::MalformedHeader,
    ] {
        assert_eq!(e.kind(), ErrorKind::Framing);
    }
    for e in [Error::AlreadyEncoded, Error::NotOutgoing] {
        assert_eq!(e.kind(), ErrorKind::Usage);
    }
}

#[test]
fn entry_keeps_its_name_and_body() {
    let entry = Entry::new("field", Body::from_bytes(b"data".to_vec()));
    assert_eq!(entry.name(), "field");
    assert_eq!(entry.file_name(), None);
    assert_eq!(entry.content_type(), None);
    assert_eq!(entry.payload(), &b"data".to_vec());
    assert_eq!(entry.body().declared_length(), Some(4));
    let (name, body) = entry.into_parts();
    assert_eq!(name, "field");
    assert_eq!(body.into_bytes(), b"data".to_vec());
}

#[test]
fn entry_takes_its_file_name_from_the_body() {
    let body = Body::from_bytes(b"meow".to_vec())
        .with_file_name("cats.jpeg")
        .with_content_type("image/jpeg");
    assert_eq!(body.suggested_file_name(), Some(&"cats.jpeg".to_string()));
    assert_eq!(body.content_type(), Some(&"image/jpeg".to_string()));
    assert_eq!(body.bytes(), &b"meow".to_vec());
    let entry = Entry::from_parts("cat".to_string(), body);
    assert_eq!(entry.name(), "cat");
    assert_eq!(entry.file_name(), Some(&"cats.jpeg".to_string()));
    assert_eq!(entry.content_type(), Some(&"image/jpeg".to_string()));
}

#[test]
fn body_length_is_declared_only_where_it_was_known() {
    assert_eq!(Body::from_bytes(vec![1, 2, 3]).declared_length(), Some(3));
    assert_eq!(Body::from_bytes(vec![]).declared_length(), Some(0));
    assert_eq!(Body::from_stream(vec![1, 2, 3]).declared_length(), None);
    let body = Body::from_parts(vec![7], Some("f".to_string()), None, false);
    assert_eq!(body.declared_length(), None);
    assert_eq!(body.suggested_file_name(), Some(&"f".to_string()));
    assert_eq!(body.content_type(), None);
}

#[test]
fn escaping_puts_a_backslash_before_quotes_and_backslashes() {
    let mut out = b"x=".to_vec();
    escape_into(&mut out, b"a\"b\\c");
    assert_eq!(out, b"x=a\\\"b\\\\c".to_vec());
    let mut out = Vec::new();
    escape_into(&mut out, b"plain text; with = signs");
    assert_eq!(out, b"plain text; with = signs".to_vec());
    let mut out = Vec::new();
    escape_into(&mut out, b"");
    assert!(out.is_empty());
}

#[test]
fn unquote_reads_up_to_the_closing_quote() {
    let s = b"name=\"a\\\"b\\\\c\"; rest";
    assert_eq!(unquote(s, 6), Some((b"a\"b\\c".to_vec(), 14)));
    assert_eq!(unquote(b"\"", 0), Some((vec![], 1)));
    assert_eq!(unquote(b"\\x\\\\\"", 0), Some((b"x\\".to_vec(), 5)));
    assert_eq!(unquote(b"abc", 0), None);
    assert_eq!(unquote(b"abc\\", 0), None);
    assert_eq!(unquote(b"abc\\\"", 0), None);
    assert_eq!(unquote(b"", 0), None);
    assert_eq!(unquote(b"ab\"", 3), None);
}

#[test]
fn escaped_values_are_read_back_unchanged() {
    for value in [&b"a\"b\\c"[..], b"", b"\\", b"\"", b"\\\"\\\"", b"plain", b"\xff\x00\r\n"] {
        let mut out = Vec::new();
        escape_into(&mut out, value);
        out.push(b'"');
        out.extend_from_slice(b"tail");
        let end = out.len() - 4;
        assert_eq!(unquote(&out, 0), Some((value.to_vec(), end)));
    }
}

#[test]
fn header_safe_means_no_control_character() {
    assert!(is_header_safe(b"plain text \"quoted\" \\ ~"));
    assert!(is_header_safe(b""));
    assert!(is_header_safe(&[0x20, 0x7e, 0x80, 0xff]));
    assert!(!is_header_safe(b"a\rb"));
    assert!(!is_header_safe(b"a\nb"));
    assert!(!is_header_safe(b"\t"));
    assert!(!is_header_safe(&[0x00]));
    assert!(!is_header_safe(&[0x1f]));
    assert!(!is_header_safe(&[0x7f]));
}

#[test]
fn searches_and_comparisons() {
    assert_eq!(find_byte(b"abc:def:g", b':'), 3);
    assert_eq!(find_byte(b"abc", b':'), 3);
    assert_eq!(find_byte(b"", b':'), 0);
    assert_eq!(find_byte(b":", b':'), 0);
    assert_eq!(skip_blanks(b"  \t x ", 0), 4);
    assert_eq!(skip_blanks(b"  \t x ", 4), 4);
    assert_eq!(skip_blanks(b"   ", 1), 3);
    assert_eq!(skip_blanks(b"", 0), 0);
    assert_eq!(after_prefix(b"form-data; x", 0, b"form-data"), Some(9));
    assert_eq!(after_prefix(b"  form-data", 2, b"form-data"), Some(11));
    assert_eq!(after_prefix(b"form-dat", 0, b"form-data"), None);
    assert_eq!(after_prefix(b"Form-data", 0, b"form-data"), None);
    assert_eq!(after_prefix(b"abc", 3, b""), Some(3));
    assert!(same_bytes(b"name", b"name"));
    assert!(!same_bytes(b"name", b"Name"));
    assert!(!same_bytes(b"name", b"names"));
    assert!(eq_ignoring_case(b"Content-Type", b"content-type"));
    assert!(eq_ignoring_case(b"CONTENT-TYPE", b"cOnTeNt-TyPe"));
    assert!(!eq_ignoring_case(b"Content-Type", b"content_type"));
    assert!(!eq_ignoring_case(b"Content-Type", b"content-typ"));
    assert!(!eq_ignoring_case(b"@", b"`"));
    assert!(!eq_ignoring_case(b"[", b"{"));
    assert_eq!(to_lower(b'A'), b'a');
    assert_eq!(to_lower(b'Z'), b'z');
    assert_eq!(to_lower(b'a'), b'a');
    assert_eq!(to_lower(b'@'), b'@');
    assert_eq!(to_lower(b'['), b'[');
    assert_eq!(to_lower(b'-'), b'-');
    assert_eq!(copy_range(b"abcdef", 2, 4), b"cd".to_vec());
    assert_eq!(copy_range(b"abcdef", 6, 6), Vec::<u8>::new());
}

#[test]
fn disposition_values_are_read_parameter_by_parameter() {
    let d = parse_disposition(b" form-data; name=\"a\"; filename=\"b.txt\"").unwrap();
    assert_eq!(d.name, Some(b"a".to_vec()));
    assert_eq!(d.file_name, Some(b"b.txt".to_vec()));
    let d = parse_disposition(b"form-data; filename=\"f\"; name=\"n\"; name=\"last\"").unwrap();
    assert_eq!(d.name, Some(b"last".to_vec()));
    assert_eq!(d.file_name, Some(b"f".to_vec()));
    let d = parse_disposition(b"\t form-data").unwrap();
    assert_eq!(d.name, None);
    assert_eq!(d.file_name, None);
    let d = parse_disposition(b"form-data; x=\"\\\"\"; NAME=\"upper\"").unwrap();
    assert_eq!(d.name, None);
    let d = parse_disposition(b"form-data; name=\"a;b=\\\"c\\\"\"").unwrap();
    assert_eq!(d.name, Some(b"a;b=\"c\"".to_vec()));
    assert!(parse_disposition(b"").is_none());
    assert!(parse_disposition(b"form-data;").is_none());
    assert!(parse_disposition(b"form-data; ").is_none());
    assert!(parse_disposition(b"form-data; name").is_none());
    assert!(parse_disposition(b"form-data; name=").is_none());
    assert!(parse_disposition(b"form-data; name=\"").is_none());
    assert!(parse_disposition(b"form-data;  name=\"a\"").is_some());
    assert!(parse_disposition(b"form-data ; name=\"a\"").is_none());
    assert!(parse_disposition(b"inline; name=\"a\"").is_none());
}

#[test]
fn header_lines_fill_the_fields() {
    let f = apply_line(Fields::new(), b"Content-Type:  text/plain; charset=utf-8").unwrap();
    assert_eq!(f.content_type, Some("text/plain; charset=utf-8".to_string()));
    assert_eq!(f.name, None);
    let f = apply_line(f, b"Content-Disposition: form-data; name=\"n\"").unwrap();
    assert_eq!(f.name, Some("n".to_string()));
    assert_eq!(f.file_name, None);
    assert_eq!(f.content_type, Some("text/plain; charset=utf-8".to_string()));
    let f = apply_line(f, b"X-Other: value").unwrap();
    assert_eq!(f.name, Some("n".to_string()));
    let f = apply_line(f, b": no field name").unwrap();
    assert_eq!(f.name, Some("n".to_string()));
    let f = apply_line(f, b"content-disposition:form-data; name=\"m\"; filename=\"f\"").unwrap();
    assert_eq!(f.name, Some("m".to_string()));
    assert_eq!(f.file_name, Some("f".to_string()));
    let f = apply_line(f, b"Content-Type:").unwrap();
    assert_eq!(f.content_type, Some(String::new()));
    assert_eq!(
        apply_line(Fields::new(), b"Content-Disposition: form-data").err(),
        Some(Error::MissingName)
    );
    assert_eq!(
        apply_line(Fields::new(), b"Content-Disposition: nonsense").err(),
        Some(Error::MalformedHeader)
    );
    assert_eq!(
        apply_line(Fields::new(), b"Content-Type: \xff").err(),
        Some(Error::MalformedHeader)
    );
}
