use multipart::decoder::decode;
use multipart::{Body, Boundary, Decoder, Encoder, Entry, Error, Multipart, Phase};

fn boundary(token: &str) -> Boundary {
    Boundary::validate(token.as_bytes()).unwrap()
}

fn text_entry(name: &str, payload: &str) -> Entry {
    Entry::new(name, Body::from_bytes(payload.as_bytes().to_vec()))
}

fn encode(entries: Vec<Entry>, token: &str) -> Vec<u8> {
    Encoder::new(entries, &boundary(token)).unwrap().into_bytes()
}

fn sample() -> Vec<Entry> {
    vec![
        text_entry("field1", "hello"),
        Entry::new(
            "file",
            Body::from_bytes(b"twelve bytes".to_vec()).with_file_name("a.txt"),
        ),
    ]
}

const SAMPLE_WIRE: &str = "--XYZ\r\n\
Content-Disposition: form-data; name=\"field1\"\r\n\
\r\n\
hello\r\n\
--XYZ\r\n\
Content-Disposition: form-data; name=\"file\"; filename=\"a.txt\"\r\n\
\r\n\
twelve bytes\r\n\
--XYZ--\r\n";

#[test]
fn encodes_the_exact_wire_format() {
    assert_eq!(encode(sample(), "XYZ"), SAMPLE_WIRE.as_bytes().to_vec());
}

#[test]
fn encodes_an_empty_collection_as_the_terminal_line() {
    assert_eq!(encode(vec![], "XYZ"), b"--XYZ--\r\n".to_vec());
}

#[test]
fn writes_the_content_type_behind_the_disposition() {
    let entry = Entry::new(
        "doc",
        Body::from_bytes(b"{}".to_vec())
            .with_file_name("d.json")
            .with_content_type("application/json"),
    );
    let wire = encode(vec![entry], "b1");
    let expected = "--b1\r\n\
Content-Disposition: form-data; name=\"doc\"; filename=\"d.json\"\r\n\
Content-Type: application/json\r\n\
\r\n\
{}\r\n\
--b1--\r\n";
    assert_eq!(wire, expected.as_bytes().to_vec());
}

#[test]
fn decodes_two_entries_with_and_without_file_name() {
    let wire = encode(sample(), "XYZ");
    let (entries, error) = decode(&wire, &boundary("XYZ"));
    assert_eq!(error, None);
    assert_eq!(entries.len(), 2);
    assert_eq!(entries[0].name(), "field1");
    assert_eq!(entries[0].file_name(), None);
    assert_eq!(entries[0].payload(), &b"hello".to_vec());
    assert_eq!(entries[1].name(), "file");
    assert_eq!(entries[1].file_name(), Some(&"a.txt".to_string()));
    assert_eq!(entries[1].payload(), &b"twelve bytes".to_vec());
    assert_eq!(entries[1].payload().len(), 12);
}

#[test]
fn round_trip_keeps_order_and_repeated_names() {
    let entries = vec![
        text_entry("tag", "one"),
        text_entry("tag", "two"),
        text_entry("other", ""),
        text_entry("tag", "three"),
    ];
    let wire = encode(entries, "sep-0123456789");
    let (decoded, error) = decode(&wire, &boundary("sep-0123456789"));
    assert_eq!(error, None);
    let got: Vec<(String, Vec<u8>)> = decoded
        .iter()
        .map(|e| (e.name().clone(), e.payload().clone()))
        .collect();
    assert_eq!(
        got,
        vec![
            ("tag".to_string(), b"one".to_vec()),
            ("tag".to_string(), b"two".to_vec()),
            ("other".to_string(), b"".to_vec()),
            ("tag".to_string(), b"three".to_vec()),
        ]
    );
}

#[test]
fn round_trip_keeps_the_content_type() {
    let entry = Entry::new(
        "img",
        Body::from_bytes(vec![0, 159, 146, 150, 255]).with_content_type("image/png"),
    );
    let wire = encode(vec![entry], "XYZ");
    let (decoded, error) = decode(&wire, &boundary("XYZ"));
    assert_eq!(error, None);
    assert_eq!(decoded.len(), 1);
    assert_eq!(decoded[0].content_type(), Some(&"image/png".to_string()));
    assert_eq!(decoded[0].payload(), &vec![0, 159, 146, 150, 255]);
}

#[test]
fn token_inside_a_payload_is_no_delimiter() {
    let payload = "XYZ --XYZ\r\n-XYZ \n--XYZ \r--XYZ \r\n-\r\n--XY\r\n--XYz \r\r\n";
    let wire = encode(vec![text_entry("p", payload), text_entry("q", "tail")], "XYZ");
    let (decoded, error) = decode(&wire, &boundary("XYZ"));
    assert_eq!(error, None);
    assert_eq!(decoded.len(), 2);
    assert_eq!(decoded[0].payload(), &payload.as_bytes().to_vec());
    assert_eq!(decoded[1].payload(), &b"tail".to_vec());
}

#[test]
fn payload_that_ends_in_a_carriage_return_is_kept() {
    let wire = encode(vec![text_entry("p", "line\r"), text_entry("q", "\r\n")], "XYZ");
    let (decoded, error) = decode(&wire, &boundary("XYZ"));
    assert_eq!(error, None);
    assert_eq!(decoded[0].payload(), &b"line\r".to_vec());
    assert_eq!(decoded[1].payload(), &b"\r\n".to_vec());
}

#[test]
fn delimiter_inside_a_payload_ends_the_part() {
    let wire = encode(vec![text_entry("p", "ab\r\n--XYZ--cd")], "XYZ");
    let (decoded, error) = decode(&wire, &boundary("XYZ"));
    assert_eq!(error, None);
    assert_eq!(decoded.len(), 1);
    assert_eq!(decoded[0].payload(), &b"ab".to_vec());
}

fn summary(entries: &[Entry]) -> Vec<(String, Option<String>, Vec<u8>)> {
    entries
        .iter()
        .map(|e| (e.name().clone(), e.file_name().cloned(), e.payload().clone()))
        .collect()
}

#[test]
fn chunk_sizes_do_not_change_the_result() {
    let wire = encode(sample(), "XYZ");
    let (whole, _) = decode(&wire, &boundary("XYZ"));
    for size in 1..=wire.len() {
        let mut decoder = Decoder::new(&boundary("XYZ"));
        let mut entries = Vec::new();
        for chunk in wire.chunks(size) {
            entries.extend(decoder.feed(chunk));
        }
        assert_eq!(decoder.finish(), Ok(()));
        assert_eq!(summary(&entries), summary(&whole));
    }
}

#[test]
fn one_byte_at_a_time_hands_out_each_entry_at_its_delimiter() {
    let wire = encode(sample(), "XYZ");
    let mut decoder = Decoder::new(&boundary("XYZ"));
    let mut seen = Vec::new();
    for (i, b) in wire.iter().enumerate() {
        if let Some(e) = decoder.push_byte(*b) {
            seen.push((i, e.name().clone()));
        }
    }
    let first_end = SAMPLE_WIRE.find("hello\r\n--XYZ").unwrap() + "hello\r\n--XYZ".len() - 1;
    let second_end = SAMPLE_WIRE.find("bytes\r\n--XYZ").unwrap() + "bytes\r\n--XYZ".len() - 1;
    assert_eq!(
        seen,
        vec![(first_end, "field1".to_string()), (second_end, "file".to_string())]
    );
    assert_eq!(decoder.phase(), Phase::Closed);
}

#[test]
fn phases_follow_the_stream() {
    let mut decoder = Decoder::new(&boundary("XYZ"));
    assert_eq!(decoder.phase(), Phase::Preamble);
    decoder.feed(b"--XYZ");
    assert_eq!(decoder.phase(), Phase::Delimiter);
    decoder.feed(b"\r\n");
    assert_eq!(decoder.phase(), Phase::Headers);
    decoder.feed(b"Content-Disposition: form-data; name=\"a\"\r\n");
    assert_eq!(decoder.phase(), Phase::Headers);
    decoder.feed(b"\r\n");
    assert_eq!(decoder.phase(), Phase::Body);
    let done = decoder.feed(b"x\r\n--XYZ");
    assert_eq!(done.len(), 1);
    assert_eq!(decoder.phase(), Phase::Delimiter);
    decoder.feed(b"--");
    assert_eq!(decoder.phase(), Phase::Closed);
    assert!(decoder.feed(b"\r\nanything at all\r\n--XYZ\r\n").is_empty());
    assert_eq!(decoder.phase(), Phase::Closed);
    assert_eq!(decoder.finish(), Ok(()));
}

#[test]
fn truncated_stream_gives_the_entries_before_and_a_framing_error() {
    let wire = encode(sample(), "XYZ");
    let cut = &wire[..wire.len() - "--XYZ--\r\n".len()];
    let (entries, error) = decode(cut, &boundary("XYZ"));
    assert_eq!(entries.len(), 1);
    assert_eq!(entries[0].name(), "field1");
    assert_eq!(entries[0].payload(), &b"hello".to_vec());
    assert_eq!(error, Some(Error::TruncatedBody));
}

#[test]
fn empty_stream_is_a_missing_boundary() {
    let (entries, error) = decode(b"", &boundary("XYZ"));
    assert!(entries.is_empty());
    assert_eq!(error, Some(Error::BoundaryNotFound));
}

#[test]
fn stream_without_delimiter_is_a_missing_boundary() {
    let (entries, error) = decode(b"no delimiter here\r\n--XY\r\n--xyz\r\n", &boundary("XYZ"));
    assert!(entries.is_empty());
    assert_eq!(error, Some(Error::BoundaryNotFound));
}

#[test]
fn stream_cut_inside_headers_is_truncated_headers() {
    let (entries, error) =
        decode(b"--XYZ\r\nContent-Disposition: form-data; na", &boundary("XYZ"));
    assert!(entries.is_empty());
    assert_eq!(error, Some(Error::TruncatedHeaders));
    let (_, error) = decode(b"--XYZ", &boundary("XYZ"));
    assert_eq!(error, Some(Error::TruncatedHeaders));
    let (_, error) = decode(b"--XYZ-", &boundary("XYZ"));
    assert_eq!(error, Some(Error::TruncatedHeaders));
}

#[test]
fn preamble_is_discarded_and_epilogue_ignored() {
    let wire = b"This is the preamble.\r\n--XYZ\r\nContent-Disposition: form-data; name=\"a\"\r\n\r\n1\r\n--XYZ--\r\nepilogue";
    let (entries, error) = decode(wire, &boundary("XYZ"));
    assert_eq!(error, None);
    assert_eq!(entries.len(), 1);
    assert_eq!(entries[0].name(), "a");
    assert_eq!(entries[0].payload(), &b"1".to_vec());
}

#[test]
fn delimiter_in_the_preamble_must_start_a_line() {
    let wire = b"x--XYZ\r\n--XYZ\r\nContent-Disposition: form-data; name=\"a\"\r\n\r\n1\r\n--XYZ--";
    let (entries, error) = decode(wire, &boundary("XYZ"));
    assert_eq!(error, None);
    assert_eq!(entries.len(), 1);
    assert_eq!(entries[0].payload(), &b"1".to_vec());
}

#[test]
fn padding_behind_a_delimiter_is_skipped() {
    let wire = b"--XYZ \t-\r \r\nContent-Disposition: form-data; name=\"a\"\r\n\r\n1\r\n--XYZ--";
    let (entries, error) = decode(wire, &boundary("XYZ"));
    assert_eq!(error, None);
    assert_eq!(entries.len(), 1);
    assert_eq!(entries[0].name(), "a");
}

#[test]
fn header_names_are_matched_in_any_case_and_others_ignored() {
    let wire = b"--XYZ\r\nX-Custom: 1\r\nno colon here\r\ncontent-TYPE:text/plain\r\nCONTENT-disposition:   form-data; name=\"a\"; other=\"x\"; filename=\"f\"\r\n\r\n1\r\n--XYZ--";
    let (entries, error) = decode(wire, &boundary("XYZ"));
    assert_eq!(error, None);
    assert_eq!(entries.len(), 1);
    assert_eq!(entries[0].name(), "a");
    assert_eq!(entries[0].file_name(), Some(&"f".to_string()));
    assert_eq!(entries[0].content_type(), Some(&"text/plain".to_string()));
}

#[test]
fn missing_disposition_is_fatal() {
    let wire = b"--XYZ\r\nContent-Type: text/plain\r\n\r\n1\r\n--XYZ--";
    let (entries, error) = decode(wire, &boundary("XYZ"));
    assert!(entries.is_empty());
    assert_eq!(error, Some(Error::MissingDisposition));
}

#[test]
fn missing_name_is_fatal() {
    let wire = b"--XYZ\r\nContent-Disposition: form-data; filename=\"f\"\r\n\r\n1\r\n--XYZ--";
    let (_, error) = decode(wire, &boundary("XYZ"));
    assert_eq!(error, Some(Error::MissingName));
    let wire = b"--XYZ\r\nContent-Disposition: form-data; name=\"\"\r\n\r\n1\r\n--XYZ--";
    let (_, error) = decode(wire, &boundary("XYZ"));
    assert_eq!(error, Some(Error::MissingName));
    let wire = b"--XYZ\r\nContent-Disposition: form-data\r\n\r\n1\r\n--XYZ--";
    let (_, error) = decode(wire, &boundary("XYZ"));
    assert_eq!(error, Some(Error::MissingName));
}

#[test]
fn malformed_disposition_is_fatal() {
    for line in [
        "Content-Disposition: attachment; name=\"a\"",
        "Content-Disposition: form-data; name=a",
        "Content-Disposition: form-data; name=\"a",
        "Content-Disposition: form-data;name=\"a\"",
        "Content-Disposition: form-data; name=\"a\" ",
        "Content-Disposition: form-data; name=\"a\\",
    ] {
        let wire = format!("--XYZ\r\n{}\r\n\r\n1\r\n--XYZ--", line);
        let (entries, error) = decode(wire.as_bytes(), &boundary("XYZ"));
        assert!(entries.is_empty());
        assert_eq!(error, Some(Error::MalformedHeader));
    }
}

#[test]
fn entries_before_a_framing_error_stay_valid() {
    let wire = b"--XYZ\r\nContent-Disposition: form-data; name=\"a\"\r\n\r\n1\r\n--XYZ\r\nbroken\r\n\r\n2\r\n--XYZ--";
    let (entries, error) = decode(wire, &boundary("XYZ"));
    assert_eq!(entries.len(), 1);
    assert_eq!(entries[0].name(), "a");
    assert_eq!(error, Some(Error::MissingDisposition));
}

#[test]
fn names_are_text_in_utf8() {
    let entry = Entry::new(
        "na\u{ef}ve \u{1f600}",
        Body::from_bytes(b"x".to_vec()).with_file_name("\u{65e5}\u{672c}.txt"),
    );
    let wire = encode(vec![entry], "XYZ");
    let (entries, error) = decode(&wire, &boundary("XYZ"));
    assert_eq!(error, None);
    assert_eq!(entries[0].name(), "na\u{ef}ve \u{1f600}");
    assert_eq!(entries[0].file_name(), Some(&"\u{65e5}\u{672c}.txt".to_string()));
}

#[test]
fn header_values_that_are_not_utf8_are_malformed() {
    let mut wire = b"--XYZ\r\nContent-Disposition: form-data; name=\"".to_vec();
    wire.extend_from_slice(&[0x61, 0xff, 0x62]);
    wire.extend_from_slice(b"\"\r\n\r\n1\r\n--XYZ--");
    let (entries, error) = decode(&wire, &boundary("XYZ"));
    assert!(entries.is_empty());
    assert_eq!(error, Some(Error::MalformedHeader));

    let mut wire = b"--XYZ\r\nContent-Disposition: form-data; name=\"a\"; filename=\"".to_vec();
    wire.extend_from_slice(&[0xc3]);
    wire.extend_from_slice(b"\"\r\n\r\n1\r\n--XYZ--");
    let (_, error) = decode(&wire, &boundary("XYZ"));
    assert_eq!(error, Some(Error::MalformedHeader));

    let mut wire = b"--XYZ\r\nContent-Type: ".to_vec();
    wire.extend_from_slice(&[0x80]);
    wire.extend_from_slice(b"\r\n\r\n1\r\n--XYZ--");
    let (_, error) = decode(&wire, &boundary("XYZ"));
    assert_eq!(error, Some(Error::MalformedHeader));
}

#[test]
fn quoted_name_round_trips() {
    let name = "a\"b\\c";
    let wire = encode(vec![text_entry(name, "v")], "XYZ");
    let expected = "--XYZ\r\nContent-Disposition: form-data; name=\"a\\\"b\\\\c\"\r\n\r\nv\r\n--XYZ--\r\n";
    assert_eq!(wire, expected.as_bytes().to_vec());
    let (entries, error) = decode(&wire, &boundary("XYZ"));
    assert_eq!(error, None);
    assert_eq!(entries[0].name(), name);
}

#[test]
fn entries_that_cannot_be_written_are_refused_before_anything_is_written() {
    let b = boundary("XYZ");
    let bad_name = vec![text_entry("ok", "1"), text_entry("", "2")];
    assert_eq!(Encoder::new(bad_name, &b).err(), Some(Error::InvalidName));
    let control = vec![text_entry("a\r\nb", "1")];
    assert_eq!(Encoder::new(control, &b).err(), Some(Error::InvalidName));
    let delete = vec![text_entry("a\u{7f}", "1")];
    assert_eq!(Encoder::new(delete, &b).err(), Some(Error::InvalidName));
    let file = vec![Entry::new("a", Body::from_bytes(vec![]).with_file_name("x\ny"))];
    assert_eq!(Encoder::new(file, &b).err(), Some(Error::InvalidFileName));
    let kind = vec![Entry::new("a", Body::from_bytes(vec![]).with_content_type("text/\tplain"))];
    assert_eq!(Encoder::new(kind, &b).err(), Some(Error::InvalidContentType));
    let space = vec![Entry::new("a", Body::from_bytes(vec![]).with_content_type(" text/plain"))];
    assert_eq!(Encoder::new(space, &b).err(), Some(Error::InvalidContentType));
}

#[test]
fn the_first_defect_is_the_one_reported() {
    let b = boundary("XYZ");
    let entries = vec![
        text_entry("fine", "1"),
        Entry::new("a", Body::from_bytes(vec![]).with_file_name("x\u{1}")),
        text_entry("", "2"),
    ];
    assert_eq!(Encoder::new(entries, &b).err(), Some(Error::InvalidFileName));
    let both = vec![Entry::new("", Body::from_bytes(vec![]).with_file_name("x\u{1}"))];
    assert_eq!(Encoder::new(both, &b).err(), Some(Error::InvalidName));
}

#[test]
fn encoder_hands_out_one_part_per_chunk_and_then_the_terminal_line() {
    let mut encoder = Encoder::new(sample(), &boundary("XYZ")).unwrap();
    let first = encoder.next_chunk().unwrap();
    assert_eq!(
        first,
        b"--XYZ\r\nContent-Disposition: form-data; name=\"field1\"\r\n\r\nhello\r\n".to_vec()
    );
    let second = encoder.next_chunk().unwrap();
    assert_eq!(
        second,
        b"--XYZ\r\nContent-Disposition: form-data; name=\"file\"; filename=\"a.txt\"\r\n\r\ntwelve bytes\r\n"
            .to_vec()
    );
    assert_eq!(encoder.next_chunk(), Some(b"--XYZ--\r\n".to_vec()));
    assert_eq!(encoder.next_chunk(), None);
    assert_eq!(encoder.next_chunk(), None);
}

#[test]
fn into_bytes_gives_what_is_still_to_come() {
    let mut encoder = Encoder::new(sample(), &boundary("XYZ")).unwrap();
    let first = encoder.next_chunk().unwrap();
    let rest = encoder.into_bytes();
    let mut all = first;
    all.extend(rest);
    assert_eq!(all, SAMPLE_WIRE.as_bytes().to_vec());
}

#[test]
fn declared_length_is_the_length_of_the_encoding() {
    let encoder = Encoder::new(sample(), &boundary("XYZ")).unwrap();
    assert_eq!(encoder.declared_length(), Some(SAMPLE_WIRE.len() as u64));
    let empty = Encoder::new(vec![], &boundary("XYZ")).unwrap();
    assert_eq!(empty.declared_length(), Some(9));
}

#[test]
fn declared_length_is_unknown_if_one_payload_length_is() {
    let entries = vec![
        text_entry("a", "1"),
        Entry::new("b", Body::from_stream(b"streamed".to_vec())),
    ];
    let encoder = Encoder::new(entries, &boundary("XYZ")).unwrap();
    assert_eq!(encoder.declared_length(), None);
    assert_eq!(
        encoder.into_bytes(),
        b"--XYZ\r\nContent-Disposition: form-data; name=\"a\"\r\n\r\n1\r\n--XYZ\r\nContent-Disposition: form-data; name=\"b\"\r\n\r\nstreamed\r\n--XYZ--\r\n".to_vec()
    );
}

#[test]
fn collection_encodes_once() {
    let mut multi = Multipart::new();
    assert!(!multi.is_incoming());
    assert_eq!(multi.push("field1", Body::from_bytes(b"hello".to_vec())), Ok(()));
    assert_eq!(
        multi.push("file", Body::from_bytes(b"twelve bytes".to_vec()).with_file_name("a.txt")),
        Ok(())
    );
    assert_eq!(multi.len(), 2);
    let encoder = multi.encode(&boundary("XYZ")).unwrap();
    assert_eq!(encoder.into_bytes(), SAMPLE_WIRE.as_bytes().to_vec());
    assert_eq!(multi.len(), 0);
    assert_eq!(multi.encode(&boundary("XYZ")).err(), Some(Error::AlreadyEncoded));
    assert_eq!(
        multi.push("late", Body::from_bytes(vec![])),
        Err(Error::AlreadyEncoded)
    );
    assert!(multi.next_entry().is_none());
}

#[test]
fn collection_with_a_bad_entry_stays_as_it_is() {
    let mut multi = Multipart::new();
    multi.push("a", Body::from_bytes(b"1".to_vec())).unwrap();
    multi.push("b\n", Body::from_bytes(b"2".to_vec())).unwrap();
    assert_eq!(multi.encode(&boundary("XYZ")).err(), Some(Error::InvalidName));
    assert_eq!(multi.len(), 2);
    assert_eq!(multi.encode(&boundary("XYZ")).err(), Some(Error::InvalidName));
}

#[test]
fn incoming_collection_hands_out_entries_one_by_one() {
    let body = Body::from_bytes(SAMPLE_WIRE.as_bytes().to_vec());
    let mut multi = Multipart::from_body(body, &boundary("XYZ"));
    assert!(multi.is_incoming());
    assert_eq!(multi.len(), 0);
    let first = multi.next_entry().unwrap().unwrap();
    assert_eq!(first.name(), "field1");
    assert_eq!(first.payload(), &b"hello".to_vec());
    assert_eq!(first.file_name(), None);
    let second = multi.next_entry().unwrap().unwrap();
    assert_eq!(second.name(), "file");
    assert_eq!(second.file_name(), Some(&"a.txt".to_string()));
    assert_eq!(second.payload(), &b"twelve bytes".to_vec());
    assert!(multi.next_entry().is_none());
    assert!(multi.next_entry().is_none());
}

#[test]
fn incoming_collection_reports_an_error_once() {
    let cut = &SAMPLE_WIRE.as_bytes()[..SAMPLE_WIRE.len() - 9];
    let mut multi = Multipart::from_body(Body::from_bytes(cut.to_vec()), &boundary("XYZ"));
    let first = multi.next_entry().unwrap().unwrap();
    assert_eq!(first.name(), "field1");
    assert_eq!(multi.next_entry().unwrap().err(), Some(Error::TruncatedBody));
    assert!(multi.next_entry().is_none());
    assert!(multi.next_entry().is_none());
}

#[test]
fn incoming_collection_takes_no_entries_and_does_not_encode() {
    let mut multi = Multipart::from_body(Body::from_bytes(vec![]), &boundary("XYZ"));
    assert_eq!(
        multi.push("a", Body::from_bytes(vec![])),
        Err(Error::NotOutgoing)
    );
    assert_eq!(multi.encode(&boundary("XYZ")).err(), Some(Error::NotOutgoing));
    assert_eq!(multi.next_entry().unwrap().err(), Some(Error::BoundaryNotFound));
    assert!(multi.next_entry().is_none());
}

#[test]
fn a_longer_boundary_delimits_binary_payloads() {
    let token = "----WebKitFormBoundary7MA4YWxkTrZu0gW";
    let payload: Vec<u8> = (0..=255u8).cycle().take(3000).collect();
    let entries = vec![
        Entry::new("bin", Body::from_bytes(payload.clone()).with_file_name("all.bin")),
        text_entry("after", "done"),
    ];
    let wire = encode(entries, token);
    let mut decoder = Decoder::new(&boundary(token));
    let mut decoded = Vec::new();
    for chunk in wire.chunks(7) {
        decoded.extend(decoder.feed(chunk));
    }
    assert_eq!(decoder.finish(), Ok(()));
    assert_eq!(decoded.len(), 2);
    assert_eq!(decoded[0].payload(), &payload);
    assert_eq!(decoded[1].payload(), &b"done".to_vec());
}

#[test]
fn payload_can_be_taken_while_the_part_is_read() {
    let payload: Vec<u8> = (0..=255u8).cycle().take(1000).collect();
    let entries = vec![
        Entry::new("big", Body::from_bytes(payload.clone())),
        text_entry("small", "s"),
    ];
    let wire = encode(entries, "XYZ");
    let mut decoder = Decoder::new(&boundary("XYZ"));
    let mut gathered: Vec<u8> = Vec::new();
    let mut longest = 0;
    let mut names = Vec::new();
    for b in wire.iter() {
        if let Some(e) = decoder.push_byte(*b) {
            if e.name() == "big" {
                gathered.extend_from_slice(e.payload());
            }
            names.push(e.name().clone());
        }
        if names.is_empty() {
            let piece = decoder.take_payload();
            longest = longest.max(piece.len());
            gathered.extend(piece);
        }
    }
    assert_eq!(decoder.finish(), Ok(()));
    assert_eq!(names, vec!["big".to_string(), "small".to_string()]);
    assert_eq!(gathered, payload);
    assert!(longest <= "\r\n--XYZ".len());
}

#[test]
fn nothing_is_taken_outside_a_payload() {
    let mut decoder = Decoder::new(&boundary("XYZ"));
    assert!(decoder.take_payload().is_empty());
    decoder.feed(b"--XYZ\r\nContent-Disposition: form-data; name=\"a\"\r\n");
    assert!(decoder.take_payload().is_empty());
    assert_eq!(decoder.phase(), Phase::Headers);
    decoder.feed(b"\r\nabc\r\n--XY");
    assert_eq!(decoder.take_payload(), b"abc".to_vec());
    assert!(decoder.take_payload().is_empty());
    let done = decoder.feed(b"!\r\n--XYZ--");
    assert_eq!(done.len(), 1);
    assert_eq!(done[0].payload(), &b"\r\n--XY!".to_vec());
    assert!(decoder.take_payload().is_empty());
    assert_eq!(decoder.finish(), Ok(()));
}
