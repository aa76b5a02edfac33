use landrop::encode::encode_multipart;
use landrop::form::decode_form;
use landrop::multipart::decode_multipart;

#[test]
fn it_works() {
    assert_eq!(2 + 2, 4);
}

#[test]
fn multipart_single_field() {
    let body = b"X\r\nheader\r\n\r\nhello\r\nX--\r\n".to_vec();
    let fields = decode_multipart(&body);
    assert_eq!(fields.len(), 1);
    assert!(fields[0].name.is_none());
    assert_eq!(fields[0].value, b"hello".to_vec());
}

#[test]
fn multipart_segment_without_blank_line_is_dropped() {
    let body = b"X\r\nheaders-only\r\nX\r\nheader\r\n\r\nhello\r\nX--\r\n".to_vec();
    let fields = decode_multipart(&body);
    assert_eq!(fields.len(), 1);
    assert_eq!(fields[0].value, b"hello".to_vec());
}

#[test]
fn multipart_empty_body_decodes_to_no_fields() {
    let body = b"X\r\n\r\nX--\r\n".to_vec();
    let fields = decode_multipart(&body);
    assert_eq!(fields.len(), 0);
}

#[test]
fn multipart_only_markers_decodes_to_no_fields() {
    let body = b"X\r\nX--\r\n".to_vec();
    let fields = decode_multipart(&body);
    assert_eq!(fields.len(), 0);
}

#[test]
fn multipart_whitespace_only_body_is_dropped() {
    let body = b"X\r\nheader\r\n\r\n  \r\n \r\nX--\r\n".to_vec();
    let fields = decode_multipart(&body);
    assert_eq!(fields.len(), 0);
}

#[test]
fn multipart_crlf_normalized_to_lf() {
    let body = b"X\r\nheader\r\n\r\nline one\r\nline two\r\nX--\r\n".to_vec();
    let fields = decode_multipart(&body);
    assert_eq!(fields.len(), 1);
    assert_eq!(fields[0].value, b"line one\nline two".to_vec());
}

#[test]
fn multipart_round_trip_concrete() {
    let bodies = vec![b"first\r\nline".to_vec(), b"second value".to_vec()];
    let boundary = b"QQQZ".to_vec();
    let doc = encode_multipart(&bodies, &boundary);
    let fields = decode_multipart(&doc);
    assert_eq!(fields.len(), 2);
    assert_eq!(fields[0].value, b"first\nline".to_vec());
    assert_eq!(fields[1].value, b"second value".to_vec());
}

#[test]
fn multipart_round_trip_empty_set() {
    let bodies: Vec<Vec<u8>> = vec![];
    let boundary = b"QQQZ".to_vec();
    let doc = encode_multipart(&bodies, &boundary);
    let fields = decode_multipart(&doc);
    assert_eq!(fields.len(), 0);
}

#[test]
fn form_decodes_plus_and_percent() {
    let body = b"message=a+b%26c".to_vec();
    let fields = decode_form(&body);
    assert_eq!(fields.len(), 1);
    assert_eq!(fields[0].name.as_ref().unwrap(), &b"message".to_vec());
    assert_eq!(fields[0].value, b"a b&c".to_vec());
}

#[test]
fn form_decodes_several_pairs_in_order() {
    let body = b"a=1&b=two+words&c=%41".to_vec();
    let fields = decode_form(&body);
    assert_eq!(fields.len(), 3);
    assert_eq!(fields[0].name.as_ref().unwrap(), &b"a".to_vec());
    assert_eq!(fields[0].value, b"1".to_vec());
    assert_eq!(fields[1].name.as_ref().unwrap(), &b"b".to_vec());
    assert_eq!(fields[1].value, b"two words".to_vec());
    assert_eq!(fields[2].name.as_ref().unwrap(), &b"c".to_vec());
    assert_eq!(fields[2].value, b"A".to_vec());
}

#[test]
fn form_bad_percent_passes_through() {
    let body = b"x=%zz&y=%4".to_vec();
    let fields = decode_form(&body);
    assert_eq!(fields.len(), 2);
    assert_eq!(fields[0].value, b"%zz".to_vec());
    assert_eq!(fields[1].value, b"%4".to_vec());
}

#[test]
fn form_pair_without_equals_gets_empty_value() {
    let body = b"lonely".to_vec();
    let fields = decode_form(&body);
    assert_eq!(fields.len(), 1);
    assert_eq!(fields[0].name.as_ref().unwrap(), &b"lonely".to_vec());
    assert_eq!(fields[0].value, b"".to_vec());
}

#[test]
fn form_empty_body_decodes_to_no_fields() {
    let body = b"".to_vec();
    let fields = decode_form(&body);
    assert_eq!(fields.len(), 0);
}
