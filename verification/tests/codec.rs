use dns_codec::{encode_name, encode_query, parse_response, DNSRequest, DecodeError, EncodeError,
    Query};

fn name_bytes(s: &str) -> Vec<u8> {
    s.as_bytes().to_vec()
}

#[test]
fn encode_name_google_com_exact_bytes() {
    let encoded = encode_name(&name_bytes("google.com")).unwrap();
    let expected: Vec<u8> = vec![
        0x06, 0x67, 0x6F, 0x6F, 0x67, 0x6C, 0x65, 0x03, 0x63, 0x6F, 0x6D, 0x00,
    ];
    assert_eq!(encoded, expected);
}

#[test]
fn encode_name_single_label() {
    let encoded = encode_name(&name_bytes("localhost")).unwrap();
    let mut expected: Vec<u8> = vec![9];
    expected.extend_from_slice(b"localhost");
    expected.push(0);
    assert_eq!(encoded, expected);
}

#[test]
fn encode_name_empty_name_is_zero_length_label() {
    // Splitting "" on dots gives one empty label; its wire form is a
    // zero-length prefix followed by the closing zero byte.
    let encoded = encode_name(&Vec::new()).unwrap();
    assert_eq!(encoded, vec![0x00, 0x00]);
}

#[test]
fn encode_name_label_of_300_bytes_is_refused() {
    let mut name: Vec<u8> = vec![b'a'; 300];
    name.push(b'.');
    name.extend_from_slice(b"com");
    assert_eq!(encode_name(&name), Err(EncodeError::LabelTooLong));
}

#[test]
fn encode_name_label_of_255_bytes_is_accepted() {
    let name: Vec<u8> = vec![b'x'; 255];
    let encoded = encode_name(&name).unwrap();
    assert_eq!(encoded.len(), 1 + 255 + 1);
    assert_eq!(encoded[0], 255);
    assert_eq!(*encoded.last().unwrap(), 0);
}

#[test]
fn query_message_is_28_bytes_field_by_field() {
    let request = DNSRequest::with_id(name_bytes("google.com"), 0xABCD);
    let msg = request.encode().unwrap();
    assert_eq!(msg.len(), 28);
    // Header: id, flags, question count, the three RR counts.
    assert_eq!(&msg[0..2], &[0xAB, 0xCD]);
    assert_eq!(&msg[2..4], &[0x01, 0x20]);
    assert_eq!(&msg[4..6], &[0x00, 0x01]);
    assert_eq!(&msg[6..8], &[0x00, 0x00]);
    assert_eq!(&msg[8..10], &[0x00, 0x00]);
    assert_eq!(&msg[10..12], &[0x00, 0x00]);
    // Question: encoded name, type A, class IN.
    assert_eq!(
        &msg[12..24],
        &[0x06, 0x67, 0x6F, 0x6F, 0x67, 0x6C, 0x65, 0x03, 0x63, 0x6F, 0x6D, 0x00]
    );
    assert_eq!(&msg[24..26], &[0x00, 0x01]);
    assert_eq!(&msg[26..28], &[0x00, 0x01]);
}

#[test]
fn encode_query_matches_request_encoding() {
    let by_request = DNSRequest::with_id(name_bytes("example.org"), 0x1234).encode().unwrap();
    let direct = encode_query(name_bytes("example.org"), 0x1234).unwrap();
    assert_eq!(by_request, direct);
}

#[test]
fn encode_query_refuses_oversized_label() {
    let name: Vec<u8> = vec![b'b'; 300];
    assert_eq!(encode_query(name, 7), Err(EncodeError::LabelTooLong));
}

#[test]
fn fresh_request_has_query_header_shape() {
    let request = DNSRequest::new(name_bytes("google.com"));
    assert_eq!(request.name, name_bytes("google.com"));
    assert_eq!(request.flags, 0x0120);
    assert_eq!(request.query_count, 1);
    assert_eq!(request.answer_rr, 0);
    assert_eq!(request.auth_rr, 0);
    assert_eq!(request.add_rr, 0);
    assert_eq!(request.queries.len(), 1);
    assert_eq!(request.queries[0].get_name(), name_bytes("google.com"));
    assert_eq!(request.queries[0].query_type, 1);
    assert_eq!(request.queries[0].class, 1);
}

#[test]
fn fresh_request_encodes_and_round_trips() {
    let request = DNSRequest::new(name_bytes("example.net"));
    let msg = request.encode().unwrap();
    let resp = parse_response(&msg).unwrap();
    assert_eq!(resp.id, request.id);
    assert_eq!(resp.queries.len(), 1);
    assert_eq!(resp.queries[0].get_name(), name_bytes("example.net"));
}

#[test]
fn query_round_trips_through_its_own_encoding() {
    let msg = encode_query(name_bytes("google.com"), 0x4242).unwrap();
    let resp = parse_response(&msg).unwrap();
    assert_eq!(resp.id, 0x4242);
    assert_eq!(resp.flags, 0x0120);
    assert_eq!(resp.questions, 1);
    assert_eq!(resp.answer_rr, 0);
    assert_eq!(resp.queries.len(), 1);
    assert_eq!(resp.queries[0].get_name(), name_bytes("google.com"));
    assert_eq!(resp.queries[0].query_type, 1);
    assert_eq!(resp.queries[0].class, 1);
    assert_eq!(resp.answers.len(), 0);
}

#[test]
fn multi_label_name_round_trips() {
    let msg = encode_query(name_bytes("a.bc.def.ghij"), 1).unwrap();
    let resp = parse_response(&msg).unwrap();
    assert_eq!(resp.queries[0].get_name(), name_bytes("a.bc.def.ghij"));
}

#[test]
fn long_label_name_round_trips() {
    // Labels longer than 63 bytes still travel this codec, which reads
    // plain length bytes and never compression pointers.
    let mut name: Vec<u8> = vec![b'q'; 200];
    name.push(b'.');
    name.extend_from_slice(b"net");
    let msg = encode_query(name.clone(), 9).unwrap();
    let resp = parse_response(&msg).unwrap();
    assert_eq!(resp.queries[0].get_name(), name);
}

fn response_with_one_answer() -> Vec<u8> {
    let mut buf: Vec<u8> = Vec::new();
    // Header: id 0xABCD, flags 0x8180, 1 question, 1 answer, 0, 0.
    buf.extend_from_slice(&[0xAB, 0xCD, 0x81, 0x80, 0x00, 0x01, 0x00, 0x01, 0x00, 0x00, 0x00,
        0x00]);
    // Question: google.com, type A, class IN.
    buf.extend_from_slice(&[0x06, 0x67, 0x6F, 0x6F, 0x67, 0x6C, 0x65, 0x03, 0x63, 0x6F, 0x6D,
        0x00]);
    buf.extend_from_slice(&[0x00, 0x01, 0x00, 0x01]);
    // Answer: name pointer, type A, class IN, TTL 300, length 4, 8.8.8.8.
    buf.extend_from_slice(&[0xC0, 0x0C]);
    buf.extend_from_slice(&[0x00, 0x01, 0x00, 0x01]);
    buf.extend_from_slice(&[0x00, 0x00, 0x01, 0x2C]);
    buf.extend_from_slice(&[0x00, 0x04]);
    buf.extend_from_slice(&[0x08, 0x08, 0x08, 0x08]);
    buf
}

#[test]
fn decodes_single_a_record_with_ttl_300_and_address_8888() {
    let resp = parse_response(&response_with_one_answer()).unwrap();
    assert_eq!(resp.id, 0xABCD);
    assert_eq!(resp.flags, 0x8180);
    assert_eq!(resp.questions, 1);
    assert_eq!(resp.answer_rr, 1);
    assert_eq!(resp.answers.len(), 1);
    let answer = &resp.answers[0];
    assert_eq!(answer.name, name_bytes("google.com"));
    assert_eq!(answer.query_type, 1);
    assert_eq!(answer.class, 1);
    assert_eq!(answer.ttl, 300);
    assert_eq!(answer.data_length, 4);
    assert_eq!(answer.address, 0x08080808);
    assert_eq!(answer.address_octets(), [8, 8, 8, 8]);
}

#[test]
fn question_section_is_read_question_count_times() {
    // One question, no answers: the question must still be read, since
    // the loop follows the question count, not the answer count.
    let mut buf: Vec<u8> = Vec::new();
    buf.extend_from_slice(&[0x00, 0x07, 0x81, 0x80, 0x00, 0x01, 0x00, 0x00, 0x00, 0x00, 0x00,
        0x00]);
    buf.extend_from_slice(&[0x02, b'h', b'i', 0x00, 0x00, 0x01, 0x00, 0x01]);
    let resp = parse_response(&buf).unwrap();
    assert_eq!(resp.queries.len(), 1);
    assert_eq!(resp.queries[0].get_name(), name_bytes("hi"));
    assert_eq!(resp.answers.len(), 0);
}

#[test]
fn two_questions_are_both_read() {
    let mut buf: Vec<u8> = Vec::new();
    buf.extend_from_slice(&[0x00, 0x07, 0x81, 0x80, 0x00, 0x02, 0x00, 0x00, 0x00, 0x00, 0x00,
        0x00]);
    buf.extend_from_slice(&[0x02, b'h', b'i', 0x00, 0x00, 0x01, 0x00, 0x01]);
    buf.extend_from_slice(&[0x02, b'y', b'o', 0x00, 0x00, 0x1C, 0x00, 0x01]);
    let resp = parse_response(&buf).unwrap();
    assert_eq!(resp.queries.len(), 2);
    assert_eq!(resp.queries[0].get_name(), name_bytes("hi"));
    assert_eq!(resp.queries[1].get_name(), name_bytes("yo"));
    assert_eq!(resp.queries[1].query_type, 0x1C);
}

#[test]
fn answers_without_questions_carry_the_empty_name() {
    let mut buf: Vec<u8> = Vec::new();
    buf.extend_from_slice(&[0x00, 0x07, 0x81, 0x80, 0x00, 0x00, 0x00, 0x01, 0x00, 0x00, 0x00,
        0x00]);
    buf.extend_from_slice(&[0xC0, 0x0C, 0x00, 0x01, 0x00, 0x01, 0x00, 0x00, 0x00, 0x3C, 0x00,
        0x04, 0x01, 0x02, 0x03, 0x04]);
    let resp = parse_response(&buf).unwrap();
    assert_eq!(resp.queries.len(), 0);
    assert_eq!(resp.answers.len(), 1);
    assert_eq!(resp.answers[0].name, Vec::<u8>::new());
    assert_eq!(resp.answers[0].address, 0x01020304);
}

#[test]
fn truncated_header_is_a_buffer_underrun() {
    assert_eq!(parse_response(&Vec::new()), Err(DecodeError::BufferUnderrun));
    let five: Vec<u8> = vec![0xAB, 0xCD, 0x01, 0x20, 0x00];
    assert_eq!(parse_response(&five), Err(DecodeError::BufferUnderrun));
    let eleven: Vec<u8> = vec![0; 11];
    assert_eq!(parse_response(&eleven), Err(DecodeError::BufferUnderrun));
}

#[test]
fn truncated_question_is_a_buffer_underrun() {
    // The name's closing byte never comes.
    let mut buf: Vec<u8> = Vec::new();
    buf.extend_from_slice(&[0x00, 0x07, 0x81, 0x80, 0x00, 0x01, 0x00, 0x00, 0x00, 0x00, 0x00,
        0x00]);
    buf.extend_from_slice(&[0x06, b'g', b'o', b'o']);
    assert_eq!(parse_response(&buf), Err(DecodeError::BufferUnderrun));
    // The name closes but its type and class are cut off.
    let mut buf2: Vec<u8> = Vec::new();
    buf2.extend_from_slice(&[0x00, 0x07, 0x81, 0x80, 0x00, 0x01, 0x00, 0x00, 0x00, 0x00, 0x00,
        0x00]);
    buf2.extend_from_slice(&[0x02, b'h', b'i', 0x00, 0x00]);
    assert_eq!(parse_response(&buf2), Err(DecodeError::BufferUnderrun));
}

#[test]
fn truncated_answer_is_a_buffer_underrun() {
    let mut buf = response_with_one_answer();
    buf.truncate(buf.len() - 3);
    assert_eq!(parse_response(&buf), Err(DecodeError::BufferUnderrun));
}

#[test]
fn declared_counts_beyond_the_buffer_are_a_buffer_underrun() {
    // The header promises two answers but carries none.
    let buf: Vec<u8> = vec![0x00, 0x07, 0x81, 0x80, 0x00, 0x00, 0x00, 0x02, 0x00, 0x00, 0x00,
        0x00];
    assert_eq!(parse_response(&buf), Err(DecodeError::BufferUnderrun));
}

#[test]
fn query_accessors_return_what_was_given() {
    let query = Query::new(name_bytes("example.com"), 0x1C, 3);
    assert_eq!(query.get_name(), name_bytes("example.com"));
    assert_eq!(query.query_type, 0x1C);
    assert_eq!(query.class, 3);
}

#[test]
fn trailing_bytes_after_the_answers_are_ignored() {
    let mut buf = response_with_one_answer();
    buf.extend_from_slice(&[0xFF, 0xEE, 0xDD]);
    let resp = parse_response(&buf).unwrap();
    assert_eq!(resp.answers.len(), 1);
    assert_eq!(resp.answers[0].address, 0x08080808);
}
