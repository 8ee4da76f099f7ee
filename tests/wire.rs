use osaka::dns::{
    answer_texts, attempt_expired, nameserver_address, on_receive, Attempts, Next, Received, encode_query, judge_reply, txt_records, Reply,
    ATTEMPT_TIMEOUT_MS, HEADER_LEN, MAX_NAME_LEN,
};
use osaka::{DnsPacket, Error};

const HEADER: [u8; 12] = [0x13, 0x37, 0x01, 0x00, 0, 1, 0, 0, 0, 0, 0, 1];
const TRAILER: [u8; 16] = [0, 0, 0x10, 0, 1, 0, 0, 0x29, 0x03, 0xe8, 0, 0, 0, 0, 0, 0];

fn expected_query(labels: &[u8]) -> Vec<u8> {
    let mut v = HEADER.to_vec();
    v.extend_from_slice(labels);
    v.extend_from_slice(&TRAILER);
    v
}

/// A reply with one question for `a.b` and the given answer records.
fn reply(answers: &[Vec<u8>]) -> Vec<u8> {
    let mut v = vec![0x13, 0x37, 0x81, 0x80, 0, 1, 0, answers.len() as u8, 0, 0, 0, 0];
    v.extend_from_slice(&[1, b'a', 1, b'b', 0, 0, 0x10, 0, 1]);
    for a in answers {
        v.extend_from_slice(a);
    }
    v
}

fn txt_record(text: &[u8]) -> Vec<u8> {
    let mut r = vec![0xc0, 0x0c, 0, 0x10, 0, 1, 0, 0, 0x0e, 0x10];
    let len = text.len() + 1;
    r.extend_from_slice(&[0, len as u8, text.len() as u8]);
    r.extend_from_slice(text);
    r
}

#[test]
fn query_header_round_trips() {
    let h = DnsPacket::query();
    let bytes = h.to_bytes();
    assert_eq!(bytes, HEADER.to_vec());
    assert_eq!(DnsPacket::from_bytes(&bytes), Some(h));
    assert_eq!(DnsPacket::from_bytes(&bytes[..HEADER_LEN - 1]), None);
}

#[test]
fn header_reads_big_endian_fields() {
    let p = [0xab, 0xcd, 0x81, 0x80, 0, 2, 0x01, 0x02, 0, 0, 0xff, 0xff, 9];
    let h = DnsPacket::from_bytes(&p).unwrap();
    assert_eq!(h.id, 0xabcd);
    assert_eq!(h.flags, 0x8180);
    assert_eq!(h.queries, 2);
    assert_eq!(h.answers, 0x0102);
    assert_eq!(h.authorities, 0);
    assert_eq!(h.additionals, 0xffff);
}

#[test]
fn query_encodes_labels() {
    let q = encode_query("4.carrier.devguard.io").ok().unwrap();
    let mut labels = vec![1, b'4', 7];
    labels.extend_from_slice(b"carrier");
    labels.push(8);
    labels.extend_from_slice(b"devguard");
    labels.push(2);
    labels.extend_from_slice(b"io");
    assert_eq!(q, expected_query(&labels));
}

#[test]
fn query_of_empty_and_dotted_names() {
    assert_eq!(encode_query("").ok().unwrap(), expected_query(&[0]));
    assert_eq!(encode_query("a.").ok().unwrap(), expected_query(&[1, b'a', 0]));
    assert_eq!(encode_query(".").ok().unwrap(), expected_query(&[0, 0]));
}

#[test]
fn query_refuses_long_names() {
    let ok = "x".repeat(MAX_NAME_LEN);
    assert!(encode_query(&ok).is_ok());
    let long = "x".repeat(MAX_NAME_LEN + 1);
    assert!(matches!(encode_query(&long), Err(Error::NameTooLong)));
}

#[test]
fn long_label_length_wraps_to_a_byte() {
    let name = "y".repeat(300);
    let q = encode_query(&name).ok().unwrap();
    assert_eq!(q[HEADER_LEN], (300 % 256) as u8);
    assert_eq!(q.len(), HEADER_LEN + 1 + 300 + TRAILER.len());
}

#[test]
fn reply_texts_are_extracted() {
    let p = reply(&[txt_record(b"hello"), txt_record(b"world")]);
    assert_eq!(txt_records(&p), vec![b"hello".to_vec(), b"world".to_vec()]);
    assert_eq!(answer_texts(&p), vec!["hello".to_string(), "world".to_string()]);
}

#[test]
fn non_txt_records_are_skipped() {
    let mut a = txt_record(b"1234");
    a[3] = 0x01;
    let p = reply(&[a, txt_record(b"kept")]);
    assert_eq!(txt_records(&p), vec![b"kept".to_vec()]);
}

#[test]
fn truncated_record_stops_the_walk() {
    let mut p = reply(&[txt_record(b"first"), txt_record(b"second")]);
    p.truncate(p.len() - 3);
    assert_eq!(txt_records(&p), vec![b"first".to_vec()]);
}

#[test]
fn short_reply_has_no_records() {
    assert!(txt_records(&[0, 1, 2]).is_empty());
    assert!(matches!(judge_reply(&[0, 1, 2]), Reply::Ignore));
}

#[test]
fn reply_without_answers_moves_on() {
    let p = reply(&[]);
    assert!(matches!(judge_reply(&p), Reply::NextAttempt));
}

#[test]
fn reply_with_answers_is_accepted() {
    let p = reply(&[txt_record(b"v=1")]);
    match judge_reply(&p) {
        Reply::Answers(v) => assert_eq!(v, vec!["v=1".to_string()]),
        _ => panic!("expected answers"),
    }
}

#[test]
fn invalid_utf8_is_replaced() {
    let p = reply(&[txt_record(&[b'o', 0xff, b'k'])]);
    assert_eq!(answer_texts(&p), vec!["o\u{fffd}k".to_string()]);
}

#[test]
fn attempts_expire_after_their_timeout() {
    assert!(!attempt_expired(1000, 1000 + ATTEMPT_TIMEOUT_MS - 1));
    assert!(attempt_expired(1000, 1000 + ATTEMPT_TIMEOUT_MS));
    assert!(!attempt_expired(1000, 10));
    assert_eq!(ATTEMPT_TIMEOUT_MS, 5000);
}

#[test]
fn attempts_go_server_by_server() {
    let mut a = Attempts::new(2, 3);
    let mut seen = Vec::new();
    while let Some(p) = a.next() {
        seen.push(p);
    }
    assert_eq!(seen, vec![(0, 0), (0, 1), (0, 2), (1, 0), (1, 1), (1, 2)]);
    assert_eq!(a.next(), None);
    assert_eq!(Attempts::new(4, 0).next(), None);
    assert_eq!(Attempts::new(0, 4).next(), None);
}

#[test]
fn nameserver_lines_give_their_address() {
    assert_eq!(nameserver_address(b"nameserver 10.0.0.1"), Some(b"10.0.0.1".to_vec()));
    assert_eq!(nameserver_address(b"  nameserver\t::1  # local"), Some(b"::1".to_vec()));
    assert_eq!(nameserver_address(b"nameserver"), None);
    assert_eq!(nameserver_address(b"nameserver   "), None);
    assert_eq!(nameserver_address(b"search example.org"), None);
    assert_eq!(nameserver_address(b"nameservers 1.2.3.4"), None);
    assert_eq!(nameserver_address(b""), None);
}

#[test]
fn received_datagrams_decide_the_next_step() {
    assert!(matches!(on_receive(Received::Nothing), Next::Wait));
    let e = std::io::Error::new(std::io::ErrorKind::Other, "boom");
    assert!(matches!(on_receive(Received::Failed(e)), Next::Finish(Err(Error::Io(_)))));
    let good = reply(&[txt_record(b"hi")]);
    assert!(matches!(
        on_receive(Received::Datagram { from_server: false, bytes: good.clone() }),
        Next::Wait
    ));
    assert!(matches!(
        on_receive(Received::Datagram { from_server: true, bytes: vec![1, 2] }),
        Next::Wait
    ));
    assert!(matches!(
        on_receive(Received::Datagram { from_server: true, bytes: reply(&[]) }),
        Next::NextAttempt
    ));
    match on_receive(Received::Datagram { from_server: true, bytes: good }) {
        Next::Finish(Ok(v)) => assert_eq!(v, vec!["hi".to_string()]),
        _ => panic!("expected answers"),
    }
}

#[test]
fn query_for_a_dot_b() {
    let q = encode_query("a.b").ok().unwrap();
    assert_eq!(
        q,
        vec![
            0x13, 0x37, 0x01, 0x00, 0x00, 0x01, 0, 0, 0, 0, 0x00, 0x01, 1, 0x61, 1, 0x62, 0, 0,
            0x10, 0, 1, 0, 0, 0x29, 0x03, 0xe8, 0, 0, 0, 0, 0, 0
        ]
    );
}
