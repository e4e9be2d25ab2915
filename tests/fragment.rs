use local_proxy::fragment::{Fragment, Header, State};

#[test]
fn client_hello_is_split_into_one_byte_records() {
    let mut st = State::new();
    let data = [0x16, 0x03, 0x01, 0x00, 0x05, 0x01, 0xaa, 0xbb, 0xcc, 0xdd, 0xee];
    assert_eq!(st.write(&data), data.len());
    assert!(st.is_sending_buffer());
    let (records, raw) = st.drain();
    let mut expected = Vec::new();
    for x in [0x01, 0xaa, 0xbb, 0xcc, 0xdd] {
        expected.extend_from_slice(&[0x16, 0x03, 0x01, 0x00, 0x01, x]);
    }
    assert_eq!(records, expected);
    assert_eq!(raw, vec![0xee]);
    assert!(st.is_handshake_ended());
}

#[test]
fn client_hello_across_writes() {
    let mut st = State::new();
    assert_eq!(st.write(&[0x16, 0x03]), 2);
    assert!(st.is_waiting());
    assert_eq!(st.write(&[0x01, 0x00, 0x02, 0x01]), 4);
    assert!(st.is_waiting());
    assert_eq!(st.write(&[0x07]), 1);
    let (records, raw) = st.drain();
    assert_eq!(records, vec![0x16, 0x03, 0x01, 0x00, 0x01, 0x01, 0x16, 0x03, 0x01, 0x00, 0x01, 0x07]);
    assert!(raw.is_empty());
}

#[test]
fn non_handshake_first_byte_bypasses() {
    let mut st = State::new();
    st.write(b"GET / HTTP/1.1\r\n");
    assert!(st.is_sending_buffer());
    let (records, raw) = st.drain();
    assert!(records.is_empty());
    assert_eq!(raw, b"GET / HTTP/1.1\r\n".to_vec());
    assert!(st.is_handshake_ended());
    assert_eq!(st.write(b"more"), 0);
}

#[test]
fn non_client_hello_bypasses() {
    let mut st = State::new();
    st.write(&[0x16, 0x03, 0x01, 0x00, 0x05]);
    assert!(st.is_waiting());
    st.write(&[0x02, 0x09]);
    let (records, raw) = st.drain();
    assert!(records.is_empty());
    assert_eq!(raw, vec![0x16, 0x03, 0x01, 0x00, 0x05, 0x02, 0x09]);
}

#[test]
fn timeout_flushes_buffer_raw() {
    let mut st = State::new();
    st.write(&[0x16, 0x03]);
    assert!(st.try_into_raw_send());
    let (records, raw) = st.drain();
    assert!(records.is_empty());
    assert_eq!(raw, vec![0x16, 0x03]);
    assert!(!st.try_into_raw_send());
}

#[test]
fn empty_write_keeps_waiting() {
    let mut st = State::new();
    assert_eq!(st.write(&[]), 0);
    assert!(st.is_waiting());
}

#[test]
fn header_reading() {
    let h = Header::new(&[0x16, 0x03, 0x01, 0x01, 0x02]).unwrap();
    assert_eq!(h.base, [0x16, 0x03, 0x01]);
    assert_eq!(h.len, 0x0102 + 5);
    assert!(Header::new(&[0x16, 0x03]).is_none());
    assert!(Fragment::new().is_http_passthrough());
}
