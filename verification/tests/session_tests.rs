use tlstap::format::ChunkFormatter;
use tlstap::session::{Leg, Session};

fn s(v: Vec<u8>) -> String {
    String::from_utf8(v).unwrap()
}

fn new_session(fmt: ChunkFormatter) -> Session {
    Session::new(fmt, 0, b"1.2.3.4:5555".to_vec(), b"example.com:443".to_vec())
}

#[test]
fn scenario_text_request_chunk() {
    // peer sends "GET /\r\n" over a session with the text formatter
    let mut sess = new_session(ChunkFormatter::Text);
    let step = sess.on_data(Leg::Peer, b"GET /\r\n", 0, 0);
    assert!(step.is_empty());
    let (close1, shutdown1) = sess.on_close(Leg::Peer, None, 0, 0);
    assert_eq!(s(close1), "# CLOSE 1970-01-01T00:00:00Z 1.2.3.4:5555\n");
    assert!(shutdown1);
    let (close2, shutdown2) = sess.on_close(Leg::Target, None, 0, 0);
    assert_eq!(s(close2), "# CLOSE 1970-01-01T00:00:00Z example.com:443\n");
    assert!(!shutdown2);
    let fin = sess.finish();
    assert_eq!(s(fin), "> 1970-01-01T00:00:00Z offset=0 len=7\nGET /\\r\n\n");
}

#[test]
fn scenario_target_closes_after_one_response() {
    // target sends one 20-byte response, then closes; no WARN is written,
    // the CLOSE names the target, and the response is one `<` chunk record
    // with offset 0 and length 20
    let mut sess = new_session(ChunkFormatter::Raw);
    let body = [b'r'; 20];
    let step = sess.on_data(Leg::Target, &body, 0, 0);
    assert!(step.is_empty());
    let (close1, shutdown1) = sess.on_close(Leg::Target, None, 0, 0);
    assert_eq!(s(close1), "# CLOSE 1970-01-01T00:00:00Z example.com:443\n");
    assert!(shutdown1);
    let (close2, _) = sess.on_close(Leg::Peer, None, 0, 0);
    assert_eq!(s(close2), "# CLOSE 1970-01-01T00:00:00Z 1.2.3.4:5555\n");
    let fin = sess.finish();
    let mut expected = b"< 1970-01-01T00:00:00Z offset=0 len=20\n".to_vec();
    expected.extend_from_slice(&body);
    expected.push(b'\n');
    assert_eq!(fin, expected);
}

#[test]
fn scenario_alternating_traffic_offsets() {
    // peer sends 5 bytes, target responds 3 bytes, peer sends 2 more:
    // three chunk records, `>` offset 0 len 5, `<` offset 0 len 3,
    // `>` offset 5 len 2, with no merging across the switches
    let mut sess = new_session(ChunkFormatter::Raw);
    let step1 = sess.on_data(Leg::Peer, b"hello", 1, 0);
    assert!(step1.is_empty());
    let step2 = sess.on_data(Leg::Target, b"abc", 2, 0);
    assert_eq!(s(step2), "> 1970-01-01T00:00:01Z offset=0 len=5\nhello\n");
    let step3 = sess.on_data(Leg::Peer, b"hi", 3, 0);
    assert_eq!(s(step3), "< 1970-01-01T00:00:02Z offset=0 len=3\nabc\n");
    sess.on_close(Leg::Peer, None, 4, 0);
    sess.on_close(Leg::Target, None, 4, 0);
    let fin = sess.finish();
    assert_eq!(s(fin), "> 1970-01-01T00:00:03Z offset=5 len=2\nhi\n");
}

#[test]
fn same_direction_runs_merge_into_one_chunk() {
    let mut sess = new_session(ChunkFormatter::Raw);
    let step1 = sess.on_data(Leg::Peer, b"ab", 1, 0);
    let step2 = sess.on_data(Leg::Peer, b"cd", 2, 0);
    assert!(step1.is_empty() && step2.is_empty());
    sess.on_close(Leg::Peer, None, 3, 0);
    sess.on_close(Leg::Target, None, 3, 0);
    let fin = sess.finish();
    // one merged record, timestamped at the run's start
    assert_eq!(s(fin), "> 1970-01-01T00:00:01Z offset=0 len=4\nabcd\n");
}

#[test]
fn offsets_advance_per_direction_independently() {
    let mut sess = new_session(ChunkFormatter::Raw);
    sess.on_data(Leg::Peer, b"aaaa", 0, 0);
    let f1 = sess.on_data(Leg::Target, b"bb", 0, 0);
    let f2 = sess.on_data(Leg::Peer, b"ccc", 0, 0);
    let f3 = sess.on_data(Leg::Target, b"d", 0, 0);
    let f4 = sess.on_data(Leg::Peer, b"e", 0, 0);
    assert!(s(f1).contains("> 1970-01-01T00:00:00Z offset=0 len=4\n"));
    assert!(s(f2).contains("< 1970-01-01T00:00:00Z offset=0 len=2\n"));
    assert!(s(f3).contains("> 1970-01-01T00:00:00Z offset=4 len=3\n"));
    assert!(s(f4).contains("< 1970-01-01T00:00:00Z offset=2 len=1\n"));
}

#[test]
fn close_with_warning_writes_warn_then_close() {
    let mut sess = new_session(ChunkFormatter::Text);
    let (out, shutdown) = sess.on_close(Leg::Target, Some(b"failed to read from target: broken pipe"), 7, 0);
    assert_eq!(
        s(out),
        "# WARN 1970-01-01T00:00:07Z failed to read from target: broken pipe\n\
         # CLOSE 1970-01-01T00:00:07Z example.com:443\n"
    );
    assert!(shutdown);
}

#[test]
fn scenario_setup_failure_records() {
    // a failed target connect writes ACCEPT then ERROR, and no CONNECT
    let mut sess = new_session(ChunkFormatter::Text);
    let accept = sess.accept_record(0, 0);
    assert_eq!(s(accept), "# ACCEPT 1970-01-01T00:00:00Z 1.2.3.4:5555\n");
    let error = sess.error_record(b"connection failed to example.com:443", 1, 0);
    assert_eq!(s(error), "# ERROR 1970-01-01T00:00:01Z connection failed to example.com:443\n");
}

#[test]
fn connect_record_names_target() {
    let mut sess = new_session(ChunkFormatter::Text);
    let connect = sess.connect_record(0, 0);
    assert_eq!(s(connect), "# CONNECT 1970-01-01T00:00:00Z example.com:443\n");
}

#[test]
fn finish_with_empty_buffer_writes_nothing() {
    let mut sess = new_session(ChunkFormatter::Hex);
    sess.on_close(Leg::Peer, None, 0, 0);
    sess.on_close(Leg::Target, None, 0, 0);
    assert!(sess.finish().is_empty());
}

#[test]
fn timezone_offset_adjusts_timestamps() {
    let mut sess = Session::new(ChunkFormatter::Raw, 3600, b"p".to_vec(), b"t".to_vec());
    let accept = sess.accept_record(0, 0);
    assert_eq!(s(accept), "# ACCEPT 1970-01-01T01:00:00+01:00 p\n");
    let mut sess2 = Session::new(ChunkFormatter::Raw, -1800, b"p".to_vec(), b"t".to_vec());
    let accept2 = sess2.accept_record(3600, 0);
    assert_eq!(s(accept2), "# ACCEPT 1970-01-01T00:30:00-00:30 p\n");
}

#[test]
fn logfile_name_joins_prefix_ip_port() {
    let name = tlstap::session::logfile_name(b"/var/log/tap", b"10.0.0.9", 61234);
    assert_eq!(s(name), "/var/log/tap.10.0.0.9.61234");
}

#[test]
fn hex_chunk_record_body() {
    let mut sess = new_session(ChunkFormatter::Hex);
    sess.on_data(Leg::Target, b"AB", 0, 0);
    sess.on_close(Leg::Target, None, 0, 0);
    sess.on_close(Leg::Peer, None, 0, 0);
    let fin = sess.finish();
    let expected = format!(
        "< 1970-01-01T00:00:00Z offset=0 len=2\n00000000   41 42 {}   AB\n",
        " ".repeat(1 + 3 * 14),
    );
    assert_eq!(s(fin), expected);
}
