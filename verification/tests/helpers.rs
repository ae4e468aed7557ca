use std::str::from_utf8;

use bytes::BytesMut;

use http_helpers::digits::write_usize;
use http_helpers::encode::write_content_length;
use http_helpers::encode::write_status_line;
use http_helpers::encode::Version;
use http_helpers::sink::append;
use http_helpers::sink::ByteSink;

#[test]
fn test_status_line() {
    let mut bytes = BytesMut::new();
    bytes.reserve(50);
    write_status_line(Version::Http11, 200, &mut bytes);
    assert_eq!(from_utf8(&bytes.split().freeze()).unwrap(), "HTTP/1.1 200 ");

    let mut bytes = BytesMut::new();
    bytes.reserve(50);
    write_status_line(Version::Http09, 404, &mut bytes);
    assert_eq!(from_utf8(&bytes.split().freeze()).unwrap(), "HTTP/0.9 404 ");

    let mut bytes = BytesMut::new();
    bytes.reserve(50);
    write_status_line(Version::Http09, 515, &mut bytes);
    assert_eq!(from_utf8(&bytes.split().freeze()).unwrap(), "HTTP/0.9 515 ");
}

#[test]
fn test_write_content_length() {
    let mut bytes = BytesMut::new();
    bytes.reserve(50);
    write_content_length(0, &mut bytes);
    assert_eq!(bytes.split().freeze(), b"\r\ncontent-length: 0\r\n"[..]);
    bytes.reserve(50);
    write_content_length(9, &mut bytes);
    assert_eq!(bytes.split().freeze(), b"\r\ncontent-length: 9\r\n"[..]);
    bytes.reserve(50);
    write_content_length(10, &mut bytes);
    assert_eq!(bytes.split().freeze(), b"\r\ncontent-length: 10\r\n"[..]);
    bytes.reserve(50);
    write_content_length(99, &mut bytes);
    assert_eq!(bytes.split().freeze(), b"\r\ncontent-length: 99\r\n"[..]);
    bytes.reserve(50);
    write_content_length(100, &mut bytes);
    assert_eq!(bytes.split().freeze(), b"\r\ncontent-length: 100\r\n"[..]);
    bytes.reserve(50);
    write_content_length(101, &mut bytes);
    assert_eq!(bytes.split().freeze(), b"\r\ncontent-length: 101\r\n"[..]);
    bytes.reserve(50);
    write_content_length(998, &mut bytes);
    assert_eq!(bytes.split().freeze(), b"\r\ncontent-length: 998\r\n"[..]);
    bytes.reserve(50);
    write_content_length(1000, &mut bytes);
    assert_eq!(bytes.split().freeze(), b"\r\ncontent-length: 1000\r\n"[..]);
    bytes.reserve(50);
    write_content_length(1001, &mut bytes);
    assert_eq!(bytes.split().freeze(), b"\r\ncontent-length: 1001\r\n"[..]);
    bytes.reserve(50);
    write_content_length(5909, &mut bytes);
    assert_eq!(bytes.split().freeze(), b"\r\ncontent-length: 5909\r\n"[..]);
    bytes.reserve(50);
    write_content_length(9999, &mut bytes);
    assert_eq!(bytes.split().freeze(), b"\r\ncontent-length: 9999\r\n"[..]);
    bytes.reserve(50);
    write_content_length(10001, &mut bytes);
    assert_eq!(bytes.split().freeze(), b"\r\ncontent-length: 10001\r\n"[..]);
    bytes.reserve(50);
    write_content_length(59094, &mut bytes);
    assert_eq!(bytes.split().freeze(), b"\r\ncontent-length: 59094\r\n"[..]);
    bytes.reserve(50);
    write_content_length(99999, &mut bytes);
    assert_eq!(bytes.split().freeze(), b"\r\ncontent-length: 99999\r\n"[..]);

    bytes.reserve(50);
    write_content_length(590947, &mut bytes);
    assert_eq!(bytes.split().freeze(), b"\r\ncontent-length: 590947\r\n"[..]);
    bytes.reserve(50);
    write_content_length(999999, &mut bytes);
    assert_eq!(bytes.split().freeze(), b"\r\ncontent-length: 999999\r\n"[..]);
    bytes.reserve(50);
    write_content_length(5909471, &mut bytes);
    assert_eq!(bytes.split().freeze(), b"\r\ncontent-length: 5909471\r\n"[..]);
    bytes.reserve(50);
    write_content_length(59094718, &mut bytes);
    assert_eq!(bytes.split().freeze(), b"\r\ncontent-length: 59094718\r\n"[..]);
    bytes.reserve(50);
    write_content_length(4294973728, &mut bytes);
    assert_eq!(bytes.split().freeze(), b"\r\ncontent-length: 4294973728\r\n"[..]);
}

#[test]
fn test_status_line_all_versions_and_zero_padding() {
    let cases: [(Version, u16, &str); 5] = [
        (Version::Http09, 0, "HTTP/0.9 000 "),
        (Version::Http10, 100, "HTTP/1.0 100 "),
        (Version::Http11, 999, "HTTP/1.1 999 "),
        (Version::Http11, 7, "HTTP/1.1 007 "),
        (Version::Http10, 50, "HTTP/1.0 050 "),
    ];
    for (version, code, expected) in cases {
        let mut bytes = BytesMut::new();
        bytes.reserve(50);
        write_status_line(version, code, &mut bytes);
        assert_eq!(from_utf8(&bytes[..]).unwrap(), expected);
    }
}

#[test]
fn test_status_line_unrecognized_version_omits_token() {
    let mut bytes = BytesMut::new();
    bytes.reserve(50);
    write_status_line(Version::Other, 200, &mut bytes);
    assert_eq!(from_utf8(&bytes[..]).unwrap(), "HTTP/200 ");
}

#[test]
fn test_content_length_tier_boundaries() {
    let cases: [(usize, &str); 14] = [
        (0, "\r\ncontent-length: 0\r\n"),
        (9, "\r\ncontent-length: 9\r\n"),
        (10, "\r\ncontent-length: 10\r\n"),
        (99, "\r\ncontent-length: 99\r\n"),
        (100, "\r\ncontent-length: 100\r\n"),
        (999, "\r\ncontent-length: 999\r\n"),
        (1000, "\r\ncontent-length: 1000\r\n"),
        (9999, "\r\ncontent-length: 9999\r\n"),
        (10000, "\r\ncontent-length: 10000\r\n"),
        (99999, "\r\ncontent-length: 99999\r\n"),
        (100000, "\r\ncontent-length: 100000\r\n"),
        (999999, "\r\ncontent-length: 999999\r\n"),
        (1000000, "\r\ncontent-length: 1000000\r\n"),
        (4294973728, "\r\ncontent-length: 4294973728\r\n"),
    ];
    for (n, expected) in cases {
        let mut bytes = BytesMut::new();
        bytes.reserve(50);
        write_content_length(n, &mut bytes);
        assert_eq!(from_utf8(&bytes[..]).unwrap(), expected);
    }
}

#[test]
fn test_write_usize_general_path() {
    let cases: [(usize, &str); 5] = [
        (0, "0"),
        (7, "7"),
        (1000000, "1000000"),
        (10002000300040005, "10002000300040005"),
        (usize::MAX, "18446744073709551615"),
    ];
    for (n, expected) in cases {
        let mut bytes = BytesMut::new();
        bytes.reserve(50);
        write_usize(n, &mut bytes);
        assert_eq!(from_utf8(&bytes[..]).unwrap(), expected);
    }
}

#[test]
fn test_encoders_idempotent_across_buffers() {
    let mut first = BytesMut::new();
    first.reserve(50);
    let mut second = BytesMut::new();
    second.reserve(50);
    write_status_line(Version::Http11, 404, &mut first);
    write_status_line(Version::Http11, 404, &mut second);
    assert_eq!(&first[..], &second[..]);

    let mut first = BytesMut::new();
    first.reserve(50);
    let mut second = BytesMut::new();
    second.reserve(50);
    write_content_length(59094718, &mut first);
    write_content_length(59094718, &mut second);
    assert_eq!(&first[..], &second[..]);
}

#[test]
fn test_sink_write_matches_direct_append() {
    let data = b"reason phrase and more";

    let mut through_sink = BytesMut::new();
    through_sink.reserve(50);
    let n = through_sink.write(data);
    assert_eq!(n, data.len());

    let mut direct = BytesMut::new();
    direct.reserve(50);
    append(&mut direct, data);

    assert_eq!(&through_sink[..], &direct[..]);
}

#[test]
fn test_sink_flush_keeps_contents() {
    let mut bytes = BytesMut::new();
    bytes.reserve(50);
    let n = bytes.write(b"abc");
    assert_eq!(n, 3);
    bytes.flush();
    assert_eq!(&bytes[..], b"abc");
}

#[test]
fn test_sink_write_appends_after_encoders() {
    let mut bytes = BytesMut::new();
    bytes.reserve(100);
    write_status_line(Version::Http11, 200, &mut bytes);
    let n = bytes.write(b"OK");
    assert_eq!(n, 2);
    write_content_length(88, &mut bytes);
    assert_eq!(
        from_utf8(&bytes[..]).unwrap(),
        "HTTP/1.1 200 OK\r\ncontent-length: 88\r\n"
    );
}
