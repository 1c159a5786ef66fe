use tcp_transfer::codec::{encode_header, Frame, Handshake, HandshakeError, HeaderDecoder};

fn done(h: Handshake) -> Frame {
    match h {
        Handshake::Done(f) => f,
        Handshake::Pending => panic!("handshake still pending"),
        Handshake::Failed(e) => panic!("handshake failed: {:?}", e),
    }
}

fn wire(size: u64, name: &[u8], payload: &[u8]) -> Vec<u8> {
    let mut w = encode_header(size, name).unwrap();
    w.extend_from_slice(payload);
    w
}

#[test]
fn header_layout_is_size_name_newline() {
    let h = encode_header(10, b"hi.txt").unwrap();
    let mut expected = vec![10u8, 0, 0, 0, 0, 0, 0, 0];
    expected.extend_from_slice(b"hi.txt");
    expected.push(b'\n');
    assert_eq!(h, expected);
}

#[test]
fn header_size_is_little_endian() {
    let h = encode_header(0x0102030405060708, b"").unwrap();
    assert_eq!(h, vec![8u8, 7, 6, 5, 4, 3, 2, 1, b'\n']);
}

#[test]
fn name_with_newline_is_refused() {
    assert_eq!(encode_header(1, b"a\nb"), Err(HandshakeError::NameHasTerminator));
}

#[test]
fn header_round_trip() {
    for (size, name) in [(0u64, &b"x"[..]), (u64::MAX, &b"big.bin"[..]), (77, &b""[..])] {
        let mut d = HeaderDecoder::new();
        let f = done(d.feed(&encode_header(size, name).unwrap()));
        assert_eq!(f.file_size, size);
        assert_eq!(f.name, name.to_vec());
        assert!(f.payload.is_empty());
    }
}

#[test]
fn empty_file_header() {
    let w = wire(0, b"empty.txt", b"");
    let mut d = HeaderDecoder::new();
    let f = done(d.feed(&w));
    assert_eq!(f.file_size, 0);
    assert_eq!(f.name, b"empty.txt".to_vec());
    assert!(f.payload.is_empty());
}

#[test]
fn payload_in_the_same_read_is_forwarded() {
    let w = wire(10, b"hi.txt", b"0123456789");
    let mut d = HeaderDecoder::new();
    let f = done(d.feed(&w));
    assert_eq!(f.file_size, 10);
    assert_eq!(f.name, b"hi.txt".to_vec());
    assert_eq!(f.payload, b"0123456789".to_vec());
}

#[test]
fn name_split_across_reads() {
    let w = wire(5, b"split-name.dat", b"abcde");
    for cut in 1..w.len() - 5 {
        let mut d = HeaderDecoder::new();
        assert!(matches!(d.feed(&w[..cut]), Handshake::Pending));
        let f = done(d.feed(&w[cut..]));
        assert_eq!(f.file_size, 5);
        assert_eq!(f.name, b"split-name.dat".to_vec());
        assert_eq!(f.payload, b"abcde".to_vec());
    }
}

#[test]
fn header_one_byte_per_read() {
    let w = wire(3, b"n", b"xyz");
    let mut d = HeaderDecoder::new();
    let header_len = 8 + 1 + 1;
    for i in 0..header_len - 1 {
        assert!(matches!(d.feed(&w[i..i + 1]), Handshake::Pending));
    }
    let f = done(d.feed(&w[header_len - 1..]));
    assert_eq!(f.name, b"n".to_vec());
    assert_eq!(f.payload, b"xyz".to_vec());
}

#[test]
fn stream_end_inside_size_is_truncated() {
    let mut d = HeaderDecoder::new();
    assert!(matches!(d.feed(&[1, 2, 3]), Handshake::Pending));
    assert!(matches!(d.feed(&[]), Handshake::Failed(HandshakeError::TruncatedSize)));
}

#[test]
fn stream_end_inside_name_misses_terminator() {
    let mut d = HeaderDecoder::new();
    assert!(matches!(d.feed(&[0, 0, 0, 0, 0, 0, 0, 0, b'a']), Handshake::Pending));
    assert!(matches!(d.feed(&[]), Handshake::Failed(HandshakeError::MissingTerminator)));
}

#[test]
fn round_trip_with_any_read_size() {
    let file: Vec<u8> = (0..300u32).map(|i| (i * 7 % 256) as u8).collect();
    for name in [&b"data.bin"[..], &b"x"[..]] {
        let w = wire(file.len() as u64, name, &file);
        for read_size in 1..=40 {
            let mut d = HeaderDecoder::new();
            let mut pos = 0;
            let frame = loop {
                let end = usize::min(pos + read_size, w.len());
                let h = d.feed(&w[pos..end]);
                pos = end;
                match h {
                    Handshake::Pending => {}
                    other => break done(other),
                }
            };
            let mut got = frame.payload.clone();
            got.extend_from_slice(&w[pos..]);
            assert_eq!(frame.file_size, file.len() as u64);
            assert_eq!(frame.name, name.to_vec());
            assert_eq!(got, file);
        }
    }
}

#[test]
fn empty_file_round_trip() {
    let w = wire(0, b"empty.txt", b"");
    for cut in 1..w.len() {
        let mut d = HeaderDecoder::new();
        assert!(matches!(d.feed(&w[..cut]), Handshake::Pending));
        let f = done(d.feed(&w[cut..]));
        assert_eq!(f.file_size, 0);
        assert_eq!(f.name, b"empty.txt".to_vec());
        assert!(f.payload.is_empty());
    }
}
