use slimweb::chunked::{
    fault, scan_chunk_size, scan_step, write_terminator, ChunkedReader, ChunkedWriter, End,
};
use slimweb::codec::{
    pull, read_to_end_until, read_until, write_all_until, write_until, Chunked, Chunky, Compressed,
    Gzip,
};
use slimweb::deadline::{Deadline, Governed};
use slimweb::stream::{read_line, read_line_ending, scan_line, write_to_payload, Stream};
use slimweb::{Error, IoError, IoKind};

fn kind_of(e: &Error) -> Option<IoKind> {
    match e {
        Error::Io(io) => Some(io.kind),
        _ => None,
    }
}

fn decode_all(wire: &[u8], closed: bool) -> Result<(Vec<u8>, Vec<u8>), Error> {
    let mut stream = Stream::new(wire.to_vec(), closed);
    let mut layer = Chunked::new(None, true);
    let mut body = Vec::new();
    pull(&mut stream, &mut layer, &mut body, None)?;
    Ok((body, stream.peek().to_vec()))
}

fn encode_all(payload: &[u8], size: usize) -> Vec<u8> {
    let mut stream = Stream::new(Vec::new(), false);
    let mut writer = ChunkedWriter::new(size);
    assert_eq!(writer.write(&mut stream, payload), payload.len());
    writer.flush(&mut stream);
    write_terminator(&mut stream);
    stream.take_written()
}

#[test]
fn a_stream_hands_out_what_has_arrived() {
    let mut stream = Stream::new(b"hello".to_vec(), false);
    assert!(!stream.is_closed());
    assert_eq!(stream.peek(), b"hello");
    assert_eq!(stream.read(3).unwrap(), b"hel".to_vec());
    assert_eq!(stream.read(10).unwrap(), b"lo".to_vec());
    assert_eq!(stream.read(0).unwrap(), Vec::<u8>::new());
    let e = stream.read(1).unwrap_err();
    assert_eq!(kind_of(&e), Some(IoKind::WouldBlock));
    stream.feed(b"more");
    assert_eq!(stream.read(10).unwrap(), b"more".to_vec());
    stream.close();
    assert!(stream.is_closed());
    assert_eq!(stream.read(10).unwrap(), Vec::<u8>::new());
}

#[test]
fn an_exact_read_takes_all_or_nothing() {
    let mut stream = Stream::new(b"abc".to_vec(), false);
    let e = stream.read_exact(4).unwrap_err();
    assert_eq!(kind_of(&e), Some(IoKind::WouldBlock));
    assert_eq!(stream.peek(), b"abc");
    stream.close();
    let e = stream.read_exact(4).unwrap_err();
    assert_eq!(kind_of(&e), Some(IoKind::UnexpectedEof));
    assert_eq!(stream.read_exact(2).unwrap(), b"ab".to_vec());
    assert_eq!(stream.read_exact(0).unwrap(), Vec::<u8>::new());
    assert_eq!(stream.peek(), b"c");
    stream.consume(1);
    assert_eq!(stream.peek(), b"");
}

#[test]
fn what_is_written_waits_to_be_taken() {
    let mut stream = Stream::new(Vec::new(), false);
    stream.write_all(b"abc");
    stream.write_all(b"def");
    assert_eq!(stream.take_written(), b"abcdef".to_vec());
    assert_eq!(stream.take_written(), Vec::<u8>::new());
}

#[test]
fn lines_end_with_a_line_feed() {
    let mut stream = Stream::new(b"one\r\ntwo\n\r\nrest".to_vec(), false);
    assert_eq!(read_line(&mut stream, 128).unwrap(), b"one".to_vec());
    assert_eq!(read_line(&mut stream, 128).unwrap(), b"two".to_vec());
    assert_eq!(read_line(&mut stream, 128).unwrap(), b"".to_vec());
    let e = read_line(&mut stream, 128).unwrap_err();
    assert_eq!(kind_of(&e), Some(IoKind::WouldBlock));
    assert_eq!(stream.peek(), b"rest");
    stream.close();
    let e = read_line(&mut stream, 128).unwrap_err();
    assert_eq!(kind_of(&e), Some(IoKind::UnexpectedEof));
}

#[test]
fn a_line_that_is_too_long_is_cut() {
    let mut stream = Stream::new(b"0123456789\n".to_vec(), false);
    let e = read_line(&mut stream, 10).unwrap_err();
    assert_eq!(kind_of(&e), Some(IoKind::UnexpectedEof));
    assert_eq!(stream.peek().len(), 11);
    assert_eq!(read_line(&mut stream, 11).unwrap(), b"0123456789".to_vec());
    let mut empty = Stream::new(b"\n".to_vec(), false);
    let e = read_line(&mut empty, 0).unwrap_err();
    assert_eq!(kind_of(&e), Some(IoKind::UnexpectedEof));
    assert_eq!(scan_line(b"ab\r\ncd", 0, 128), Ok((2, 4)));
    assert_eq!(scan_line(b"ab\r\ncd", 4, 128), Err(IoKind::WouldBlock));
    assert_eq!(scan_line(b"ab\r\ncd", 0, 3), Err(IoKind::UnexpectedEof));
    assert_eq!(scan_line(b"\r\n", 0, 128), Ok((0, 2)));
    assert_eq!(scan_line(b"\n", 0, 128), Ok((0, 1)));
}

#[test]
fn the_line_end_after_a_chunk_is_carriage_return_and_line_feed() {
    let mut stream = Stream::new(b"\r\nx".to_vec(), false);
    assert_eq!(read_line_ending(&mut stream).unwrap(), true);
    assert_eq!(stream.peek(), b"x");
    assert_eq!(read_line_ending(&mut stream).unwrap(), false);
    assert_eq!(stream.peek(), b"x");
    let mut bare = Stream::new(b"\n".to_vec(), false);
    assert_eq!(read_line_ending(&mut bare).unwrap(), false);
    let mut half = Stream::new(b"\r".to_vec(), false);
    let e = read_line_ending(&mut half).unwrap_err();
    assert_eq!(kind_of(&e), Some(IoKind::WouldBlock));
    half.feed(b"x");
    assert_eq!(read_line_ending(&mut half).unwrap(), false);
    let mut none = Stream::new(Vec::new(), true);
    let e = read_line_ending(&mut none).unwrap_err();
    assert_eq!(kind_of(&e), Some(IoKind::UnexpectedEof));
}

#[test]
fn a_frame_is_size_line_payload_line_end() {
    let mut stream = Stream::new(Vec::new(), false);
    write_to_payload(&mut stream, b"hello");
    assert_eq!(stream.take_written(), b"5\r\nhello\r\n".to_vec());
    write_to_payload(&mut stream, &[b'x'; 26]);
    let mut want = b"1a\r\n".to_vec();
    want.extend_from_slice(&[b'x'; 26]);
    want.extend_from_slice(b"\r\n");
    assert_eq!(stream.take_written(), want);
    write_terminator(&mut stream);
    assert_eq!(stream.take_written(), b"0\r\n\r\n".to_vec());
}

#[test]
fn the_writer_emits_full_chunks_and_keeps_the_remainder() {
    let mut stream = Stream::new(Vec::new(), false);
    let mut writer = ChunkedWriter::new(4);
    assert_eq!(writer.write(&mut stream, b"ab"), 2);
    assert_eq!(stream.take_written(), Vec::<u8>::new());
    assert_eq!(writer.write(&mut stream, b"cdefghij"), 8);
    assert_eq!(stream.take_written(), b"4\r\nabcd\r\n4\r\nefgh\r\n".to_vec());
    writer.flush(&mut stream);
    assert_eq!(stream.take_written(), b"2\r\nij\r\n".to_vec());
    writer.flush(&mut stream);
    assert_eq!(stream.take_written(), Vec::<u8>::new());
}

#[test]
fn a_writer_without_chunk_size_emits_one_frame_at_the_flush() {
    let mut stream = Stream::new(Vec::new(), false);
    let mut writer = ChunkedWriter::new(0);
    assert_eq!(writer.write(&mut stream, b"abc"), 3);
    assert_eq!(writer.write(&mut stream, b"def"), 3);
    assert_eq!(stream.take_written(), Vec::<u8>::new());
    writer.flush(&mut stream);
    assert_eq!(stream.take_written(), b"6\r\nabcdef\r\n".to_vec());
}

#[test]
fn the_framed_output_does_not_depend_on_how_the_writes_are_cut() {
    let payload: Vec<u8> = (0..100u8).collect();
    let whole = encode_all(&payload, 7);
    for cut in [0usize, 1, 6, 7, 8, 50, 99, 100] {
        let mut stream = Stream::new(Vec::new(), false);
        let mut writer = ChunkedWriter::new(7);
        writer.write(&mut stream, &payload[..cut]);
        writer.write(&mut stream, &payload[cut..]);
        writer.flush(&mut stream);
        write_terminator(&mut stream);
        assert_eq!(stream.take_written(), whole);
    }
}

#[test]
fn chunked_round_trip_for_many_payloads_and_chunk_sizes() {
    let payloads: Vec<Vec<u8>> = vec![
        Vec::new(),
        b"a".to_vec(),
        b"hello world".to_vec(),
        b"5\r\nhello\r\n0\r\n\r\n".to_vec(),
        (0..=255u8).collect(),
        vec![0x0a; 1000],
        (0..70000u32).map(|i| (i % 251) as u8).collect(),
    ];
    for payload in &payloads {
        for size in [0usize, 1, 2, 3, 16, 255, 256, 1024, 65535, 65536, 65537, 100000] {
            if payload.len() > 2000 && size != 0 && size < 16 {
                continue;
            }
            let wire = encode_all(payload, size);
            let mut with_rest = wire.clone();
            with_rest.extend_from_slice(b"NEXT");
            let (body, rest) = decode_all(&with_rest, false).unwrap();
            assert_eq!(&body, payload, "size {}", size);
            assert_eq!(rest, b"NEXT".to_vec());
        }
    }
}

#[test]
fn a_declared_size_that_does_not_match_fails_as_a_chunk_error() {
    let e = decode_all(b"5\r\nhelloXX\r\n0\r\n\r\n", false).unwrap_err();
    assert!(matches!(e, Error::ChunkError));
    let e = decode_all(b"5\r\nhell\r\n0\r\n\r\n", false).unwrap_err();
    assert!(matches!(e, Error::ChunkError));
    let e = decode_all(b"3\r\nabc\n0\r\n\r\n", false).unwrap_err();
    assert!(matches!(e, Error::ChunkError));
    let e = decode_all(b"3\r\nabc\rX0\r\n\r\n", false).unwrap_err();
    assert!(matches!(e, Error::ChunkError));
    let e = decode_all(b"0\r\nXY", false).unwrap_err();
    assert!(matches!(e, Error::ChunkError));
}

#[test]
fn a_size_that_is_no_number_fails_as_a_chunk_error() {
    for wire in [&b"xyz\r\n"[..], b"5 \r\nhello\r\n", b" 5\r\nhello\r\n", b"-1\r\n", b";ext\r\n",
        b"0x5\r\nhello\r\n", b"\xff\r\n", b"fffffffffffffffffffffffff\r\n"]
    {
        let e = decode_all(wire, true).unwrap_err();
        assert!(matches!(e, Error::ChunkError), "{:?}", wire);
    }
}

#[test]
fn chunk_extensions_are_ignored() {
    let (body, rest) = decode_all(b"5;name=value\r\nhello\r\n0;last\r\n\r\n", false).unwrap();
    assert_eq!(body, b"hello".to_vec());
    assert_eq!(rest, Vec::<u8>::new());
    let (body, _) = decode_all(b"A\n0123456789\r\n+0\n\r\n", false).unwrap();
    assert_eq!(body, b"0123456789".to_vec());
    assert_eq!(scan_chunk_size(b"1f;x=y\r\nrest", 0), Ok((31, 8)));
    assert_eq!(scan_chunk_size(b"zz\r\n", 0), Err(End::Malformed));
    assert_eq!(scan_chunk_size(b"\r\n", 0), Err(End::Cut));
    assert_eq!(scan_chunk_size(b"12", 0), Err(End::Short));
}

#[test]
fn an_empty_or_overlong_size_line_is_an_unexpected_end() {
    let e = decode_all(b"\r\n", false).unwrap_err();
    assert_eq!(kind_of(&e), Some(IoKind::UnexpectedEof));
    let mut long = vec![b'0'; 128];
    long.extend_from_slice(b"\r\n\r\n");
    let e = decode_all(&long, false).unwrap_err();
    assert_eq!(kind_of(&e), Some(IoKind::UnexpectedEof));
    let mut fits = vec![b'0'; 126];
    fits.extend_from_slice(b"\r\n\r\n");
    let (body, _) = decode_all(&fits, false).unwrap();
    assert_eq!(body, Vec::<u8>::new());
}

#[test]
fn input_that_ends_inside_a_frame_is_short_or_cut_off() {
    for wire in [&b""[..], b"5", b"5\r\n", b"5\r\nhel", b"5\r\nhello", b"5\r\nhello\r", b"5\r\nhello\r\n",
        b"5\r\nhello\r\n0", b"5\r\nhello\r\n0\r\n", b"5\r\nhello\r\n0\r\n\r"]
    {
        let e = decode_all(wire, false).unwrap_err();
        assert_eq!(kind_of(&e), Some(IoKind::WouldBlock), "{:?}", wire);
        let e = decode_all(wire, true).unwrap_err();
        assert_eq!(kind_of(&e), Some(IoKind::UnexpectedEof), "{:?}", wire);
    }
}

#[test]
fn decoding_goes_on_where_it_stopped_once_more_input_has_arrived() {
    let payload: Vec<u8> = (0..5000u32).map(|i| (i % 256) as u8).collect();
    let wire = encode_all(&payload, 333);
    for step in [1usize, 2, 7, 100, 1000] {
        let mut stream = Stream::new(Vec::new(), false);
        let mut layer = Chunked::new(None, true);
        let mut body = Vec::new();
        let mut fed = 0;
        loop {
            match pull(&mut stream, &mut layer, &mut body, None) {
                Ok(()) => break,
                Err(e) => {
                    assert_eq!(kind_of(&e), Some(IoKind::WouldBlock));
                    assert!(fed < wire.len());
                    let upto = (fed + step).min(wire.len());
                    stream.feed(&wire[fed..upto]);
                    fed = upto;
                },
            }
        }
        assert_eq!(body, payload);
        assert_eq!(fed, wire.len());
    }
}

#[test]
fn the_reader_buffers_a_piece_and_hands_it_out_in_parts() {
    let mut stream = Stream::new(b"5\r\nhello\r\n3\r\nabc\r\n0\r\n\r\n".to_vec(), false);
    let mut reader = ChunkedReader::new();
    reader.fill_buf(&mut stream).unwrap();
    assert_eq!(stream.peek(), b"3\r\nabc\r\n0\r\n\r\n");
    assert_eq!(reader.read(&mut stream, 2).unwrap(), b"he".to_vec());
    reader.consume(1);
    assert_eq!(reader.read(&mut stream, 10).unwrap(), b"lo".to_vec());
    reader.consume(100);
    assert_eq!(reader.read(&mut stream, 10).unwrap(), b"abc".to_vec());
    assert_eq!(reader.read(&mut stream, 10).unwrap(), Vec::<u8>::new());
    assert_eq!(reader.read(&mut stream, 10).unwrap(), Vec::<u8>::new());
    assert_eq!(stream.peek(), b"");
}

#[test]
fn a_failed_step_changes_nothing() {
    let mut stream = Stream::new(b"5\r\nhel".to_vec(), false);
    let mut reader = ChunkedReader::new();
    assert!(reader.fill_buf(&mut stream).is_err());
    assert_eq!(stream.peek(), b"5\r\nhel");
    stream.feed(b"lo\r");
    assert!(reader.read(&mut stream, 10).is_err());
    assert_eq!(stream.peek(), b"5\r\nhello\r");
    stream.feed(b"\n");
    assert_eq!(reader.read(&mut stream, 10).unwrap(), b"hello".to_vec());
    assert_eq!(stream.peek(), b"");
}

#[test]
fn one_step_reads_at_most_a_piece() {
    let mut wire = b"10001\r\n".to_vec();
    wire.extend_from_slice(&vec![b'x'; 0x10001]);
    wire.extend_from_slice(b"\r\n");
    let (piece, used, left, eof) = scan_step(&wire, 0).unwrap();
    assert_eq!(piece.len(), 65536);
    assert_eq!(used, 7 + 65536);
    assert_eq!(left, 1);
    assert!(!eof);
    let (piece, used, left, eof) = scan_step(&wire[used..], left).unwrap();
    assert_eq!(piece, b"x".to_vec());
    assert_eq!(used, 3);
    assert_eq!(left, 0);
    assert!(!eof);
    let (piece, used, left, eof) = scan_step(b"0\r\n\r\n", 0).unwrap();
    assert_eq!((piece.len(), used, left, eof), (0, 5, 0, true));
    assert_eq!(scan_step(b"2\r\nab", 0).unwrap_err(), (End::Short, 0));
    assert_eq!(scan_step(b"2\r\nabcd", 0).unwrap_err(), (End::Broken, 6));
    assert_eq!(scan_step(b"2\r\nab\rXrest", 0).unwrap_err(), (End::Broken, 7));
    assert_eq!(scan_step(b"ab\ncd", 2).unwrap_err(), (End::Broken, 3));
    assert_eq!(scan_step(b"zz\r\nab", 0).unwrap_err(), (End::Malformed, 0));
    assert_eq!(scan_step(b"\r\nab", 0).unwrap_err(), (End::Cut, 0));
    let stream = Stream::new(Vec::new(), true);
    assert!(matches!(fault(End::Malformed, &stream), Error::ChunkError));
    assert!(matches!(fault(End::Broken, &stream), Error::ChunkError));
    assert_eq!(kind_of(&fault(End::Cut, &stream)), Some(IoKind::UnexpectedEof));
    assert_eq!(kind_of(&fault(End::Short, &stream)), Some(IoKind::UnexpectedEof));
}

#[test]
fn the_transfer_layer_passes_through_or_frames() {
    let mut stream = Stream::new(b"raw bytes".to_vec(), true);
    let mut plain = Chunked::new(None, false);
    assert!(matches!(plain, Chunked::Non));
    assert_eq!(plain.read(&mut stream, 3).unwrap(), b"raw".to_vec());
    assert_eq!(plain.write(&mut stream, b"out"), 3);
    plain.flush(&mut stream);
    assert_eq!(stream.take_written(), b"out".to_vec());
    let mut writer = Chunked::new(Some(2), true);
    assert!(matches!(writer, Chunked::Is(Chunky::Write(_))));
    assert_eq!(writer.write(&mut stream, b"abc"), 3);
    assert_eq!(stream.take_written(), b"2\r\nab\r\n".to_vec());
    assert_eq!(writer.read(&mut stream, 10).unwrap(), Vec::<u8>::new());
    writer.flush(&mut stream);
    assert_eq!(stream.take_written(), b"1\r\nc\r\n".to_vec());
    let mut reader = Chunked::new(None, true);
    assert!(matches!(reader, Chunked::Is(Chunky::Read(_))));
    assert_eq!(reader.write(&mut stream, b"abc"), 0);
    reader.flush(&mut stream);
    assert_eq!(stream.take_written(), Vec::<u8>::new());
    let ignored = Chunked::new(Some(5), false);
    assert!(matches!(ignored, Chunked::Non));
}

#[test]
fn reading_stops_at_the_budget_or_at_the_end() {
    let mut stream = Stream::new(b"0123456789".to_vec(), false);
    let mut layer = Chunked::new(None, false);
    let mut sink = Vec::new();
    pull(&mut stream, &mut layer, &mut sink, Some(4)).unwrap();
    assert_eq!(sink, b"0123".to_vec());
    assert_eq!(stream.peek(), b"456789");
    pull(&mut stream, &mut layer, &mut sink, Some(4)).unwrap();
    assert_eq!(sink, b"01234567".to_vec());
    assert_eq!(stream.peek(), b"89");
    let e = pull(&mut stream, &mut layer, &mut sink, Some(20)).unwrap_err();
    assert_eq!(kind_of(&e), Some(IoKind::WouldBlock));
    assert_eq!(sink, b"0123456789".to_vec());
    stream.close();
    pull(&mut stream, &mut layer, &mut sink, Some(18)).unwrap();
    assert_eq!(sink, b"0123456789".to_vec());
    let mut zero = Stream::new(b"abc".to_vec(), false);
    let mut none = Vec::new();
    pull(&mut zero, &mut layer, &mut none, Some(0)).unwrap();
    assert_eq!(none, Vec::<u8>::new());
    assert_eq!(zero.peek(), b"abc");
}

#[test]
fn a_body_longer_than_a_read_step_comes_through_whole() {
    let payload: Vec<u8> = (0..5000u32).map(|i| (i % 256) as u8).collect();
    let mut stream = Stream::new(payload.clone(), true);
    let mut codec = Compressed::new(Chunked::new(None, false), None, None, false).unwrap();
    let mut body = Vec::new();
    read_to_end_until(&mut stream, &mut codec, &mut body, None).unwrap();
    assert_eq!(body, payload);
    let mut stream = Stream::new(payload.clone(), false);
    let mut body = Vec::new();
    read_to_end_until(&mut stream, &mut codec, &mut body, Some(3000)).unwrap();
    assert_eq!(body, payload[..3000].to_vec());
    assert_eq!(stream.peek().len(), 2000);
}

#[test]
fn the_content_layer_writes_through_the_transfer_layer() {
    let mut stream = Stream::new(Vec::new(), false);
    let mut codec = Compressed::new(Chunked::new(Some(3), true), None, None, false).unwrap();
    assert!(matches!(codec, Compressed::Non(_)));
    assert_eq!(codec.content_length(7), 7);
    write_all_until(&mut stream, &mut codec, b"abcdefg").unwrap();
    assert_eq!(stream.take_written(), b"3\r\nabc\r\n3\r\ndef\r\n1\r\ng\r\n".to_vec());
    assert_eq!(
        write_until(&mut stream, &mut codec, b"xy", &mut None, 0).unwrap(),
        (2, Governed::Proceed)
    );
    assert_eq!(stream.take_written(), Vec::<u8>::new());
    codec.flush(&mut stream);
    assert_eq!(stream.take_written(), b"2\r\nxy\r\n".to_vec());
    write_all_until(&mut stream, &mut codec, b"").unwrap();
    assert_eq!(stream.take_written(), Vec::<u8>::new());
}

#[test]
fn writing_to_a_stack_that_reads_fails_as_an_unexpected_end() {
    let mut stream = Stream::new(Vec::new(), false);
    let mut codec = Compressed::new(Chunked::new(None, true), None, None, false).unwrap();
    let e = write_all_until(&mut stream, &mut codec, b"abc").unwrap_err();
    assert_eq!(kind_of(&e), Some(IoKind::UnexpectedEof));
    write_all_until(&mut stream, &mut codec, b"").unwrap();
    assert_eq!(stream.take_written(), Vec::<u8>::new());
    let decoder = Compressed::new(Chunked::new(None, false), None, None, true).unwrap();
    assert!(matches!(decoder, Compressed::Is(Gzip::De { .. })));
    let mut input = Stream::new(b"abc".to_vec(), true);
    let mut passing = Compressed::new(Chunked::new(None, false), None, None, false).unwrap();
    assert_eq!(
        read_until(&mut input, &mut passing, 2, &mut None, 0).unwrap(),
        (b"ab".to_vec(), Governed::Proceed)
    );
    assert_eq!(passing.read(&mut input, 2).unwrap(), b"c".to_vec());
}

#[test]
fn a_length_counts_from_where_the_body_stands() {
    let mut stream = Stream::new(b"0123456789".to_vec(), false);
    let mut codec = Compressed::new(Chunked::new(None, false), None, None, false).unwrap();
    let mut body = b"already here".to_vec();
    read_to_end_until(&mut stream, &mut codec, &mut body, Some(4)).unwrap();
    assert_eq!(body, b"already here0123".to_vec());
    assert_eq!(stream.peek(), b"456789");
    read_to_end_until(&mut stream, &mut codec, &mut body, Some(1)).unwrap();
    assert_eq!(body, b"already here01234".to_vec());
    let e = read_to_end_until(&mut stream, &mut codec, &mut body, Some(9)).unwrap_err();
    assert_eq!(kind_of(&e), Some(IoKind::WouldBlock));
    assert_eq!(body, b"already here0123456789".to_vec());
    stream.feed(b"abcdef");
    read_to_end_until(&mut stream, &mut codec, &mut body, Some(4)).unwrap();
    assert_eq!(body, b"already here0123456789abcd".to_vec());
    assert_eq!(stream.peek(), b"ef");
}

#[test]
fn a_payload_without_its_line_end_ends_decoding_for_good() {
    let mut stream = Stream::new(b"5\r\nhelloXX\r\n3\r\nabc\r\n0\r\n\r\n".to_vec(), false);
    let mut reader = ChunkedReader::new();
    let e = reader.fill_buf(&mut stream).unwrap_err();
    assert!(matches!(e, Error::ChunkError));
    assert_eq!(stream.peek(), b"X\r\n3\r\nabc\r\n0\r\n\r\n");
    reader.fill_buf(&mut stream).unwrap();
    assert_eq!(reader.read(&mut stream, 10).unwrap(), Vec::<u8>::new());
    assert_eq!(reader.read(&mut stream, 10).unwrap(), Vec::<u8>::new());
    assert_eq!(stream.peek(), b"X\r\n3\r\nabc\r\n0\r\n\r\n");
    let mut stream = Stream::new(b"2\r\nab\r\n2\r\ncd\rZ0\r\n\r\n".to_vec(), false);
    let mut layer = Chunked::new(None, true);
    let mut body = Vec::new();
    let e = pull(&mut stream, &mut layer, &mut body, None).unwrap_err();
    assert!(matches!(e, Error::ChunkError));
    assert_eq!(body, b"ab".to_vec());
    assert_eq!(stream.peek(), b"0\r\n\r\n");
    pull(&mut stream, &mut layer, &mut body, None).unwrap();
    assert_eq!(body, b"ab".to_vec());
    assert_eq!(stream.peek(), b"0\r\n\r\n");
    assert_eq!(layer.read(&mut stream, 5).unwrap(), Vec::<u8>::new());
}

#[test]
fn a_size_that_is_no_number_fails_again_and_consumes_nothing() {
    let mut stream = Stream::new(b"zz\r\nhello".to_vec(), false);
    let mut reader = ChunkedReader::new();
    assert!(matches!(reader.fill_buf(&mut stream), Err(Error::ChunkError)));
    assert!(matches!(reader.read(&mut stream, 4), Err(Error::ChunkError)));
    assert_eq!(stream.peek(), b"zz\r\nhello");
}

#[test]
fn a_read_after_the_deadline_fails_as_timed_out_and_reads_nothing() {
    let mut stream = Stream::new(b"bytes".to_vec(), false);
    let mut codec = Compressed::new(Chunked::new(None, false), None, None, false).unwrap();
    let mut deadline = Some(Deadline { expiry: 1000, last_refresh: 700 });
    for now in [1000u64, 1001, 50_000] {
        let e = read_until(&mut stream, &mut codec, 3, &mut deadline, now).unwrap_err();
        assert_eq!(kind_of(&e), Some(IoKind::TimedOut));
        assert_eq!(stream.peek(), b"bytes");
        assert_eq!(deadline, Some(Deadline { expiry: 1000, last_refresh: 700 }));
    }
}

#[test]
fn a_read_under_a_due_deadline_hands_out_the_time_that_is_left() {
    let mut stream = Stream::new(b"bytes".to_vec(), false);
    let mut codec = Compressed::new(Chunked::new(None, false), None, None, false).unwrap();
    let mut deadline = Some(Deadline { expiry: 1000, last_refresh: 100 });
    assert_eq!(
        read_until(&mut stream, &mut codec, 2, &mut deadline, 349).unwrap(),
        (b"by".to_vec(), Governed::Proceed)
    );
    assert_eq!(deadline, Some(Deadline { expiry: 1000, last_refresh: 100 }));
    assert_eq!(
        read_until(&mut stream, &mut codec, 2, &mut deadline, 350).unwrap(),
        (b"te".to_vec(), Governed::Refresh(650))
    );
    assert_eq!(deadline, Some(Deadline { expiry: 1000, last_refresh: 350 }));
    assert_eq!(
        read_until(&mut stream, &mut codec, 2, &mut deadline, 599).unwrap(),
        (b"s".to_vec(), Governed::Proceed)
    );
    let e = read_until(&mut stream, &mut codec, 2, &mut deadline, 600).unwrap_err();
    assert_eq!(kind_of(&e), Some(IoKind::WouldBlock));
    assert_eq!(deadline, Some(Deadline { expiry: 1000, last_refresh: 600 }));
}

#[test]
fn the_close_notification_reads_as_the_end_and_any_other_failure_fails_the_read() {
    let mut stream = Stream::new(b"ab".to_vec(), false);
    let mut codec = Compressed::new(Chunked::new(None, false), None, None, false).unwrap();
    assert!(stream.failure().is_none());
    stream.fail(IoError::new(IoKind::ConnectionAborted, "received CloseNotify alert"));
    assert_eq!(
        read_until(&mut stream, &mut codec, 8, &mut None, 0).unwrap(),
        (b"ab".to_vec(), Governed::Proceed)
    );
    assert_eq!(
        read_until(&mut stream, &mut codec, 8, &mut None, 0).unwrap(),
        (Vec::new(), Governed::Proceed)
    );
    assert_eq!(read_until(&mut stream, &mut codec, 0, &mut None, 0).unwrap().0, Vec::<u8>::new());
    stream.fail(IoError::new(IoKind::ConnectionAborted, "connection reset"));
    match read_until(&mut stream, &mut codec, 8, &mut None, 0) {
        Err(Error::Io(io)) => {
            assert_eq!(io.kind, IoKind::ConnectionAborted);
            assert_eq!(io.message, "connection reset");
        },
        other => panic!("{:?}", other),
    }
    let mut chunks = Compressed::new(Chunked::new(None, true), None, None, false).unwrap();
    let mut cut = Stream::new(b"5\r\nhel".to_vec(), false);
    cut.fail(IoError::new(IoKind::ConnectionAborted, "CloseNotify"));
    assert_eq!(read_until(&mut cut, &mut chunks, 8, &mut None, 0).unwrap().0, Vec::<u8>::new());
    assert_eq!(cut.peek(), b"5\r\nhel");
    let mut bad = Stream::new(b"zz\r\n".to_vec(), false);
    bad.fail(IoError::new(IoKind::Other, "late"));
    assert!(matches!(read_until(&mut bad, &mut chunks, 8, &mut None, 0), Err(Error::ChunkError)));
    let mut gone = Stream::new(Vec::new(), true);
    gone.fail(IoError::new(IoKind::Other, "late"));
    assert_eq!(read_until(&mut gone, &mut codec, 8, &mut None, 0).unwrap().0, Vec::<u8>::new());
}

#[test]
fn a_write_after_the_deadline_fails_as_timed_out_and_hands_nothing_over() {
    let mut stream = Stream::new(Vec::new(), false);
    let mut codec = Compressed::new(Chunked::new(Some(2), true), None, None, false).unwrap();
    let mut deadline = Some(Deadline { expiry: 500, last_refresh: 0 });
    let e = write_until(&mut stream, &mut codec, b"abcd", &mut deadline, 500).unwrap_err();
    assert_eq!(kind_of(&e), Some(IoKind::TimedOut));
    assert_eq!(stream.take_written(), Vec::<u8>::new());
    codec.flush(&mut stream);
    assert_eq!(stream.take_written(), Vec::<u8>::new());
    assert_eq!(deadline, Some(Deadline { expiry: 500, last_refresh: 0 }));
    assert_eq!(
        write_until(&mut stream, &mut codec, b"abc", &mut deadline, 400).unwrap(),
        (3, Governed::Refresh(100))
    );
    assert_eq!(stream.take_written(), b"2\r\nab\r\n".to_vec());
    assert_eq!(deadline, Some(Deadline { expiry: 500, last_refresh: 400 }));
    assert_eq!(
        write_until(&mut stream, &mut codec, b"d", &mut deadline, 450).unwrap(),
        (1, Governed::Proceed)
    );
    assert_eq!(stream.take_written(), b"2\r\ncd\r\n".to_vec());
}
