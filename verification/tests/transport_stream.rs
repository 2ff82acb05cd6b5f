use bytes::Bytes;
use fsonline::ts_parser::{
    FilterKind, FilterRequest, PcrDumpDemuxContext, TsTimeParser, PACKET_SIZE,
};
use mpeg2ts_reader::packet::Packet;
use mpeg2ts_reader::pes::{PesContents, PesHeader, PtsDts};

/// A packet that starts a picture which is shown at `pts`.
fn packet(counter: u8, pts: u64) -> Vec<u8> {
    let mut packet = vec![0x47, 0x41, 0x00, 0x10 | (counter & 0x0f)];
    packet.extend([0x00, 0x00, 0x01, 0xe0, 0x00, 0x00, 0x80, 0x80, 0x05]);
    packet.extend([
        0x21 | ((pts >> 29) & 0x0e) as u8,
        (pts >> 22) as u8,
        0x01 | ((pts >> 14) & 0xfe) as u8,
        (pts >> 7) as u8,
        0x01 | ((pts << 1) & 0xfe) as u8,
    ]);
    packet.resize(PACKET_SIZE, 0xff);
    packet
}

/// Twelve seconds of pictures, two in a second.
fn segment() -> Vec<u8> {
    (0..25).flat_map(|i| packet(i as u8, 126_000 + i * 45_000)).collect()
}

fn presentation_time(packet: &[u8]) -> Option<i64> {
    let header = PesHeader::from_bytes(Packet::new(packet).payload()?)?;
    match header.contents() {
        PesContents::Parsed(Some(parsed)) => match parsed.pts_dts().unwrap() {
            PtsDts::PtsOnly(Ok(pts)) => Some(pts.value() as i64),
            PtsDts::Both { pts: Ok(pts), .. } => Some(pts.value() as i64),
            _ => None,
        },
        _ => None,
    }
}

fn parse(parser: &mut TsTimeParser, chunk: &[u8]) {
    let packets = parser.parse_packets(Bytes::copy_from_slice(chunk));
    assert_eq!(packets.len() % PACKET_SIZE, 0);
    for packet in packets.chunks(PACKET_SIZE) {
        parser.ctx.begin_packet(presentation_time(packet));
    }
}

#[test]
fn test_ts_parser() {
    let seg = segment();
    assert_eq!(seg.len() % Packet::SIZE, 0);
    let mut parser = TsTimeParser::new(true);
    for chunk in seg.chunks(Packet::SIZE - 1) {
        parse(&mut parser, chunk);
        if parser.start_time().is_some() {
            assert_eq!(parser.start_time(), Some(126_000));
            return;
        }
    }

    panic!("Didn't received the start time");
}

#[test]
fn test_ts_parser_end_time() {
    let seg = segment();
    assert_eq!(seg.len() % Packet::SIZE, 0);
    let mut parser = TsTimeParser::new(false);
    for chunk in seg.chunks(Packet::SIZE - 1) {
        parse(&mut parser, chunk);
    }

    let start_time = parser.start_time().unwrap();
    let end_time = parser.end_time().unwrap();
    assert!(
        end_time - start_time > 900_000,
        "End time({end_time}) should be greater than start time({start_time}) by at least 10 seconds"
    );
    assert_eq!(end_time - start_time, 24 * 45_000);
}

#[test]
fn only_the_start_time() {
    let mut parser = TsTimeParser::new(true);
    parse(&mut parser, &segment());
    assert_eq!(parser.start_time(), Some(126_000));
    assert_eq!(parser.end_time(), Some(126_000));
}

#[test]
fn pieces_of_any_size() {
    let seg = segment();
    for size in [1, 2, 100, 187, 188, 189, 376, 1000, 10_000] {
        let mut parser = TsTimeParser::new(false);
        let mut whole: Vec<u8> = Vec::new();
        for chunk in seg.chunks(size) {
            whole.extend(parser.parse_packets(Bytes::copy_from_slice(chunk)));
            assert!(parser.last_packet.len() < PACKET_SIZE);
        }
        assert_eq!(whole, seg);
        assert!(parser.last_packet.is_empty());
    }
    let mut parser = TsTimeParser::new(false);
    assert_eq!(parser.parse_packets(Bytes::copy_from_slice(&seg[..400])), seg[..376].to_vec());
    assert_eq!(&parser.last_packet[..], &seg[376..400]);
    assert!(parser.parse_packets(Bytes::new()).is_empty());
    assert_eq!(parser.last_packet.len(), 24);
}

#[test]
fn times_do_not_depend_on_pieces() {
    let seg = segment();
    for size in [1, 100, 187, 189, 1000, 10_000] {
        for only_start_time in [false, true] {
            let mut parser = TsTimeParser::new(only_start_time);
            let mut start = None;
            for chunk in seg.chunks(size) {
                parse(&mut parser, chunk);
                assert_eq!(parser.start_time().is_some(), parser.end_time().is_some());
                assert!(start.is_none() || parser.start_time() == start);
                assert!(!only_start_time || parser.end_time() == parser.start_time());
                start = parser.start_time();
            }
            let mut at_once = TsTimeParser::new(only_start_time);
            parse(&mut at_once, &seg);
            assert_eq!(parser.start_time(), at_once.start_time());
            assert_eq!(parser.end_time(), at_once.end_time());
        }
    }
}

#[test]
fn which_packets_are_read() {
    let mut ctx = PcrDumpDemuxContext::new(true);
    assert_eq!(ctx.construct(FilterRequest::ByPid(0)), FilterKind::Pat);
    assert_eq!(ctx.construct(FilterRequest::ByPid(17)), FilterKind::Null);
    assert_eq!(ctx.construct(FilterRequest::Pmt), FilterKind::Pmt);
    assert_eq!(ctx.construct(FilterRequest::Nit), FilterKind::Null);
    let clock = FilterRequest::ByStream { elementary_pid: 256, pcr_pid: 256 };
    let other = FilterRequest::ByStream { elementary_pid: 257, pcr_pid: 256 };
    assert_eq!(ctx.construct(clock), FilterKind::Pes);
    assert_eq!(ctx.construct(other), FilterKind::Null);
    ctx.begin_packet(None);
    assert_eq!(ctx.construct(clock), FilterKind::Pes);
    ctx.begin_packet(Some(5));
    assert_eq!(ctx.construct(clock), FilterKind::Null);
    assert_eq!(ctx.construct(FilterRequest::ByPid(0)), FilterKind::Null);
    let mut ctx = PcrDumpDemuxContext::new(false);
    ctx.begin_packet(Some(5));
    ctx.begin_packet(Some(3));
    assert_eq!((ctx.first, ctx.last), (Some(5), Some(3)));
    assert_eq!(ctx.construct(clock), FilterKind::Pes);
}
