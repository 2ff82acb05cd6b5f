use bytes::Bytes;
use fsonline::custom_extractor::{
    range_to_answer, respond, ContentRange, RangeNotSatisfiable, Ranged,
};

const BODY: &[u8] = b"Hello world this is a file to test range requests on!\n";

fn answer(header: Option<&str>) -> Result<(Option<ContentRange>, u64, Bytes, u16), u64> {
    let ranged = Ranged::new(header.map(|h| h.to_owned()), Bytes::from_static(BODY));
    match ranged.try_respond() {
        Ok(r) => {
            let status = r.status();
            Ok((r.content_range, r.content_length, r.stream, status))
        }
        Err(e) => {
            assert_eq!(e.status(), 416);
            assert_eq!(e.0.range, None);
            Err(e.0.complete_length)
        }
    }
}

fn part(header: &str) -> (u64, u64, String) {
    let (range, length, stream, status) = answer(Some(header)).unwrap();
    let range = range.unwrap();
    assert_eq!(range.complete_length, 54);
    assert_eq!(length, stream.len() as u64);
    assert_eq!(status, 206);
    let (first, last) = range.range.unwrap();
    (first, last, String::from_utf8(stream.to_vec()).unwrap())
}

#[test]
fn full_response() {
    let (range, length, stream, status) = answer(None).unwrap();
    assert_eq!(range, None);
    assert_eq!(length, 54);
    assert_eq!(&stream[..], BODY);
    assert_eq!(status, 200);
}

#[test]
fn parts_of_the_body() {
    assert_eq!(part("bytes=0-29"), (0, 29, "Hello world this is a file to ".to_owned()));
    assert_eq!(part("bytes=30-53"), (30, 53, "test range requests on!\n".to_owned()));
    assert_eq!(part("bytes=-20"), (34, 53, " range requests on!\n".to_owned()));
    assert_eq!(part("bytes=40-"), (40, 53, " requests on!\n".to_owned()));
    assert_eq!(part("bytes=30-30"), (30, 30, "t".to_owned()));
    assert_eq!(part("bytes=30-99"), (30, 53, "test range requests on!\n".to_owned()));
    assert_eq!(part("bytes=0-0,5-9"), (0, 0, "H".to_owned()));
    assert_eq!(part("bytes=x,5-5"), (5, 5, " ".to_owned()));
}

#[test]
fn parts_that_the_body_does_not_have() {
    assert_eq!(answer(Some("bytes=30-29")).unwrap_err(), 54);
    assert_eq!(answer(Some("bytes=99-")).unwrap_err(), 54);
    assert_eq!(answer(Some("bytes=54-")).unwrap_err(), 54);
    assert_eq!(answer(Some("bytes=-0")).unwrap_err(), 54);
}

#[test]
fn headers_that_ask_for_everything() {
    for header in ["", "lines=0-1", "bytes=x", "bytes=-55"] {
        let (range, length, _, status) = answer(Some(header)).unwrap();
        assert_eq!(range, None);
        assert_eq!((length, status), (54, 200));
    }
}

#[test]
fn the_first_of_several_ranges() {
    assert_eq!(range_to_answer(&vec![(Some(3), None), (None, Some(9))]), Some((Some(3), None)));
    assert_eq!(range_to_answer(&Vec::new()), None);
    assert_eq!(part("bytes=7-8,0-0,5-9"), (7, 8, "or".to_owned()));
}

#[test]
fn two_parts_make_the_body() {
    for at in [1, 17, 53] {
        let first = part(&format!("bytes=0-{}", at - 1)).2;
        let second = part(&format!("bytes={at}-")).2;
        assert_eq!(format!("{first}{second}").as_bytes(), BODY);
    }
}

#[test]
fn bounds_and_an_empty_body() {
    let empty = Bytes::new();
    let error: RangeNotSatisfiable = respond(&empty, None).map(|_| ()).unwrap_err();
    assert_eq!(error.0, ContentRange { range: None, complete_length: 0 });
    let body = Bytes::from_static(BODY);
    let r = respond(&body, Some((None, Some(3)))).map(|r| r.stream).unwrap();
    assert_eq!(&r[..], b"Hell");
    let r = respond(&body, Some((Some(50), Some(u64::MAX)))).map(|r| r.stream).unwrap();
    assert_eq!(&r[..], b"on!\n".get(0..4).unwrap());
    let r = respond(&body, Some((None, None))).map(|r| r.content_range).unwrap();
    assert_eq!(r, Some(ContentRange { range: Some((0, 53)), complete_length: 54 }));
}
