use magenta_dj::sidecar::{
    frame_header, parse_frame_header, read_frame, route_frame, write_frame, FrameError, FrameRoute, FRAME_CONTROL,
    FRAME_PCM, FRAME_STATUS, MAX_FRAME_BYTES,
};

#[test]
fn frame_round_trips_through_a_buffer() {
    let mut buf = Vec::new();
    write_frame(&mut buf, FRAME_STATUS, b"{\"event\":\"ready\"}");
    write_frame(&mut buf, FRAME_PCM, &[1, 2, 3, 4]);

    let mut pos = 0;
    let (t1, p1) = read_frame(&buf, &mut pos).unwrap().unwrap();
    assert_eq!(t1, FRAME_STATUS);
    assert_eq!(p1, b"{\"event\":\"ready\"}");
    let (t2, p2) = read_frame(&buf, &mut pos).unwrap().unwrap();
    assert_eq!(t2, FRAME_PCM);
    assert_eq!(p2, vec![1, 2, 3, 4]);
    // Clean end at a boundary → None.
    assert!(read_frame(&buf, &mut pos).unwrap().is_none());
}

#[test]
fn over_cap_length_is_rejected() {
    let mut buf = Vec::new();
    buf.push(FRAME_PCM);
    buf.extend_from_slice(&(MAX_FRAME_BYTES + 1).to_le_bytes());
    let mut pos = 0;
    assert!(read_frame(&buf, &mut pos).is_err());
}

#[test]
fn a_frame_is_type_length_then_payload() {
    let mut buf = vec![9];
    write_frame(&mut buf, FRAME_CONTROL, b"ab");
    assert_eq!(buf, vec![9, 3, 2, 0, 0, 0, b'a', b'b']);
    assert_eq!(frame_header(FRAME_PCM, 0x0102_0304), [1, 4, 3, 2, 1]);
}

#[test]
fn the_header_reports_an_over_cap_length_as_such() {
    let head = frame_header(FRAME_PCM, MAX_FRAME_BYTES + 1);
    assert_eq!(parse_frame_header(head), Err(FrameError::TooLong { len: MAX_FRAME_BYTES + 1 }));
    assert_eq!(parse_frame_header(frame_header(FRAME_STATUS, MAX_FRAME_BYTES)), Ok((FRAME_STATUS, MAX_FRAME_BYTES)));
}

#[test]
fn a_frame_cut_short_is_truncated_in_header_or_payload() {
    let mut buf = Vec::new();
    write_frame(&mut buf, FRAME_STATUS, b"hello");
    let mut cut = buf.clone();
    cut.truncate(8);
    let mut pos = 0;
    assert_eq!(read_frame(&cut, &mut pos), Err(FrameError::Truncated));
    for kept in 1..5 {
        let mut pos = 0;
        assert_eq!(read_frame(&buf[..kept], &mut pos), Err(FrameError::Truncated));
    }
    let mut pos = 0;
    assert_eq!(read_frame(&buf[..0], &mut pos), Ok(None));
    // A header cut short after a whole frame is an error too.
    let mut two = buf.clone();
    two.extend_from_slice(&buf[..2]);
    let mut pos = 0;
    assert!(read_frame(&two, &mut pos).unwrap().is_some());
    assert_eq!(read_frame(&two, &mut pos), Err(FrameError::Truncated));
}

#[test]
fn an_empty_payload_round_trips() {
    let mut buf = Vec::new();
    write_frame(&mut buf, FRAME_CONTROL, &[]);
    let mut pos = 0;
    assert_eq!(read_frame(&buf, &mut pos), Ok(Some((FRAME_CONTROL, Vec::new()))));
    assert_eq!(pos, 5);
}

#[test]
fn frames_route_by_type() {
    assert_eq!(route_frame(FRAME_PCM), FrameRoute::Pcm);
    assert_eq!(route_frame(FRAME_STATUS), FrameRoute::Status);
    assert_eq!(route_frame(FRAME_CONTROL), FrameRoute::Ignore);
    assert_eq!(route_frame(42), FrameRoute::Ignore);
}
