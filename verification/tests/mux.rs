use bytes::{Bytes, BytesMut};
use target_core::transport::mux::{
    close_frame, data_frame, delivery, open_frame, server_endpoint, take_mux_frame,
    write_mux_frame, LeaseAction, MuxError, MuxFrame, MuxPool, MuxRead, MuxReader, PoolError,
    ReadSide, StreamTable,
};

fn pool(min: usize, max: usize, streams: u32) -> MuxPool<&'static str> {
    MuxPool::new("s:443".to_string(), true, None, min, max, streams, None, None)
}

#[test]
fn frames_have_six_bytes_before_the_payload() {
    let f = MuxFrame { stream_id: 0x01020304, cmd: 2, payload: Bytes::from(vec![7, 8]) };
    assert_eq!(write_mux_frame(&f).unwrap().to_vec(), vec![0x81, 2, 3, 4, 0, 2, 7, 8]);
    let f = MuxFrame { stream_id: 0xffff_ffff, cmd: 5, payload: Bytes::new() };
    assert_eq!(write_mux_frame(&f).unwrap().to_vec(), vec![0x7f, 0xff, 0xff, 0xff, 0, 0]);
}

#[test]
fn frames_that_are_too_large_are_not_written() {
    let f = MuxFrame { stream_id: 1, cmd: 0, payload: Bytes::from(vec![0; 65535]) };
    assert_eq!(write_mux_frame(&f).unwrap().len(), 65541);
    let f = MuxFrame { stream_id: 1, cmd: 0, payload: Bytes::from(vec![0; 65536]) };
    assert!(write_mux_frame(&f).is_none());
}

#[test]
fn frames_are_read_one_by_one() {
    let mut all = vec![];
    all.extend_from_slice(&write_mux_frame(&open_frame(5, "h", 80)).unwrap());
    all.extend_from_slice(&write_mux_frame(&data_frame(5, &[1, 2, 3])).unwrap());
    all.extend_from_slice(&write_mux_frame(&close_frame(5)).unwrap());
    let mut buf = BytesMut::new();
    let mut frames = vec![];
    for b in all {
        buf.extend_from_slice(&[b]);
        let before = buf.len();
        match take_mux_frame(&mut buf) {
            MuxRead::Frame(f) => {
                frames.push((f.stream_id, f.cmd, f.payload.to_vec()));
                assert!(buf.is_empty());
            }
            step => {
                assert_eq!(matches!(step, MuxRead::NeedHeader), before < 6);
                assert_eq!(buf.len(), before);
            }
        }
    }
    assert_eq!(
        frames,
        vec![(5, 1, b"h:80".to_vec()), (5, 0, vec![1, 2, 3]), (5, 2, vec![])]
    );
}

#[test]
fn streams_are_handed_data_and_ends() {
    assert_eq!(delivery(data_frame(1, &[4])).unwrap().to_vec(), vec![4]);
    assert!(delivery(close_frame(1)).unwrap().is_empty());
    let f = MuxFrame { stream_id: 1, cmd: 2, payload: Bytes::from(vec![9]) };
    assert!(delivery(f).unwrap().is_empty());
    assert!(delivery(open_frame(1, "h", 1)).is_none());
    assert!(delivery(MuxFrame { stream_id: 1, cmd: 3, payload: Bytes::new() }).is_none());
}

#[test]
fn reading_side_hands_out_what_fits() {
    let mut r = ReadSide::new();
    assert!(!r.has_data());
    assert!(r.read(None, 9).is_empty());
    assert_eq!(r.read(Some(Bytes::from(vec![1, 2, 3, 4, 5])), 2), vec![1, 2]);
    assert!(r.has_data());
    assert!(r.read(None, 0).is_empty());
    assert_eq!(r.read(None, 9), vec![3, 4, 5]);
    assert!(!r.has_data());
    assert!(r.read(Some(Bytes::new()), 9).is_empty());
    assert!(!r.has_data());
}

#[test]
fn reads_give_what_came_in_order() {
    let chunks: Vec<Vec<u8>> = vec![vec![1, 2, 3], vec![4], vec![5, 6, 7, 8]];
    for room in 1..6 {
        let mut r = ReadSide::new();
        let mut channel = chunks.iter();
        let mut out = vec![];
        for _ in 0..8 {
            let next = if r.has_data() { None } else { channel.next() };
            let got = r.read(next.map(|c| Bytes::from(c.clone())), room);
            assert!(got.len() <= room);
            out.extend_from_slice(&got);
        }
        assert_eq!(out, vec![1, 2, 3, 4, 5, 6, 7, 8]);
    }
}

#[test]
fn connections_deliver_in_pieces_of_any_size() {
    let mut all = vec![];
    for f in [
        open_frame(1, "h", 80),
        data_frame(1, &[1, 2]),
        data_frame(9, &[3]),
        data_frame(2, &[]),
        data_frame(1, &[4]),
        close_frame(1),
    ] {
        all.extend_from_slice(&write_mux_frame(&f).unwrap());
    }
    let mut table = StreamTable::new();
    table.open(1, 1);
    table.open(2, 2);
    for size in 1..=all.len() {
        let mut reader = MuxReader::new();
        let mut got = vec![];
        for piece in all.chunks(size) {
            for frame in reader.receive(piece) {
                if let Some((to, data)) = table.route(frame) {
                    got.push((*to, data.to_vec()));
                }
            }
        }
        assert_eq!(reader.finish(), Ok(()));
        assert_eq!(got, vec![(1, vec![1, 2]), (2, vec![]), (1, vec![4]), (1, vec![])]);
    }
}

#[test]
fn connections_may_not_end_in_a_payload() {
    let mut reader = MuxReader::new();
    assert!(reader.receive(&[0, 0, 0, 1, 0]).is_empty());
    assert_eq!(reader.finish(), Ok(()));
    assert!(reader.receive(&[2, 7]).is_empty());
    assert_eq!(reader.finish(), Err(MuxError::Truncated));
    assert_eq!(MuxError::Truncated.message(), "Connection truncated while waiting for payload");
    assert_eq!(reader.receive(&[8]).len(), 1);
    assert_eq!(reader.finish(), Ok(()));
}

#[test]
fn full_pools_say_so() {
    let mut p = pool(0, 0, 1);
    assert_eq!(p.lease(), LeaseAction::Error(PoolError::Full));
    assert_eq!(PoolError::Full.message(), "Connection pool capacity exceeded");
}

#[test]
fn servers_have_a_default_port() {
    assert_eq!(server_endpoint("h:8443"), ("h".to_string(), 8443));
    assert_eq!(server_endpoint("h"), ("h".to_string(), 80));
    assert_eq!(server_endpoint("h:x"), ("h".to_string(), 80));
    assert_eq!(server_endpoint("h:+7"), ("h".to_string(), 7));
    assert_eq!(server_endpoint("h:65536"), ("h".to_string(), 80));
    assert_eq!(server_endpoint("h:1:2"), ("h".to_string(), 80));
    assert_eq!(server_endpoint(":5"), (String::new(), 5));
}

#[test]
fn pool_fills_connections_in_order() {
    let mut p = pool(1, 2, 2);
    assert!(p.needs_warming());
    assert_eq!(p.lease(), LeaseAction::ConnectNew);
    assert_eq!(p.push_connection("a"), 0);
    assert!(!p.needs_warming());
    assert_eq!(p.lease(), LeaseAction::Lease(0, 1));
    assert_eq!(p.lease(), LeaseAction::Lease(0, 2));
    assert_eq!(p.lease(), LeaseAction::ConnectNew);
    assert_eq!(p.push_connection("b"), 1);
    assert_eq!(p.lease(), LeaseAction::Lease(1, 1));
    assert_eq!(p.lease(), LeaseAction::Lease(1, 2));
    assert_eq!(p.lease(), LeaseAction::Error(PoolError::Full));
    p.release(0);
    assert_eq!(p.lease(), LeaseAction::Lease(0, 3));
    p.release(9);
    assert_eq!(p.lease(), LeaseAction::Error(PoolError::Full));
}

#[test]
fn pool_forgets_connections_that_are_gone() {
    let mut p = pool(0, 3, 9);
    p.push_connection("a");
    p.push_connection("b");
    p.push_connection("c");
    p.retain_alive(&vec![false, true, false]);
    assert_eq!(p.connections.len(), 1);
    assert_eq!(p.connections[0].link, "b");
    assert_eq!(p.connections[0].serial, 1);
    assert_eq!(p.push_connection("d"), 3);
}

#[test]
fn pool_expects_a_name() {
    let mut p = pool(0, 1, 1);
    assert_eq!(p.server_name(), "localhost");
    p.sni = Some("n".to_string());
    assert_eq!(p.server_name(), "n");
}

#[test]
fn frames_reach_their_streams() {
    let mut table = StreamTable::new();
    table.open(1, "one");
    table.open(2, "two");
    let (to, data) = table.route(data_frame(2, &[7])).unwrap();
    assert_eq!((*to, data.to_vec()), ("two", vec![7]));
    let (to, data) = table.route(close_frame(1)).unwrap();
    assert_eq!((*to, data.to_vec()), ("one", vec![]));
    assert!(table.route(open_frame(1, "h", 80)).is_none());
    assert!(table.route(data_frame(3, &[7])).is_none());
    table.close(2);
    assert!(table.route(data_frame(2, &[7])).is_none());
}

#[test]
fn dropping_a_stream_undoes_leasing_it() {
    let mut p = pool(0, 3, 2);
    p.push_connection("a");
    let serial = p.push_connection("b");
    p.lease();
    p.lease();
    assert_eq!(p.lease(), LeaseAction::Lease(1, 1));
    p.push_connection("c");
    p.retain_alive(&vec![false, true, true]);
    p.release(serial);
    assert_eq!(p.connections.iter().map(|c| c.stream_count).collect::<Vec<u32>>(), vec![0, 0]);
    assert_eq!(p.connections[0].link, "b");
    assert_eq!(p.connections[0].next_stream_id, 2);
}
