use rustudps::chunk_state::ChunkState;
use rustudps::discovery::{Discovery, DiscoveryStep, Endpoint};
use rustudps::download::DownloadTask;
use rustudps::listing::{ListingAcquisition, ListingTick};
use rustudps::liveness::{PingStep, PingTracker};
use rustudps::messages::{DisconnectReason, FileChunkData, FileListingFragment, JoinReason, Message};
use rustudps::pipeline::{branch_route, route_by_file};
use rustudps::progress::ProgressEvent;
use rustudps::schedule::chunk_bytes;

fn fragment(idx: u32, total: u32, path: &str, size: u64) -> FileListingFragment {
    FileListingFragment { idx, total, path: path.to_string(), size, hash: [0; 32], chunk_size: 512 }
}

fn requested(t: ListingTick) -> Vec<u32> {
    match t {
        ListingTick::Request(v) => v
            .into_iter()
            .map(|m| match m {
                Message::FileListingRequest { idx } => idx,
                other => panic!("unexpected {:?}", other),
            })
            .collect(),
        ListingTick::GiveUp => panic!("gave up"),
    }
}

#[test]
fn listing_acquisition_two_files() {
    let mut acq = ListingAcquisition::new();
    assert_eq!(requested(acq.on_tick()), vec![0]);
    acq.on_fragment(&fragment(1, 2, "b.bin", 300));
    assert!(!acq.is_complete());
    assert_eq!(requested(acq.on_tick()), vec![0]);
    acq.on_fragment(&fragment(0, 2, "a.bin", 1000));
    assert!(acq.is_complete());
    let data = acq.into_server_data();
    let counts: Vec<u64> = data.files.iter().map(|f| f.1.num_chunks).collect();
    assert_eq!(counts, vec![2, 1]);
    assert_eq!(data.files[0].0.path, "a.bin");
    assert_eq!(data.files[1].0.path, "b.bin");
}

#[test]
fn listing_acquisition_gives_up_after_ten_attempts() {
    let mut acq = ListingAcquisition::new();
    for _ in 0..10 {
        assert_eq!(requested(acq.on_tick()), vec![0]);
    }
    assert!(matches!(acq.on_tick(), ListingTick::GiveUp));
}

#[test]
fn listing_requests_are_batched_by_fifty() {
    let mut acq = ListingAcquisition::new();
    acq.on_fragment(&fragment(3, 120, "x", 10));
    let first = requested(acq.on_tick());
    assert_eq!(first.len(), 50);
    assert_eq!(&first[..4], &[0, 1, 2, 4]);
    assert_eq!(first[49], 50);
}

#[test]
fn unusable_or_out_of_range_fragments_are_ignored() {
    let mut acq = ListingAcquisition::new();
    acq.on_fragment(&fragment(0, 1, "a", 10));
    acq.on_fragment(&fragment(5, 1, "b", 10));
    assert!(acq.is_complete());
    let mut acq = ListingAcquisition::new();
    let mut bad = fragment(0, 1, "a", 10);
    bad.chunk_size = 0;
    acq.on_fragment(&bad);
    assert!(!acq.is_complete());
}

fn source() -> Vec<u8> {
    (0..1500u32).map(|i| (i * 7 % 256) as u8).collect()
}

fn apply_write(file: &mut Vec<u8>, at: Option<u64>, data: &[u8]) {
    if let Some(off) = at {
        let off = off as usize;
        if file.len() < off + data.len() {
            file.resize(off + data.len(), 0);
        }
        file[off..off + data.len()].copy_from_slice(data);
    }
}

#[test]
fn single_file_download_in_any_order() {
    let src = source();
    let f = fragment(0, 1, "one.bin", 1500);
    let mut task = DownloadTask::new(&f, ChunkState::from_file_size(1500, 512));
    let mut file = vec![0u8; 1500];
    let mut finished = None;
    for c in [2u64, 0, 2, 1] {
        let chunk = FileChunkData { idx: 0, chunk: c, data: chunk_bytes(&src, 512, c) };
        let out = task.on_chunk(&chunk);
        assert_eq!(out.event, ProgressEvent::ChunkDownloaded(0, c, chunk.data.len()));
        apply_write(&mut file, out.write_at, &chunk.data);
        finished = out.finished;
    }
    assert_eq!(file, src);
    assert_eq!(finished, Some(ProgressEvent::FileDone(0)));
    assert!(matches!(task.on_tick(true), rustudps::download::TickAction::Finish(ProgressEvent::FileDone(0))));
    let bye = Message::Disconnect(DisconnectReason::Done);
    assert!(matches!(bye, Message::Disconnect(DisconnectReason::Done)));
}

#[test]
fn missed_chunk_is_requested() {
    let src = source();
    let f = fragment(0, 1, "one.bin", 1500);
    let mut task = DownloadTask::new(&f, ChunkState::from_file_size(1500, 512));
    for c in [0u64, 2] {
        let out = task.on_chunk(&FileChunkData { idx: 0, chunk: c, data: chunk_bytes(&src, 512, c) });
        assert_eq!(out.finished, None);
    }
    match task.on_tick(true) {
        rustudps::download::TickAction::Request(Message::FileChunkRequest { idx, chunk }, ev) => {
            assert_eq!((idx, chunk), (0, 1));
            assert_eq!(ev, ProgressEvent::ChunkRequested(0, 1));
        }
        other => panic!("unexpected {:?}", other),
    }
    assert!(matches!(task.on_tick(false), rustudps::download::TickAction::Idle));
    let out = task.on_chunk(&FileChunkData { idx: 0, chunk: 1, data: chunk_bytes(&src, 512, 1) });
    assert_eq!(out.write_at, Some(512));
    assert_eq!(out.finished, Some(ProgressEvent::FileDone(0)));
}

#[test]
fn chunk_past_the_end_is_not_written() {
    let f = fragment(0, 1, "one.bin", 1500);
    let mut task = DownloadTask::new(&f, ChunkState::from_file_size(1500, 512));
    let out = task.on_chunk(&FileChunkData { idx: 0, chunk: 3, data: vec![1, 2] });
    assert_eq!(out.write_at, None);
    let out = task.on_chunk(&FileChunkData { idx: 0, chunk: u64::MAX, data: vec![] });
    assert_eq!(out.write_at, None);
}

#[test]
fn discovery_joins_announcer() {
    let mut d = Discovery::new();
    let srv = "srv".to_string();
    let step = d.on_message(5, &srv, &Message::Announce { port: 4000 }, None);
    assert_eq!(step, DiscoveryStep::SendJoinQuery(Endpoint { ip: 5, port: 4000 }));
    assert_eq!(d.on_message(5, &srv, &Message::Announce { port: 9 }, None), DiscoveryStep::Wait);
    assert_eq!(d.on_message(6, &srv, &Message::JoinResponse(JoinReason::Accepted), None), DiscoveryStep::Wait);
    assert_eq!(
        d.on_message(5, &srv, &Message::JoinResponse(JoinReason::Accepted), None),
        DiscoveryStep::Joined(Endpoint { ip: 5, port: 4000 })
    );
}

#[test]
fn discovery_filters_by_name_and_restarts_on_rejection() {
    let mut d = Discovery::new();
    let wanted = "wanted".to_string();
    let other = "other".to_string();
    assert_eq!(d.on_message(1, &other, &Message::Announce { port: 1 }, Some(&wanted)), DiscoveryStep::Wait);
    assert_eq!(
        d.on_message(2, &wanted, &Message::Announce { port: 2 }, Some(&wanted)),
        DiscoveryStep::SendJoinQuery(Endpoint { ip: 2, port: 2 })
    );
    assert_eq!(d.on_message(2, &wanted, &Message::JoinResponse(JoinReason::WrongName), Some(&wanted)), DiscoveryStep::Wait);
    assert_eq!(d.expecting, None);
}

#[test]
fn pings_report_receptions_and_give_up() {
    let mut t = PingTracker::new(10);
    t.on_packet();
    t.on_packet();
    match t.on_tick(42) {
        PingStep::Send(Message::Ping { nonce, recvs }) => assert_eq!((nonce, recvs), (42, 2)),
        other => panic!("unexpected {:?}", other),
    }
    assert_eq!(t.received, 0);
    t.on_pong();
    for i in 0..10u64 {
        assert!(matches!(t.on_tick(i), PingStep::Send(_)));
    }
    assert!(matches!(t.on_tick(11), PingStep::GiveUp));
}

#[test]
fn routing_by_file_and_branching() {
    let chunk = Message::FileChunk(FileChunkData { idx: 1, chunk: 0, data: vec![] });
    assert_eq!(route_by_file(&chunk, 2), Some(1));
    assert_eq!(route_by_file(&chunk, 1), None);
    assert_eq!(route_by_file(&Message::Pong { nonce: 1 }, 2), None);
    assert_eq!(branch_route(true, false), (true, false));
    assert_eq!(branch_route(false, false), (false, true));
    assert_eq!(branch_route(true, true), (true, true));
    assert_eq!(branch_route(false, true), (false, true));
}
