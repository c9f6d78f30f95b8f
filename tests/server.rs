use rustudps::hashlist::{hashlist_into_file_listing, FileHashItem, HashList, CHUNK_SIZE};
use rustudps::messages::{FileListingFragment, JoinReason, Message};
use rustudps::rate_limiter::RateLimiter;
use rustudps::schedule::{
    chunk_bytes, chunk_reply_target, listing_interval_us, listing_reply, server_action, ChunkCarousel,
    ListingCarousel, ServerAction,
};

fn item(path: &str, size: u64, fill: u8) -> FileHashItem {
    FileHashItem { path: path.to_string(), size, hash: vec![fill; 32] }
}

fn listing() -> Vec<FileListingFragment> {
    hashlist_into_file_listing(HashList::new(vec![item("a.bin", 1000, 1), item("b.bin", 300, 2)]))
}

#[test]
fn listing_from_hashlist() {
    let l = listing();
    assert_eq!(l.len(), 2);
    assert_eq!((l[0].idx, l[0].total, l[0].path.as_str(), l[0].size), (0, 2, "a.bin", 1000));
    assert_eq!((l[1].idx, l[1].total, l[1].path.as_str(), l[1].size), (1, 2, "b.bin", 300));
    assert_eq!(l[0].hash, [1u8; 32]);
    assert_eq!(l[1].chunk_size, CHUNK_SIZE);
    assert_eq!(CHUNK_SIZE, 512);
}

#[test]
fn hashlist_names_sha256() {
    let h = HashList::new(vec![]);
    assert_eq!(h.hash_algorithm, "sha256");
}

#[test]
fn nonexistent_items() {
    let n = FileHashItem::nonexistent("x/y");
    assert_eq!(n.path, "x/y");
    assert_eq!(n.size, 0);
    assert_eq!(n.hash, vec![0u8; 32]);
    let e = FileHashItem::nonexistent_empty_path();
    assert_eq!(e.path, "");
    assert!(e == FileHashItem::nonexistent(""));
}

#[test]
fn listing_carousel_is_round_robin() {
    let l = listing();
    let mut c = ListingCarousel::new();
    let mut seen = vec![];
    for _ in 0..5 {
        match c.tick(&l) {
            Message::FileListing(f) => seen.push(f.idx),
            other => panic!("unexpected {:?}", other),
        }
    }
    assert_eq!(seen, vec![0, 1, 0, 1, 0]);
    assert_eq!(listing_interval_us(2), 2_500_000);
    assert_eq!(listing_interval_us(3), 1_666_666);
}

#[test]
fn listing_requests_are_clamped() {
    let l = listing();
    match listing_reply(&l, 1) {
        Message::FileListing(f) => assert_eq!(f.idx, 1),
        other => panic!("unexpected {:?}", other),
    }
    match listing_reply(&l, 77) {
        Message::FileListing(f) => assert_eq!(f.idx, 1),
        other => panic!("unexpected {:?}", other),
    }
}

#[test]
fn chunk_requests_are_clamped() {
    let l = listing();
    assert_eq!(chunk_reply_target(&l, 0, 1), (0, 1));
    assert_eq!(chunk_reply_target(&l, 0, 9), (0, 1));
    assert_eq!(chunk_reply_target(&l, 5, 9), (1, 0));
    assert_eq!(chunk_reply_target(&l, 2, 0), (1, 0));
}

#[test]
fn chunk_carousel_walks_files_in_order() {
    let l = listing();
    let mut c = ChunkCarousel::new();
    let mut seen = vec![(c.file, c.chunk)];
    for _ in 0..4 {
        c.advance(&l);
        seen.push((c.file, c.chunk));
    }
    assert_eq!(seen, vec![(0, 0), (0, 1), (1, 0), (0, 0), (0, 1)]);
}

#[test]
fn chunk_bytes_cut_the_file() {
    let file: Vec<u8> = (0..1500u32).map(|i| (i % 251) as u8).collect();
    assert_eq!(chunk_bytes(&file, 512, 0), file[0..512].to_vec());
    assert_eq!(chunk_bytes(&file, 512, 1), file[512..1024].to_vec());
    assert_eq!(chunk_bytes(&file, 512, 2), file[1024..1500].to_vec());
    assert_eq!(chunk_bytes(&file, 512, 3), Vec::<u8>::new());
    assert_eq!(chunk_bytes(&file, 512, u64::MAX), Vec::<u8>::new());
}

#[test]
fn inbound_messages_call_for_actions() {
    let l = listing();
    match server_action(&Message::JoinQuery {}, &l) {
        ServerAction::Unicast(Message::JoinResponse(JoinReason::Accepted)) => {}
        other => panic!("unexpected {:?}", other),
    }
    match server_action(&Message::Ping { nonce: 7, recvs: 40 }, &l) {
        ServerAction::Pong { reply: Message::Pong { nonce: 7 }, recvs: 40 } => {}
        other => panic!("unexpected {:?}", other),
    }
    match server_action(&Message::FileChunkRequest { idx: 0, chunk: 1 }, &l) {
        ServerAction::SendChunk { idx: 0, chunk: 1 } => {}
        other => panic!("unexpected {:?}", other),
    }
    match server_action(&Message::FileListingRequest { idx: 0 }, &l) {
        ServerAction::Broadcast(Message::FileListing(f)) => assert_eq!(f.idx, 0),
        other => panic!("unexpected {:?}", other),
    }
    assert!(matches!(server_action(&Message::Announce { port: 1 }, &l), ServerAction::Ignore));
}

fn peer(n: &str) -> String {
    n.to_string()
}

#[test]
fn back_off_is_bounded_by_the_minimum() {
    let mut r = RateLimiter::new(100, 10000, 0);
    assert_eq!(r.current_rate(), 100);
    r.on_ping(&peer("c"), 0);
    for _ in 0..10 {
        r.on_packet(0);
    }
    r.on_ping(&peer("c"), 2);
    assert_eq!(r.current_rate(), 100);
}

#[test]
fn back_off_takes_ninety_percent() {
    let mut r = RateLimiter::new(10, 10000, 0);
    r.on_ping(&peer("x"), 0);
    for _ in 0..90 {
        for _ in 0..10 {
            r.on_packet(0);
        }
        r.on_ping(&peer("x"), 10);
    }
    let before = r.current_rate();
    assert_eq!(before, 10 + 5 * 90);
    for _ in 0..10 {
        r.on_packet(0);
    }
    r.on_ping(&peer("x"), 2);
    assert_eq!(r.current_rate(), before * 9 / 10);
}

#[test]
fn ramp_up_adds_five() {
    let mut r = RateLimiter::new(100, 10000, 0);
    r.on_ping(&peer("c"), 0);
    while r.current_rate() < 500 {
        r.on_ping(&peer("c"), 0);
    }
    assert_eq!(r.current_rate(), 500);
    for _ in 0..100 {
        r.on_packet(0);
    }
    r.on_ping(&peer("c"), 95);
    assert_eq!(r.current_rate(), 505);
}

#[test]
fn ramp_up_stops_at_the_maximum() {
    let mut r = RateLimiter::new(100, 103, 0);
    r.on_ping(&peer("c"), 0);
    r.on_ping(&peer("c"), 0);
    assert_eq!(r.current_rate(), 103);
}

#[test]
fn window_admits_rate_packets_then_waits() {
    let mut r = RateLimiter::new(3, 3, 1_000);
    assert_eq!(r.on_packet(1_000), 0);
    assert_eq!(r.on_packet(1_100), 0);
    assert_eq!(r.on_packet(1_200), 0);
    assert_eq!(r.on_packet(1_300), 1_000_000 - 300);
    assert_eq!(r.on_packet(1_001_000), 0);
    assert_eq!(r.on_packet(1_001_000), 0);
    assert_eq!(r.on_packet(1_001_000), 1_000_000);
    assert_eq!(r.on_packet(5_000_000), 0);
}

#[test]
fn silent_peers_are_evicted() {
    let mut r = RateLimiter::new(1, 100, 0);
    r.on_ping(&peer("gone"), 0);
    for i in 0..101u64 {
        r.on_packet(i * 2_000_000);
    }
    // the peer was dropped, so its next ping only registers it again
    r.on_ping(&peer("gone"), 1000);
    assert_eq!(r.current_rate(), 1);
    r.on_packet(300_000_000);
    r.on_ping(&peer("gone"), 1000);
    assert_eq!(r.current_rate(), 6);
}
