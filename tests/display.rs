use rustudps::hashlist::{check_entry, is_listed, unlisted_file, FileHashItem};
use rustudps::progress::{glyph, rate_text, GlyphStyle, ProgressEvent, ProgressState, RateWindow};

#[test]
fn glyphs_count_completed_chunks() {
    assert_eq!(glyph(0, 62), ('0', GlyphStyle::NotStarted));
    assert_eq!(glyph(9, 62), ('9', GlyphStyle::InProgress));
    assert_eq!(glyph(10, 62), ('a', GlyphStyle::InProgress));
    assert_eq!(glyph(35, 62), ('z', GlyphStyle::InProgress));
    assert_eq!(glyph(36, 62), ('A', GlyphStyle::InProgress));
    assert_eq!(glyph(61, 62), ('Z', GlyphStyle::InProgress));
    assert_eq!(glyph(62, 62), ('X', GlyphStyle::Complete));
    assert_eq!(glyph(3, 3), ('X', GlyphStyle::Complete));
}

#[test]
fn progress_bars_and_completion() {
    let mut p = ProgressState::new(vec![130, 2]);
    let bar: Vec<char> = p.bar(0).into_iter().map(|g| g.0).collect();
    assert_eq!(bar, vec!['0', '0', '0']);
    for c in 124..130u64 {
        assert!(!p.apply(&ProgressEvent::ChunkDownloaded(0, c, 512)));
    }
    assert!(!p.apply(&ProgressEvent::ChunkDownloaded(0, 0, 512)));
    assert!(!p.apply(&ProgressEvent::ChunkDownloaded(9, 0, 512)));
    assert!(!p.apply(&ProgressEvent::ChunkRequested(0, 5)));
    let bar: Vec<char> = p.bar(0).into_iter().map(|g| g.0).collect();
    assert_eq!(bar, vec!['1', '0', 'X']);
    assert!(!p.apply(&ProgressEvent::FileDone(1)));
    assert!(p.apply(&ProgressEvent::FileDone(0)));
}

#[test]
fn rate_over_the_last_five_seconds() {
    let mut w = RateWindow::new();
    assert_eq!(w.rate(0), None);
    assert_eq!(rate_text(None), "...stalled...");
    w.record(0, 1000);
    w.record(4_000_000, 4000);
    assert_eq!(w.rate(4_000_000), Some(1000));
    assert_eq!(w.rate(5_000_001), Some(800));
    assert_eq!(w.rate(20_000_000), Some(0));
    assert_eq!(rate_text(Some(999)), "999 B / s");
    assert_eq!(rate_text(Some(1500)), "1.5 KB / s");
}

fn item(path: &str, size: u64, fill: u8) -> FileHashItem {
    FileHashItem { path: path.to_string(), size, hash: vec![fill; 32] }
}

#[test]
fn hashlist_entries_are_checked() {
    let expected = item("a", 10, 1);
    assert!(check_entry(&expected, Some(&item("a", 10, 1)), false).is_none());
    let (e, a) = check_entry(&expected, Some(&item("a", 11, 1)), false).unwrap();
    assert!(e == expected);
    assert_eq!(a.size, 11);
    assert!(check_entry(&expected, None, true).is_none());
    let (_, missing) = check_entry(&expected, None, false).unwrap();
    assert!(missing == FileHashItem::nonexistent_empty_path());
    let listed = vec!["a".to_string(), "d/b".to_string()];
    assert!(is_listed(&listed, &"d/b".to_string()));
    assert!(!is_listed(&listed, &"c".to_string()));
    let (e, a) = unlisted_file("c", 3, vec![9; 32]);
    assert!(e == FileHashItem::nonexistent("c"));
    assert_eq!((a.path.as_str(), a.size), ("c", 3));
}
