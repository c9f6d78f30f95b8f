use rustudps::chunk_state::{count_chunks, ChunkState};

#[test]
fn test_chunk_state() {
    let mut state = ChunkState::from_file_size(100, 10);
    state.set(0, true);
    assert!(state.get(0));
    assert!(!state.get(1));
    state.set(1, true);
    assert!(state.get(1));
}

#[test]
fn test_get_zero() {
    let mut state = ChunkState::from_file_size(100, 10);
    assert_eq!(state.get_zero(), Some(0));
    state.set(0, true);
    assert_eq!(state.get_zero(), Some(1));
    state.set(1, true);
    assert_eq!(state.get_zero(), Some(2));
    state.set(2, true);
    assert_eq!(state.get_zero(), Some(3));
    state.set(3, true);
    assert_eq!(state.get_zero(), Some(4));
    state.set(4, true);
    assert_eq!(state.get_zero(), Some(5));
    state.set(5, true);
    assert_eq!(state.get_zero(), Some(6));
    state.set(6, true);
    assert_eq!(state.get_zero(), Some(7));
    state.set(7, true);
    assert_eq!(state.get_zero(), Some(8));
    state.set(8, true);
    assert_eq!(state.get_zero(), Some(9));
    state.set(9, true);
    assert_eq!(state.get_zero(), None);
}

#[test]
fn set_then_get_and_not_first_missing() {
    let mut state = ChunkState::from_file_size(1000, 7);
    assert_eq!(state.len(), 143);
    state.set(0, true);
    state.set(100, true);
    assert!(state.get(100));
    assert_eq!(state.get_zero(), Some(1));
    state.set(1, true);
    assert_ne!(state.get_zero(), Some(1));
    state.set(100, false);
    assert!(!state.get(100));
}

#[test]
fn no_zero_iff_complete() {
    let mut state = ChunkState::from_file_size(130, 1);
    assert_eq!(state.len(), 130);
    assert!(!state.is_complete());
    for i in 0..130u64 {
        assert!(state.get_zero().is_some());
        state.set(i, true);
    }
    assert_eq!(state.get_zero(), None);
    assert!(state.is_complete());
}

#[test]
fn bitmap_word_boundaries() {
    let mut state = ChunkState::from_file_size(128, 1);
    for i in 0..64u64 {
        state.set(i, true);
    }
    assert_eq!(state.get_zero(), Some(64));
    for i in 64..127u64 {
        state.set(i, true);
    }
    assert_eq!(state.get_zero(), Some(127));
    state.set(127, true);
    assert!(state.is_complete());
}

#[test]
fn empty_file_is_complete() {
    let state = ChunkState::from_file_size(0, 512);
    assert_eq!(state.len(), 0);
    assert_eq!(state.get_zero(), None);
    assert!(state.is_complete());
}

#[test]
fn chunk_counts_round_up() {
    assert_eq!(count_chunks(1000, 512), 2);
    assert_eq!(count_chunks(300, 512), 1);
    assert_eq!(count_chunks(1024, 512), 2);
    assert_eq!(count_chunks(1025, 512), 3);
    assert_eq!(count_chunks(u64::MAX, 1), u64::MAX);
    assert_eq!(count_chunks(u64::MAX, 2), u64::MAX / 2 + 1);
}
