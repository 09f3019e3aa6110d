use anni_player::cache::{
    classify_read, plan_open, CacheEntry, ChunkEvent, DownloadAction, OpenPlan, ReadClass,
};
use anni_player::stream::{is_seekable, read_fully, ReadPoll, SeekFrom, StreamCursor, StreamError};

fn content() -> Vec<u8> {
    let mut v = Vec::new();
    let mut i: u8 = 0;
    while v.len() < 100 {
        v.push(i);
        i = i.wrapping_add(31);
    }
    v
}

#[test]
fn sequential_reads_yield_exact_content_for_many_chunk_sizes() {
    let schedules: Vec<Vec<usize>> = vec![
        vec![1],
        vec![2],
        vec![7],
        vec![100],
        vec![1000],
        vec![3, 1, 7],
        vec![99, 1, 50],
    ];
    for sizes in schedules {
        let entry = CacheEntry::open_complete(content());
        let mut cursor = StreamCursor::new();
        let out = read_fully(&mut cursor, &entry, &sizes);
        assert_eq!(out, content());
        assert_eq!(cursor.offset(), 100);
    }
}

#[test]
fn read_at_cursor_returns_bytes_present_on_disk() {
    let mut entry = CacheEntry::open_downloading();
    entry.append_chunk(&vec![9, 8, 7, 6]);
    let mut cursor = StreamCursor::new();
    match cursor.poll_read(&entry, 3) {
        ReadPoll::Data(d) => assert_eq!(d, vec![9, 8, 7]),
        _ => panic!("expected data"),
    }
    assert_eq!(cursor.offset(), 3);
    match cursor.poll_read(&entry, 10) {
        ReadPoll::Data(d) => assert_eq!(d, vec![6]),
        _ => panic!("expected data"),
    }
}

#[test]
fn read_while_downloading_at_end_is_pending_not_data() {
    let mut entry = CacheEntry::open_downloading();
    entry.append_chunk(&vec![1, 2]);
    let mut cursor = StreamCursor::new();
    match cursor.poll_read(&entry, 2) {
        ReadPoll::Data(d) => assert_eq!(d, vec![1, 2]),
        _ => panic!("expected data"),
    }
    // written_length == read_position and still downloading: the poll
    // must not produce bytes or end-of-stream.
    match cursor.poll_read(&entry, 2) {
        ReadPoll::Pending => {}
        _ => panic!("expected pending"),
    }
    assert_eq!(cursor.offset(), 2);
}

#[test]
fn end_of_stream_once_finished_and_drained_and_on_every_later_call() {
    let mut entry = CacheEntry::open_downloading();
    entry.append_chunk(&vec![5, 5, 5]);
    entry.finish();
    let mut cursor = StreamCursor::new();
    match cursor.poll_read(&entry, 8) {
        ReadPoll::Data(d) => assert_eq!(d, vec![5, 5, 5]),
        _ => panic!("expected data"),
    }
    for _ in 0..3 {
        match cursor.poll_read(&entry, 8) {
            ReadPoll::EndOfStream => {}
            _ => panic!("expected end of stream"),
        }
    }
}

#[test]
fn written_bytes_win_over_stopped_flag() {
    // The classification consults the written length before the flag: a
    // reader never sees end-of-stream while unread bytes are on disk.
    assert_eq!(classify_read(4, 0, false), ReadClass::Available);
    assert_eq!(classify_read(4, 4, false), ReadClass::EndOfStream);
    assert_eq!(classify_read(4, 4, true), ReadClass::NotReady);
    assert_eq!(classify_read(0, 0, true), ReadClass::NotReady);
}

#[test]
fn seek_then_read_starts_at_offset() {
    let entry = CacheEntry::open_complete(content());
    let mut cursor = StreamCursor::new();
    assert_eq!(cursor.seek(&entry, SeekFrom::Start(40)), Ok(40));
    match cursor.poll_read(&entry, 5) {
        ReadPoll::Data(d) => assert_eq!(d, content()[40..45].to_vec()),
        _ => panic!("expected data"),
    }
    assert_eq!(cursor.seek(&entry, SeekFrom::Current(-5)), Ok(40));
    assert_eq!(cursor.seek(&entry, SeekFrom::End(-1)), Ok(99));
    match cursor.poll_read(&entry, 5) {
        ReadPoll::Data(d) => assert_eq!(d, content()[99..].to_vec()),
        _ => panic!("expected data"),
    }
}

#[test]
fn seek_past_written_length_blocks_or_ends_instead_of_garbage() {
    let mut entry = CacheEntry::open_downloading();
    entry.append_chunk(&vec![1, 2, 3]);
    let mut cursor = StreamCursor::new();
    assert_eq!(cursor.seek(&entry, SeekFrom::Start(50)), Ok(50));
    match cursor.poll_read(&entry, 4) {
        ReadPoll::Pending => {}
        _ => panic!("expected pending"),
    }
    entry.finish();
    match cursor.poll_read(&entry, 4) {
        ReadPoll::EndOfStream => {}
        _ => panic!("expected end of stream"),
    }
}

#[test]
fn seek_to_negative_offset_is_rejected_and_cursor_stays() {
    let entry = CacheEntry::open_complete(vec![1, 2, 3]);
    let mut cursor = StreamCursor::new();
    assert_eq!(cursor.seek(&entry, SeekFrom::Start(2)), Ok(2));
    assert_eq!(
        cursor.seek(&entry, SeekFrom::Current(-7)),
        Err(StreamError::InvalidSeek)
    );
    assert_eq!(cursor.offset(), 2);
    assert_eq!(
        cursor.seek(&entry, SeekFrom::End(-100)),
        Err(StreamError::InvalidSeek)
    );
    assert_eq!(cursor.offset(), 2);
}

#[test]
fn existing_cache_file_is_served_without_a_download() {
    assert_eq!(plan_open(true), OpenPlan::UseExisting);
    assert_eq!(plan_open(false), OpenPlan::StartDownload);
    let entry = CacheEntry::open_complete(content());
    assert!(!entry.is_downloading());
    assert_eq!(entry.byte_len(), Some(100));
}

#[test]
fn fresh_download_starts_empty_and_grows_by_chunks() {
    let mut entry = CacheEntry::open_downloading();
    assert!(entry.is_downloading());
    assert_eq!(entry.byte_len(), Some(0));
    assert_eq!(
        entry.apply_download_event(&ChunkEvent::Bytes(vec![1, 2])),
        DownloadAction::Continue
    );
    assert_eq!(entry.byte_len(), Some(2));
    assert_eq!(
        entry.apply_download_event(&ChunkEvent::Interrupted),
        DownloadAction::Continue
    );
    assert_eq!(entry.byte_len(), Some(2));
    assert_eq!(
        entry.apply_download_event(&ChunkEvent::Bytes(vec![3])),
        DownloadAction::Continue
    );
    assert_eq!(
        entry.apply_download_event(&ChunkEvent::End),
        DownloadAction::Stop
    );
    assert!(!entry.is_downloading());
    assert_eq!(entry.written_length(), 3);
    let mut cursor = StreamCursor::new();
    assert_eq!(read_fully(&mut cursor, &entry, &vec![2]), vec![1, 2, 3]);
}

#[test]
fn fatal_error_abandons_download_keeping_written_bytes() {
    let mut entry = CacheEntry::open_downloading();
    entry.apply_download_event(&ChunkEvent::Bytes(vec![42, 43]));
    assert_eq!(
        entry.apply_download_event(&ChunkEvent::Failed),
        DownloadAction::Stop
    );
    assert!(!entry.is_downloading());
    let mut cursor = StreamCursor::new();
    assert_eq!(read_fully(&mut cursor, &entry, &vec![16]), vec![42, 43]);
}

#[test]
fn stream_is_always_seekable() {
    assert!(is_seekable());
}

#[test]
fn whole_download_keeps_exactly_the_delivered_chunks() {
    let mut entry = CacheEntry::open_downloading();
    let events = vec![
        ChunkEvent::Bytes(vec![1, 2]),
        ChunkEvent::Interrupted,
        ChunkEvent::Bytes(vec![3]),
        ChunkEvent::End,
        // After end-of-body the task has terminated: never applied.
        ChunkEvent::Bytes(vec![9, 9]),
    ];
    entry.run_download(&events);
    assert!(!entry.is_downloading());
    let mut cursor = StreamCursor::new();
    assert_eq!(read_fully(&mut cursor, &entry, &vec![4]), vec![1, 2, 3]);
}

#[test]
fn download_without_a_stop_event_is_still_running() {
    let mut entry = CacheEntry::open_downloading();
    entry.run_download(&vec![ChunkEvent::Bytes(vec![7])]);
    assert!(entry.is_downloading());
    assert_eq!(entry.written_length(), 1);
}

#[test]
fn failed_download_keeps_what_was_delivered_before_the_failure() {
    let mut entry = CacheEntry::open_downloading();
    entry.run_download(&vec![
        ChunkEvent::Bytes(vec![1]),
        ChunkEvent::Failed,
        ChunkEvent::Bytes(vec![2]),
    ]);
    assert!(!entry.is_downloading());
    assert_eq!(entry.written_length(), 1);
}
