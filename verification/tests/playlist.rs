use anni_player::playlist::Playlist;
use anni_player::track::TrackIdentifier;

#[test]
fn cache_path_is_decimal_components_separated_by_slashes() {
    let t = TrackIdentifier::new(123, 2, 10);
    assert_eq!(t.cache_relative_path(), b"123/2/10".to_vec());
    let zero = TrackIdentifier::new(0, 0, 0);
    assert_eq!(zero.cache_relative_path(), b"0/0/0".to_vec());
    let big = TrackIdentifier::new(u32::MAX, 255, 255);
    assert_eq!(big.cache_relative_path(), b"4294967295/255/255".to_vec());
}

#[test]
fn cache_path_is_the_same_on_every_call() {
    let t = TrackIdentifier::new(77, 1, 3);
    assert_eq!(t.cache_relative_path(), t.cache_relative_path());
}

#[test]
fn empty_playlist_has_no_next_track() {
    let mut pl = Playlist::default();
    assert_eq!(pl.next_track(), None);
    assert_eq!(pl.next_track(), None);
}

#[test]
fn set_item_replaces_queue_and_rewinds() {
    let a = TrackIdentifier::new(1, 1, 1);
    let b = TrackIdentifier::new(2, 1, 7);
    let mut pl = Playlist::default();
    pl.push(a);
    pl.push(a);
    pl.set_item(b);
    assert_eq!(pl.next_track(), Some(b));
    assert_eq!(pl.next_track(), None);
}

#[test]
fn push_appends_after_current_item() {
    let a = TrackIdentifier::new(10, 1, 2);
    let b = TrackIdentifier::new(10, 1, 3);
    let mut pl = Playlist::default();
    pl.set_item(a);
    pl.push(b);
    assert_eq!(pl.next_track(), Some(a));
    assert_eq!(pl.next_track(), Some(b));
    assert_eq!(pl.next_track(), None);
}

#[test]
fn next_track_walks_in_insertion_order() {
    let t1 = TrackIdentifier::new(5, 1, 1);
    let t2 = TrackIdentifier::new(5, 1, 2);
    let t3 = TrackIdentifier::new(5, 2, 1);
    let mut pl = Playlist::default();
    pl.push(t1);
    pl.push(t2);
    pl.push(t3);
    assert_eq!(pl.next_track(), Some(t1));
    assert_eq!(pl.next_track(), Some(t2));
    assert_eq!(pl.next_track(), Some(t3));
    assert_eq!(pl.next_track(), None);
}
