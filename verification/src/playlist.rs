//! The playback queue: an ordered list of tracks and a cursor over it.

use vstd::prelude::*;

use crate::track::TrackIdentifier;

verus! {

/// An ordered list of tracks together with the position of the track that
/// was handed out last. A fresh playlist has no position: the first call to
/// `next_track` starts at the beginning of the list.
#[derive(Debug, Clone)]
pub struct Playlist {
    pos: Option<usize>,
    tracks: Vec<TrackIdentifier>,
}

impl Playlist {
    /// The tracks currently queued, in order.
    pub closed spec fn tracks_view(self) -> Seq<TrackIdentifier> {
        self.tracks@
    }

    /// The cursor: the index handed out by the last `next_track`, if any.
    pub closed spec fn cursor(self) -> Option<usize> {
        self.pos
    }

    /// The cursor as a value: the index handed out last, if any.
    pub fn current_index(&self) -> (r: Option<usize>)
        ensures
            r == self.cursor(),
    {
        self.pos
    }

    /// Replaces the whole queue by the one given track and clears the
    /// cursor, so that `next_track` will hand that track out next.
    pub fn set_item(&mut self, track: TrackIdentifier)
        ensures
            final(self).cursor() is None,
            final(self).tracks_view() == seq![track],
    {
        self.pos = None;
        self.tracks.clear();
        self.tracks.push(track);
        proof {
            assert(self.tracks@ =~= seq![track]);
        }
    }

    /// Advances the cursor (to the start of the queue if it was unset) and
    /// returns the track there, or `None` when the queue is exhausted.
    pub fn next_track(&mut self) -> (r: Option<TrackIdentifier>)
        requires
            old(self).cursor() matches Some(p) ==> p < usize::MAX,
        ensures
            final(self).tracks_view() == old(self).tracks_view(),
            final(self).cursor() == Some(
                match old(self).cursor() {
                    Some(p) => (p + 1) as usize,
                    None => 0usize,
                },
            ),
            r == (if final(self).cursor()->0 < old(self).tracks_view().len() {
                Some(old(self).tracks_view()[final(self).cursor()->0 as int])
            } else {
                None::<TrackIdentifier>
            }),
    {
        let next: usize = match self.pos {
            Some(p) => p + 1,
            None => 0,
        };
        self.pos = Some(next);
        if next < self.tracks.len() {
            Some(self.tracks[next])
        } else {
            None
        }
    }

    /// Appends a track at the end of the queue; the cursor stays where it
    /// was.
    pub fn push(&mut self, track: TrackIdentifier)
        ensures
            final(self).cursor() == old(self).cursor(),
            final(self).tracks_view() == old(self).tracks_view().push(track),
    {
        self.tracks.push(track);
    }
}

impl Default for Playlist {
    /// An empty playlist with an unset cursor.
    fn default() -> (p: Playlist)
        ensures
            p.cursor() is None,
            p.tracks_view() == Seq::<TrackIdentifier>::empty(),
    {
        Playlist { pos: None, tracks: Vec::new() }
    }
}

} // verus!
