//! Track bookkeeping of the geometry tracker: track identities, history depth and lost
//! frames. The smoothed geometry itself is real-valued and kept by the caller, which
//! applies the returned step to it.

use vstd::prelude::*;

verus! {

/// Integer state of a geometry track.
#[derive(Clone, Copy, Debug, PartialEq, Eq)]
pub struct TrackBook {
    /// Identifier handed to the most recently started track.
    pub next_track_id: u64,
    /// Identifier of the active track, if any.
    pub track_id: Option<u64>,
    /// Number of smoothed quads kept in the history.
    pub history_len: usize,
    /// Consecutive frames without an accepted candidate.
    pub lost_frames: u32,
}

/// What the tracker received for one frame.
#[derive(Clone, Copy, Debug, PartialEq, Eq)]
pub enum TrackEvent {
    /// A valid candidate quad was accepted.
    Observed,
    /// No candidate was accepted.
    Missed,
}

/// The book after one frame, and what the caller does to its geometry.
#[derive(Clone, Copy, Debug, PartialEq, Eq)]
pub struct TrackStep {
    /// The updated book.
    pub book: TrackBook,
    /// A new track started: the history begins afresh before the new quad is appended.
    pub started: bool,
    /// The oldest history entry leaves after the new quad is appended.
    pub drop_oldest: bool,
    /// The track was lost: the smoothed quad and the history are discarded.
    pub cleared: bool,
}

/// The book of a tracker that has seen nothing yet.
pub open spec fn initial_book() -> TrackBook {
    TrackBook { next_track_id: 0, track_id: None, history_len: 0, lost_frames: 0 }
}

/// One frame of bookkeeping with history depth `depth` and loss limit `max_lost`.
///
/// An observation starts a track (with the next identifier and an empty history) when none
/// is active, appends to the history, drops its oldest entry when it exceeds `depth`, and
/// resets the loss count. A miss counts one more lost frame, and once the count exceeds
/// `max_lost` ends the track and empties the history.
pub open spec fn track_step(book: TrackBook, depth: usize, max_lost: u32, event: TrackEvent) -> TrackStep {
    match event {
        TrackEvent::Observed => {
            let started = book.track_id is None;
            let next_id = if started {
                book.next_track_id + 1
            } else {
                book.next_track_id as int
            };
            let kept = if started {
                0
            } else {
                book.history_len as int
            };
            let drop_oldest = kept + 1 > depth;
            TrackStep {
                book: TrackBook {
                    next_track_id: next_id as u64,
                    track_id: if started {
                        Some(next_id as u64)
                    } else {
                        book.track_id
                    },
                    history_len: (if drop_oldest {
                        kept
                    } else {
                        kept + 1
                    }) as usize,
                    lost_frames: 0,
                },
                started,
                drop_oldest,
                cleared: false,
            }
        },
        TrackEvent::Missed => {
            let lost = book.lost_frames + 1;
            let cleared = lost > max_lost;
            TrackStep {
                book: TrackBook {
                    next_track_id: book.next_track_id,
                    track_id: if cleared {
                        None
                    } else {
                        book.track_id
                    },
                    history_len: if cleared {
                        0
                    } else {
                        book.history_len
                    },
                    lost_frames: lost as u32,
                },
                started: false,
                drop_oldest: false,
                cleared,
            }
        },
    }
}

/// The step `track_step` describes is computable without overflow.
pub open spec fn can_step(book: TrackBook, event: TrackEvent) -> bool {
    match event {
        TrackEvent::Observed => (book.track_id is None ==> book.next_track_id < u64::MAX)
            && book.history_len < usize::MAX,
        TrackEvent::Missed => book.lost_frames < u32::MAX,
    }
}

/// Identifiers in the book are consistent: an active track's identifier is one that was
/// handed out, and identifiers start at one.
pub open spec fn ids_consistent(book: TrackBook) -> bool {
    book.track_id matches Some(id) ==> 1 <= id <= book.next_track_id
}

impl TrackBook {
    /// The book of a tracker that has seen nothing yet.
    pub fn new() -> (book: TrackBook)
        ensures
            book == initial_book(),
    {
        TrackBook { next_track_id: 0, track_id: None, history_len: 0, lost_frames: 0 }
    }

    /// Advances the book by one frame.
    pub fn step(self, depth: usize, max_lost: u32, event: TrackEvent) -> (step: TrackStep)
        requires
            can_step(self, event),
        ensures
            step == track_step(self, depth, max_lost, event),
    {
        match event {
            TrackEvent::Observed => {
                let started = self.track_id.is_none();
                let next_id = if started {
                    self.next_track_id + 1
                } else {
                    self.next_track_id
                };
                let kept: usize = if started {
                    0
                } else {
                    self.history_len
                };
                let drop_oldest = kept + 1 > depth;
                let history_len: usize = if drop_oldest {
                    kept
                } else {
                    kept + 1
                };
                TrackStep {
                    book: TrackBook {
                        next_track_id: next_id,
                        track_id: if started {
                            Some(next_id)
                        } else {
                            self.track_id
                        },
                        history_len,
                        lost_frames: 0,
                    },
                    started,
                    drop_oldest,
                    cleared: false,
                }
            },
            TrackEvent::Missed => {
                let lost = self.lost_frames + 1;
                let cleared = lost > max_lost;
                TrackStep {
                    book: TrackBook {
                        next_track_id: self.next_track_id,
                        track_id: if cleared {
                            None
                        } else {
                            self.track_id
                        },
                        history_len: if cleared {
                            0
                        } else {
                            self.history_len
                        },
                        lost_frames: lost,
                    },
                    started: false,
                    drop_oldest: false,
                    cleared,
                }
            },
        }
    }
}

/// The history never grows past its depth: a book within the depth stays within it.
pub proof fn lemma_history_within_depth(book: TrackBook, depth: usize, max_lost: u32, event: TrackEvent)
    requires
        can_step(book, event),
        book.history_len <= depth,
    ensures
        track_step(book, depth, max_lost, event).book.history_len <= depth,
{
}

/// The history fills up to its depth and then slides: an observation on an active track
/// whose history is below the depth appends without dropping anything (the history grows
/// by one); at the depth it drops the oldest entry (the length stays at the depth); a new
/// track starts with one entry, or none when the depth is zero.
pub proof fn lemma_history_fills_to_depth(book: TrackBook, depth: usize, max_lost: u32)
    requires
        can_step(book, TrackEvent::Observed),
    ensures
        ({
            let step = track_step(book, depth, max_lost, TrackEvent::Observed);
            &&& book.track_id is Some && book.history_len < depth ==> !step.drop_oldest
                && step.book.history_len == book.history_len + 1
            &&& book.track_id is Some && book.history_len >= depth ==> step.drop_oldest
                && step.book.history_len == book.history_len
            &&& book.track_id is None && depth >= 1 ==> !step.drop_oldest && step.book.history_len == 1
            &&& book.track_id is None && depth == 0 ==> step.drop_oldest && step.book.history_len == 0
        }),
{
}

/// Identifiers are never reused: the counter never decreases, a new track takes a fresh
/// identifier above every earlier one, and consistent books stay consistent.
pub proof fn lemma_track_ids_fresh(book: TrackBook, depth: usize, max_lost: u32, event: TrackEvent)
    requires
        can_step(book, event),
        ids_consistent(book),
    ensures
        track_step(book, depth, max_lost, event).book.next_track_id >= book.next_track_id,
        track_step(book, depth, max_lost, event).started ==> track_step(book, depth, max_lost, event).book.track_id
            == Some((book.next_track_id + 1) as u64),
        ids_consistent(track_step(book, depth, max_lost, event).book),
        ids_consistent(initial_book()),
{
}

/// An observation keeps a track active and resets the loss count; a track that was active
/// keeps its identifier.
pub proof fn lemma_observation_keeps_track(book: TrackBook, depth: usize, max_lost: u32)
    requires
        can_step(book, TrackEvent::Observed),
    ensures
        track_step(book, depth, max_lost, TrackEvent::Observed).book.track_id is Some,
        track_step(book, depth, max_lost, TrackEvent::Observed).book.lost_frames == 0,
        book.track_id is Some ==> track_step(book, depth, max_lost, TrackEvent::Observed).book.track_id
            == book.track_id,
{
}

/// A track survives exactly `max_lost` consecutive misses: the next miss ends it and
/// empties its history, while earlier misses keep it.
pub proof fn lemma_loss_limit(book: TrackBook, depth: usize, max_lost: u32)
    requires
        can_step(book, TrackEvent::Missed),
    ensures
        book.lost_frames + 1 > max_lost ==> {
            let next = track_step(book, depth, max_lost, TrackEvent::Missed).book;
            next.track_id is None && next.history_len == 0
        },
        book.lost_frames + 1 <= max_lost ==> track_step(book, depth, max_lost, TrackEvent::Missed).book.track_id
            == book.track_id && track_step(book, depth, max_lost, TrackEvent::Missed).book.history_len
            == book.history_len,
        track_step(book, depth, max_lost, TrackEvent::Missed).book.lost_frames == book.lost_frames + 1,
        track_step(book, depth, max_lost, TrackEvent::Missed).book.next_track_id == book.next_track_id,
        !track_step(book, depth, max_lost, TrackEvent::Missed).started,
        !track_step(book, depth, max_lost, TrackEvent::Missed).drop_oldest,
        track_step(book, depth, max_lost, TrackEvent::Missed).cleared == (book.lost_frames + 1 > max_lost),
{
}

} // verus!
