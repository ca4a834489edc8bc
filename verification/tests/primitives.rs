use wellfriend_perception::temporal::{TrackBook, TrackEvent};
use wellfriend_perception::benchmarks::{fixture_levels, SyntheticDocumentFixtureKind};
use wellfriend_perception::robust::DeterministicRng;
use wellfriend_perception::text::decimal_string;
use wellfriend_perception::types::PixelFormat;

#[test]
fn generator_is_reproducible_and_in_range() {
    let mut first = DeterministicRng::new(0);
    let mut second = DeterministicRng::new(0);
    assert_eq!(first.index(10), 4);
    assert_eq!(second.index(10), 4);
    assert_eq!(first.index(10), 9);
    assert_eq!(first.index(0), 0);
    let mut rng = DeterministicRng::new(12345);
    for upper in 1..50usize {
        assert!(rng.index(upper) < upper);
    }
}

#[test]
fn pixel_format_layouts() {
    assert_eq!(PixelFormat::Gray8.channel_count(), Some(1));
    assert_eq!(PixelFormat::Bgra8.bytes_per_pixel(), Some(4));
    assert_eq!(PixelFormat::RgbF32.bytes_per_pixel(), Some(12));
    assert_eq!(PixelFormat::Yuv420.channel_count(), None);
    assert_eq!(
        PixelFormat::MultiBand { channels: 5, bytes_per_channel: 2 }.bytes_per_pixel(),
        Some(10)
    );
    assert!(PixelFormat::Rgba8.is_u8_interleaved());
    assert!(!PixelFormat::GrayF32.is_u8_interleaved());
    assert_eq!(PixelFormat::Bgr8.to_text(), "Bgr8");
    assert_eq!(
        PixelFormat::MultiBand { channels: 5, bytes_per_channel: 2 }.to_text(),
        "MultiBand { channels: 5, bytes_per_channel: 2 }"
    );
}

#[test]
fn decimal_rendering_matches_display() {
    for value in [0u64, 7, 10, 99, 100, 4096, 67108864, u64::MAX] {
        assert_eq!(decimal_string(value), value.to_string());
    }
}

#[test]
fn fixtures_are_painted_with_documented_levels() {
    let plain = fixture_levels(SyntheticDocumentFixtureKind::PlainCentered);
    assert_eq!((plain.background, plain.page, plain.distractor), (12, Some(245), None));
    let low = fixture_levels(SyntheticDocumentFixtureKind::LowContrast);
    assert_eq!((low.background, low.page, low.distractor), (90, Some(150), None));
    let busy = fixture_levels(SyntheticDocumentFixtureKind::MultipleDistractors);
    assert_eq!((busy.background, busy.page, busy.distractor), (12, Some(245), Some(190)));
    let none = fixture_levels(SyntheticDocumentFixtureKind::NoDocument);
    assert_eq!((none.background, none.page, none.distractor), (12, None, None));
}

#[test]
fn equal_seeds_draw_equal_sequences() {
    let uppers = [7usize, 0, 1, 1000, 3, 0, 64, 2];
    let mut first = DeterministicRng::new(987654321);
    let mut second = DeterministicRng::new(987654321);
    let a: Vec<usize> = uppers.iter().map(|upper| first.index(*upper)).collect();
    let b: Vec<usize> = uppers.iter().map(|upper| second.index(*upper)).collect();
    assert_eq!(a, b);
    assert_eq!(a[1], 0);
    assert_eq!(a[2], 0);
    let mut other = DeterministicRng::new(987654322);
    let c: Vec<usize> = uppers.iter().map(|upper| other.index(*upper)).collect();
    assert_ne!(a, c);
}

#[test]
fn track_book_starts_keeps_and_loses_tracks() {
    let book = TrackBook::new();
    assert_eq!(book, TrackBook { next_track_id: 0, track_id: None, history_len: 0, lost_frames: 0 });
    let first = book.step(2, 1, TrackEvent::Observed);
    assert!(first.started && !first.drop_oldest && !first.cleared);
    assert_eq!(first.book, TrackBook { next_track_id: 1, track_id: Some(1), history_len: 1, lost_frames: 0 });
    let second = first.book.step(2, 1, TrackEvent::Observed);
    assert!(!second.started && !second.drop_oldest);
    let third = second.book.step(2, 1, TrackEvent::Observed);
    assert!(third.drop_oldest);
    assert_eq!(third.book.history_len, 2);
    let miss = third.book.step(2, 1, TrackEvent::Missed);
    assert!(!miss.cleared);
    assert_eq!(miss.book.track_id, Some(1));
    assert_eq!(miss.book.lost_frames, 1);
    let lost = miss.book.step(2, 1, TrackEvent::Missed);
    assert!(lost.cleared);
    assert_eq!(lost.book, TrackBook { next_track_id: 1, track_id: None, history_len: 0, lost_frames: 2 });
    let again = lost.book.step(2, 1, TrackEvent::Observed);
    assert_eq!(again.book.track_id, Some(2));
    assert_eq!(again.book.lost_frames, 0);
    let shallow = TrackBook::new().step(0, 0, TrackEvent::Observed);
    assert!(shallow.drop_oldest);
    assert_eq!(shallow.book.history_len, 0);
}
