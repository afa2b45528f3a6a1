use audio_player::player::{
    is_stale, mix, shuffle, song_names, Command, SinkAction, SinkState, Status, StatusMessage, MESSAGE_SECS,
    RESTART_SECS, SEEK_STEP_SECS,
};
use audio_player::scroll_position::Scrollable;
use audio_player::song::TestCase;
use audio_player::span::{Span, MAX_NANOS, NANOS_PER_SEC};
use tinyrand::{Rand, Seeded, Wyrand};

fn playing(length: usize, position: usize, scrollbar_position: usize) -> Status {
    let mut status = Status::new(length, 7);
    status.position = position;
    status.scrollbar_position = scrollbar_position;
    status
}

fn sink_at(secs: u64, paused: bool) -> SinkState {
    SinkState { paused, position: Span::from_secs(secs) }
}

#[test]
fn new_status_waits_for_a_shuffle() {
    let status = Status::new(8, 1);
    assert!(status.go_next);
    assert_eq!(status.length, 8);
    assert_eq!(status.position, 8);
    assert_eq!(status.scrollbar_position, 0);
    assert!(status.messages.is_empty());
    assert!(!status.stop);
    assert!(!status.was_paused);
}

#[test]
fn next_advances_and_skips() {
    let mut status = playing(8, 3, 0);
    let actions = Command::Next.handle(&sink_at(10, false), &mut status);
    assert_eq!(actions, vec![SinkAction::SkipOne]);
    assert_eq!(status.position, 4);
    assert!(!status.go_next);
    assert_eq!(status.scrollbar_position, 0);
}

#[test]
fn previous_wraps_around() {
    let mut status = playing(8, 0, 5);
    let actions = Command::Previous.handle(&sink_at(10, false), &mut status);
    assert_eq!(actions, vec![SinkAction::SkipOne]);
    assert_eq!(status.position, 7);
    assert!(!status.go_next);
    let mut status = playing(8, 4, 5);
    let _ = Command::Previous.handle(&sink_at(10, false), &mut status);
    assert_eq!(status.position, 3);
}

#[test]
fn previous_then_next_comes_back() {
    for position in 1..8 {
        let mut status = playing(8, position, 0);
        let _ = Command::Previous.handle(&sink_at(10, false), &mut status);
        let _ = Command::Next.handle(&sink_at(0, false), &mut status);
        assert_eq!(status.position, position);
    }
    let mut status = playing(8, 0, 1);
    let _ = Command::Previous.handle(&sink_at(10, false), &mut status);
    assert_eq!(status.position, 7);
    let _ = Command::Next.handle(&sink_at(0, false), &mut status);
    assert_eq!(status.position, 8);
    assert_eq!(status.position % status.length, 0);
}

#[test]
fn scroll_cursor_follows_the_position() {
    let mut status = playing(8, 3, 3);
    let _ = Command::Next.handle(&sink_at(10, false), &mut status);
    assert_eq!((status.position, status.scrollbar_position), (4, 4));
    let _ = Command::Previous.handle(&sink_at(10, false), &mut status);
    assert_eq!((status.position, status.scrollbar_position), (3, 3));
    let _ = Command::SeekLeft(Span::from_secs(5)).handle(&sink_at(1, false), &mut status);
    assert_eq!((status.position, status.scrollbar_position), (2, 2));
}

#[test]
fn scroll_cursor_stays_when_it_was_moved() {
    let mut status = playing(8, 3, 6);
    let _ = Command::Next.handle(&sink_at(10, false), &mut status);
    assert_eq!((status.position, status.scrollbar_position), (4, 6));
    let _ = Command::Previous.handle(&sink_at(10, false), &mut status);
    assert_eq!((status.position, status.scrollbar_position), (3, 6));
    let _ = Command::PlaySelected.handle(&sink_at(10, false), &mut status);
    assert_eq!((status.position, status.scrollbar_position), (6, 6));
}

#[test]
fn seek_left_near_start_is_previous() {
    let mut by_seek = playing(8, 3, 3);
    let mut by_previous = playing(8, 3, 3);
    let sink = sink_at(1, false);
    let seek_actions = Command::SeekLeft(Span::from_secs(5)).handle(&sink, &mut by_seek);
    let previous_actions = Command::Previous.handle(&sink, &mut by_previous);
    assert_eq!(seek_actions, previous_actions);
    assert_eq!(seek_actions, vec![SinkAction::SkipOne]);
    assert_eq!(by_seek.position, by_previous.position);
    assert_eq!(by_seek.position, 2);
    assert_eq!(by_seek.scrollbar_position, by_previous.scrollbar_position);
    assert_eq!(by_seek.go_next, by_previous.go_next);
    assert_eq!(by_seek.stop, by_previous.stop);
    assert_eq!(by_seek.was_paused, by_previous.was_paused);
    assert_eq!(RESTART_SECS, 2);
}

#[test]
fn seeks_move_in_the_song() {
    let mut status = playing(8, 3, 3);
    let actions = Command::SeekLeft(Span::from_secs(5)).handle(&sink_at(2, false), &mut status);
    assert_eq!(actions, vec![SinkAction::Seek(Span::zero())]);
    assert_eq!(status.position, 3);
    assert!(status.go_next);
    let actions = Command::SeekLeft(Span::from_secs(5)).handle(&sink_at(30, false), &mut status);
    assert_eq!(actions, vec![SinkAction::Seek(Span::from_secs(25))]);
    let actions = Command::SeekRight(Span::from_secs(5)).handle(&sink_at(30, false), &mut status);
    assert_eq!(actions, vec![SinkAction::Seek(Span::from_secs(35))]);
    let end = SinkState { paused: false, position: Span::new(u64::MAX, 999_999_999) };
    let actions = Command::SeekRight(Span::from_secs(5)).handle(&end, &mut status);
    assert_eq!(actions, vec![SinkAction::Seek(Span::new(u64::MAX, 999_999_999))]);
    let actions = Command::SeekTo(Span::from_secs(12)).handle(&sink_at(30, false), &mut status);
    assert_eq!(actions, vec![SinkAction::Seek(Span::from_secs(12))]);
    assert_eq!(status.position, 3);
    assert_eq!(SEEK_STEP_SECS, 5);
}

#[test]
fn pause_and_play() {
    let mut status = playing(8, 3, 3);
    let sink = sink_at(10, false);
    assert_eq!(Command::ForcePause.handle(&sink, &mut status), vec![SinkAction::Pause]);
    assert!(!status.was_paused);
    assert_eq!(Command::RestorePlayback.handle(&sink, &mut status), vec![SinkAction::Play]);
    assert_eq!(Command::Pause.handle(&sink, &mut status), vec![SinkAction::Pause]);
    assert!(status.was_paused);
    assert_eq!(Command::RestorePlayback.handle(&sink, &mut status), vec![]);
    assert_eq!(Command::Play.handle(&sink, &mut status), vec![SinkAction::Play]);
    assert!(!status.was_paused);
    assert_eq!(Command::PlayPause.handle(&sink_at(10, false), &mut status), vec![SinkAction::Pause]);
    assert!(status.was_paused);
    assert_eq!(Command::PlayPause.handle(&sink_at(10, true), &mut status), vec![SinkAction::Play]);
    assert!(!status.was_paused);
}

#[test]
fn play_selected_goes_to_the_cursor() {
    let mut status = playing(8, 3, 6);
    status.was_paused = true;
    let actions = Command::PlaySelected.handle(&sink_at(10, true), &mut status);
    assert_eq!(actions, vec![SinkAction::SkipOne, SinkAction::Play]);
    assert_eq!(status.position, 6);
    assert!(!status.go_next);
    assert!(!status.was_paused);
}

#[test]
fn quit_stops() {
    let mut status = playing(8, 3, 6);
    let actions = Command::Quit.handle(&sink_at(10, false), &mut status);
    assert_eq!(actions, vec![SinkAction::SkipOne]);
    assert!(status.stop);
    assert_eq!(status.position, 3);
}

#[test]
fn scrolling_wraps_around() {
    let mut status = playing(8, 3, 7);
    let sink = sink_at(10, false);
    assert_eq!(Command::ScrollDown.handle(&sink, &mut status), vec![]);
    assert_eq!(status.scrollbar_position, 0);
    let _ = Command::ScrollUp.handle(&sink, &mut status);
    assert_eq!(status.scrollbar_position, 7);
    let _ = Command::ScrollUp.handle(&sink, &mut status);
    assert_eq!(status.scrollbar_position, 6);
    let _ = Command::ScrollDown.handle(&sink, &mut status);
    assert_eq!(status.scrollbar_position, 7);
    let _ = Command::ResetScroll.handle(&sink, &mut status);
    assert_eq!(status.scrollbar_position, 3);
    assert_eq!(status.position, 3);
}

#[test]
fn scrollable_steps() {
    assert_eq!(0usize.previous(5), 4);
    assert_eq!(3usize.previous(5), 2);
    assert_eq!(4usize.next(5), 0);
    assert_eq!(2usize.next(5), 3);
    assert_eq!(0usize.next(1), 0);
    assert_eq!(0usize.previous(1), 0);
}

#[test]
fn messages_are_put_first() {
    let mut status = playing(8, 3, 3);
    let sink = sink_at(10, false);
    let first = StatusMessage::new("first".to_string(), Span::from_secs(100));
    let second = StatusMessage::new("second".to_string(), Span::from_secs(50));
    assert_eq!(Command::DisplayMessage(first).handle(&sink, &mut status), vec![]);
    let _ = Command::DisplayMessage(second).handle(&sink, &mut status);
    assert_eq!(status.messages.len(), 2);
    assert_eq!(status.messages[0].message, "second");
    assert_eq!(status.messages[1].message, "first");
}

#[test]
fn expired_messages_leave_from_the_front() {
    let mut status = playing(8, 3, 3);
    status.messages = vec![
        StatusMessage::new("gone".to_string(), Span::from_secs(10)),
        StatusMessage::new("shown".to_string(), Span::from_secs(30)),
        StatusMessage::new("old".to_string(), Span::from_secs(5)),
    ];
    assert_eq!(status.current_message(Span::from_secs(10)), "gone");
    assert_eq!(status.messages.len(), 3);
    assert_eq!(status.current_message(Span::from_secs(20)), "shown");
    assert_eq!(status.messages.len(), 2);
    assert_eq!(status.messages[1].message, "old");
    assert_eq!(status.current_message(Span::from_secs(31)), "");
    assert!(status.messages.is_empty());
    assert_eq!(status.current_message(Span::from_secs(31)), "");
}

#[test]
fn message_times() {
    let made = StatusMessage::new("text".to_string(), Span::from_secs(3));
    assert_eq!(made.message, "text");
    assert_eq!(made.max_time, Span::from_secs(3));
    let lasting = StatusMessage::lasting("text".to_string(), Span::from_secs(100), Span::from_secs(7));
    assert_eq!(lasting.max_time, Span::from_secs(107));
    let longest = Span::new(u64::MAX, 999_999_999);
    let capped = StatusMessage::lasting("text".to_string(), longest, Span::from_secs(7));
    assert_eq!(capped.max_time, longest);
    let empty = StatusMessage::default();
    assert_eq!(empty.message, "");
    assert_eq!(empty.max_time, Span::zero());

    let before = std::time::SystemTime::now().duration_since(std::time::UNIX_EPOCH).unwrap().as_secs();
    let timed = StatusMessage::with_duration("text".to_string(), Span::from_secs(60));
    assert_eq!(timed.message, "text");
    assert!(timed.max_time.as_secs() >= before + 60);
    assert!(timed.max_time.as_secs() <= before + 120);
    let five = StatusMessage::five_seconds("five".to_string());
    assert_eq!(five.message, "five");
    assert!(five.max_time.as_secs() >= before + 5);
    assert!(five.max_time.as_secs() <= before + 65);
    let infinite = StatusMessage::infinite("ever".to_string());
    assert_eq!(infinite.message, "ever");
    assert!(infinite.max_time.as_secs() >= before + 365 * 86400);
    assert_eq!(MESSAGE_SECS, 5);
}

#[test]
fn failed_seek_is_reported() {
    let mut status = playing(8, 3, 3);
    Command::try_seek(Ok(()), &mut status);
    assert!(status.messages.is_empty());
    Command::try_seek(Err("NotSupported".to_string()), &mut status);
    assert_eq!(status.messages.len(), 1);
    assert_eq!(status.messages[0].message, "Seek failed: NotSupported");
    assert_eq!(status.position, 3);
    assert!(!status.stop);
    status.report_seek_failure("late", Span::from_secs(100));
    assert_eq!(status.messages.len(), 2);
    assert_eq!(status.messages[0].message, "Seek failed: late");
    assert_eq!(status.messages[0].max_time, Span::from_secs(105));
}

#[test]
fn track_start_and_end() {
    let mut status = playing(8, 3, 3);
    status.go_next = false;
    assert_eq!(status.start_track(), Some(4));
    assert!(status.go_next);
    let actions = status.end_track(&sink_at(0, false));
    assert_eq!(actions, vec![SinkAction::SkipOne]);
    assert_eq!(status.position, 4);
    assert!(!status.go_next);
    let actions = status.end_track(&sink_at(0, false));
    assert_eq!(actions, vec![]);
    assert_eq!(status.position, 4);

    let mut last = playing(8, 7, 7);
    assert_eq!(last.start_track(), None);
    let _ = last.end_track(&sink_at(0, false));
    assert_eq!(last.position, 8);
    assert_eq!(last.scrollbar_position, 8);
}

#[test]
fn shuffle_keeps_the_songs() {
    let names: Vec<String> = (0..50).map(|i| format!("{i}")).collect();
    let mut queue: Vec<TestCase> = names.iter().map(|name| TestCase::from(name.as_str())).collect();
    let mut rng = Wyrand::seed(42);
    shuffle(&mut queue, &mut rng);
    let mut after: Vec<&str> = queue.iter().map(|x| x.name).collect();
    let before: Vec<&str> = names.iter().map(|x| x.as_str()).collect();
    assert_ne!(after, before);
    after.sort();
    let mut sorted = before.clone();
    sorted.sort();
    assert_eq!(after, sorted);
}

#[test]
fn shuffle_only_behind_the_queue() {
    let names = ["a", "b", "a", "c", "d", "e", "f", "g"];
    let mut queue: Vec<TestCase> = names.iter().map(|name| TestCase::from(*name)).collect();
    let mut status = playing(8, 3, 5);
    assert!(status.shuffle_if_needed(&mut queue));
    let after: Vec<&str> = queue.iter().map(|x| x.name).collect();
    assert_eq!(after, names);
    assert_eq!((status.position, status.scrollbar_position), (3, 5));

    let mut status = playing(8, 8, 8);
    assert!(status.shuffle_if_needed(&mut queue));
    assert_eq!((status.position, status.scrollbar_position), (0, 0));
    let mut after: Vec<&str> = queue.iter().map(|x| x.name).collect();
    let places: Vec<usize> = (0..8).filter(|i| after[*i] == "a").collect();
    assert_eq!(places.len(), 2);
    assert!(places[1] - places[0] >= 3);
    after.sort();
    assert_eq!(after, vec!["a", "a", "b", "c", "d", "e", "f", "g"]);

    let mut single: Vec<TestCase> = vec![TestCase::from("only")];
    let mut status = Status::new(1, 3);
    assert!(status.shuffle_if_needed(&mut single));
    assert_eq!(status.position, 0);
    assert_eq!(single[0].name, "only");
}

#[test]
fn snapshot_shows_the_state() {
    let queue: Vec<TestCase> = ["x", "y"].iter().map(|name| TestCase::from(*name)).collect();
    let names = song_names(&queue);
    assert_eq!(names, vec!["x".to_string(), "y".to_string()]);
    let mut status = playing(2, 1, 0);
    status.messages = vec![StatusMessage::new("hello".to_string(), Span::from_secs(30))];
    let shown = status.snapshot(names, &sink_at(12, true), Span::from_secs(200), Span::from_secs(20));
    assert_eq!(shown.song_names, vec!["x".to_string(), "y".to_string()]);
    assert_eq!(shown.position, 1);
    assert_eq!(shown.scrollbar_position, 0);
    assert_eq!(shown.time, Span::from_secs(12));
    assert_eq!(shown.total_time, Span::from_secs(200));
    assert!(shown.paused);
    assert_eq!(shown.message, "hello");
}

#[test]
fn stale_after_one_second() {
    assert!(!is_stale(Span::from_secs(10), Span::from_secs(11)));
    assert!(is_stale(Span::from_secs(10), Span::new(11, 1)));
    assert!(is_stale(Span::from_secs(12), Span::from_secs(10)));
    assert!(is_stale(Span::new(u64::MAX, 999_999_999), Span::from_secs(10)));
}

#[test]
fn span_arithmetic() {
    assert_eq!(NANOS_PER_SEC, 1_000_000_000);
    assert_eq!(Span::from_secs(2).nanos, 2_000_000_000);
    assert_eq!(Span::new(1, 500).nanos, 1_000_000_500);
    assert_eq!(Span::new(u64::MAX, u32::MAX).nanos, MAX_NANOS);
    assert_eq!(Span::new(3, 7).as_secs(), 3);
    assert_eq!(Span::new(3, 7).subsec_nanos(), 7);
    assert_eq!(Span::from_secs(3).saturating_add(Span::from_secs(4)), Span::from_secs(7));
    assert_eq!(Span::from_secs(3).saturating_sub(Span::from_secs(4)), Span::zero());
    assert_eq!(Span::from_secs(9).saturating_sub(Span::from_secs(4)), Span::from_secs(5));
    assert_eq!(Span::from_secs(3).abs_diff(Span::from_secs(4)), Span::from_secs(1));
    assert!(Span::from_secs(3).is_less_than(&Span::from_secs(4)));
    assert!(!Span::from_secs(4).is_less_than(&Span::from_secs(4)));
}

#[test]
fn mix_follows_the_draws() {
    let mut queue = vec!["a", "b", "c", "d"];
    // "d" changes places with "a", then "c" with "d", then "b" with "c"
    mix(&mut queue, &vec![0, 0, 0]);
    assert_eq!(queue, vec!["b", "c", "d", "a"]);

    let mut queue = vec!["a", "b", "c", "d"];
    // every song is drawn for itself: nothing moves
    mix(&mut queue, &vec![3, 2, 1]);
    assert_eq!(queue, vec!["a", "b", "c", "d"]);

    let mut queue = vec!["a", "b", "c", "d"];
    mix(&mut queue, &vec![1, 2, 0]);
    assert_eq!(queue, vec!["d", "a", "c", "b"]);

    let mut single = vec!["a"];
    mix(&mut single, &vec![]);
    assert_eq!(single, vec!["a"]);
    let mut empty: Vec<&str> = vec![];
    mix(&mut empty, &vec![]);
    assert!(empty.is_empty());
}

#[test]
fn shuffle_is_a_mix_by_the_draws_of_the_generator() {
    let mut queue: Vec<usize> = (0..20).collect();
    let mut rng = Wyrand::seed(9);
    shuffle(&mut queue, &mut rng);
    let mut again = Wyrand::seed(9);
    let draws: Vec<usize> = (1..20).rev().map(|i| again.next_lim_usize(i + 1)).collect();
    let mut mixed: Vec<usize> = (0..20).collect();
    mix(&mut mixed, &draws);
    assert_eq!(queue, mixed);
}
