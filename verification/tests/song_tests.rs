use audio_player::queue::{check_double_songs, get_double_songs, MAX_ROUNDS};
use audio_player::song::{get_real_name, Compiled, File, Song, TestCase};
use audio_player::text::{find_first, find_last, same_text};

fn check<const N: usize>(a: &mut [&str; N], b: &[&str; N]) {
    let mut songs: Vec<TestCase> = a.iter().map(|name| TestCase::from(*name)).collect();
    let _ = check_double_songs(&mut songs);
    let paths: Vec<_> = songs.iter().map(|x| x.name).collect();
    assert_eq!(&paths, b);
}

fn distance_is_kept(names: &[&str], name: &str, distance: usize) -> bool {
    let places: Vec<usize> = (0..names.len()).filter(|i| names[*i] == name).collect();
    places.windows(2).all(|pair| pair[1] - pair[0] >= distance)
}

#[test]
fn real_name() {
    assert_eq!(get_real_name("test/00_a.mp3"), Some("a"));
    assert_eq!(get_real_name("test/a/b/00_c.mp3"), Some("c"));
    assert_eq!(get_real_name("test/00_a.test.mp3"), Some("a.test"));
    assert_eq!(get_real_name("test/00_a_test.mp3"), Some("a_test"));
    assert_eq!(get_real_name("00_test.mp3"), Some("test"));

    assert_eq!(get_real_name("test/00.mp3"), None);
    assert_eq!(get_real_name("test/test.mp3"), None);
    assert_eq!(get_real_name("test.mp3"), None);
}

#[test]
fn song_real_name() {
    assert_eq!(Compiled::new("test/00_a.mp3").get_real_name(), Some("a"));
    assert_eq!(Compiled::new("test/a/b/00_c.mp3").get_real_name(), Some("c"));
    assert_eq!(Compiled::new("test/00_a.test.mp3").get_real_name(), Some("a.test"));
    assert_eq!(Compiled::new("test/00_a_test.mp3").get_real_name(), Some("a_test"));

    assert_eq!(Compiled::new("test/00.mp3").get_real_name(), None);
    assert_eq!(Compiled::new("test/test.mp3").get_real_name(), None);
    assert_eq!(Compiled::new("test.mp3").get_real_name(), None);
}

#[test]
fn no_double_songs() {
    let a = &mut ["a", "b", "c", "d", "e"];
    let b = &["a", "b", "c", "d", "e"];
    // The songs should not move (there are no double songs)
    check(a, b);
}

#[test]
fn double_songs() {
    let a = &mut ["a", "b", "a", "c", "d", "e", "f", "g"];
    let b = &["a", "b", "c", "a", "d", "e", "f", "g"];
    // The double songs (the two "a") should be at a distance of 3
    // (length / number of doubles * minimum threshold i.e. 8 / 2 * 0.75)
    // i.e. we allow 4 ± 25% = 4 ± 1 = 3/4/5
    check(a, b);
}

#[test]
fn songs_already_far() {
    let a = &mut ["a", "b", "c", "d", "e", "a", "f", "g"];
    let b = &["a", "b", "c", "d", "e", "a", "f", "g"];
    // The songs should not move
    check(a, b);
}

#[test]
fn songs_at_end() {
    let a = &mut ["a", "b", "c", "d", "e", "f", "g", "g"];
    let b = &["g", "b", "c", "d", "e", "f", "g", "a"];
    // The double song ("g") should be inverted with a previous song ("a")
    check(a, b);

    let a = &mut ["a", "b", "c", "d", "e", "d", "f", "g"];
    let b = &["d", "b", "c", "d", "e", "a", "f", "g"];
    // The double song ("d") should be inverted with a previous song ("a")
    check(a, b);
}

#[test]
fn real_name_edge_cases() {
    assert_eq!(get_real_name(""), None);
    assert_eq!(get_real_name("_"), Some(""));
    assert_eq!(get_real_name("a/b_c/d.mp3"), None);
    assert_eq!(get_real_name("a.b/c_d"), Some("d"));
    assert_eq!(get_real_name("dir/01_x_y.tar.gz"), Some("x_y.tar"));
    assert_eq!(get_real_name("01_é.mp3"), Some("é"));
    assert_eq!(get_real_name("é/ü_ß.ö"), Some("ß"));
    assert_eq!(get_real_name("x/"), None);
    assert_eq!(get_real_name("x/.mp3"), None);
    assert_eq!(get_real_name("x/_.mp3"), Some(""));
}

#[test]
fn text_search() {
    assert_eq!(find_first("a_b_c", '_'), 1);
    assert_eq!(find_first("abc", '_'), 3);
    assert_eq!(find_first("", '_'), 0);
    assert_eq!(find_last("a/b/c", '/'), Some(3));
    assert_eq!(find_last("abc", '/'), None);
    assert_eq!(find_last("é/ü", '/'), Some(1));
    assert!(same_text("abc", "abc"));
    assert!(same_text("", ""));
    assert!(!same_text("abc", "abd"));
    assert!(!same_text("abc", "ab"));
    assert!(same_text("é", "é"));
}

#[test]
fn song_paths_and_names() {
    let song = TestCase { name: "test" };
    assert_eq!(song.get_real_name(), Some("test"));
    assert_eq!(song.get_path(), "test");
    let compiled = Compiled::new("dir/03_name.mp3");
    assert_eq!(compiled.get_path(), "dir/03_name.mp3");
    assert!(compiled.data.is_empty());
    let file = File { path: "dir/04_other.mp3" };
    assert_eq!(file.get_path(), "dir/04_other.mp3");
    assert_eq!(file.get_real_name(), Some("other"));
}

#[test]
fn double_songs_are_counted() {
    let queue: Vec<TestCase> = ["a", "a", "b", "c"].iter().map(|name| TestCase::from(*name)).collect();
    assert_eq!(get_double_songs(&queue), vec![("a", 2)]);

    let queue: Vec<TestCase> =
        ["x", "b", "a", "b", "a", "b", "c"].iter().map(|name| TestCase::from(*name)).collect();
    assert_eq!(get_double_songs(&queue), vec![("b", 3), ("a", 2)]);

    let queue: Vec<Compiled> =
        ["1_a.mp3", "b.mp3", "2_a.mp3", "b.mp3"].iter().map(|path| Compiled::new(path)).collect();
    assert_eq!(get_double_songs(&queue), vec![("a", 2)]);

    let queue: Vec<TestCase> = Vec::new();
    assert!(get_double_songs(&queue).is_empty());
}

#[test]
fn double_songs_are_moved_apart() {
    let a = &mut ["a", "a", "b", "c", "d", "e"];
    let b = &["a", "b", "a", "c", "d", "e"];
    check(a, b);
}

#[test]
fn songs_without_real_name_are_not_grouped() {
    let mut songs: Vec<Compiled> =
        ["a", "b", "a", "c", "d", "e", "f"].iter().map(|path| Compiled::new(path)).collect();
    assert!(check_double_songs(&mut songs));
    let paths: Vec<_> = songs.iter().map(|x| x.path).collect();
    assert_eq!(paths, vec!["a", "b", "a", "c", "d", "e", "f"]);
}

#[test]
fn short_queues_are_kept() {
    check(&mut [], &[]);
    check(&mut ["a"], &["a"]);
    check(&mut ["a", "a"], &["a", "a"]);
    check(&mut ["a", "a", "a"], &["a", "a", "a"]);
    check(&mut ["a", "a", "b", "b"], &["a", "a", "b", "b"]);
}

#[test]
fn repaired_queue_keeps_the_distance() {
    let names = ["a", "a", "a", "b", "b", "c", "d", "e", "f", "g", "h", "i", "j", "k", "l", "m"];
    let mut songs: Vec<TestCase> = names.iter().map(|name| TestCase::from(*name)).collect();
    let settled = check_double_songs(&mut songs);
    assert!(settled);
    let after: Vec<&str> = songs.iter().map(|x| x.name).collect();
    // 16 songs: three "a" keep 16 * 3 / 12 = 4 places, two "b" keep 16 * 3 / 8 = 6 places
    assert!(distance_is_kept(&after, "a", 4));
    assert!(distance_is_kept(&after, "b", 6));
    let mut sorted = after.clone();
    sorted.sort();
    let mut expected = names.to_vec();
    expected.sort();
    assert_eq!(sorted, expected);
}

#[test]
fn valid_queue_is_not_changed_again() {
    let names = ["a", "b", "a", "c", "d", "e", "f", "g"];
    let mut songs: Vec<TestCase> = names.iter().map(|name| TestCase::from(*name)).collect();
    assert!(check_double_songs(&mut songs));
    let once: Vec<&str> = songs.iter().map(|x| x.name).collect();
    assert!(check_double_songs(&mut songs));
    let twice: Vec<&str> = songs.iter().map(|x| x.name).collect();
    assert_eq!(once, twice);
}

#[test]
fn rounds_are_bounded() {
    assert_eq!(MAX_ROUNDS, 100_000);
}
