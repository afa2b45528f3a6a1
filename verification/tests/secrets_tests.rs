use audio_player::controls::{key_command, key_mark, media_command, Key, MediaEvent, SeekDirection};
use audio_player::generic_error::GenericError;
use audio_player::player::Command;
use audio_player::secrets::{
    check_secrets, check_secrets_once, d, date_matches, decode, decode_number, decode_string,
    number_of_digits, password, product_of_digits, secrets_are_usable,
};
use audio_player::span::Span;

fn secrets() -> Vec<u8> {
    // The first byte less the second gives the step: 3.
    vec![10, 7, 255 - b'a', b'b', 255 - b'c', b'd', 255 - b'e', b'f', 255 - b'g', b'h', 255 - 1, 2]
}

#[test]
fn decode_reads_every_few_bytes() {
    let data = secrets();
    assert_eq!(decode(&data, 2, 3, false), vec![b'a', b'd', b'g']);
    assert_eq!(decode(&data, 2, 3, true), vec![b'g', b'd', b'a']);
    assert_eq!(decode(&data, 3, 2, false), vec![b'b', b'e']);
    assert_eq!(decode(&data, 2, 0, false), vec![]);
    assert_eq!(decode(&data, 2, 100, false), vec![b'a', b'd', b'g', 2]);
    assert_eq!(decode(&data, 12, 3, false), vec![]);
    assert_eq!(decode(&data, 100, 3, true), vec![]);
    assert_eq!(decode(&data, 0, 1, false), vec![255 - 10]);
}

#[test]
fn decode_string_reads_text() {
    let data = secrets();
    assert_eq!(decode_string(&data, 2, 3, false).unwrap(), "adg");
    assert_eq!(decode_string(&data, 2, 3, true).unwrap(), "gda");
    assert_eq!(decode_string(&data, 2, 0, true).unwrap(), "");
    let broken = vec![2, 1, 0, 0xff, 0, 0xfe];
    assert!(decode_string(&broken, 3, 2, false).is_err());
}

#[test]
fn decode_number_reads_base_256() {
    let data = vec![3, 1, 255 - 1, 9, 255 - 2, 9, 255 - 3, 9];
    assert_eq!(decode_number(&data, 2, 3, false), 0x01_02_03);
    assert_eq!(decode_number(&data, 2, 3, true), 0x03_02_01);
    assert_eq!(decode_number(&data, 2, 1, false), 1);
    assert_eq!(decode_number(&data, 2, 0, false), 0);
    let high = vec![1, 0, 0, 255, 0, 255];
    assert_eq!(decode_number(&high, 2, 4, false), u32::MAX);
}

#[test]
fn generic_error_texts() {
    let error = GenericError::from_text("no device");
    assert_eq!(error.0, "no device");
    assert_eq!(error.to_text(), "Error: no device");
    assert_eq!(error.to_debug_text(), "Error(no device)");
    assert_eq!(GenericError(String::new()).to_text(), "Error: ");
}

#[test]
fn keys_send_commands() {
    assert!(matches!(key_command(Key::Char(' ')), Some(Command::PlayPause)));
    assert!(matches!(key_command(Key::Char('n')), Some(Command::Next)));
    assert!(matches!(key_command(Key::Char('p')), Some(Command::Previous)));
    assert!(matches!(key_command(Key::Char('q')), Some(Command::Quit)));
    assert!(key_command(Key::Char('x')).is_none());
    assert!(key_command(Key::Other).is_none());
    assert!(matches!(key_command(Key::Up), Some(Command::ScrollUp)));
    assert!(matches!(key_command(Key::Down), Some(Command::ScrollDown)));
    assert!(matches!(key_command(Key::Esc), Some(Command::ResetScroll)));
    assert!(matches!(key_command(Key::Enter), Some(Command::PlaySelected)));
    match key_command(Key::Left) {
        Some(Command::SeekLeft(step)) => assert_eq!(step, Span::from_secs(5)),
        _ => panic!("the left arrow seeks to the left"),
    }
    match key_command(Key::Right) {
        Some(Command::SeekRight(step)) => assert_eq!(step, Span::from_secs(5)),
        _ => panic!("the right arrow seeks to the right"),
    }
}

#[test]
fn keys_leave_marks() {
    assert_eq!(key_mark(Key::Char('q')), Some('q'));
    assert_eq!(key_mark(Key::Left), Some('←'));
    assert_eq!(key_mark(Key::Right), Some('→'));
    assert_eq!(key_mark(Key::Up), Some('↑'));
    assert_eq!(key_mark(Key::Down), Some('↓'));
    assert_eq!(key_mark(Key::Esc), None);
    assert_eq!(key_mark(Key::Enter), None);
    assert_eq!(key_mark(Key::Other), None);
}

#[test]
fn media_events_send_commands() {
    assert!(matches!(media_command(MediaEvent::Play), Some(Command::Play)));
    assert!(matches!(media_command(MediaEvent::Pause), Some(Command::Pause)));
    assert!(matches!(media_command(MediaEvent::Toggle), Some(Command::PlayPause)));
    assert!(matches!(media_command(MediaEvent::Next), Some(Command::Next)));
    assert!(matches!(media_command(MediaEvent::Previous), Some(Command::Previous)));
    assert!(matches!(media_command(MediaEvent::Stop), Some(Command::Quit)));
    assert!(matches!(media_command(MediaEvent::Quit), Some(Command::Quit)));
    assert!(media_command(MediaEvent::Other).is_none());
    match media_command(MediaEvent::Seek(SeekDirection::Backward)) {
        Some(Command::SeekLeft(step)) => assert_eq!(step, Span::from_secs(5)),
        _ => panic!("a seek backward seeks to the left"),
    }
    match media_command(MediaEvent::Seek(SeekDirection::Forward)) {
        Some(Command::SeekRight(step)) => assert_eq!(step, Span::from_secs(5)),
        _ => panic!("a seek forward seeks to the right"),
    }
    match media_command(MediaEvent::SeekBy(SeekDirection::Backward, Span::from_secs(9))) {
        Some(Command::SeekLeft(step)) => assert_eq!(step, Span::from_secs(9)),
        _ => panic!("a seek backward seeks to the left"),
    }
    match media_command(MediaEvent::SeekBy(SeekDirection::Forward, Span::from_secs(9))) {
        Some(Command::SeekRight(step)) => assert_eq!(step, Span::from_secs(9)),
        _ => panic!("a seek forward seeks to the right"),
    }
    match media_command(MediaEvent::SetPosition(Span::from_secs(77))) {
        Some(Command::SeekTo(position)) => assert_eq!(position, Span::from_secs(77)),
        _ => panic!("a position is sought"),
    }
}

#[test]
fn digits_are_multiplied_and_counted() {
    assert_eq!(product_of_digits(0), 0);
    assert_eq!(product_of_digits(7), 7);
    assert_eq!(product_of_digits(234), 24);
    assert_eq!(product_of_digits(1090), 0);
    assert_eq!(product_of_digits(u32::MAX), 4 * 2 * 9 * 4 * 9 * 6 * 7 * 2 * 9 * 5);
    assert_eq!(number_of_digits(0), 1);
    assert_eq!(number_of_digits(9), 1);
    assert_eq!(number_of_digits(10), 2);
    assert_eq!(number_of_digits(999_999_999), 9);
    assert_eq!(number_of_digits(1_000_000_000), 10);
    assert_eq!(number_of_digits(u32::MAX), 10);
    assert_eq!(d(234), 21);
    assert_eq!(d(9), 8);
    assert_eq!(d(1), 0);
    assert_eq!(d(99), 79);
}

#[test]
fn dates_give_numbers() {
    // (25 - 12) * 37 - 37 = 444
    assert!(date_matches(444, 25, 12));
    assert!(!date_matches(443, 25, 12));
    // the month is the greater: nothing is left
    assert!(date_matches(0, 3, 7));
    assert!(date_matches(0, 7, 7));
    // (8 - 7) * 15 - 15 = 0
    assert!(date_matches(0, 8, 7));
    // (31 - 1) * 32 - 32 = 928
    assert!(date_matches(928, 31, 1));
}

#[test]
fn password_follows_the_date() {
    assert_eq!(password(25, 12), b"amyplant2512".to_vec());
    assert_eq!(password(1, 3), b"amyplant0103".to_vec());
    assert!(check_secrets(b"npqamyplant0103", 1, 3));
    assert!(check_secrets(b"amyplant0103", 1, 3));
    assert!(!check_secrets(b"amyplant0103 ", 1, 3));
    assert!(!check_secrets(b"amyplant0103", 3, 1));
    assert!(!check_secrets(b"myplant0103", 1, 3));
    assert!(!check_secrets(b"", 1, 3));
}

#[test]
fn secret_of_the_start_follows_the_date() {
    // The step is 1; the bytes at 20, 21 and 22 write 0x00_01_ea = 490,
    // whose digits give 4 * 9 * 0 - 3: the data cannot be used.
    let mut data = vec![0u8; 24];
    data[0] = 2;
    data[1] = 1;
    data[20] = 255;
    data[21] = 0x01;
    data[22] = 255 - 0xea;
    assert!(!secrets_are_usable(&data));
    // 0x00_03_81 = 897, whose digits give 8 * 9 * 7 - 3 = 501
    data[21] = 0x03;
    data[22] = 255 - 0x81;
    assert_eq!(decode_number(&data, 20, 3, false), 897);
    assert!(secrets_are_usable(&data));
    // (25 - 12) * 37 - 37 = 444 = 8 * 8 * 7 * 1 - 4: 8871 = 0x00_22_a7
    data[21] = 0x22;
    data[22] = 255 - 0xa7;
    assert_eq!(decode_number(&data, 20, 3, false), 8871);
    assert!(secrets_are_usable(&data));
    assert!(check_secrets_once(&data, 25, 12));
    assert!(!check_secrets_once(&data, 24, 12));
    assert!(!secrets_are_usable(&[1]));
    assert!(!secrets_are_usable(&[1, 2, 3]));
}
