//! What the keys and the media events ask of the player.
use vstd::prelude::*;
use crate::player::{Command, SEEK_STEP_SECS};
use crate::span::Span;

verus! {

/// A key of the keyboard, as far as the player tells keys apart.
#[derive(Clone, Copy, Debug, PartialEq, Eq, Structural)]
pub enum Key {
    /// A key that writes a character.
    Char(char),
    /// The arrow to the left.
    Left,
    /// The arrow to the right.
    Right,
    /// The arrow up.
    Up,
    /// The arrow down.
    Down,
    /// The escape key.
    Esc,
    /// The enter key.
    Enter,
    /// Any other key.
    Other,
}

/// The direction of a seek that the media controls ask for.
#[derive(Clone, Copy, Debug, PartialEq, Eq, Structural)]
pub enum SeekDirection {
    /// Towards the end of the song.
    Forward,
    /// Towards the start of the song.
    Backward,
}

/// An event of the media controls of the system.
#[derive(Clone, Copy, Debug, PartialEq, Eq, Structural)]
pub enum MediaEvent {
    /// Resume.
    Play,
    /// Pause.
    Pause,
    /// Resume or pause.
    Toggle,
    /// Go to the next song.
    Next,
    /// Go to the previous song.
    Previous,
    /// Stop the player.
    Stop,
    /// Seek by the usual step.
    Seek(SeekDirection),
    /// Seek by the given length of time.
    SeekBy(SeekDirection, Span),
    /// Go to the given position in the song.
    SetPosition(Span),
    /// Close the player.
    Quit,
    /// Any other event.
    Other,
}

/// The usual seek step.
pub open spec fn seek_step() -> Span {
    Span { nanos: 5_000_000_000 }
}

/// The command that a key sends, if it sends one.
pub open spec fn command_of_key(key: Key) -> Option<Command> {
    match key {
        Key::Char(' ') => Some(Command::PlayPause),
        Key::Char('n') => Some(Command::Next),
        Key::Char('p') => Some(Command::Previous),
        Key::Char('q') => Some(Command::Quit),
        Key::Char(_) => None,
        Key::Left => Some(Command::SeekLeft(seek_step())),
        Key::Right => Some(Command::SeekRight(seek_step())),
        Key::Up => Some(Command::ScrollUp),
        Key::Down => Some(Command::ScrollDown),
        Key::Esc => Some(Command::ResetScroll),
        Key::Enter => Some(Command::PlaySelected),
        Key::Other => None,
    }
}

/// The character that a key leaves in the record of the keys pressed, if it leaves one.
pub open spec fn mark_of_key(key: Key) -> Option<char> {
    match key {
        Key::Char(written) => Some(written),
        Key::Left => Some('←'),
        Key::Right => Some('→'),
        Key::Up => Some('↑'),
        Key::Down => Some('↓'),
        _ => None,
    }
}

/// The command that a media event sends, if it sends one.
pub open spec fn command_of_event(event: MediaEvent) -> Option<Command> {
    match event {
        MediaEvent::Play => Some(Command::Play),
        MediaEvent::Pause => Some(Command::Pause),
        MediaEvent::Toggle => Some(Command::PlayPause),
        MediaEvent::Next => Some(Command::Next),
        MediaEvent::Previous => Some(Command::Previous),
        MediaEvent::Stop => Some(Command::Quit),
        MediaEvent::Seek(SeekDirection::Backward) => Some(Command::SeekLeft(seek_step())),
        MediaEvent::Seek(SeekDirection::Forward) => Some(Command::SeekRight(seek_step())),
        MediaEvent::SeekBy(SeekDirection::Backward, duration) => Some(Command::SeekLeft(duration)),
        MediaEvent::SeekBy(SeekDirection::Forward, duration) => Some(Command::SeekRight(duration)),
        MediaEvent::SetPosition(position) => Some(Command::SeekTo(position)),
        MediaEvent::Quit => Some(Command::Quit),
        MediaEvent::Other => None,
    }
}

/// Returns the command that a key sends to the player, if it sends one.
pub fn key_command(key: Key) -> (command: Option<Command>)
    ensures
        command == command_of_key(key),
{
    match key {
        Key::Char(written) => {
            if written == ' ' {
                Some(Command::PlayPause)
            } else if written == 'n' {
                Some(Command::Next)
            } else if written == 'p' {
                Some(Command::Previous)
            } else if written == 'q' {
                Some(Command::Quit)
            } else {
                None
            }
        },
        Key::Left => Some(Command::SeekLeft(Span::from_secs(SEEK_STEP_SECS))),
        Key::Right => Some(Command::SeekRight(Span::from_secs(SEEK_STEP_SECS))),
        Key::Up => Some(Command::ScrollUp),
        Key::Down => Some(Command::ScrollDown),
        Key::Esc => Some(Command::ResetScroll),
        Key::Enter => Some(Command::PlaySelected),
        Key::Other => None,
    }
}

/// Returns the character that a key leaves in the record of the keys pressed, if it leaves one.
pub fn key_mark(key: Key) -> (mark: Option<char>)
    ensures
        mark == mark_of_key(key),
{
    match key {
        Key::Char(written) => Some(written),
        Key::Left => Some('←'),
        Key::Right => Some('→'),
        Key::Up => Some('↑'),
        Key::Down => Some('↓'),
        _ => None,
    }
}

/// Returns the command that a media event sends to the player, if it sends one.
pub fn media_command(event: MediaEvent) -> (command: Option<Command>)
    ensures
        command == command_of_event(event),
{
    match event {
        MediaEvent::Play => Some(Command::Play),
        MediaEvent::Pause => Some(Command::Pause),
        MediaEvent::Toggle => Some(Command::PlayPause),
        MediaEvent::Next => Some(Command::Next),
        MediaEvent::Previous => Some(Command::Previous),
        MediaEvent::Stop => Some(Command::Quit),
        MediaEvent::Seek(direction) => match direction {
            SeekDirection::Backward => Some(Command::SeekLeft(Span::from_secs(SEEK_STEP_SECS))),
            SeekDirection::Forward => Some(Command::SeekRight(Span::from_secs(SEEK_STEP_SECS))),
        },
        MediaEvent::SeekBy(direction, duration) => match direction {
            SeekDirection::Backward => Some(Command::SeekLeft(duration)),
            SeekDirection::Forward => Some(Command::SeekRight(duration)),
        },
        MediaEvent::SetPosition(position) => Some(Command::SeekTo(position)),
        MediaEvent::Quit => Some(Command::Quit),
        MediaEvent::Other => None,
    }
}

} // verus!
