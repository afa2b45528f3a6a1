//! The state of an active player and the commands that change it.
//!
//! The player's loop owns the audio sink. The functions here decide: from the
//! state, a command and what the sink reports, they give the next state and
//! the actions that the loop has to perform on the sink.
use vstd::prelude::*;
use vstd::string::*;
use tinyrand::{Rand, Seeded, Wyrand};
use crate::queue::{check_double_songs, lemma_swapped_multiset, MAX_ROUNDS};
use crate::scroll_position::{next_index, previous_index, Scrollable};
use crate::separation::{names_of, repaired, swapped, well_separated};
use crate::song::Song;
use crate::span::Span;

verus! {

/// The random number generator of `tinyrand` that shuffles the queue.
#[verifier::external_type_specification]
#[verifier::external_body]
pub struct ExWyrand(Wyrand);

/// Calls `Seeded::seed` of `tinyrand` for `Wyrand`: the generator that starts from `seed`.
/// Nothing is claimed of the generator.
#[verifier::external_body]
fn seeded(seed: u64) -> (rng: Wyrand) {
    Wyrand::seed(seed)
}

/// Calls `Rand::next_lim_usize` of `tinyrand`, which draws a number in `0..limit`
/// and panics on a limit of zero. The contract claims the range and nothing else.
#[verifier::external_body]
fn next_below(rng: &mut Wyrand, limit: usize) -> (number: usize)
    requires
        limit > 0,
    ensures
        number < limit,
{
    rng.next_lim_usize(limit)
}

/// A moment of the system clock of std.
#[verifier::external_type_specification]
#[verifier::external_body]
pub struct ExSystemTime(std::time::SystemTime);

/// Calls `SystemTime::now` of std, which reads the system clock.
/// Nothing is claimed of the moment read.
#[verifier::external_body]
fn system_now() -> (moment: std::time::SystemTime) {
    std::time::SystemTime::now()
}

/// Calls `SystemTime::duration_since` of std with the Unix epoch, and gives the
/// time since the epoch in whole seconds and nanoseconds beside them: no time at
/// all when the moment is before the epoch. Nothing is claimed of the numbers.
#[verifier::external_body]
fn since_epoch(moment: std::time::SystemTime) -> (elapsed: (u64, u32)) {
    match moment.duration_since(std::time::SystemTime::UNIX_EPOCH) {
        Ok(elapsed) => (elapsed.as_secs(), elapsed.subsec_nanos()),
        Err(_) => (0, 0),
    }
}

/// Returns the moment that the system clock shows.
fn now() -> (now: Span)
    ensures
        now.wf(),
{
    let read: (u64, u32) = since_epoch(system_now());
    Span::new(read.0, read.1)
}

/// A status message.
#[derive(Clone)]
pub struct StatusMessage {
    /// The text of the message.
    pub message: String,
    /// The time when the message will be cleared, counted from the Unix epoch.
    pub max_time: Span,
}

impl Default for StatusMessage {
    fn default() -> (message: Self)
        ensures
            message.message@ == Seq::<char>::empty(),
            message.max_time@ == 0,
    {
        Self { message: String::new(), max_time: Span::zero() }
    }
}

impl StatusMessage {
    /// The message is shown at the moment `now`.
    pub open spec fn is_live(&self, now: Span) -> bool {
        now@ <= self.max_time@
    }

    /// Creates a new [`StatusMessage`].
    pub fn new(message: String, max_time: Span) -> (created: Self)
        ensures
            created.message == message,
            created.max_time == max_time,
    {
        Self { message, max_time }
    }

    /// Creates a new [`StatusMessage`] that is cleared when `duration` has passed since `now`.
    pub fn lasting(message: String, now: Span, duration: Span) -> (created: Self)
        requires
            now.wf(),
            duration.wf(),
        ensures
            created.message == message,
            created.max_time == now.plus(duration),
            created.max_time.wf(),
    {
        Self::new(message, now.saturating_add(duration))
    }

    /// Creates a new [`StatusMessage`] that is cleared after the given duration.
    pub fn with_duration(message: String, duration: Span) -> (created: Self)
        requires
            duration.wf(),
        ensures
            created.message == message,
            created.max_time@ >= duration@,
            created.max_time.wf(),
    {
        Self::lasting(message, now(), duration)
    }

    /// Creates a new [`StatusMessage`] that is cleared after 5 seconds.
    pub fn five_seconds(message: String) -> (created: Self)
        ensures
            created.message == message,
            created.max_time@ >= 5 * crate::span::NANOS_PER_SEC,
            created.max_time.wf(),
    {
        Self::with_duration(message, Span::from_secs(MESSAGE_SECS))
    }

    /// Creates a new infinite [`StatusMessage`]: it is cleared after 365 days.
    pub fn infinite(message: String) -> (created: Self)
        ensures
            created.message == message,
            created.max_time@ >= 365 * 86400 * crate::span::NANOS_PER_SEC,
            created.max_time.wf(),
    {
        Self::with_duration(message, Span::from_secs(365 * 86400))
    }
}

/// What the player reads from the audio sink before it handles a command.
#[derive(Clone, Copy, Debug)]
pub struct SinkState {
    /// Is the sink paused?
    pub paused: bool,
    /// The position in the song that is played.
    pub position: Span,
}

/// What the player's loop has to do on the audio sink.
#[derive(Clone, Copy, Debug, PartialEq, Eq, Structural)]
pub enum SinkAction {
    /// Pause the sink.
    Pause,
    /// Resume the sink.
    Play,
    /// Drop the song that is played.
    SkipOne,
    /// Move to the given position in the song that is played.
    Seek(Span),
}

/// Owned metadata for a [`Song`].
pub struct Metadata {
    /// The title of the [`Song`] (currently the file name).
    pub title: String,
}

/// What the player shows of itself.
pub struct PartialStatus {
    /// The paths of the songs of the queue, in order.
    pub song_names: Vec<String>,
    /// The actual position in the queue.
    pub position: usize,
    /// The position of the currently pointed element.
    pub scrollbar_position: usize,
    /// The position in the song that is played.
    pub time: Span,
    /// The length of the song that is played.
    pub total_time: Span,
    /// Is the player paused?
    pub paused: bool,
    /// The text of the message to show.
    pub message: String,
}

/// The status of an active player.
pub struct Status {
    /// Should we go to the next song when the current one is finished?
    pub go_next: bool,
    /// The length of the queue.
    pub length: usize,
    /// The messages stack.
    pub messages: Vec<StatusMessage>,
    /// The actual position in the queue.
    pub position: usize,
    /// The random number generator to shuffle the queue.
    pub rng: Wyrand,
    /// The position of the currently pointed element.
    pub scrollbar_position: usize,
    /// Should we stop the player?
    pub stop: bool,
    /// Was the song paused before the call to [`Command::ForcePause`]?
    pub was_paused: bool,
}

/// What the commands read and change of a [`Status`].
pub struct StatusView {
    /// Should the player go to the next song when the current one is finished?
    pub go_next: bool,
    /// The length of the queue.
    pub length: usize,
    /// The messages, the most recent first.
    pub messages: Seq<StatusMessage>,
    /// The actual position in the queue.
    pub position: usize,
    /// The position of the currently pointed element.
    pub scrollbar_position: usize,
    /// Should the player stop?
    pub stop: bool,
    /// Was the song paused on request?
    pub was_paused: bool,
}

impl StatusView {
    /// The queue is not empty, and the position and the pointed element are in it
    /// or just behind it: the queue is then shuffled before the next song.
    pub open spec fn is_valid(self) -> bool {
        &&& 0 < self.length
        &&& self.position <= self.length
        &&& self.scrollbar_position <= self.length
    }

    /// The state is valid, and the position and the pointed element are those of songs.
    pub open spec fn is_playing(self) -> bool {
        &&& self.is_valid()
        &&& self.position < self.length
        &&& self.scrollbar_position < self.length
    }

    /// The state with one more message, put before the others.
    pub open spec fn with_message(self, message: StatusMessage) -> StatusView {
        StatusView { messages: seq![message] + self.messages, ..self }
    }

    /// The state at the start of a new pass through the queue: the position is the
    /// first song, and the pointed element too when it had left the queue, as it
    /// does when it follows the position behind the last song.
    pub open spec fn restarted(self) -> StatusView {
        StatusView {
            position: 0,
            scrollbar_position: if self.scrollbar_position >= self.length {
                0
            } else {
                self.scrollbar_position
            },
            ..self
        }
    }

    /// The state at `position`, without going to the next song by itself.
    /// The pointed element follows when it was the played one.
    pub open spec fn moved_to(self, position: usize) -> StatusView {
        StatusView {
            go_next: false,
            position,
            scrollbar_position: if self.scrollbar_position == self.position {
                position
            } else {
                self.scrollbar_position
            },
            ..self
        }
    }
}

impl View for Status {
    type V = StatusView;

    open spec fn view(&self) -> StatusView {
        StatusView {
            go_next: self.go_next,
            length: self.length,
            messages: self.messages@,
            position: self.position,
            scrollbar_position: self.scrollbar_position,
            stop: self.stop,
            was_paused: self.was_paused,
        }
    }
}

/// A command that can be sent to an active player to change its behavior.
pub enum Command {
    /// Displays a message.
    DisplayMessage(StatusMessage),
    /// Pauses the player.
    ForcePause,
    /// Plays the next song.
    Next,
    /// Pauses the player.
    Pause,
    /// Plays the player.
    Play,
    /// Plays (or pauses) the player.
    PlayPause,
    /// Plays the selected song.
    PlaySelected,
    /// Plays the previous song.
    Previous,
    /// Closes the player.
    Quit,
    /// Selects the currently playing song.
    ResetScroll,
    /// Plays the player if it was previously playing before the [`Command::ForcePause`] command.
    RestorePlayback,
    /// Selects one element down.
    ScrollDown,
    /// Selects one element up.
    ScrollUp,
    /// Seeks backwards of the given duration.
    SeekLeft(Span),
    /// Seeks forwards of the given duration.
    SeekRight(Span),
    /// Seeks to a given position.
    SeekTo(Span),
}

/// The time for which a message is shown when nothing else is asked, in seconds.
pub const MESSAGE_SECS: u64 = 5;

/// The seek step when seeking with arrow keys, in seconds.
pub const SEEK_STEP_SECS: u64 = 5;

/// A seek to the left from a position before this number of seconds goes to the previous song.
pub const RESTART_SECS: u64 = 2;

/// The sink is so early in the song that a seek to the left goes to the previous song.
pub open spec fn near_start(sink: SinkState) -> bool {
    sink.position@ < RESTART_SECS * crate::span::NANOS_PER_SEC
}

impl Command {
    /// The command can be handled in the state: no index leaves the range of its type.
    pub open spec fn fits(self, sink: SinkState, status: StatusView) -> bool {
        match self {
            Command::Next => status.position < usize::MAX,
            Command::Previous => status.position == 0 ==> status.length > 0,
            Command::SeekLeft(_) => sink.position.wf() && (near_start(sink) && status.position == 0
                ==> status.length > 0),
            Command::SeekRight(step) => sink.position.wf() && step.wf(),
            Command::ScrollUp => status.scrollbar_position == 0 ==> status.length > 0,
            Command::ScrollDown => status.length > 0 && (status.scrollbar_position != status.length - 1
                ==> status.scrollbar_position < usize::MAX),
            _ => true,
        }
    }

    /// The state after the command.
    pub open spec fn applied(self, sink: SinkState, status: StatusView) -> StatusView {
        match self {
            Command::DisplayMessage(message) => status.with_message(message),
            Command::ForcePause => status,
            Command::Next => status.moved_to((status.position + 1) as usize),
            Command::Pause => StatusView { was_paused: true, ..status },
            Command::Play => StatusView { was_paused: false, ..status },
            Command::PlayPause => StatusView { was_paused: !sink.paused, ..status },
            Command::PlaySelected => StatusView {
                was_paused: false,
                ..status.moved_to(status.scrollbar_position)
            },
            Command::Previous => status.moved_to(
                previous_index(status.position as int, status.length as int) as usize,
            ),
            Command::Quit => StatusView { stop: true, ..status },
            Command::ResetScroll => StatusView { scrollbar_position: status.position, ..status },
            Command::RestorePlayback => status,
            Command::ScrollDown => StatusView {
                scrollbar_position: next_index(status.scrollbar_position as int, status.length as int) as usize,
                ..status
            },
            Command::ScrollUp => StatusView {
                scrollbar_position: previous_index(
                    status.scrollbar_position as int,
                    status.length as int,
                ) as usize,
                ..status
            },
            Command::SeekLeft(_) => if near_start(sink) {
                status.moved_to(previous_index(status.position as int, status.length as int) as usize)
            } else {
                status
            },
            Command::SeekRight(_) => status,
            Command::SeekTo(_) => status,
        }
    }

    /// What the command asks of the sink, in order.
    pub open spec fn actions(self, sink: SinkState, status: StatusView) -> Seq<SinkAction> {
        match self {
            Command::DisplayMessage(_) => seq![],
            Command::ForcePause => seq![SinkAction::Pause],
            Command::Next => seq![SinkAction::SkipOne],
            Command::Pause => seq![SinkAction::Pause],
            Command::Play => seq![SinkAction::Play],
            Command::PlayPause => if sink.paused {
                seq![SinkAction::Play]
            } else {
                seq![SinkAction::Pause]
            },
            Command::PlaySelected => seq![SinkAction::SkipOne, SinkAction::Play],
            Command::Previous => seq![SinkAction::SkipOne],
            Command::Quit => seq![SinkAction::SkipOne],
            Command::ResetScroll => seq![],
            Command::RestorePlayback => if status.was_paused {
                seq![]
            } else {
                seq![SinkAction::Play]
            },
            Command::ScrollDown => seq![],
            Command::ScrollUp => seq![],
            Command::SeekLeft(step) => if near_start(sink) {
                seq![SinkAction::SkipOne]
            } else {
                seq![SinkAction::Seek(sink.position.minus(step))]
            },
            Command::SeekRight(step) => seq![SinkAction::Seek(sink.position.plus(step))],
            Command::SeekTo(position) => seq![SinkAction::Seek(position)],
        }
    }
}

impl Command {
    /// Tells whether the command can be handled in the state.
    pub fn can_be_handled(&self, sink: &SinkState, status: &Status) -> (fits: bool)
        ensures
            fits == self.fits(*sink, status@),
    {
        let limit: u128 = crate::span::MAX_NANOS;
        let early: bool = sink.position.is_less_than(&Span::from_secs(RESTART_SECS));
        match self {
            Command::Next => status.position < usize::MAX,
            Command::Previous => status.position != 0 || status.length > 0,
            Command::SeekLeft(_) => sink.position.nanos <= limit && (!early || status.position != 0
                || status.length > 0),
            Command::SeekRight(step) => sink.position.nanos <= limit && step.nanos <= limit,
            Command::ScrollUp => status.scrollbar_position != 0 || status.length > 0,
            Command::ScrollDown => status.length > 0 && (status.scrollbar_position == status.length - 1
                || status.scrollbar_position < usize::MAX),
            _ => true,
        }
    }

    /// Applies a command on a [`Status`], and returns what is to be done on the sink, in order.
    pub fn handle(self, sink: &SinkState, status: &mut Status) -> (actions: Vec<SinkAction>)
        requires
            self.fits(*sink, old(status)@),
        ensures
            final(status)@ == self.applied(*sink, old(status)@),
            actions@ == self.actions(*sink, old(status)@),
            final(status).rng == old(status).rng,
            old(status)@.is_playing() ==> final(status)@.is_valid(),
    {
        let update_scrollbar_position: bool = status.position == status.scrollbar_position;
        let old_position: usize = status.position;
        let mut actions: Vec<SinkAction> = Vec::new();

        match self {
            Command::DisplayMessage(message) => {
                status.messages.insert(0, message);
                assert(status.messages@ =~= seq![message] + old(status).messages@);
            },
            Command::ForcePause => {
                actions.push(SinkAction::Pause);
            },
            Command::Next => {
                status.go_next = false;
                status.position += 1;
                actions.push(SinkAction::SkipOne);
            },
            Command::Pause => {
                actions.push(SinkAction::Pause);
                status.was_paused = true;
            },
            Command::Play => {
                actions.push(SinkAction::Play);
                status.was_paused = false;
            },
            Command::PlayPause => {
                if sink.paused {
                    actions.push(SinkAction::Play);
                    status.was_paused = false;
                } else {
                    actions.push(SinkAction::Pause);
                    status.was_paused = true;
                }
            },
            Command::PlaySelected => {
                status.position = status.scrollbar_position;
                status.go_next = false;
                actions.push(SinkAction::SkipOne);
                actions.push(SinkAction::Play);
                status.was_paused = false;
            },
            Command::Previous => {
                status.go_next = false;
                status.position = status.position.previous(status.length);
                actions.push(SinkAction::SkipOne);
            },
            Command::Quit => {
                status.stop = true;
                actions.push(SinkAction::SkipOne);
            },
            Command::ResetScroll => {
                status.scrollbar_position = status.position;
            },
            Command::RestorePlayback => {
                if !status.was_paused {
                    actions.push(SinkAction::Play);
                }
            },
            Command::ScrollDown => {
                status.scrollbar_position = status.scrollbar_position.next(status.length);
            },
            Command::ScrollUp => {
                status.scrollbar_position = status.scrollbar_position.previous(status.length);
            },
            Command::SeekLeft(duration) => {
                if sink.position.is_less_than(&Span::from_secs(RESTART_SECS)) {
                    status.go_next = false;
                    status.position = status.position.previous(status.length);
                    actions.push(SinkAction::SkipOne);
                } else {
                    actions.push(SinkAction::Seek(sink.position.saturating_sub(duration)));
                }
            },
            Command::SeekRight(duration) => {
                actions.push(SinkAction::Seek(sink.position.saturating_add(duration)));
            },
            Command::SeekTo(position) => {
                actions.push(SinkAction::Seek(position));
            },
        }

        if old_position != status.position && update_scrollbar_position {
            status.scrollbar_position = status.position;
        }
        assert(actions@ =~= self.actions(*sink, old(status)@));
        actions
    }
}

/// The messages that are left when the expired ones are taken from the front.
pub open spec fn live_from(messages: Seq<StatusMessage>, now: Span) -> Seq<StatusMessage>
    decreases messages.len(),
{
    if messages.len() == 0 {
        messages
    } else if messages[0].is_live(now) {
        messages
    } else {
        live_from(messages.drop_first(), now)
    }
}

/// The text of the first message, or no text when there is no message.
pub open spec fn first_text(messages: Seq<StatusMessage>) -> Seq<char> {
    if messages.len() == 0 {
        Seq::empty()
    } else {
        messages[0].message@
    }
}

/// The text that reports a seek that the sink refused for `reason`.
pub open spec fn seek_failure_text(reason: Seq<char>) -> Seq<char> {
    "Seek failed: "@ + reason
}

/// Shuffles the queue: every song, from the last one down, changes places with a
/// song drawn at random among those up to itself.
pub fn shuffle<T>(queue: &mut Vec<T>, rng: &mut Wyrand)
    ensures
        exists|draws: Seq<usize>|
            fitting_draws(draws, old(queue)@.len()) && final(queue)@ == #[trigger] mixed(
                old(queue)@,
                draws,
                draws.len(),
            ),
        final(queue)@.to_multiset() == old(queue)@.to_multiset(),
        final(queue)@.len() == old(queue)@.len(),
{
    let length: usize = queue.len();
    let ghost drawn: Seq<usize> = Seq::empty();
    let mut i: usize = length;
    while i > 1
        invariant
            i <= length,
            length >= 1 ==> i >= 1,
            length == old(queue)@.len(),
            queue@.len() == length,
            queue@.to_multiset() == old(queue)@.to_multiset(),
            drawn.len() == length - i,
            forall|k: int| 0 <= k < drawn.len() ==> (#[trigger] drawn[k]) < length - k,
            queue@ == mixed(old(queue)@, drawn, drawn.len()),
        decreases i,
    {
        i -= 1;
        let j: usize = next_below(rng, i + 1);
        proof {
            lemma_swapped_multiset(queue@, i as int, j as int);
            lemma_mixed_start(old(queue)@, drawn, drawn.push(j), drawn.len());
            drawn = drawn.push(j);
        }
        crate::queue::swap_in(queue, i, j);
    }
    assert(fitting_draws(drawn, length as nat));
}

/// The draws fit a queue of `length` songs: there is one for every song but the
/// first, from the last song down, and each is a place up to that of its song.
pub open spec fn fitting_draws(draws: Seq<usize>, length: nat) -> bool {
    &&& draws.len() == (if length == 0 {
        0
    } else {
        length - 1
    })
    &&& forall|k: int| 0 <= k < draws.len() ==> (#[trigger] draws[k]) < length - k
}

/// The queue after the first `count` draws of a shuffle: at the draw of rank `k`,
/// the song at the place `queue.len() - 1 - k` changes places with the song at
/// the place drawn.
pub open spec fn mixed<T>(queue: Seq<T>, draws: Seq<usize>, count: nat) -> Seq<T>
    decreases count,
{
    if count == 0 {
        queue
    } else {
        swapped(mixed(queue, draws, (count - 1) as nat), queue.len() - count, draws[count - 1] as int)
    }
}

/// The first draws alone decide what the queue is after them.
pub proof fn lemma_mixed_start<T>(queue: Seq<T>, draws: Seq<usize>, others: Seq<usize>, count: nat)
    requires
        count <= draws.len(),
        count <= others.len(),
        forall|k: int| 0 <= k < count ==> draws[k] == others[k],
    ensures
        mixed(queue, draws, count) == mixed(queue, others, count),
    decreases count,
{
    if count > 0 {
        lemma_mixed_start(queue, draws, others, (count - 1) as nat);
    }
}

/// Mixes the queue by the given draws: every song, from the last one down, changes
/// places with the song at the place drawn for it.
pub fn mix<T>(queue: &mut Vec<T>, draws: &Vec<usize>)
    requires
        fitting_draws(draws@, old(queue)@.len()),
    ensures
        final(queue)@ == mixed(old(queue)@, draws@, draws@.len()),
        final(queue)@.to_multiset() == old(queue)@.to_multiset(),
        final(queue)@.len() == old(queue)@.len(),
{
    let length: usize = queue.len();
    let mut k: usize = 0;
    while k < draws.len()
        invariant
            k <= draws@.len(),
            length == old(queue)@.len(),
            fitting_draws(draws@, length as nat),
            queue@.len() == length,
            queue@.to_multiset() == old(queue)@.to_multiset(),
            queue@ == mixed(old(queue)@, draws@, k as nat),
        decreases draws@.len() - k,
    {
        let i: usize = length - 1 - k;
        let j: usize = draws[k];
        proof {
            lemma_swapped_multiset(queue@, i as int, j as int);
        }
        crate::queue::swap_in(queue, i, j);
        k += 1;
    }
}

impl Status {
    /// The status of a player that starts on a queue of `length` songs: the queue
    /// is to be shuffled before the first song, with a generator that starts from `seed`.
    pub fn new(length: usize, seed: u64) -> (status: Status)
        ensures
            status@ == (StatusView {
                go_next: true,
                length,
                messages: Seq::empty(),
                position: length,
                scrollbar_position: 0,
                stop: false,
                was_paused: false,
            }),
    {
        Status {
            go_next: true,
            length,
            messages: Vec::new(),
            position: length,
            rng: seeded(seed),
            scrollbar_position: 0,
            stop: false,
            was_paused: false,
        }
    }

    /// Shuffles the queue if the position is behind its last song, and starts again
    /// from its first song. The shuffled queue is then repaired so that the songs of
    /// a group stay apart. Returns `false` when the queue was shuffled and could not
    /// be repaired in full.
    pub fn shuffle_if_needed<'name, T: Song<'name>>(&mut self, queue: &mut Vec<T>) -> (complete: bool)
        ensures
            old(self).position != old(self).length ==> complete,
            old(self).position == old(self).length ==> complete == well_separated(names_of(final(queue)@)),
            old(self).position == old(self).length && old(self).length > 0 ==> final(self)@.is_playing(),
            final(queue)@.to_multiset() == old(queue)@.to_multiset(),
            final(queue)@.len() == old(queue)@.len(),
            old(self).position != old(self).length ==> final(self)@ == old(self)@ && final(queue)@ == old(
                queue,
            )@ && final(self).rng == old(self).rng,
            old(self).position == old(self).length ==> final(self)@ == old(self)@.restarted() && exists|
                draws: Seq<usize>,
            |
                fitting_draws(draws, old(queue)@.len()) && final(queue)@ == repaired(
                    #[trigger] mixed(old(queue)@, draws, draws.len()),
                    Seq::empty(),
                    MAX_ROUNDS as nat,
                ),
    {
        if self.position == self.length {
            self.position = 0;
            if self.scrollbar_position >= self.length {
                self.scrollbar_position = 0;
            }
            shuffle(queue, &mut self.rng);
            let ghost draws = choose|draws: Seq<usize>|
                fitting_draws(draws, old(queue)@.len()) && queue@ == #[trigger] mixed(
                    old(queue)@,
                    draws,
                    draws.len(),
                );
            let settled: bool = check_double_songs(queue);
            assert(fitting_draws(draws, old(queue)@.len()) && queue@ == repaired(
                mixed(old(queue)@, draws, draws.len()),
                Seq::empty(),
                MAX_ROUNDS as nat,
            ));
            settled
        } else {
            true
        }
    }

    /// Begins a song: the next one will follow it unless a command says otherwise.
    /// Returns the index of the song to fetch ahead, if the song is not the last of the queue.
    pub fn start_track(&mut self) -> (pending: Option<usize>)
        requires
            old(self).position < usize::MAX,
        ensures
            final(self)@ == (StatusView { go_next: true, ..old(self)@ }),
            final(self).rng == old(self).rng,
            pending == if old(self).position + 1 != old(self).length {
                Some((old(self).position + 1) as usize)
            } else {
                None
            },
    {
        self.go_next = true;
        if self.position + 1 != self.length {
            Some(self.position + 1)
        } else {
            None
        }
    }

    /// Ends a song: goes to the next one, unless a command has chosen the song to play.
    pub fn end_track(&mut self, sink: &SinkState) -> (actions: Vec<SinkAction>)
        requires
            old(self).go_next ==> old(self).position < usize::MAX,
        ensures
            old(self).go_next ==> final(self)@ == Command::Next.applied(*sink, old(self)@) && actions@
                == Command::Next.actions(*sink, old(self)@),
            !old(self).go_next ==> final(self)@ == old(self)@ && actions@ == Seq::<SinkAction>::empty(),
            final(self).rng == old(self).rng,
    {
        if self.go_next {
            Command::Next.handle(sink, self)
        } else {
            Vec::new()
        }
    }

    /// Takes the expired messages from the front of the stack, and returns the text
    /// of the message to show at the moment `now`: the first that is left, if any.
    pub fn current_message(&mut self, now: Span) -> (text: String)
        ensures
            final(self)@ == (StatusView { messages: live_from(old(self).messages@, now), ..old(self)@ }),
            final(self).rng == old(self).rng,
            text@ == first_text(live_from(old(self).messages@, now)),
    {
        while self.messages.len() > 0
            invariant
                self@ == (StatusView { messages: self.messages@, ..old(self)@ }),
                self.rng == old(self).rng,
                live_from(self.messages@, now) == live_from(old(self).messages@, now),
            decreases self.messages@.len(),
        {
            if !now.is_less_than(&self.messages[0].max_time) && now.nanos != self.messages[0].max_time.nanos {
                let ghost before = self.messages@;
                let _ = self.messages.remove(0);
                assert(self.messages@ =~= before.drop_first());
            } else {
                return self.messages[0].message.clone();
            }
        }
        String::new()
    }

    /// Records that the sink refused a seek for `reason`, at the moment `now`:
    /// a message that says so is shown for 5 seconds.
    pub fn report_seek_failure(&mut self, reason: &str, now: Span)
        requires
            now.wf(),
        ensures
            final(self)@ == old(self)@.with_message(final(self).messages@[0]),
            final(self).messages@[0].message@ == seek_failure_text(reason@),
            final(self).messages@[0].max_time == now.plus(Span { nanos: 5_000_000_000 }),
            final(self).rng == old(self).rng,
    {
        let mut text: String = String::from_str("Seek failed: ");
        text.append(reason);
        let message: StatusMessage = StatusMessage::lasting(text, now, Span::from_secs(MESSAGE_SECS));
        self.messages.insert(0, message);
        assert(self.messages@ =~= seq![message] + old(self).messages@);
    }

    /// Builds what the player shows of itself at the moment `now`.
    /// The expired messages are taken from the front of the stack.
    pub fn snapshot(&mut self, song_names: Vec<String>, sink: &SinkState, total_time: Span, now: Span) -> (shown:
        PartialStatus)
        ensures
            final(self)@ == (StatusView { messages: live_from(old(self).messages@, now), ..old(self)@ }),
            final(self).rng == old(self).rng,
            shown.song_names == song_names,
            shown.position == old(self).position,
            shown.scrollbar_position == old(self).scrollbar_position,
            shown.time == sink.position,
            shown.total_time == total_time,
            shown.paused == sink.paused,
            shown.message@ == first_text(live_from(old(self).messages@, now)),
    {
        let message: String = self.current_message(now);
        PartialStatus {
            song_names,
            position: self.position,
            scrollbar_position: self.scrollbar_position,
            time: sink.position,
            total_time,
            paused: sink.paused,
            message,
        }
    }
}

impl Command {
    /// Takes the outcome of a seek on the sink: a seek that failed never stops the
    /// player, it is reported by a message shown for 5 seconds.
    pub fn try_seek(outcome: Result<(), String>, status: &mut Status)
        ensures
            outcome is Ok ==> final(status)@ == old(status)@,
            outcome is Err ==> {
                &&& final(status)@ == old(status)@.with_message(final(status).messages@[0])
                &&& final(status).messages@[0].message@ == seek_failure_text(outcome->Err_0@)
                &&& final(status).messages@[0].max_time@ >= 5 * crate::span::NANOS_PER_SEC
            },
            final(status).rng == old(status).rng,
    {
        if let Err(reason) = outcome {
            status.report_seek_failure(reason.as_str(), now());
        }
    }
}

/// Tells whether what the player shows is out of date: the sink has moved by more
/// than one second since `last_time`.
pub fn is_stale(last_time: Span, position: Span) -> (stale: bool)
    requires
        last_time.wf(),
        position.wf(),
    ensures
        stale == (vstd::math::abs(last_time@ - position@) > crate::span::NANOS_PER_SEC),
{
    Span::from_secs(1).is_less_than(&last_time.abs_diff(position))
}

/// Lists the paths of the songs of the queue, in order.
pub fn song_names<'name, T: Song<'name>>(queue: &Vec<T>) -> (names: Vec<String>)
    ensures
        names@.len() == queue@.len(),
        forall|i: int| 0 <= i < queue@.len() ==> (#[trigger] names@[i])@ == queue@[i].path(),
{
    let mut names: Vec<String> = Vec::new();
    let mut i: usize = 0;
    while i < queue.len()
        invariant
            i <= queue@.len(),
            names@.len() == i,
            forall|k: int| 0 <= k < i ==> (#[trigger] names@[k])@ == queue@[k].path(),
        decreases queue@.len() - i,
    {
        names.push(String::from_str(queue[i].get_path()));
        i += 1;
    }
    names
}

/// `Previous` then `Next` from the position of a song comes back to it. From the
/// first song the way leads over the last song to the position behind the queue,
/// which is the first song of the next pass through it.
pub proof fn law_previous_then_next(status: StatusView, first: SinkState, second: SinkState)
    requires
        status.is_playing(),
    ensures
        Command::Previous.fits(first, status),
        Command::Next.fits(second, Command::Previous.applied(first, status)),
        Command::Next.applied(second, Command::Previous.applied(first, status)).position == (if status.position
            == 0 {
            status.length
        } else {
            status.position
        }),
        Command::Next.applied(second, Command::Previous.applied(first, status)).position % status.length
            == status.position,
{
    let back = Command::Previous.applied(first, status);
    assert(back.position == previous_index(status.position as int, status.length as int));
    if status.position == 0 {
        assert(status.length % status.length == 0) by (nonlinear_arith)
            requires
                status.length > 0,
        ;
    } else {
        assert(status.position % status.length == status.position) by (nonlinear_arith)
            requires
                status.position < status.length,
        ;
    }
}

/// The pointed element follows the position: when the two were the same before a
/// command, and the command changes the position, they are the same after it.
pub proof fn law_scroll_follows(command: Command, sink: SinkState, status: StatusView)
    requires
        command.fits(sink, status),
        status.scrollbar_position == status.position,
        command.applied(sink, status).position != status.position,
    ensures
        command.applied(sink, status).scrollbar_position == command.applied(sink, status).position,
{
}

/// The pointed element stays when it was not the position: a command that changes
/// the position leaves it where it was.
pub proof fn law_scroll_stays(command: Command, sink: SinkState, status: StatusView)
    requires
        command.fits(sink, status),
        status.scrollbar_position != status.position,
        command.applied(sink, status).position != status.position,
    ensures
        command.applied(sink, status).scrollbar_position == status.scrollbar_position,
{
}

/// A seek to the left in the first two seconds of a song is the command `Previous`:
/// the same state follows, and the same actions on the sink.
pub proof fn law_seek_left_near_start(step: Span, sink: SinkState, status: StatusView)
    requires
        near_start(sink),
    ensures
        Command::SeekLeft(step).applied(sink, status) == Command::Previous.applied(sink, status),
        Command::SeekLeft(step).actions(sink, status) == Command::Previous.actions(sink, status),
        sink.position.wf() ==> Command::SeekLeft(step).fits(sink, status) == Command::Previous.fits(sink, status),
{
}

} // verus!
