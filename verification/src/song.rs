//! Structures representing songs.
use vstd::prelude::*;
use vstd::string::*;
use crate::text::{find_first, find_last, first_position, last_position};

verus! {

/// The part of `path` after its last slash: the whole of it when it has none.
pub open spec fn basename(path: Seq<char>) -> Seq<char> {
    path.subrange(last_position(path, '/') + 1, path.len() as int)
}

/// The part of `name` before its last dot: the whole of it when it has none.
pub open spec fn stem(name: Seq<char>) -> Seq<char> {
    let dot = last_position(name, '.');
    if dot < 0 {
        name
    } else {
        name.subrange(0, dot)
    }
}

/// The "real name" of the song at `path`: what follows the first underscore of
/// the file name, once its directories and its last extension are taken off.
pub open spec fn real_name_of(path: Seq<char>) -> Option<Seq<char>> {
    let name = stem(basename(path));
    let underscore = first_position(name, '_');
    if underscore < name.len() {
        Some(name.subrange(underscore + 1, name.len() as int))
    } else {
        None
    }
}

/// The characters of an optional text.
pub open spec fn text_of(name: Option<&str>) -> Option<Seq<char>> {
    match name {
        Some(text) => Some(text@),
        None => None,
    }
}

/// Returns the "real name" of a song, that is to say
/// the part after the song number, if there is one.
pub fn get_real_name<'a>(path: &'a str) -> (name: Option<&'a str>)
    ensures
        text_of(name) == real_name_of(path@),
{
    let mut name: &'a str = path;

    // Keep only the basename (everything after the last slash)
    let full: usize = name.unicode_len();
    if let Some(slash) = find_last(name, '/') {
        name = name.substring_char(slash + 1, full);
    }
    assert(name@ == basename(path@));

    // Keep only the file name (everything before the last dot)
    if let Some(dot) = find_last(name, '.') {
        name = name.substring_char(0, dot);
    }
    assert(name@ == stem(basename(path@)));

    // Return the real name (everything after the first underscore) or None
    let underscore: usize = find_first(name, '_');
    let length: usize = name.unicode_len();
    if underscore < length {
        Some(name.substring_char(underscore + 1, length))
    } else {
        None
    }
}

/// A song that has a path, from which its "real name" is drawn.
pub trait Song<'name>: Sized {
    /// The characters of the song path.
    spec fn path(&self) -> Seq<char>;

    /// The characters of the "real name" of the song, if it has one.
    spec fn real_name(&self) -> Option<Seq<char>>;

    /// Returns the song path.
    fn get_path(&self) -> (path: &'name str)
        ensures
            path@ == self.path(),
    ;

    /// Returns the "real name" of the song, depending on the path.
    fn get_real_name(&self) -> (name: Option<&'name str>)
        ensures
            text_of(name) == self.real_name(),
    ;
}

/// A song whose name is the real name, for testing purposes.
pub struct TestCase<'name> {
    /// The song name.
    pub name: &'name str,
}

impl<'name> Song<'name> for TestCase<'name> {
    open spec fn path(&self) -> Seq<char> {
        self.name@
    }

    open spec fn real_name(&self) -> Option<Seq<char>> {
        Some(self.name@)
    }

    fn get_path(&self) -> (path: &'name str) {
        self.name
    }

    fn get_real_name(&self) -> (name: Option<&'name str>) {
        Some(self.name)
    }
}

impl<'name> From<&'name str> for TestCase<'name> {
    fn from(name: &'name str) -> (song: Self) {
        Self { name }
    }
}

impl<'name> vstd::std_specs::convert::FromSpecImpl<&'name str> for TestCase<'name> {
    open spec fn obeys_from_spec() -> bool {
        true
    }

    open spec fn from_spec(name: &'name str) -> Self {
        Self { name }
    }
}

/// A song compiled into the program.
#[derive(Clone, Copy)]
pub struct Compiled<'name> {
    /// The path to the song before compiling it.
    pub path: &'name str,
    /// The song data.
    pub data: &'static [u8],
}

impl<'name> Compiled<'name> {
    /// Creates a new, empty [`Compiled`] song.
    pub fn new(path: &'name str) -> (song: Self)
        ensures
            song.path == path,
            song.data@ == Seq::<u8>::empty(),
    {
        Self { path, data: &[] }
    }
}

impl<'name> Song<'name> for Compiled<'name> {
    open spec fn path(&self) -> Seq<char> {
        self.path@
    }

    open spec fn real_name(&self) -> Option<Seq<char>> {
        real_name_of(self.path@)
    }

    fn get_path(&self) -> (path: &'name str) {
        self.path
    }

    fn get_real_name(&self) -> (name: Option<&'name str>) {
        get_real_name(self.path)
    }
}

/// A song available in some file.
pub struct File<'name> {
    /// The path to the file containing the song.
    pub path: &'name str,
}

impl<'name> Song<'name> for File<'name> {
    open spec fn path(&self) -> Seq<char> {
        self.path@
    }

    open spec fn real_name(&self) -> Option<Seq<char>> {
        real_name_of(self.path@)
    }

    fn get_path(&self) -> (path: &'name str) {
        self.path
    }

    fn get_real_name(&self) -> (name: Option<&'name str>) {
        get_real_name(self.path)
    }
}

/// A song available on the web.
pub struct Web<'name> {
    /// The URL of the song.
    pub url: &'name str,
    /// The fetched song data: empty as long as the song was not fetched.
    pub data: Vec<u8>,
}

impl<'name> Web<'name> {
    /// Creates a new [`Web`] song, which is not fetched yet.
    pub fn new(url: &'name str) -> (song: Self)
        ensures
            song.url == url,
            song.data@ == Seq::<u8>::empty(),
    {
        Self { url, data: Vec::new() }
    }

    /// Tells whether the song data is to be fetched: it is, as long as none is held.
    pub fn needs_fetch(&self) -> (needed: bool)
        ensures
            needed == (self.data@.len() == 0),
    {
        self.data.len() == 0
    }
}

impl<'name> Song<'name> for Web<'name> {
    open spec fn path(&self) -> Seq<char> {
        self.url@
    }

    open spec fn real_name(&self) -> Option<Seq<char>> {
        real_name_of(self.url@)
    }

    fn get_path(&self) -> (path: &'name str) {
        self.url
    }

    fn get_real_name(&self) -> (name: Option<&'name str>) {
        get_real_name(self.url)
    }
}

} // verus!
