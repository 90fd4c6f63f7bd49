//! An in-memory backend that records what it is asked, and a detector that
//! always answers the same language.
use std::collections::BTreeMap;
use std::rc::Rc;
use vstd::cell::invcell::InvCell;
use vstd::predicate::Predicate;
use vstd::prelude::*;

use crate::service::{AudioBackend, LanguageDetector};

verus! {

/// What a `MockBackend` has been asked so far.
#[derive(Clone, Debug)]
pub struct MockState {
    /// `(text, language)` of every speech request, in order.
    pub spoken: Vec<(String, String)>,
    /// `(category, file name)` of every playback request, in order.
    pub played: Vec<(String, String)>,
    /// How many stop requests came.
    pub stopped: usize,
    /// The volume last set.
    pub volume: u8,
    /// The files the backend lists.
    pub files: BTreeMap<String, Vec<String>>,
}

impl Default for MockState {
    fn default() -> (s: Self)
        ensures
            s.spoken@.len() == 0,
            s.played@.len() == 0,
            s.stopped == 0,
            s.volume == 0,
            s.files@ == Map::<String, Vec<String>>::empty(),
    {
        MockState {
            spoken: Vec::new(),
            played: Vec::new(),
            stopped: 0,
            volume: 0,
            files: BTreeMap::new(),
        }
    }
}

/// Any recorded state is allowed.
pub struct AnyMockState;

impl Predicate<MockState> for AnyMockState {
    open spec fn predicate(&self, s: MockState) -> bool {
        true
    }
}

/// An in-memory backend. Clones share one record, so a test can keep a
/// clone, or the handle that `state` gives, and look at what the service
/// asked of the other; writes through the handle reach the backend.
#[derive(Clone)]
pub struct MockBackend {
    state: Rc<InvCell<MockState, AnyMockState>>,
}

impl MockBackend {
    /// The shared record.
    pub closed spec fn record(&self) -> Rc<InvCell<MockState, AnyMockState>> {
        self.state
    }

    /// A backend with an empty record and no files.
    pub fn new() -> (b: Self) {
        MockBackend {
            state: Rc::new(InvCell::new(MockState::default(), Ghost(AnyMockState))),
        }
    }

    /// A backend with an empty record that lists `files`.
    pub fn with_files(files: BTreeMap<String, Vec<String>>) -> (b: Self) {
        let mut s = MockState::default();
        s.files = files;
        MockBackend { state: Rc::new(InvCell::new(s, Ghost(AnyMockState))) }
    }

    /// The shared record: a handle that reads and writes what this backend
    /// and its clones see.
    pub fn state(&self) -> (h: Rc<InvCell<MockState, AnyMockState>>)
        ensures
            h == self.record(),
    {
        self.state.clone()
    }

    fn take(&self) -> (s: MockState) {
        self.state.replace(MockState::default())
    }

    fn put(&self, s: MockState) {
        self.state.set(s);
    }
}

impl Default for MockBackend {
    fn default() -> (b: Self) {
        MockBackend::new()
    }
}

impl AudioBackend for MockBackend {
    /// The backend never fails.
    open spec fn speak_outcome(&self, text: Seq<char>, lang: Seq<char>, r: Result<(), String>) -> bool {
        r is Ok
    }

    open spec fn play_outcome(&self, category: Seq<char>, file: Seq<char>, r: Result<(), String>) -> bool {
        r is Ok
    }

    open spec fn stop_outcome(&self, r: Result<(), String>) -> bool {
        r is Ok
    }

    open spec fn get_volume_outcome(&self, r: Result<u8, String>) -> bool {
        r is Ok
    }

    open spec fn set_volume_outcome(&self, volume: u8, r: Result<(), String>) -> bool {
        r is Ok
    }

    open spec fn list_outcome(&self, r: Result<BTreeMap<String, Vec<String>>, String>) -> bool {
        r is Ok
    }

    fn speak(&self, text: &str, lang: &str) -> (r: Result<(), String>)
        ensures
            r is Ok,
    {
        let mut s = self.take();
        s.spoken.push((text.to_owned(), lang.to_owned()));
        self.put(s);
        Ok(())
    }

    fn play_file(&self, category: &str, filename_no_ext: &str) -> (r: Result<(), String>)
        ensures
            r is Ok,
    {
        let mut s = self.take();
        s.played.push((category.to_owned(), filename_no_ext.to_owned()));
        self.put(s);
        Ok(())
    }

    fn stop_all(&self) -> (r: Result<(), String>)
        ensures
            r is Ok,
    {
        let mut s = self.take();
        s.stopped = s.stopped.saturating_add(1);
        self.put(s);
        Ok(())
    }

    fn get_volume(&self) -> (r: Result<u8, String>)
        ensures
            r is Ok,
    {
        let s = self.take();
        let v = s.volume;
        self.put(s);
        Ok(v)
    }

    fn set_volume(&self, volume_percent: u8) -> (r: Result<(), String>)
        ensures
            r is Ok,
    {
        let mut s = self.take();
        s.volume = volume_percent;
        self.put(s);
        Ok(())
    }

    fn list_audio_files(&self) -> (r: Result<BTreeMap<String, Vec<String>>, String>)
        ensures
            r is Ok,
    {
        let s = self.take();
        let files = s.files.clone();
        self.put(s);
        Ok(files)
    }
}

/// A detector that always answers the language it was made with.
pub struct FixedLanguageDetector {
    lang: String,
}

impl FixedLanguageDetector {
    /// The language this detector answers.
    pub closed spec fn lang_spec(&self) -> Seq<char> {
        self.lang@
    }

    /// A detector answering `lang`.
    pub fn new(lang: &str) -> (d: Self)
        ensures
            d.lang_spec() == lang@,
    {
        FixedLanguageDetector { lang: lang.to_owned() }
    }
}

impl LanguageDetector for FixedLanguageDetector {
    open spec fn detects(&self, text: Seq<char>, lang: Seq<char>) -> bool {
        lang == self.lang_spec()
    }

    fn detect(&self, _text: &str) -> (lang: String)
        ensures
            lang@ == self.lang_spec(),
    {
        self.lang.clone()
    }
}

} // verus!
