//! The service: configuration, access levels, the anti-raid teapot mode and
//! the operations that the HTTP layer maps onto.
use std::collections::BTreeMap;
use vstd::prelude::*;

pub use crate::text::{sanitize, smart_split};
use crate::text::{decimal, lemma_split_on_nonempty, sentence_end, push_all, push_decimal, sanitized, sentences_cuttable, split_sentences};
use crate::time::{Duration, Timestamp, nanos_per_sec};

verus! {

// ---------------------------------------------------------------------------
// Configuration, access, errors
// ---------------------------------------------------------------------------

/// Limits and secrets of a service.
#[derive(Clone, Debug)]
pub struct AppConfig {
    /// How many sentences of one request are spoken at most.
    pub max_sentence_len: usize,
    /// How many bytes of one sentence are spoken at most.
    pub max_api_str_len: usize,
    /// The volume that a privileged critical request sets first.
    pub privileged_volume: u8,
    /// The key that grants privileged access.
    pub super_secret_key: String,
}

impl Default for AppConfig {
    fn default() -> (c: Self)
        ensures
            c.max_sentence_len == 16,
            c.max_api_str_len == 200,
            c.privileged_volume == 80,
            c.super_secret_key@ == "change-me"@,
    {
        AppConfig {
            max_sentence_len: 16,
            max_api_str_len: 200,
            privileged_volume: 80,
            super_secret_key: "change-me".to_owned(),
        }
    }
}

/// Who is asking.
#[derive(Clone, Copy, Debug, PartialEq, Eq, Structural)]
pub enum AccessLevel {
    Public,
    Privileged,
}

/// What a teapot request asks for.
#[derive(Clone, Copy, Debug, PartialEq, Eq, Structural)]
pub enum TeapotRequest {
    On,
    Off,
    Permanent,
}

/// Why a request was not carried out.
#[derive(Debug)]
pub enum CringeError {
    /// Refused: the teapot mode is on, or the access level is too low.
    Forbidden(String),
    /// The request itself is malformed.
    InvalidInput(String),
    /// The audio backend failed.
    Backend(String),
}

impl CringeError {
    /// The HTTP status that answers this error: 418 for a refusal, 400 for
    /// bad input, 500 for a backend failure.
    pub fn status_code(&self) -> (code: u16)
        ensures
            code == match self {
                CringeError::Forbidden(_) => 418u16,
                CringeError::InvalidInput(_) => 400u16,
                CringeError::Backend(_) => 500u16,
            },
    {
        match self {
            CringeError::Forbidden(_) => 418,
            CringeError::InvalidInput(_) => 400,
            CringeError::Backend(_) => 500,
        }
    }

    /// The text that goes with the error.
    pub fn message(&self) -> (m: &String)
        ensures
            m == match self {
                CringeError::Forbidden(m) => m,
                CringeError::InvalidInput(m) => m,
                CringeError::Backend(m) => m,
            },
    {
        match self {
            CringeError::Forbidden(m) => m,
            CringeError::InvalidInput(m) => m,
            CringeError::Backend(m) => m,
        }
    }
}

/// Turns what a backend call returned into the service's result: a backend
/// error becomes `CringeError::Backend` with the same text.
pub fn from_backend<T>(r: Result<T, String>) -> (out: Result<T, CringeError>)
    ensures
        out == lifted(r),
{
    match r {
        Ok(v) => Ok(v),
        Err(m) => Err(CringeError::Backend(m)),
    }
}

// ---------------------------------------------------------------------------
// Platform traits
// ---------------------------------------------------------------------------

/// The hardware side: speech, playback and volume. Implementations decide
/// what each call returns; each says, by a relation of its own, which
/// outcomes it may give for which arguments; one that says nothing may give
/// any outcome. The service passes the outcome on.
pub trait AudioBackend {
    /// Whether `r` may come of speaking `text` in language `lang`.
    closed spec fn speak_outcome(&self, text: Seq<char>, lang: Seq<char>, r: Result<(), String>) -> bool {
        true
    }

    /// Whether `r` may come of playing file `file` of `category`.
    closed spec fn play_outcome(&self, category: Seq<char>, file: Seq<char>, r: Result<(), String>) -> bool {
        true
    }

    /// Whether `r` may come of stopping all playback.
    closed spec fn stop_outcome(&self, r: Result<(), String>) -> bool {
        true
    }

    /// Whether `r` may come of reading the volume.
    closed spec fn get_volume_outcome(&self, r: Result<u8, String>) -> bool {
        true
    }

    /// Whether `r` may come of setting the volume to `volume`.
    closed spec fn set_volume_outcome(&self, volume: u8, r: Result<(), String>) -> bool {
        true
    }

    /// Whether `r` may come of listing the audio files.
    closed spec fn list_outcome(&self, r: Result<BTreeMap<String, Vec<String>>, String>) -> bool {
        true
    }

    fn speak(&self, text: &str, lang: &str) -> (r: Result<(), String>)
        ensures
            self.speak_outcome(text@, lang@, r),
    ;

    fn play_file(&self, category: &str, filename_no_ext: &str) -> (r: Result<(), String>)
        ensures
            self.play_outcome(category@, filename_no_ext@, r),
    ;

    fn stop_all(&self) -> (r: Result<(), String>)
        ensures
            self.stop_outcome(r),
    ;

    fn get_volume(&self) -> (r: Result<u8, String>)
        ensures
            self.get_volume_outcome(r),
    ;

    fn set_volume(&self, volume_percent: u8) -> (r: Result<(), String>)
        ensures
            self.set_volume_outcome(volume_percent, r),
    ;

    fn list_audio_files(&self) -> (r: Result<BTreeMap<String, Vec<String>>, String>)
        ensures
            self.list_outcome(r),
    ;
}

/// Picks a language code for a text. Each detector says, by a relation of
/// its own, which answers it may give for which text; one that says nothing
/// may give any answer.
pub trait LanguageDetector {
    /// Whether `lang` may be the answer for `text`.
    closed spec fn detects(&self, text: Seq<char>, lang: Seq<char>) -> bool {
        true
    }

    fn detect(&self, text: &str) -> (lang: String)
        ensures
            self.detects(text@, lang@),
    ;
}

/// The outcome of a run of speech requests that stops at the first
/// failure: all sentences spoken, or the first ones spoken and the next one
/// failed with the error returned.
pub open spec fn speech_outcome<B: AudioBackend>(
    backend: B,
    sentences: Seq<Seq<char>>,
    lang: Seq<char>,
    r: Result<(), String>,
) -> bool {
    match r {
        Ok(_) => forall|k: int|
            0 <= k < sentences.len() ==> #[trigger] backend.speak_outcome(
                sentences[k],
                lang,
                Ok(()),
            ),
        Err(m) => exists|j: int|
            0 <= j < sentences.len() && #[trigger] backend.speak_outcome(
                sentences[j],
                lang,
                Err(m),
            ) && forall|k: int|
                0 <= k < j ==> #[trigger] backend.speak_outcome(sentences[k], lang, Ok(())),
    }
}

/// The view of an optional text.
pub open spec fn opt_view(o: Option<&str>) -> Option<Seq<char>> {
    match o {
        Some(s) => Some(s@),
        None => None,
    }
}

/// The language the audio worker speaks in: the sanitised override, or
/// else English.
pub open spec fn worker_language(lang_override: Option<Seq<char>>) -> Seq<char> {
    match lang_override {
        Some(l) => sanitized(l),
        None => "en"@,
    }
}

/// A backend result as the service returns it: an error becomes
/// `CringeError::Backend` with the same text.
pub open spec fn lifted<T>(r: Result<T, String>) -> Result<T, CringeError> {
    match r {
        Ok(v) => Ok(v),
        Err(m) => Err(CringeError::Backend(m)),
    }
}

/// A detector that always answers English.
pub struct FallbackLanguageDetector;

impl LanguageDetector for FallbackLanguageDetector {
    open spec fn detects(&self, text: Seq<char>, lang: Seq<char>) -> bool {
        lang == "en"@
    }

    fn detect(&self, _text: &str) -> (lang: String)
        ensures
            lang@ == "en"@,
    {
        "en".to_owned()
    }
}

// ---------------------------------------------------------------------------
// Teapot mode
// ---------------------------------------------------------------------------

/// Seconds of a permanent teapot mode: 69 days.
pub open spec fn permanent_teapot_secs() -> int {
    5_961_600
}

/// Seconds of an escalated teapot mode: 4 hours.
pub open spec fn escalated_teapot_secs() -> int {
    14_400
}

/// Seconds of a first teapot mode: 15 minutes.
pub open spec fn short_teapot_secs() -> int {
    900
}

/// A new teapot request escalates when it comes less than this many
/// seconds after the previous deadline: 20 minutes.
pub open spec fn escalation_window_secs() -> int {
    1200
}

/// Whether the teapot mode with this deadline is on at `now`.
pub open spec fn teapot_active(deadline: Option<int>, now: int) -> bool {
    match deadline {
        Some(d) => now < d,
        None => false,
    }
}

/// How long the teapot mode with this deadline still lasts at `now`.
pub open spec fn teapot_remaining(deadline: Option<int>, now: int) -> nat {
    match deadline {
        Some(d) => if now < d {
            (d - now) as nat
        } else {
            0
        },
        None => 0,
    }
}

/// Whether a request at `now` follows the previous deadline closely enough
/// to escalate: less than 20 minutes later, counted in whole seconds since
/// the epoch.
pub open spec fn escalates(prev: Option<int>, now: int) -> bool {
    match prev {
        Some(p) => Timestamp::unix_secs_of(now) - Timestamp::unix_secs_of(p)
            < escalation_window_secs(),
        None => false,
    }
}

/// The deadline that a teapot request at `now` sets.
pub open spec fn next_deadline(prev: Option<int>, now: int, permanent: bool) -> int {
    if permanent {
        now + permanent_teapot_secs() * nanos_per_sec()
    } else if escalates(prev, now) {
        now + escalated_teapot_secs() * nanos_per_sec()
    } else {
        now + short_teapot_secs() * nanos_per_sec()
    }
}

/// The teapot mode: a deadline before which public requests are refused.
#[derive(Clone, Debug)]
pub struct TeapotMode {
    unmute_at: Option<Timestamp>,
}

impl View for TeapotMode {
    type V = Option<int>;

    /// The deadline, in nanoseconds since the epoch, if there is one.
    closed spec fn view(&self) -> Option<int> {
        match self.unmute_at {
            Some(t) => Some(t@),
            None => None,
        }
    }
}

impl Default for TeapotMode {
    /// A mode whose deadline is the epoch: off for every later time.
    fn default() -> (t: Self)
        ensures
            t@ == Some(0int),
    {
        TeapotMode { unmute_at: Some(Timestamp::unix_epoch()) }
    }
}

/// Whole seconds since the epoch, zero before it.
fn unix_seconds(ts: Timestamp) -> (s: i64)
    ensures
        s == Timestamp::unix_secs_of(ts@),
{
    let whole = ts.secs();
    match ts.duration_since(&Timestamp::unix_epoch()) {
        Some(d) => {
            let secs = d.as_secs();
            assert(secs == whole);
            secs as i64
        },
        None => 0,
    }
}

/// The difference in whole seconds since the epoch of two points.
fn signed_diff_seconds(left: Timestamp, right: Timestamp) -> (d: i64)
    ensures
        d == Timestamp::unix_secs_of(left@) - Timestamp::unix_secs_of(right@),
{
    let left_s = unix_seconds(left);
    let right_s = unix_seconds(right);
    left_s - right_s
}

impl TeapotMode {
    /// Whether the mode is on at `now`.
    pub fn in_teapot_mode(&self, now: Timestamp) -> (b: bool)
        ensures
            b == teapot_active(self@, now@),
    {
        match self.unmute_at {
            Some(deadline) => now.is_before(&deadline),
            None => false,
        }
    }

    /// How long the mode still lasts at `now` (zero when it is off).
    pub fn get_remaining(&self, now: Timestamp) -> (d: Duration)
        ensures
            d@ == teapot_remaining(self@, now@),
    {
        match self.unmute_at {
            Some(deadline) => {
                if now.is_before(&deadline) {
                    match deadline.duration_since(&now) {
                        Some(d) => d,
                        None => Duration::zero(),
                    }
                } else {
                    Duration::zero()
                }
            },
            None => Duration::zero(),
        }
    }

    /// Switches the mode off.
    pub fn disable(&mut self)
        ensures
            final(self)@ == None::<int>,
    {
        self.unmute_at = None;
    }

    /// Switches the mode on at `now`: for 69 days when `permanent`, else for
    /// 4 hours when the previous deadline lies less than 20 minutes back (or
    /// ahead), else for 15 minutes.
    pub fn set(&mut self, now: Timestamp, permanent: bool)
        requires
            next_deadline(old(self)@, now@, permanent) <= Timestamp::max_nanos(),
        ensures
            final(self)@ == Some(next_deadline(old(self)@, now@, permanent)),
    {
        if permanent {
            self.unmute_at = Some(now.add_duration(Duration::from_secs(69 * 24 * 60 * 60)));
            return;
        }
        let escalate = match self.unmute_at {
            Some(prev) => signed_diff_seconds(now, prev) < 20 * 60,
            None => false,
        };
        self.unmute_at = if escalate {
            Some(now.add_duration(Duration::from_secs(4 * 60 * 60)))
        } else {
            Some(now.add_duration(Duration::from_secs(15 * 60)))
        };
    }
}

// ---------------------------------------------------------------------------
// Laws of the teapot mode
// ---------------------------------------------------------------------------

/// The mode is on exactly when time remains.
pub proof fn lemma_active_iff_time_remains(deadline: Option<int>, now: int)
    ensures
        teapot_active(deadline, now) <==> teapot_remaining(deadline, now) > 0,
{
}

/// A disabled mode is off at every time.
pub proof fn lemma_disabled_is_off(now: int)
    ensures
        !teapot_active(None, now),
        teapot_remaining(None, now) == 0,
{
}

/// Right after a teapot request the mode is on, and lasts 69 days when
/// permanent, 4 hours when escalated, 15 minutes otherwise.
pub proof fn lemma_set_turns_on(prev: Option<int>, now: int, permanent: bool)
    ensures
        teapot_active(Some(next_deadline(prev, now, permanent)), now),
        teapot_remaining(Some(next_deadline(prev, now, permanent)), now) == (if permanent {
            permanent_teapot_secs()
        } else if escalates(prev, now) {
            escalated_teapot_secs()
        } else {
            short_teapot_secs()
        }) * nanos_per_sec(),
{
}

/// A second request, made at or after the epoch within 35 minutes (in
/// whole seconds since the epoch) of a first one, that is, within 20
/// minutes of the end of a first 15-minute mode, is escalated to 4 hours.
pub proof fn lemma_repeat_escalates(prev: Option<int>, first: int, second: int)
    requires
        0 <= first <= second,
        Timestamp::unix_secs_of(second) - Timestamp::unix_secs_of(first) < short_teapot_secs()
            + escalation_window_secs(),
    ensures
        next_deadline(Some(next_deadline(prev, first, false)), second, false) == second
            + escalated_teapot_secs() * nanos_per_sec(),
{
    let d = next_deadline(prev, first, false);
    let n = nanos_per_sec();
    assert(d >= first + short_teapot_secs() * n);
    assert(Timestamp::unix_secs_of(d) >= Timestamp::unix_secs_of(first) + short_teapot_secs())
        by (nonlinear_arith)
        requires
            d >= first + 900 * 1_000_000_000,
            first >= 0,
            n == 1_000_000_000,
            Timestamp::unix_secs_of(d) == d / n,
            Timestamp::unix_secs_of(first) == first / n,
            short_teapot_secs() == 900,
    ;
}

/// A request made at or after the epoch while the mode is on escalates.
pub proof fn lemma_request_during_mode_escalates(deadline: int, now: int)
    requires
        0 <= now,
        teapot_active(Some(deadline), now),
    ensures
        escalates(Some(deadline), now),
{
    let n = nanos_per_sec();
    assert(now / n <= deadline / n) by (nonlinear_arith)
        requires
            0 <= now < deadline,
            n == 1_000_000_000,
    ;
}

/// A teapot request with no deadline set (a fresh mode, or one that was
/// switched off) never escalates: it turns the mode on for exactly 15
/// minutes from `now`.
pub proof fn lemma_fresh_request_lasts_fifteen_minutes(now: int)
    ensures
        !escalates(None, now),
        next_deadline(None, now, false) == now + 900 * 1_000_000_000,
        teapot_remaining(Some(next_deadline(None, now, false)), now) == 900 * 1_000_000_000,
{
}

/// Escalation always follows an earlier deadline.
pub proof fn lemma_escalation_needs_a_deadline(prev: Option<int>, now: int)
    ensures
        escalates(prev, now) ==> prev is Some,
        next_deadline(prev, now, false) == now + 14_400 * 1_000_000_000 ==> prev is Some,
{
}

/// A request that comes 20 minutes (in whole seconds since the epoch) or
/// more after the previous deadline is not escalated: 15 minutes again.
pub proof fn lemma_late_request_lasts_fifteen_minutes(prev: int, now: int)
    requires
        Timestamp::unix_secs_of(now) >= Timestamp::unix_secs_of(prev) + 1200,
    ensures
        !escalates(Some(prev), now),
        next_deadline(Some(prev), now, false) == now + 900 * 1_000_000_000,
{
}

/// A request made at or after the epoch while the mode is still on turns
/// it on for 4 hours from `now`.
pub proof fn lemma_request_during_mode_lasts_four_hours(deadline: int, now: int)
    requires
        0 <= now < deadline,
    ensures
        next_deadline(Some(deadline), now, false) == now + 14_400 * 1_000_000_000,
{
    lemma_request_during_mode_escalates(deadline, now);
}

/// A permanent request lasts 69 days from `now`, whatever came before.
pub proof fn lemma_permanent_lasts_69_days(prev: Option<int>, now: int)
    ensures
        next_deadline(prev, now, true) == now + 69 * 24 * 60 * 60 * 1_000_000_000,
{
}

// ---------------------------------------------------------------------------
// Speech plans
// ---------------------------------------------------------------------------

/// The sentences that a request to say `saying` speaks: those of the
/// sanitised text, each cut to `max_api_str_len` bytes, at most
/// `max_sentence_len` of them.
pub open spec fn spoken_sentences(
    saying: Seq<char>,
    max_api_str_len: nat,
    max_sentence_len: nat,
) -> Seq<Seq<char>> {
    let all = split_sentences(sanitized(saying), max_api_str_len);
    if all.len() <= max_sentence_len {
        all
    } else {
        all.take(max_sentence_len as int)
    }
}

/// The sentences spoken are the first ones of the text, in order: the first
/// `max_sentence_len` sentences of the sanitised text (all of them when there
/// are no more), each cut to `max_api_str_len` bytes.
pub proof fn lemma_spoken_sentences_are_the_first(
    saying: Seq<char>,
    max_api_str_len: nat,
    max_sentence_len: nat,
)
    ensures
        ({
            let all = split_sentences(sanitized(saying), max_api_str_len);
            let spoken = spoken_sentences(saying, max_api_str_len, max_sentence_len);
            &&& spoken.len() == (if all.len() <= max_sentence_len {
                all.len()
            } else {
                max_sentence_len
            })
            &&& forall|k: int| 0 <= k < spoken.len() ==> #[trigger] spoken[k] == all[k]
        }),
{
}

/// Whether a request to say `saying` stays within the domain of the
/// sentence splitter.
pub open spec fn speakable(saying: Seq<char>, max_api_str_len: nat) -> bool {
    sentences_cuttable(sanitized(saying), max_api_str_len)
}

/// The sentences to speak for `saying` and the language to speak them in:
/// the sanitised override where one is given, else `None`, which leaves the
/// choice to a detector.
pub fn plan_speech(
    saying: &str,
    lang_override: Option<&str>,
    max_api_str_len: usize,
    max_sentence_len: usize,
) -> (plan: (Vec<String>, Option<String>))
    requires
        speakable(saying@, max_api_str_len as nat),
    ensures
        plan.0@.len() == spoken_sentences(
            saying@,
            max_api_str_len as nat,
            max_sentence_len as nat,
        ).len(),
        forall|k: int|
            0 <= k < plan.0@.len() ==> #[trigger] plan.0@[k]@ == spoken_sentences(
                saying@,
                max_api_str_len as nat,
                max_sentence_len as nat,
            )[k],
        match lang_override {
            Some(l) => plan.1 matches Some(s) && s@ == sanitized(l@),
            None => plan.1 is None,
        },
{
    let saying_sane = sanitize(saying);
    let mut sentences = smart_split(saying_sane.as_str(), max_api_str_len);
    let ghost all = split_sentences(sanitized(saying@), max_api_str_len as nat);
    if sentences.len() > max_sentence_len {
        sentences.truncate(max_sentence_len);
    }
    assert forall|k: int| 0 <= k < sentences@.len() implies #[trigger] sentences@[k]@
        == spoken_sentences(saying@, max_api_str_len as nat, max_sentence_len as nat)[k] by {
        assert(sentences@[k]@ == all[k]);
    }
    let lang = match lang_override {
        Some(l) => Some(sanitize(l)),
        None => None,
    };
    (sentences, lang)
}

/// The message that refuses a request while the teapot mode lasts
/// `secs` more seconds.
pub open spec fn teapot_refusal(secs: nat) -> Seq<char> {
    "I'm sorry, I'm a teapot for next "@ + decimal(secs) + "s"@
}

/// The message that refuses a volume above 100%.
pub open spec fn volume_refusal(volume: nat) -> Seq<char> {
    "invalid volume requested: "@ + decimal(volume) + "%"@
}

// ---------------------------------------------------------------------------
// The service
// ---------------------------------------------------------------------------

/// The service: configuration and teapot state around a backend and a
/// language detector.
pub struct CringeService<B: AudioBackend, D: LanguageDetector> {
    pub config: AppConfig,
    pub teapot: TeapotMode,
    pub backend: B,
    pub detector: D,
}

impl<B: AudioBackend, D: LanguageDetector> CringeService<B, D> {
    /// The configuration.
    pub open spec fn config_spec(&self) -> AppConfig {
        self.config
    }

    /// The teapot mode.
    pub open spec fn teapot_spec(&self) -> TeapotMode {
        self.teapot
    }

    /// The backend the service drives.
    pub open spec fn backend_spec(&self) -> B {
        self.backend
    }

    /// The detector the service asks.
    pub open spec fn detector_spec(&self) -> D {
        self.detector
    }

    /// A service with the teapot mode off (its deadline at the epoch).
    pub fn new(config: AppConfig, backend: B, detector: D) -> (svc: Self)
        ensures
            svc.config_spec() == config,
            svc.teapot_spec()@ == Some(0int),
            svc.backend_spec() == backend,
            svc.detector_spec() == detector,
    {
        CringeService { config, teapot: TeapotMode::default(), backend, detector }
    }

    /// Privileged exactly when the key given equals the configured secret.
    pub fn resolve_access(&self, super_secret_key: Option<&str>) -> (a: AccessLevel)
        ensures
            a == if super_secret_key matches Some(k) && k@ == self.config_spec().super_secret_key@ {
                AccessLevel::Privileged
            } else {
                AccessLevel::Public
            },
    {
        match super_secret_key {
            Some(key) => {
                let key_owned = key.to_owned();
                if key_owned == self.config.super_secret_key {
                    AccessLevel::Privileged
                } else {
                    AccessLevel::Public
                }
            },
            None => AccessLevel::Public,
        }
    }

    /// Admits or refuses a request. A privileged critical request first sets
    /// the privileged volume, and fails with the backend's error if that
    /// fails. Then a public request is refused while the teapot mode is on,
    /// with the seconds left in the message; everything else is admitted.
    pub fn guard_request(&mut self, access: AccessLevel, now: Timestamp, critical: bool) -> (r:
        Result<(), CringeError>)
        ensures
            *final(self) == *old(self),
            !(access == AccessLevel::Privileged && critical) ==> if teapot_active(
                old(self).teapot_spec()@,
                now@,
            ) && access == AccessLevel::Public {
                r matches Err(CringeError::Forbidden(m)) && m@ == teapot_refusal(
                    teapot_remaining(old(self).teapot_spec()@, now@) / 1_000_000_000,
                )
            } else {
                r is Ok
            },
            access == AccessLevel::Privileged && critical ==> exists|out: Result<(), String>|
                #[trigger] old(self).backend_spec().set_volume_outcome(
                    old(self).config_spec().privileged_volume,
                    out,
                ) && r == lifted(out),
    {
        if access == AccessLevel::Privileged && critical {
            let volume = self.config.privileged_volume;
            let out = self.backend.set_volume(volume);
            assert(old(self).backend_spec().set_volume_outcome(
                old(self).config_spec().privileged_volume,
                out,
            ));
            match out {
                Ok(u) => {
                    assert(u == ());
                    assert(lifted(out) == Ok::<(), CringeError>(()));
                    return Ok(());
                },
                Err(m) => {
                    return Err(CringeError::Backend(m));
                },
            }
        }
        if self.teapot.in_teapot_mode(now) && access != AccessLevel::Privileged {
            let left = self.teapot.get_remaining(now).as_secs();
            let mut msg = String::new();
            push_all(&mut msg, "I'm sorry, I'm a teapot for next ");
            push_decimal(&mut msg, left);
            push_all(&mut msg, "s");
            return Err(CringeError::Forbidden(msg));
        }
        Ok(())
    }

    /// Switches the teapot mode: `On` sets it (escalating on repeat), `Off`
    /// disables it, `Permanent` sets it for 69 days when privileged and is
    /// refused otherwise, leaving the mode as it was.
    pub fn teapot_control(&mut self, req: TeapotRequest, access: AccessLevel, now: Timestamp) -> (r:
        Result<&'static str, CringeError>)
        requires
            req == TeapotRequest::On ==> next_deadline(old(self).teapot_spec()@, now@, false)
                <= Timestamp::max_nanos(),
            req == TeapotRequest::Permanent && access == AccessLevel::Privileged ==> next_deadline(
                old(self).teapot_spec()@,
                now@,
                true,
            ) <= Timestamp::max_nanos(),
        ensures
            final(self).config_spec() == old(self).config_spec(),
            final(self).backend_spec() == old(self).backend_spec(),
            final(self).detector_spec() == old(self).detector_spec(),
            match req {
                TeapotRequest::On => {
                    &&& r matches Ok(m) && m@ == "Teapot mode set"@
                    &&& final(self).teapot_spec()@ == Some(next_deadline(old(self).teapot_spec()@, now@, false))
                },
                TeapotRequest::Off => {
                    &&& r matches Ok(m) && m@ == "Teapot mode disabled"@
                    &&& final(self).teapot_spec()@ == None::<int>
                },
                TeapotRequest::Permanent => if access == AccessLevel::Privileged {
                    &&& r matches Ok(m) && m@ == "I'm permanently teapot now."@
                    &&& final(self).teapot_spec()@ == Some(next_deadline(old(self).teapot_spec()@, now@, true))
                } else {
                    &&& r matches Err(CringeError::Forbidden(m)) && m@
                        == "Permanent teapot mode requires privileged access"@
                    &&& final(self).teapot_spec()@ == old(self).teapot_spec()@
                },
            },
    {
        match req {
            TeapotRequest::On => {
                self.teapot.set(now, false);
                Ok("Teapot mode set")
            },
            TeapotRequest::Off => {
                self.teapot.disable();
                Ok("Teapot mode disabled")
            },
            TeapotRequest::Permanent => {
                if access == AccessLevel::Privileged {
                    self.teapot.set(now, true);
                    Ok("I'm permanently teapot now.")
                } else {
                    Err(
                        CringeError::Forbidden(
                            "Permanent teapot mode requires privileged access".to_owned(),
                        ),
                    )
                }
            },
        }
    }

    /// Whether the teapot mode is on at `now`.
    pub fn teapot_status(&self, now: Timestamp) -> (b: bool)
        ensures
            b == teapot_active(self.teapot_spec()@, now@),
    {
        self.teapot.in_teapot_mode(now)
    }

    /// How a request to say `saying` went: the language is the sanitised
    /// override, or else one the detector may pick for the first sentence;
    /// the sentences of `spoken_sentences` went to the backend in that
    /// language with outcome `out`.
    pub open spec fn speak_done(
        &self,
        saying: Seq<char>,
        lang_override: Option<Seq<char>>,
        lang: Seq<char>,
        out: Result<(), String>,
    ) -> bool {
        let max_api = self.config_spec().max_api_str_len as nat;
        &&& match lang_override {
            Some(l) => lang == sanitized(l),
            None => self.detector_spec().detects(split_sentences(sanitized(saying), max_api)[0], lang),
        }
        &&& speech_outcome(
            self.backend_spec(),
            spoken_sentences(saying, max_api, self.config_spec().max_sentence_len as nat),
            lang,
            out,
        )
    }

    /// Speaks `saying`: the sentences of `spoken_sentences`, one backend call
    /// each, in the override language or else in the language the detector
    /// picks for the first sentence. Stops at the first backend failure.
    pub fn speak(&self, saying: &str, lang_override: Option<&str>) -> (r: Result<(), CringeError>)
        requires
            speakable(saying@, self.config_spec().max_api_str_len as nat),
        ensures
            exists|lang: Seq<char>, out: Result<(), String>|
                #[trigger] self.speak_done(saying@, opt_view(lang_override), lang, out) && r
                    == lifted(out),
    {
        let max_api = self.config.max_api_str_len;
        let max_sentences = self.config.max_sentence_len;
        let saying_sane = sanitize(saying);
        let sentences = smart_split(saying_sane.as_str(), max_api);
        let ghost all = split_sentences(sanitized(saying@), max_api as nat);
        let ghost spoken = spoken_sentences(saying@, max_api as nat, max_sentences as nat);
        proof {
            lemma_split_on_nonempty(sanitized(saying@), sentence_end());
        }
        let selected_lang = match lang_override {
            Some(l) => sanitize(l),
            None => self.detector.detect(sentences[0].as_str()),
        };
        let n = if sentences.len() < max_sentences {
            sentences.len()
        } else {
            max_sentences
        };
        assert(spoken.len() == n);
        assert forall|k: int| 0 <= k < n implies #[trigger] spoken[k] == sentences@[k]@ by {
            assert(sentences@[k]@ == all[k]);
        }
        let mut i: usize = 0;
        while i < n
            invariant
                i <= n <= sentences@.len(),
                spoken.len() == n,
                spoken == spoken_sentences(
                    saying@,
                    self.config_spec().max_api_str_len as nat,
                    self.config_spec().max_sentence_len as nat,
                ),
                match lang_override {
                    Some(l) => selected_lang@ == sanitized(l@),
                    None => self.detector_spec().detects(
                        split_sentences(sanitized(saying@), self.config_spec().max_api_str_len as nat)[0],
                        selected_lang@,
                    ),
                },
                forall|k: int| 0 <= k < n ==> #[trigger] spoken[k] == sentences@[k]@,
                forall|k: int|
                    0 <= k < i ==> #[trigger] self.backend_spec().speak_outcome(
                        spoken[k],
                        selected_lang@,
                        Ok(()),
                    ),
            decreases n - i,
        {
            let res = self.backend.speak(sentences[i].as_str(), selected_lang.as_str());
            assert(self.backend_spec().speak_outcome(spoken[i as int], selected_lang@, res));
            match res {
                Ok(u) => {
                    assert(u == ());
                    assert(res == Ok::<(), String>(()));
                },
                Err(m) => {
                    proof {
                        assert(speech_outcome(self.backend_spec(), spoken, selected_lang@, Err(m)))
                            by {
                            assert(self.backend_spec().speak_outcome(
                                spoken[i as int],
                                selected_lang@,
                                Err(m),
                            ));
                        }
                        assert(self.speak_done(
                            saying@,
                            opt_view(lang_override),
                            selected_lang@,
                            Err(m),
                        ));
                    }
                    return Err(CringeError::Backend(m));
                },
            }
            i = i + 1;
        }
        assert(self.speak_done(saying@, opt_view(lang_override), selected_lang@, Ok(())));
        Ok(())
    }

    /// Plays `category/filename_no_ext` with both parts sanitised.
    pub fn play_file(&self, category: &str, filename_no_ext: &str) -> (r: Result<(), CringeError>)
        ensures
            exists|out: Result<(), String>|
                #[trigger] self.backend_spec().play_outcome(
                    sanitized(category@),
                    sanitized(filename_no_ext@),
                    out,
                ) && r == lifted(out),
    {
        let c = sanitize(category);
        let f = sanitize(filename_no_ext);
        let out = self.backend.play_file(c.as_str(), f.as_str());
        assert(self.backend_spec().play_outcome(sanitized(category@), sanitized(filename_no_ext@), out));
        from_backend(out)
    }

    /// Stops everything that plays.
    pub fn stop(&self) -> (r: Result<(), CringeError>)
        ensures
            exists|out: Result<(), String>|
                #[trigger] self.backend_spec().stop_outcome(out) && r == lifted(out),
    {
        let out = self.backend.stop_all();
        assert(self.backend_spec().stop_outcome(out));
        from_backend(out)
    }

    /// The backend's volume.
    pub fn get_volume(&self) -> (r: Result<u8, CringeError>)
        ensures
            exists|out: Result<u8, String>|
                #[trigger] self.backend_spec().get_volume_outcome(out) && r == lifted(out),
    {
        let out = self.backend.get_volume();
        assert(self.backend_spec().get_volume_outcome(out));
        from_backend(out)
    }

    /// Sets the volume; a value above 100 is refused before the backend is
    /// asked.
    pub fn set_volume(&self, volume_percent: u8) -> (r: Result<(), CringeError>)
        ensures
            volume_percent > 100 ==> (r matches Err(CringeError::InvalidInput(m)) && m@
                == volume_refusal(volume_percent as nat)),
            volume_percent <= 100 ==> exists|out: Result<(), String>|
                #[trigger] self.backend_spec().set_volume_outcome(volume_percent, out) && r
                    == lifted(out),
    {
        if volume_percent > 100 {
            let mut msg = String::new();
            push_all(&mut msg, "invalid volume requested: ");
            push_decimal(&mut msg, volume_percent as u64);
            push_all(&mut msg, "%");
            return Err(CringeError::InvalidInput(msg));
        }
        let out = self.backend.set_volume(volume_percent);
        assert(self.backend_spec().set_volume_outcome(volume_percent, out));
        from_backend(out)
    }

    /// The audio files by category.
    pub fn list_files(&self) -> (r: Result<BTreeMap<String, Vec<String>>, CringeError>)
        ensures
            exists|out: Result<BTreeMap<String, Vec<String>>, String>|
                #[trigger] self.backend_spec().list_outcome(out) && r == lifted(out),
    {
        let out = self.backend.list_audio_files();
        assert(self.backend_spec().list_outcome(out));
        from_backend(out)
    }
}

/// The audio worker speaks as the service does with the fallback
/// detector: for a service with that detector, a request to say `saying`
/// goes exactly as `queue_speak` states for the worker, in the worker's
/// language (the sanitised override, or else English) and with the same
/// sentences and outcomes.
pub proof fn lemma_worker_speaks_like_service<B: AudioBackend>(
    svc: CringeService<B, FallbackLanguageDetector>,
    saying: Seq<char>,
    lang_override: Option<Seq<char>>,
    lang: Seq<char>,
    out: Result<(), String>,
)
    ensures
        svc.speak_done(saying, lang_override, lang, out) <==> (lang == worker_language(lang_override)
            && speech_outcome(
            svc.backend_spec(),
            spoken_sentences(
                saying,
                svc.config_spec().max_api_str_len as nat,
                svc.config_spec().max_sentence_len as nat,
            ),
            lang,
            out,
        )),
{
}

} // verus!
