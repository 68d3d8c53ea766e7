//! The command line: its arguments, how they adjust the settings, what each
//! command prints, and the decisions of the round trip
//! text -> speech -> AVS -> transcript.
use crate::cache::{blake3_digest, hex_lower, key_for};
use crate::config::{region_named, Config, ConfigView, Region, Voice};
use crate::json::{json_quote, push_quoted};
use crate::remote::{opt_view, strings_view, Device};
use crate::text::{
    chars_of, eq_ignore_case, eq_ignore_case_exec, push_str_chars, string_of, trim, trim_chars,
};
use vstd::prelude::*;

verus! {

/// The parsed command line.
pub struct Cli {
    /// Text to send to Alexa; `-` reads it from standard input.
    pub text: Option<String>,
    pub command: Option<Command>,
    pub verbose: bool,
    /// AVS gateway region: na|eu|fe.
    pub region: Option<String>,
    /// TTS backend: piper|espeak.
    pub voice: Option<String>,
    /// Whisper model, e.g. base.en.
    pub model: Option<String>,
    pub keep_artifacts: bool,
    /// Directory for the artifacts (implies keeping them).
    pub output: Option<String>,
    pub json: bool,
    pub no_cache: bool,
}

/// The subcommands.
pub enum Command {
    Configure,
    Login,
    Doctor,
    Devices,
    Announce { message: String, device: Option<String>, all: bool, title: Option<String> },
    Say { message: String, device: String },
    History { size: usize, device: Option<String> },
    AnnounceLogin,
    AnnounceAuth { refresh_token: Option<String>, cookie: Option<String> },
}

/// The backend a `--voice` value selects: `espeak` in any ASCII case, Piper
/// otherwise.
pub open spec fn voice_named(v: Seq<char>) -> Voice {
    if eq_ignore_case(v, "espeak"@) {
        Voice::Espeak
    } else {
        Voice::Piper
    }
}

/// The settings with the command-line overrides applied.
pub open spec fn with_overrides(
    c: ConfigView,
    region: Option<Seq<char>>,
    voice: Option<Seq<char>>,
    model: Option<Seq<char>>,
) -> ConfigView {
    ConfigView {
        region: match region {
            Some(r) => region_named(r),
            None => c.region,
        },
        voice: match voice {
            Some(v) => voice_named(v),
            None => c.voice,
        },
        model: match model {
            Some(m) => m,
            None => c.model,
        },
        ..c
    }
}

/// The backend named by `v`.
pub fn voice_from_name(v: &str) -> (r: Voice)
    ensures
        r == voice_named(v@),
{
    let a = chars_of(v);
    let b = chars_of("espeak");
    if eq_ignore_case_exec(a.as_slice(), b.as_slice()) {
        Voice::Espeak
    } else {
        Voice::Piper
    }
}

/// Applies `--region`, `--voice` and `--model` to the settings.
pub fn apply_overrides(cli: &Cli, cfg: &mut Config)
    ensures
        final(cfg)@ == with_overrides(
            old(cfg)@,
            opt_view(cli.region),
            opt_view(cli.voice),
            opt_view(cli.model),
        ),
{
    if let Some(r) = &cli.region {
        cfg.region = Region::from_str_lenient(r.as_str());
    }
    if let Some(v) = &cli.voice {
        cfg.voice = voice_from_name(v.as_str());
    }
    if let Some(m) = &cli.model {
        cfg.model = m.clone();
    }
}

/// Where the text to send comes from.
pub enum TextSource {
    /// Standard input (the text argument was `-`).
    Stdin,
    /// The text argument itself.
    Given(String),
    /// No text: print the help.
    Help,
}

/// Where the text to send comes from, given the text argument.
pub fn text_source(text: &Option<String>) -> (r: TextSource)
    ensures
        match *text {
            None => r is Help,
            Some(t) => if t@ == "-"@ {
                r is Stdin
            } else {
                r matches TextSource::Given(g) && g@ == t@
            },
        },
{
    match text {
        None => TextSource::Help,
        Some(t) => {
            if crate::text::str_eq(t.as_str(), "-") {
                TextSource::Stdin
            } else {
                TextSource::Given(t.clone())
            }
        },
    }
}

/// The text read from standard input, without surrounding white space.
pub fn stdin_text(raw: &str) -> (r: String)
    ensures
        r@ == trim(raw@),
{
    crate::text::trim_str(raw)
}

/// Whether an announcement goes to every online device: when asked to, and
/// when no device is named.
pub fn announce_to_all(all: bool, device: &Option<String>) -> (r: bool)
    ensures
        r == (all || device is None),
{
    all || device.is_none()
}

/// The title of an announcement: the one given, or `Announcement`.
pub fn announcement_title(title: &Option<String>) -> (r: String)
    ensures
        r@ == match *title {
            Some(t) => t@,
            None => "Announcement"@,
        },
{
    match title {
        Some(t) => t.clone(),
        None => "Announcement".to_string(),
    }
}

/// One line of the device listing.
pub open spec fn device_line_text(name: Seq<char>, online: bool, serial: Seq<char>) -> Seq<char> {
    name + "  ["@ + (if online {
        "online"@
    } else {
        "offline"@
    }) + "]  "@ + serial
}

/// `<name>  [online|offline]  <serial>`.
pub fn device_line(d: &Device) -> (r: String)
    ensures
        r@ == device_line_text(d.account_name@, d.online, d.serial_number@),
{
    let mut out = chars_of(d.account_name.as_str());
    push_str_chars(&mut out, "  [");
    if d.online {
        push_str_chars(&mut out, "online");
    } else {
        push_str_chars(&mut out, "offline");
    }
    push_str_chars(&mut out, "]  ");
    push_str_chars(&mut out, d.serial_number.as_str());
    string_of(out.as_slice())
}

/// The `--json` output of a round trip: `{"result":<answer>,"success":true}`.
pub fn ask_result_json(answer: &str) -> (r: String)
    ensures
        r@ == "{\"result\":"@ + json_quote(answer@) + ",\"success\":true}"@,
{
    let mut out = chars_of("{\"result\":");
    push_quoted(&mut out, answer);
    push_str_chars(&mut out, ",\"success\":true}");
    string_of(out.as_slice())
}

/// One line of the `doctor` report: `  [ok] <label>`, or
/// `  [!!] <label> — <hint>` for a failed check.
pub open spec fn check_text(label: Seq<char>, ok: bool, hint: Seq<char>) -> Seq<char> {
    if ok {
        "  [ok] "@ + label
    } else {
        "  [!!] "@ + label + " — "@ + hint
    }
}

/// One line of the `doctor` report.
pub fn check_line(label: &str, ok: bool, hint: &str) -> (r: String)
    ensures
        r@ == check_text(label@, ok, hint@),
{
    if ok {
        let mut out = chars_of("  [ok] ");
        push_str_chars(&mut out, label);
        string_of(out.as_slice())
    } else {
        let mut out = chars_of("  [!!] ");
        push_str_chars(&mut out, label);
        push_str_chars(&mut out, " — ");
        push_str_chars(&mut out, hint);
        string_of(out.as_slice())
    }
}

/// The prompt for a setting: `<label> [<current>]: `.
pub fn prompt_text(label: &str, current: &str) -> (r: String)
    ensures
        r@ == label@ + " ["@ + current@ + "]: "@,
{
    let mut out = chars_of(label);
    push_str_chars(&mut out, " [");
    push_str_chars(&mut out, current);
    push_str_chars(&mut out, "]: ");
    string_of(out.as_slice())
}

/// The value a prompt settles on: the typed line without surrounding white
/// space, or the current value when nothing was typed.
pub fn prompt_answer(current: &str, line: &str) -> (r: String)
    ensures
        r@ == if trim(line@).len() == 0 {
            current@
        } else {
            trim(line@)
        },
{
    let v = chars_of(line);
    let t = trim_chars(v.as_slice());
    if t.len() == 0 {
        string_of(chars_of(current).as_slice())
    } else {
        string_of(t.as_slice())
    }
}

/// Whether the transcription cache takes part in a round trip.
pub fn uses_cache(cli: &Cli, cfg: &Config) -> (r: bool)
    ensures
        r == (!cli.no_cache && cfg.save_transcription),
{
    !cli.no_cache && cfg.save_transcription
}

/// Where the request and response audio are kept, if anywhere: the `--output`
/// directory, or the current directory under `--keep-artifacts`.
pub fn artifacts_dir(cli: &Cli) -> (r: Option<String>)
    ensures
        opt_view(r) == if cli.keep_artifacts || cli.output is Some {
            Some(
                match cli.output {
                    Some(o) => o@,
                    None => "."@,
                },
            )
        } else {
            None
        },
{
    if cli.keep_artifacts || cli.output.is_some() {
        match &cli.output {
            Some(o) => Some(o.clone()),
            None => Some(".".to_string()),
        }
    } else {
        None
    }
}

// ---------------------------------------------------------------------------
// The round trip
// ---------------------------------------------------------------------------

/// Where a round trip stands.
#[derive(Clone, Copy, Debug, PartialEq, Eq, Structural)]
pub enum AskPhase {
    Synthesizing,
    Recognizing,
    Retrying,
    LookingUp,
    Transcribing,
    Storing,
    Finished,
    Failed,
}

/// A round trip in progress.
pub struct AskState {
    pub phase: AskPhase,
    pub use_cache: bool,
    pub artifacts_dir: Option<String>,
    /// The cache key of Alexa's answer, once it has arrived.
    pub key: String,
    /// The transcript, once there is one.
    pub answer: String,
}

/// What the outside work reports back.
pub enum AskEvent {
    /// The question was synthesised to speech.
    Synthesized,
    /// Sending the speech to AVS failed.
    RecognizeFailed,
    /// AVS answered with this MP3.
    Recognized(Vec<u8>),
    /// The cache held this transcript for the answer, or none.
    CacheLooked(Option<String>),
    /// Whisper transcribed the answer to this text.
    Transcribed(String),
    /// The transcript was written to the cache (or writing it failed).
    Stored,
}

/// The outside work to do next.
pub enum AskAction {
    /// Synthesise the question to speech.
    Synthesize,
    /// Send the speech to AVS, with a freshly refreshed token if asked to.
    Recognize { force_refresh: bool },
    /// Keep the artifacts in the directory, if one is given, then look the
    /// answer up in the cache.
    LookUp { key: String, artifacts_dir: Option<String> },
    /// Keep the artifacts in the directory, if one is given, then transcribe
    /// the answer.
    Transcribe { artifacts_dir: Option<String> },
    /// Cache the transcript under the key.
    Store { key: String, transcript: String },
    /// The round trip is over: this is the answer.
    Finish { answer: String },
    /// The round trip failed: report the last error.
    Fail,
    /// The event does not belong to this phase; nothing changes.
    Ignore,
}

pub struct AskStateView {
    pub phase: AskPhase,
    pub use_cache: bool,
    pub artifacts_dir: Option<Seq<char>>,
    pub key: Seq<char>,
    pub answer: Seq<char>,
}

pub enum AskEventView {
    Synthesized,
    RecognizeFailed,
    Recognized(Seq<u8>),
    CacheLooked(Option<Seq<char>>),
    Transcribed(Seq<char>),
    Stored,
}

pub enum AskActionView {
    Synthesize,
    Recognize { force_refresh: bool },
    LookUp { key: Seq<char>, artifacts_dir: Option<Seq<char>> },
    Transcribe { artifacts_dir: Option<Seq<char>> },
    Store { key: Seq<char>, transcript: Seq<char> },
    Finish { answer: Seq<char> },
    Fail,
    Ignore,
}

impl View for AskState {
    type V = AskStateView;

    open spec fn view(&self) -> AskStateView {
        AskStateView {
            phase: self.phase,
            use_cache: self.use_cache,
            artifacts_dir: opt_view(self.artifacts_dir),
            key: self.key@,
            answer: self.answer@,
        }
    }
}

impl View for AskEvent {
    type V = AskEventView;

    open spec fn view(&self) -> AskEventView {
        match self {
            AskEvent::Synthesized => AskEventView::Synthesized,
            AskEvent::RecognizeFailed => AskEventView::RecognizeFailed,
            AskEvent::Recognized(m) => AskEventView::Recognized(m@),
            AskEvent::CacheLooked(c) => AskEventView::CacheLooked(opt_view(*c)),
            AskEvent::Transcribed(t) => AskEventView::Transcribed(t@),
            AskEvent::Stored => AskEventView::Stored,
        }
    }
}

impl View for AskAction {
    type V = AskActionView;

    open spec fn view(&self) -> AskActionView {
        match self {
            AskAction::Synthesize => AskActionView::Synthesize,
            AskAction::Recognize { force_refresh } => AskActionView::Recognize {
                force_refresh: *force_refresh,
            },
            AskAction::LookUp { key, artifacts_dir } => AskActionView::LookUp {
                key: key@,
                artifacts_dir: opt_view(*artifacts_dir),
            },
            AskAction::Transcribe { artifacts_dir } => AskActionView::Transcribe {
                artifacts_dir: opt_view(*artifacts_dir),
            },
            AskAction::Store { key, transcript } => AskActionView::Store {
                key: key@,
                transcript: transcript@,
            },
            AskAction::Finish { answer } => AskActionView::Finish { answer: answer@ },
            AskAction::Fail => AskActionView::Fail,
            AskAction::Ignore => AskActionView::Ignore,
        }
    }
}

/// The cache key of an MP3 answer.
pub open spec fn answer_key(mp3: Seq<u8>) -> Seq<char> {
    hex_lower(blake3_digest(mp3))
}

pub open spec fn in_phase(s: AskStateView, p: AskPhase) -> AskStateView {
    AskStateView { phase: p, ..s }
}

/// The decisions of a round trip: from where it stands and what the outside
/// work reported, where it goes and what is done next.
pub open spec fn ask_next(s: AskStateView, e: AskEventView) -> (AskStateView, AskActionView) {
    match (s.phase, e) {
        (AskPhase::Synthesizing, AskEventView::Synthesized) => (
            in_phase(s, AskPhase::Recognizing),
            AskActionView::Recognize { force_refresh: false },
        ),
        (AskPhase::Recognizing, AskEventView::RecognizeFailed) => (
            in_phase(s, AskPhase::Retrying),
            AskActionView::Recognize { force_refresh: true },
        ),
        (AskPhase::Retrying, AskEventView::RecognizeFailed) => (
            in_phase(s, AskPhase::Failed),
            AskActionView::Fail,
        ),
        (AskPhase::Recognizing, AskEventView::Recognized(mp3))
        | (AskPhase::Retrying, AskEventView::Recognized(mp3)) => {
            let key = answer_key(mp3);
            if s.use_cache {
                (
                    AskStateView { phase: AskPhase::LookingUp, key, ..s },
                    AskActionView::LookUp { key, artifacts_dir: s.artifacts_dir },
                )
            } else {
                (
                    AskStateView { phase: AskPhase::Transcribing, key, ..s },
                    AskActionView::Transcribe { artifacts_dir: s.artifacts_dir },
                )
            }
        },
        (AskPhase::LookingUp, AskEventView::CacheLooked(Some(hit))) => (
            AskStateView { phase: AskPhase::Finished, answer: hit, ..s },
            AskActionView::Finish { answer: hit },
        ),
        (AskPhase::LookingUp, AskEventView::CacheLooked(None)) => (
            in_phase(s, AskPhase::Transcribing),
            AskActionView::Transcribe { artifacts_dir: None },
        ),
        (AskPhase::Transcribing, AskEventView::Transcribed(t)) => if s.use_cache {
            (
                AskStateView { phase: AskPhase::Storing, answer: t, ..s },
                AskActionView::Store { key: s.key, transcript: t },
            )
        } else {
            (
                AskStateView { phase: AskPhase::Finished, answer: t, ..s },
                AskActionView::Finish { answer: t },
            )
        },
        (AskPhase::Storing, AskEventView::Stored) => (
            in_phase(s, AskPhase::Finished),
            AskActionView::Finish { answer: s.answer },
        ),
        _ => (s, AskActionView::Ignore),
    }
}

/// The state a round trip starts in, with the cache and artifact choices
/// the command line and settings make.
pub open spec fn ask_initial(use_cache: bool, artifacts_dir: Option<Seq<char>>) -> AskStateView {
    AskStateView {
        phase: AskPhase::Synthesizing,
        use_cache,
        artifacts_dir,
        key: Seq::empty(),
        answer: Seq::empty(),
    }
}

fn clone_opt_string(o: &Option<String>) -> (r: Option<String>)
    ensures
        opt_view(r) == opt_view(*o),
{
    match o {
        Some(s) => Some(s.clone()),
        None => None,
    }
}

impl AskState {
    /// Starts a round trip: synthesising the question comes first.
    pub fn start(cli: &Cli, cfg: &Config) -> (r: (AskState, AskAction))
        ensures
            r.0@ == ask_initial(
                !cli.no_cache && cfg.save_transcription,
                if cli.keep_artifacts || cli.output is Some {
                    Some(
                        match cli.output {
                            Some(o) => o@,
                            None => "."@,
                        },
                    )
                } else {
                    None
                },
            ),
            r.1@ == AskActionView::Synthesize,
    {
        let s = AskState {
            phase: AskPhase::Synthesizing,
            use_cache: uses_cache(cli, cfg),
            artifacts_dir: artifacts_dir(cli),
            key: String::new(),
            answer: String::new(),
        };
        (s, AskAction::Synthesize)
    }

    /// One step of the round trip.
    pub fn step(self, event: AskEvent) -> (r: (AskState, AskAction))
        ensures
            (r.0@, r.1@) == ask_next(self@, event@),
    {
        let s = self;
        match (s.phase, event) {
            (AskPhase::Synthesizing, AskEvent::Synthesized) => (
                AskState { phase: AskPhase::Recognizing, ..s },
                AskAction::Recognize { force_refresh: false },
            ),
            (AskPhase::Recognizing, AskEvent::RecognizeFailed) => (
                AskState { phase: AskPhase::Retrying, ..s },
                AskAction::Recognize { force_refresh: true },
            ),
            (AskPhase::Retrying, AskEvent::RecognizeFailed) => (
                AskState { phase: AskPhase::Failed, ..s },
                AskAction::Fail,
            ),
            (AskPhase::Recognizing, AskEvent::Recognized(mp3))
            | (AskPhase::Retrying, AskEvent::Recognized(mp3)) => {
                let key = key_for(mp3.as_slice());
                let dir = clone_opt_string(&s.artifacts_dir);
                if s.use_cache {
                    let k = key.clone();
                    (
                        AskState { phase: AskPhase::LookingUp, key, ..s },
                        AskAction::LookUp { key: k, artifacts_dir: dir },
                    )
                } else {
                    (
                        AskState { phase: AskPhase::Transcribing, key, ..s },
                        AskAction::Transcribe { artifacts_dir: dir },
                    )
                }
            },
            (AskPhase::LookingUp, AskEvent::CacheLooked(Some(hit))) => {
                let a = hit.clone();
                (
                    AskState { phase: AskPhase::Finished, answer: hit, ..s },
                    AskAction::Finish { answer: a },
                )
            },
            (AskPhase::LookingUp, AskEvent::CacheLooked(None)) => (
                AskState { phase: AskPhase::Transcribing, ..s },
                AskAction::Transcribe { artifacts_dir: None },
            ),
            (AskPhase::Transcribing, AskEvent::Transcribed(t)) => {
                if s.use_cache {
                    let k = s.key.clone();
                    let a = t.clone();
                    (
                        AskState { phase: AskPhase::Storing, answer: t, ..s },
                        AskAction::Store { key: k, transcript: a },
                    )
                } else {
                    let a = t.clone();
                    (
                        AskState { phase: AskPhase::Finished, answer: t, ..s },
                        AskAction::Finish { answer: a },
                    )
                }
            },
            (AskPhase::Storing, AskEvent::Stored) => {
                let a = s.answer.clone();
                (AskState { phase: AskPhase::Finished, ..s }, AskAction::Finish { answer: a })
            },
            (_, _) => (s, AskAction::Ignore),
        }
    }
}

/// A failed attempt to reach AVS is retried exactly once, with a freshly
/// refreshed token; a second failure ends the round trip.
pub proof fn lemma_recognize_retried_once(s: AskStateView)
    requires
        s.phase == AskPhase::Recognizing,
    ensures
        ask_next(s, AskEventView::RecognizeFailed).1 == (AskActionView::Recognize {
            force_refresh: true,
        }),
        ask_next(ask_next(s, AskEventView::RecognizeFailed).0, AskEventView::RecognizeFailed).1
            == AskActionView::Fail,
{
}

/// With the cache in use, an answer the cache already holds is returned as
/// it was cached, without transcribing; an answer it does not hold is
/// transcribed, stored under the answer's key, and returned.
pub proof fn lemma_cached_round_trip(
    artifacts_dir: Option<Seq<char>>,
    mp3: Seq<u8>,
    hit: Seq<char>,
    transcript: Seq<char>,
)
    ensures
        ({
            let s0 = ask_initial(true, artifacts_dir);
            let s1 = ask_next(s0, AskEventView::Synthesized).0;
            let r2 = ask_next(s1, AskEventView::Recognized(mp3));
            let hit_end = ask_next(r2.0, AskEventView::CacheLooked(Some(hit)));
            let miss = ask_next(r2.0, AskEventView::CacheLooked(None));
            let done = ask_next(miss.0, AskEventView::Transcribed(transcript));
            let stored = ask_next(done.0, AskEventView::Stored);
            &&& r2.1 == (AskActionView::LookUp { key: answer_key(mp3), artifacts_dir })
            &&& hit_end.1 == (AskActionView::Finish { answer: hit })
            &&& miss.1 == (AskActionView::Transcribe { artifacts_dir: None })
            &&& done.1 == (AskActionView::Store { key: answer_key(mp3), transcript })
            &&& stored.1 == (AskActionView::Finish { answer: transcript })
        }),
{
}

/// Without the cache, the answer is transcribed and returned as transcribed.
pub proof fn lemma_uncached_round_trip(
    artifacts_dir: Option<Seq<char>>,
    mp3: Seq<u8>,
    transcript: Seq<char>,
)
    ensures
        ({
            let s0 = ask_initial(false, artifacts_dir);
            let s1 = ask_next(s0, AskEventView::Synthesized).0;
            let r2 = ask_next(s1, AskEventView::Recognized(mp3));
            let done = ask_next(r2.0, AskEventView::Transcribed(transcript));
            &&& r2.1 == (AskActionView::Transcribe { artifacts_dir })
            &&& done.1 == (AskActionView::Finish { answer: transcript })
        }),
{
}

// ---------------------------------------------------------------------------
// The doctor
// ---------------------------------------------------------------------------

/// Where the `doctor` checks stand.
#[derive(Clone, Copy, Debug, PartialEq, Eq, Structural)]
pub enum DoctorStage {
    /// Checking that the settings hold the AVS credentials.
    Config,
    /// Checking that login tokens are stored.
    Tokens,
    /// Checking that an access token can be had.
    AccessToken,
    /// Running a live round trip.
    RoundTrip,
    /// The report is over.
    Done,
}

/// What the outside work of a `doctor` step found.
pub enum DoctorEvent {
    /// The settings were read; whether their credentials are complete.
    ConfigChecked { complete: bool },
    /// Whether the login tokens could be read.
    TokensChecked { present: bool },
    /// Getting an access token succeeded, or failed with this message.
    AccessChecked { error: Option<String> },
    /// The live round trip answered, or failed with this message.
    RoundTripDone { result: Result<String, String> },
}

/// The outside work a `doctor` step asks for next.
pub enum DoctorAction {
    LoadTokens,
    GetAccessToken,
    /// Run a round trip with this question.
    RoundTrip { text: String },
    /// The report is over.
    Finish,
}

pub enum DoctorEventView {
    ConfigChecked { complete: bool },
    TokensChecked { present: bool },
    AccessChecked { error: Option<Seq<char>> },
    RoundTripDone { result: Result<Seq<char>, Seq<char>> },
}

pub enum DoctorActionView {
    LoadTokens,
    GetAccessToken,
    RoundTrip { text: Seq<char> },
    Finish,
}

impl View for DoctorEvent {
    type V = DoctorEventView;

    open spec fn view(&self) -> DoctorEventView {
        match self {
            DoctorEvent::ConfigChecked { complete } => DoctorEventView::ConfigChecked {
                complete: *complete,
            },
            DoctorEvent::TokensChecked { present } => DoctorEventView::TokensChecked {
                present: *present,
            },
            DoctorEvent::AccessChecked { error } => DoctorEventView::AccessChecked {
                error: opt_view(*error),
            },
            DoctorEvent::RoundTripDone { result } => DoctorEventView::RoundTripDone {
                result: match result {
                    Ok(a) => Ok(a@),
                    Err(e) => Err(e@),
                },
            },
        }
    }
}

impl View for DoctorAction {
    type V = DoctorActionView;

    open spec fn view(&self) -> DoctorActionView {
        match self {
            DoctorAction::LoadTokens => DoctorActionView::LoadTokens,
            DoctorAction::GetAccessToken => DoctorActionView::GetAccessToken,
            DoctorAction::RoundTrip { text } => DoctorActionView::RoundTrip { text: text@ },
            DoctorAction::Finish => DoctorActionView::Finish,
        }
    }
}

/// The question of the live round trip.
pub open spec fn doctor_question() -> Seq<char> {
    "what time is it"@
}

/// The hint printed when the settings lack credentials.
pub open spec fn configure_hint() -> Seq<char> {
    "run `alexa configure` to set Client ID / Secret / Product ID"@
}

/// The decisions of `doctor`: from the stage and what the outside work found,
/// the next stage, the lines to print, and the outside work to do next. Each
/// check prints its line; a failed check ends the report, a passed one moves
/// on; the round trip runs once the three checks have passed.
pub open spec fn doctor_next(s: DoctorStage, e: DoctorEventView) -> (
    DoctorStage,
    Seq<Seq<char>>,
    DoctorActionView,
) {
    match (s, e) {
        (DoctorStage::Config, DoctorEventView::ConfigChecked { complete }) => if complete {
            (
                DoctorStage::Tokens,
                seq![check_text("config present"@, true, configure_hint())],
                DoctorActionView::LoadTokens,
            )
        } else {
            (
                DoctorStage::Done,
                seq![check_text("config present"@, false, configure_hint())],
                DoctorActionView::Finish,
            )
        },
        (DoctorStage::Tokens, DoctorEventView::TokensChecked { present }) => if present {
            (
                DoctorStage::AccessToken,
                seq![check_text("tokens present"@, true, Seq::empty())],
                DoctorActionView::GetAccessToken,
            )
        } else {
            (
                DoctorStage::Done,
                seq![check_text("tokens present"@, false, "run `alexa login`"@)],
                DoctorActionView::Finish,
            )
        },
        (DoctorStage::AccessToken, DoctorEventView::AccessChecked { error }) => match error {
            None => (
                DoctorStage::RoundTrip,
                seq![
                    check_text("access token valid"@, true, Seq::empty()),
                    "\nRunning a live round-trip: \"what time is it\""@,
                ],
                DoctorActionView::RoundTrip { text: doctor_question() },
            ),
            Some(msg) => (
                DoctorStage::Done,
                seq![check_text("access token valid"@, false, msg)],
                DoctorActionView::Finish,
            ),
        },
        (DoctorStage::RoundTrip, DoctorEventView::RoundTripDone { result }) => match result {
            Ok(answer) => (
                DoctorStage::Done,
                seq![
                    check_text("round-trip"@, true, Seq::empty()),
                    "\nAlexa said: "@ + answer,
                    "\nAll good. ✅"@,
                ],
                DoctorActionView::Finish,
            ),
            Err(msg) => (
                DoctorStage::Done,
                seq![
                    check_text("round-trip"@, false, msg),
                    "\nThe pipeline failed above — see the message for the next step."@,
                ],
                DoctorActionView::Finish,
            ),
        },
        _ => (DoctorStage::Done, Seq::empty(), DoctorActionView::Finish),
    }
}

/// One step of `doctor`.
pub fn doctor_step(stage: DoctorStage, event: DoctorEvent) -> (r: (DoctorStage, Vec<String>, DoctorAction))
    ensures
        (r.0, strings_view(r.1@), r.2@) == doctor_next(stage, event@),
{
    let mut lines: Vec<String> = Vec::new();
    let r = match (stage, event) {
        (DoctorStage::Config, DoctorEvent::ConfigChecked { complete }) => {
            lines.push(
                check_line(
                    "config present",
                    complete,
                    "run `alexa configure` to set Client ID / Secret / Product ID",
                ),
            );
            if complete {
                (DoctorStage::Tokens, lines, DoctorAction::LoadTokens)
            } else {
                (DoctorStage::Done, lines, DoctorAction::Finish)
            }
        },
        (DoctorStage::Tokens, DoctorEvent::TokensChecked { present }) => {
            if present {
                lines.push(check_line("tokens present", true, ""));
                (DoctorStage::AccessToken, lines, DoctorAction::GetAccessToken)
            } else {
                lines.push(check_line("tokens present", false, "run `alexa login`"));
                (DoctorStage::Done, lines, DoctorAction::Finish)
            }
        },
        (DoctorStage::AccessToken, DoctorEvent::AccessChecked { error }) => match error {
            None => {
                lines.push(check_line("access token valid", true, ""));
                lines.push("\nRunning a live round-trip: \"what time is it\"".to_string());
                (
                    DoctorStage::RoundTrip,
                    lines,
                    DoctorAction::RoundTrip { text: "what time is it".to_string() },
                )
            },
            Some(msg) => {
                lines.push(check_line("access token valid", false, msg.as_str()));
                (DoctorStage::Done, lines, DoctorAction::Finish)
            },
        },
        (DoctorStage::RoundTrip, DoctorEvent::RoundTripDone { result }) => match result {
            Ok(answer) => {
                lines.push(check_line("round-trip", true, ""));
                let mut said = chars_of("\nAlexa said: ");
                push_str_chars(&mut said, answer.as_str());
                lines.push(string_of(said.as_slice()));
                lines.push("\nAll good. ✅".to_string());
                (DoctorStage::Done, lines, DoctorAction::Finish)
            },
            Err(msg) => {
                lines.push(check_line("round-trip", false, msg.as_str()));
                lines.push(
                    "\nThe pipeline failed above — see the message for the next step.".to_string(),
                );
                (DoctorStage::Done, lines, DoctorAction::Finish)
            },
        },
        (_, _) => (DoctorStage::Done, lines, DoctorAction::Finish),
    };
    proof {
        reveal_strlit("");
        assert(strings_view(r.1@) =~= doctor_next(stage, event@).1);
    }
    r
}

/// The stage `doctor` reaches after the given events, starting from the
/// settings check.
pub open spec fn doctor_stage_after(events: Seq<DoctorEventView>) -> DoctorStage
    decreases events.len(),
{
    if events.len() == 0 {
        DoctorStage::Config
    } else {
        doctor_next(doctor_stage_after(events.drop_last()), events.last()).0
    }
}

proof fn lemma_doctor_history(events: Seq<DoctorEventView>)
    ensures
        doctor_stage_after(events) == DoctorStage::Config ==> events.len() == 0,
        doctor_stage_after(events) == DoctorStage::Tokens ==> events.len() == 1 && events[0]
            == (DoctorEventView::ConfigChecked { complete: true }),
        doctor_stage_after(events) == DoctorStage::AccessToken ==> events.len() == 2 && events[0]
            == (DoctorEventView::ConfigChecked { complete: true }) && events[1]
            == (DoctorEventView::TokensChecked { present: true }),
    decreases events.len(),
{
    if events.len() > 0 {
        let p = events.drop_last();
        lemma_doctor_history(p);
        assert(p.len() == 1 ==> p[0] == events[0]);
    }
}

/// The live round trip runs only after all three checks passed: the settings
/// hold the credentials, the tokens are present, and an access token was
/// had, in that order, as the first three findings.
pub proof fn lemma_round_trip_after_checks(events: Seq<DoctorEventView>, k: int)
    requires
        0 <= k < events.len(),
        doctor_next(doctor_stage_after(events.take(k)), events[k]).2 is RoundTrip,
    ensures
        k == 2,
        events[0] == (DoctorEventView::ConfigChecked { complete: true }),
        events[1] == (DoctorEventView::TokensChecked { present: true }),
        events[2] == (DoctorEventView::AccessChecked { error: None }),
{
    let p = events.take(k);
    lemma_doctor_history(p);
    assert(doctor_stage_after(p) == DoctorStage::AccessToken);
    assert(p[0] == events[0] && p[1] == events[1]);
}

} // verus!
