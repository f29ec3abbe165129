//! Rules of the command line: exit codes, application errors, providers,
//! thread id upkeep, interrupts and completion detection.
use vstd::prelude::*;

use crate::domain::{NodeId, SessionId, SessionTree};
use crate::providers::{is_thread_id_shape, looks_like_thread_id, provider_error_text, ProviderError};
use crate::text::{
    append_str, ascii_lower_seq, ascii_lowercase_chars, char_is_alnum, char_is_alpha, chars_of,
    contains_chars, is_alpha,
    chars_seqs, contains_seq, decimal_digits, format_decimal, is_alnum, occurs_at, string_from_chars, to_lowercase,
    trim_ws, trim_ws_chars, unicode_lowercase,
};

verus! {

/// The exit codes that scripts can rely on.
#[derive(Clone, Copy, Debug, PartialEq, Eq, Structural)]
pub enum StableExitCode {
    Success,
    Failure,
    Usage,
    NotFound,
    Conflict,
    InvalidState,
    ProviderFailure,
    Interrupted,
}

/// The process exit status of each stable exit code.
pub open spec fn exit_status(c: StableExitCode) -> u8 {
    match c {
        StableExitCode::Success => 0,
        StableExitCode::Failure => 1,
        StableExitCode::Usage => 2,
        StableExitCode::NotFound => 3,
        StableExitCode::Conflict => 4,
        StableExitCode::InvalidState => 5,
        StableExitCode::ProviderFailure => 6,
        StableExitCode::Interrupted => 130,
    }
}

impl StableExitCode {
    /// The process exit status of this code.
    pub fn code(self) -> (r: u8)
        ensures
            r == exit_status(self),
    {
        match self {
            StableExitCode::Success => 0,
            StableExitCode::Failure => 1,
            StableExitCode::Usage => 2,
            StableExitCode::NotFound => 3,
            StableExitCode::Conflict => 4,
            StableExitCode::InvalidState => 5,
            StableExitCode::ProviderFailure => 6,
            StableExitCode::Interrupted => 130,
        }
    }
}

/// The kinds of I/O failure that the command line tells apart.
#[derive(Clone, Copy, Debug, PartialEq, Eq, Structural)]
pub enum IoFailureKind {
    NotFound,
    AlreadyExists,
    InvalidData,
    InvalidInput,
    Other,
}

/// An error of a command, which decides the exit code.
#[derive(Debug, PartialEq, Eq)]
pub enum AppError {
    NotFound(String),
    Conflict(String),
    InvalidState(String),
    Provider(ProviderError),
    Interrupted(String),
    Internal(String),
}

/// The exit code of each error variant.
pub open spec fn error_exit_code(e: AppError) -> StableExitCode {
    match e {
        AppError::NotFound(_) => StableExitCode::NotFound,
        AppError::Conflict(_) => StableExitCode::Conflict,
        AppError::InvalidState(_) => StableExitCode::InvalidState,
        AppError::Provider(_) => StableExitCode::ProviderFailure,
        AppError::Interrupted(_) => StableExitCode::Interrupted,
        AppError::Internal(_) => StableExitCode::Failure,
    }
}

/// The message of each error variant.
pub open spec fn error_text(e: AppError) -> Seq<char> {
    match e {
        AppError::NotFound(m) => m@,
        AppError::Conflict(m) => m@,
        AppError::InvalidState(m) => m@,
        AppError::Provider(p) => provider_error_text(p),
        AppError::Interrupted(m) => m@,
        AppError::Internal(m) => m@,
    }
}

/// The error that an I/O failure of the given kind becomes, with its message.
pub open spec fn io_error_outcome(kind: IoFailureKind, message: Seq<char>, e: AppError) -> bool {
    match kind {
        IoFailureKind::NotFound => e matches AppError::NotFound(m) && m@ == message,
        IoFailureKind::AlreadyExists => e matches AppError::Conflict(m) && m@ == message,
        IoFailureKind::InvalidData => e matches AppError::InvalidState(m) && m@ == message,
        IoFailureKind::InvalidInput => e matches AppError::InvalidState(m) && m@ == message,
        IoFailureKind::Other => e matches AppError::Internal(m) && m@ == message,
    }
}

#[verifier::external_type_specification]
#[verifier::external_body]
pub struct ExIoErrorKind(std::io::ErrorKind);

/// Reads `std::io::Error::kind` and tells apart the kinds that the command
/// line handles; every other kind is `Other`. The error's kind is not
/// modelled, so nothing is stated of the result.
#[verifier::external_body]
fn io_failure_kind(err: &std::io::Error) -> IoFailureKind {
    match err.kind() {
        std::io::ErrorKind::NotFound => IoFailureKind::NotFound,
        std::io::ErrorKind::AlreadyExists => IoFailureKind::AlreadyExists,
        std::io::ErrorKind::InvalidData => IoFailureKind::InvalidData,
        std::io::ErrorKind::InvalidInput => IoFailureKind::InvalidInput,
        _ => IoFailureKind::Other,
    }
}

/// Renders an I/O error with its `Display` implementation; the text comes
/// from the platform and is not described.
#[verifier::external_body]
fn io_error_display(err: &std::io::Error) -> String {
    err.to_string()
}

impl AppError {
    /// The error for an I/O failure during `context`, from the failure's kind
    /// and text: the message is `context: text`.
    pub fn from_io_parts(context: &str, kind: IoFailureKind, detail: &str) -> (r: Self)
        ensures
            io_error_outcome(kind, context@ + ": "@ + detail@, r),
    {
        let mut message = context.to_owned();
        append_str(&mut message, ": ");
        append_str(&mut message, detail);
        match kind {
            IoFailureKind::NotFound => AppError::NotFound(message),
            IoFailureKind::AlreadyExists => AppError::Conflict(message),
            IoFailureKind::InvalidData => AppError::InvalidState(message),
            IoFailureKind::InvalidInput => AppError::InvalidState(message),
            IoFailureKind::Other => AppError::Internal(message),
        }
    }

    /// The error for an I/O failure during `context`.
    pub fn from_io(context: &str, err: std::io::Error) -> (r: Self)
        ensures
            exists|kind: IoFailureKind, detail: Seq<char>|
                io_error_outcome(kind, context@ + ": "@ + detail, r),
    {
        let kind = io_failure_kind(&err);
        let detail = io_error_display(&err);
        AppError::from_io_parts(context, kind, detail.as_str())
    }

    /// The exit code that this error ends the process with.
    pub fn exit_code(&self) -> (r: StableExitCode)
        ensures
            r == error_exit_code(*self),
    {
        match self {
            AppError::NotFound(_) => StableExitCode::NotFound,
            AppError::Conflict(_) => StableExitCode::Conflict,
            AppError::InvalidState(_) => StableExitCode::InvalidState,
            AppError::Provider(_) => StableExitCode::ProviderFailure,
            AppError::Interrupted(_) => StableExitCode::Interrupted,
            AppError::Internal(_) => StableExitCode::Failure,
        }
    }

    /// The message shown for this error.
    pub fn message(&self) -> (r: String)
        ensures
            r@ == error_text(*self),
    {
        match self {
            AppError::NotFound(m) => m.as_str().to_owned(),
            AppError::Conflict(m) => m.as_str().to_owned(),
            AppError::InvalidState(m) => m.as_str().to_owned(),
            AppError::Provider(p) => p.message(),
            AppError::Interrupted(m) => m.as_str().to_owned(),
            AppError::Internal(m) => m.as_str().to_owned(),
        }
    }
}

impl From<ProviderError> for AppError {
    fn from(value: ProviderError) -> (r: Self)
        ensures
            r == AppError::Provider(value),
    {
        AppError::Provider(value)
    }
}

impl vstd::std_specs::convert::FromSpecImpl<ProviderError> for AppError {
    open spec fn obeys_from_spec() -> bool {
        true
    }

    open spec fn from_spec(v: ProviderError) -> Self {
        AppError::Provider(v)
    }
}

// ---------------------------------------------------------------------------
// Providers on the command line
// ---------------------------------------------------------------------------

/// The providers that the command line offers.
#[derive(Clone, Copy, Debug, PartialEq, Eq, Structural)]
pub enum ProviderCli {
    Amp,
    Anthropic,
    Echo,
}

/// The command-line name of each provider.
pub open spec fn provider_cli_name(p: ProviderCli) -> Seq<char> {
    match p {
        ProviderCli::Amp => "amp"@,
        ProviderCli::Anthropic => "anthropic"@,
        ProviderCli::Echo => "echo"@,
    }
}

impl ProviderCli {
    /// The command-line name of this provider.
    pub fn as_str(self) -> (r: &'static str)
        ensures
            r@ == provider_cli_name(self),
    {
        match self {
            ProviderCli::Amp => "amp",
            ProviderCli::Anthropic => "anthropic",
            ProviderCli::Echo => "echo",
        }
    }
}

// ---------------------------------------------------------------------------
// Thread ids
// ---------------------------------------------------------------------------

/// Whether a stored thread id must be replaced before the provider is used:
/// when it is blank or the placeholder `thread-unset`, and, for Amp, when it
/// does not have the shape of an Amp thread id.
pub open spec fn thread_id_needs_refresh(provider: ProviderCli, thread_id: Seq<char>) -> bool {
    let t = trim_ws(thread_id);
    t.len() == 0 || t == "thread-unset"@ || (provider == ProviderCli::Amp && !is_thread_id_shape(t))
}

/// Whether `thread_id` has the shape of an Amp thread id: `T-` and 36
/// hexadecimal digits or hyphens.
pub fn looks_like_amp_thread_id(thread_id: &str) -> (r: bool)
    ensures
        r == is_thread_id_shape(thread_id@),
{
    looks_like_thread_id(thread_id)
}

/// Whether the session's thread id must be replaced before `provider` is used.
pub fn session_thread_id_requires_refresh(provider: ProviderCli, thread_id: &str) -> (r: bool)
    ensures
        r == thread_id_needs_refresh(provider, thread_id@),
{
    let cs = chars_of(thread_id);
    let t = trim_ws_chars(&cs);
    if t.len() == 0 {
        return true;
    }
    let trimmed = string_from_chars(&t);
    let unset = "thread-unset".to_owned();
    if trimmed == unset {
        return true;
    }
    match provider {
        ProviderCli::Amp => !looks_like_amp_thread_id(trimmed.as_str()),
        _ => false,
    }
}

/// The thread id to use after asking `provider` for a new thread: Amp must
/// have answered with one; the others fall back to `local_thread_id`.
pub fn resolve_created_thread_id(
    provider: ProviderCli,
    created: Option<String>,
    local_thread_id: String,
) -> (r: Result<String, AppError>)
    ensures
        match (provider, created) {
            (ProviderCli::Amp, Some(t)) => r matches Ok(x) && x@ == t@,
            (ProviderCli::Amp, None) => r matches Err(AppError::InvalidState(m)) && m@
                == "amp provider did not return a thread id from create_thread"@,
            (_, Some(t)) => r matches Ok(x) && x@ == t@,
            (_, None) => r matches Ok(x) && x@ == local_thread_id@,
        },
{
    match created {
        Some(t) => Ok(t),
        None => match provider {
            ProviderCli::Amp => Err(
                AppError::InvalidState(
                    "amp provider did not return a thread id from create_thread".to_owned(),
                ),
            ),
            _ => Ok(local_thread_id),
        },
    }
}

/// The text of a locally made thread id: `thread-`, the provider's name, `-`
/// and `stamp`.
pub fn build_local_thread_id(provider: ProviderCli, stamp: &str) -> (r: String)
    ensures
        r@ == "thread-"@ + provider_cli_name(provider) + "-"@ + stamp@,
{
    let mut r = "thread-".to_owned();
    append_str(&mut r, provider.as_str());
    append_str(&mut r, "-");
    append_str(&mut r, stamp);
    r
}

// ---------------------------------------------------------------------------
// Completion detection
// ---------------------------------------------------------------------------

/// Whether provider output declares the intent complete: its ASCII-lowercased
/// text contains `[complete]`, `intent complete` or `done: true`.
pub open spec fn completion_signalled(output: Seq<char>) -> bool {
    let lower = ascii_lower_seq(output);
    contains_seq(lower, "[complete]"@) || contains_seq(lower, "intent complete"@) || contains_seq(
        lower,
        "done: true"@,
    )
}

/// Whether the characters of `needle` stand in `text` one after another
/// from position `k` on.
pub open spec fn appears_at(text: Seq<char>, needle: Seq<char>, k: int) -> bool {
    0 <= k && k + needle.len() <= text.len() && forall|m: int|
        0 <= m < needle.len() ==> #[trigger] text[k + m] == needle[m]
}

/// Whether `needle` appears as a run of consecutive characters of `text`.
pub open spec fn appears_in(text: Seq<char>, needle: Seq<char>) -> bool {
    exists|k: int| appears_at(text, needle, k)
}

proof fn lemma_contains_is_appearance(text: Seq<char>, needle: Seq<char>)
    ensures
        contains_seq(text, needle) <==> appears_in(text, needle),
{
    if contains_seq(text, needle) {
        let k = choose|k: int| occurs_at(text, needle, k);
        assert forall|m: int| 0 <= m < needle.len() implies #[trigger] text[k + m] == needle[m] by {
            assert(text.subrange(k, k + needle.len())[m] == text[k + m]);
        }
        assert(appears_at(text, needle, k));
    }
    if appears_in(text, needle) {
        let k = choose|k: int| appears_at(text, needle, k);
        assert(text.subrange(k, k + needle.len()) =~= needle) by {
            assert forall|m: int| 0 <= m < needle.len() implies text.subrange(k, k + needle.len())[m]
                == needle[m] by {
                assert(text[k + m] == needle[m]);
            }
        }
        assert(occurs_at(text, needle, k));
    }
}

/// Provider output signals completion exactly when its ASCII-lowercased text
/// holds `[complete]`, `intent complete` or `done: true` as a run of
/// characters; any other output, such as one that says "not complete", lets
/// the run go on.
pub proof fn law_completion_needs_a_marker(output: Seq<char>)
    ensures
        completion_signalled(output) <==> (appears_in(ascii_lower_seq(output), "[complete]"@)
            || appears_in(ascii_lower_seq(output), "intent complete"@) || appears_in(
            ascii_lower_seq(output),
            "done: true"@,
        )),
{
    let lower = ascii_lower_seq(output);
    lemma_contains_is_appearance(lower, "[complete]"@);
    lemma_contains_is_appearance(lower, "intent complete"@);
    lemma_contains_is_appearance(lower, "done: true"@);
}

/// Whether provider output declares the intent complete.
pub fn detect_completion_signal(output: &str) -> (r: bool)
    ensures
        r == completion_signalled(output@),
{
    let cs = chars_of(output);
    let lower = ascii_lowercase_chars(&cs);
    let a = chars_of("[complete]");
    let b = chars_of("intent complete");
    let c = chars_of("done: true");
    contains_chars(&lower, &a) || contains_chars(&lower, &b) || contains_chars(&lower, &c)
}

// ---------------------------------------------------------------------------
// Interrupts
// ---------------------------------------------------------------------------

/// Counts interrupts: the first asks for a graceful stop after the current
/// step, any further one asks to exit at once.
#[derive(Debug, Clone)]
pub struct InterruptController {
    interrupt_count: usize,
    graceful_stop: bool,
}

impl InterruptController {
    /// How many interrupts were recorded, saturating at the largest `usize`.
    pub closed spec fn interrupts(&self) -> nat {
        self.interrupt_count as nat
    }

    /// Whether a graceful stop was requested.
    pub closed spec fn stop_requested(&self) -> bool {
        self.graceful_stop
    }

    /// A controller that has seen no interrupt.
    pub fn new() -> (r: Self)
        ensures
            r.interrupts() == 0,
            !r.stop_requested(),
    {
        InterruptController { interrupt_count: 0, graceful_stop: false }
    }

    /// Whether the loop should stop after the current step.
    pub fn should_gracefully_stop(&self) -> (r: bool)
        ensures
            r == self.stop_requested(),
    {
        self.graceful_stop
    }

    /// Records one interrupt. The first one requests a graceful stop and
    /// returns `false`; any later one returns `true`: exit at once.
    pub fn record_interrupt(&mut self) -> (r: bool)
        ensures
            r == (old(self).interrupts() > 0),
            final(self).stop_requested() == (old(self).stop_requested() || old(self).interrupts()
                == 0),
            final(self).interrupts() == if old(self).interrupts() < usize::MAX {
                old(self).interrupts() + 1
            } else {
                old(self).interrupts()
            },
    {
        let previous = self.interrupt_count;
        if self.interrupt_count < usize::MAX {
            self.interrupt_count = self.interrupt_count + 1;
        }
        if previous == 0 {
            self.graceful_stop = true;
            false
        } else {
            true
        }
    }

    /// Records an interrupt as a signal would; see [`Self::record_interrupt`].
    pub fn simulate_interrupt(&mut self) -> (r: bool)
        ensures
            r == (old(self).interrupts() > 0),
            final(self).stop_requested() == (old(self).stop_requested() || old(self).interrupts()
                == 0),
            final(self).interrupts() == if old(self).interrupts() < usize::MAX {
                old(self).interrupts() + 1
            } else {
                old(self).interrupts()
            },
    {
        self.record_interrupt()
    }
}

impl Default for InterruptController {
    fn default() -> (r: Self)
        ensures
            r.interrupts() == 0,
            !r.stop_requested(),
    {
        InterruptController::new()
    }
}

// ---------------------------------------------------------------------------
// Auto mode
// ---------------------------------------------------------------------------

/// What a saved checkpoint says about an interrupted auto run.
#[derive(Debug, Clone, PartialEq, Eq)]
pub struct ResumeCheckpoint {
    pub session_id: SessionId,
    pub current_node_id: NodeId,
    pub step: u32,
    pub pending_prompt: Option<String>,
}

/// Where an auto run starts.
#[derive(Debug, Clone, PartialEq, Eq)]
pub struct AutoResumeState {
    pub step: u32,
    pub current_node_id: NodeId,
    pub pending_prompt: Option<String>,
    pub resumed: bool,
}

/// Where an auto run starts: afresh at step 0 from the session's current
/// node with the explicit prompt, unless resuming from a checkpoint of the
/// same session, which gives the step and node; an explicit prompt wins over
/// the checkpoint's pending one. A checkpoint of another session is refused.
pub fn resolve_auto_resume_state(
    session: &SessionTree,
    resume: bool,
    explicit_prompt: Option<String>,
    checkpoint: Option<ResumeCheckpoint>,
) -> (r: Result<AutoResumeState, AppError>)
    ensures
        (!resume || checkpoint is None) ==> (r matches Ok(st) && st.step == 0
            && st.current_node_id@ == session.current_node_id@ && st.pending_prompt
            == explicit_prompt && !st.resumed),
        resume ==> (checkpoint matches Some(c) ==> if c.session_id@ != session.session_id@ {
            r matches Err(AppError::InvalidState(m)) && m@ == "checkpoint belongs to '"@
                + c.session_id@ + "' but session is '"@ + session.session_id@ + "'"@
        } else {
            r matches Ok(st) && st.step == c.step && st.current_node_id == c.current_node_id
                && st.pending_prompt == (if explicit_prompt is Some {
                explicit_prompt
            } else {
                c.pending_prompt
            }) && st.resumed
        }),
{
    if !resume {
        return Ok(
            AutoResumeState {
                step: 0,
                current_node_id: session.current_node_id.duplicate(),
                pending_prompt: explicit_prompt,
                resumed: false,
            },
        );
    }
    match checkpoint {
        None => Ok(
            AutoResumeState {
                step: 0,
                current_node_id: session.current_node_id.duplicate(),
                pending_prompt: explicit_prompt,
                resumed: false,
            },
        ),
        Some(c) => {
            if c.session_id != session.session_id {
                let mut m = "checkpoint belongs to '".to_owned();
                append_str(&mut m, c.session_id.as_str());
                append_str(&mut m, "' but session is '");
                append_str(&mut m, session.session_id.as_str());
                append_str(&mut m, "'");
                return Err(AppError::InvalidState(m));
            }
            let pending_prompt = match explicit_prompt {
                Some(p) => Some(p),
                None => c.pending_prompt,
            };
            Ok(
                AutoResumeState {
                    step: c.step,
                    current_node_id: c.current_node_id,
                    pending_prompt,
                    resumed: true,
                },
            )
        },
    }
}

/// What an auto run does next.
#[derive(Debug, Clone, PartialEq, Eq)]
pub enum AutoAction {
    /// The run is over.
    Finish,
    /// Ask the provider for the next prompt, then generate with it.
    SuggestPrompt,
    /// Generate with this prompt.
    Generate(String),
}

/// The progress of an auto run: the step it is at, its limit, the prompt
/// waiting to be sent, and how it ended.
#[derive(Debug, Clone)]
pub struct AutoRun {
    pub step: u32,
    pub max_steps: u32,
    pub pending_prompt: Option<String>,
    pub completion_detected: bool,
    pub interrupted: bool,
    pub finished: bool,
}

impl AutoRun {
    /// A run that starts where `resume` says and stops after `max_steps` steps.
    pub fn new(resume: AutoResumeState, max_steps: u32) -> (r: Self)
        ensures
            r.step == resume.step,
            r.max_steps == max_steps,
            r.pending_prompt == resume.pending_prompt,
            !r.completion_detected,
            !r.interrupted,
            !r.finished,
    {
        AutoRun {
            step: resume.step,
            max_steps,
            pending_prompt: resume.pending_prompt,
            completion_detected: false,
            interrupted: false,
            finished: false,
        }
    }

    /// Decides the next move at the top of the loop: finish once the run is
    /// over or the step limit is reached; finish, marked interrupted, on a
    /// requested stop; otherwise generate with the pending prompt (taking
    /// it), or ask for a suggestion when none is pending.
    pub fn next_action(&mut self, stop_requested: bool) -> (r: AutoAction)
        ensures
            final(self).step == old(self).step,
            final(self).max_steps == old(self).max_steps,
            final(self).completion_detected == old(self).completion_detected,
            if old(self).finished || old(self).step >= old(self).max_steps {
                r == AutoAction::Finish && final(self).finished && final(self).interrupted
                    == old(self).interrupted && final(self).pending_prompt == old(
                    self,
                ).pending_prompt
            } else if stop_requested {
                r == AutoAction::Finish && final(self).finished && final(self).interrupted
                    && final(self).pending_prompt == old(self).pending_prompt
            } else {
                !final(self).finished && final(self).interrupted == old(self).interrupted
                    && final(self).pending_prompt is None && match old(self).pending_prompt {
                    Some(p) => r == AutoAction::Generate(p),
                    None => r == AutoAction::SuggestPrompt,
                }
            },
    {
        if self.finished || self.step >= self.max_steps {
            self.finished = true;
            return AutoAction::Finish;
        }
        if stop_requested {
            self.interrupted = true;
            self.finished = true;
            return AutoAction::Finish;
        }
        match self.pending_prompt.take() {
            Some(p) => AutoAction::Generate(p),
            None => AutoAction::SuggestPrompt,
        }
    }

    /// Records the output of the current step; output that signals
    /// completion ends the run. Returns whether it did.
    pub fn record_output(&mut self, artifact_output: &str) -> (r: bool)
        ensures
            r == completion_signalled(artifact_output@),
            final(self).completion_detected == r,
            final(self).finished == (old(self).finished || r),
            final(self).step == old(self).step,
            final(self).max_steps == old(self).max_steps,
            final(self).pending_prompt == old(self).pending_prompt,
            final(self).interrupted == old(self).interrupted,
    {
        let done = detect_completion_signal(artifact_output);
        self.completion_detected = done;
        if done {
            self.finished = true;
        }
        done
    }

    /// Closes the current step: the suggested prompt waits for the next one.
    pub fn advance(&mut self, next_prompt: String)
        requires
            old(self).step < old(self).max_steps,
        ensures
            final(self).step == old(self).step + 1,
            final(self).pending_prompt == Some(next_prompt),
            final(self).max_steps == old(self).max_steps,
            final(self).completion_detected == old(self).completion_detected,
            final(self).interrupted == old(self).interrupted,
            final(self).finished == old(self).finished,
    {
        self.pending_prompt = Some(next_prompt);
        self.step = self.step + 1;
    }

    /// Ends the run when the user declines to go on.
    /// How the run ends once the loop is left: a requested stop ends it
    /// as interrupted (exit code 130), otherwise it succeeds.
    pub fn outcome(&self, stop_requested: bool) -> (r: Result<(), AppError>)
        ensures
            stop_requested ==> (r matches Err(AppError::Interrupted(m)) && m@
                == "received interrupt and stopped with checkpoint"@),
            !stop_requested ==> r is Ok,
    {
        if stop_requested {
            Err(AppError::Interrupted("received interrupt and stopped with checkpoint".to_owned()))
        } else {
            Ok(())
        }
    }

    pub fn decline(&mut self)
        ensures
            final(self).finished,
            final(self).step == old(self).step,
            final(self).max_steps == old(self).max_steps,
            final(self).pending_prompt == old(self).pending_prompt,
            final(self).completion_detected == old(self).completion_detected,
            final(self).interrupted == old(self).interrupted,
    {
        self.finished = true;
    }
}

// ---------------------------------------------------------------------------
// Node labels
// ---------------------------------------------------------------------------

/// Letters and digits are kept, every other character becomes a hyphen.
pub open spec fn hyphenate(s: Seq<char>) -> Seq<char> {
    s.map_values(|c: char| if is_alnum(c) { c } else { '-' })
}

/// The finished words and the word in progress after reading `s`, where
/// hyphens separate words and empty words are dropped.
pub open spec fn hyphen_parts(s: Seq<char>) -> (Seq<Seq<char>>, Seq<char>)
    decreases s.len(),
{
    if s.len() == 0 {
        (seq![], seq![])
    } else {
        let (done, cur) = hyphen_parts(s.drop_last());
        if s.last() == '-' {
            if cur.len() > 0 {
                (done.push(cur), seq![])
            } else {
                (done, seq![])
            }
        } else {
            (done, cur.push(s.last()))
        }
    }
}

/// The non-empty hyphen-separated words of `s`.
pub open spec fn hyphen_words(s: Seq<char>) -> Seq<Seq<char>> {
    let (done, cur) = hyphen_parts(s);
    if cur.len() > 0 {
        done.push(cur)
    } else {
        done
    }
}

/// Words joined by hyphens.
pub open spec fn hyphen_joined(ws: Seq<Seq<char>>) -> Seq<char>
    decreases ws.len(),
{
    if ws.len() == 0 {
        seq![]
    } else if ws.len() == 1 {
        ws[0]
    } else {
        hyphen_joined(ws.drop_last()) + "-"@ + ws.last()
    }
}

/// The short slug of a text: its first four words after lowercasing and
/// turning everything but letters and digits into separators, or `item`.
pub open spec fn short_slug(value: Seq<char>) -> Seq<char> {
    let ws = hyphen_words(hyphenate(unicode_lowercase(value)));
    let firsts = if ws.len() > 4 {
        ws.take(4)
    } else {
        ws
    };
    if firsts.len() == 0 {
        "item"@
    } else {
        hyphen_joined(firsts)
    }
}

/// The label of a new node: the prefix, the short slug of its text, and an
/// eight-digit token taken from a clock reading in microseconds.
pub open spec fn node_label(prefix: Seq<char>, value: Seq<char>, micros: u128) -> Seq<char> {
    prefix + "-"@ + short_slug(value) + "-"@ + decimal_digits((micros % 100_000_000) as nat, 8)
}

fn slug_words(cs: &Vec<char>) -> (r: Vec<Vec<char>>)
    ensures
        chars_seqs(r@) == hyphen_words(hyphenate(cs@)),
{
    let ghost h = hyphenate(cs@);
    let mut done: Vec<Vec<char>> = Vec::new();
    let mut cur: Vec<char> = Vec::new();
    let mut i: usize = 0;
    while i < cs.len()
        invariant
            i <= cs.len(),
            h == hyphenate(cs@),
            (chars_seqs(done@), cur@) == hyphen_parts(h.take(i as int)),
        decreases cs.len() - i,
    {
        proof {
            assert(h.take(i + 1).drop_last() =~= h.take(i as int));
        }
        let c = if char_is_alnum(cs[i]) {
            cs[i]
        } else {
            '-'
        };
        assert(h.take(i + 1).last() == c);
        if c == '-' {
            if cur.len() > 0 {
                let ghost d0 = chars_seqs(done@);
                let ghost c0 = cur@;
                done.push(cur);
                cur = Vec::new();
                assert(chars_seqs(done@) =~= d0.push(c0));
            } else {
                cur = Vec::new();
            }
        } else {
            cur.push(c);
        }
        i = i + 1;
    }
    assert(h.take(cs.len() as int) =~= h);
    if cur.len() > 0 {
        let ghost d0 = chars_seqs(done@);
        let ghost c0 = cur@;
        done.push(cur);
        assert(chars_seqs(done@) =~= d0.push(c0));
    }
    done
}

/// The label of a new node made from `value`: `prefix`, `-`, the first four
/// words of the lowercased text (letters and digits only, or `item`), `-`,
/// and the clock reading `micros` modulo 100000000 with eight digits.
pub fn build_label(prefix: &str, value: &str, micros: u128) -> (r: String)
    ensures
        r@ == node_label(prefix@, value@, micros),
{
    let lower = to_lowercase(value);
    let cs = chars_of(lower.as_str());
    let words = slug_words(&cs);
    let ghost ws = chars_seqs(words@);
    let count = if words.len() > 4 {
        4
    } else {
        words.len()
    };
    let ghost firsts = if ws.len() > 4 {
        ws.take(4)
    } else {
        ws
    };
    assert(firsts =~= ws.take(count as int));
    let mut slug = String::new();
    let mut k: usize = 0;
    while k < count
        invariant
            k <= count <= words.len(),
            ws == chars_seqs(words@),
            slug@ == hyphen_joined(ws.take(k as int)),
        decreases count - k,
    {
        proof {
            assert(ws.take(k + 1).drop_last() =~= ws.take(k as int));
        }
        if k > 0 {
            append_str(&mut slug, "-");
        }
        let w = string_from_chars(&words[k]);
        append_str(&mut slug, w.as_str());
        proof {
            if k == 0 {
                assert(slug@ =~= ws.take(1)[0]);
            }
        }
        k = k + 1;
    }
    let token: u64 = (micros % 100_000_000) as u64;
    let digits = format_decimal(token, 8);
    let mut r = prefix.to_owned();
    append_str(&mut r, "-");
    if count == 0 {
        append_str(&mut r, "item");
    } else {
        append_str(&mut r, slug.as_str());
    }
    append_str(&mut r, "-");
    append_str(&mut r, digits.as_str());
    r
}

// ---------------------------------------------------------------------------
// Colour codes
// ---------------------------------------------------------------------------

/// What follows a control sequence: everything after its final letter.
pub open spec fn after_sequence(t: Seq<char>) -> Seq<char>
    decreases t.len(),
{
    if t.len() == 0 {
        t
    } else if is_alpha(t[0]) {
        t.drop_first()
    } else {
        after_sequence(t.drop_first())
    }
}

/// The text without ANSI control sequences: an escape followed by `[` starts
/// one, and it runs up to and including the next ASCII letter.
pub open spec fn without_ansi(s: Seq<char>) -> Seq<char>
    decreases s.len(),
{
    if s.len() == 0 {
        s
    } else if s[0] == '\u{1b}' && s.len() > 1 && s[1] == '[' {
        proof {
            lemma_after_sequence_shorter(s.skip(2));
        }
        without_ansi(after_sequence(s.skip(2)))
    } else {
        seq![s[0]] + without_ansi(s.drop_first())
    }
}

pub proof fn lemma_after_sequence_shorter(t: Seq<char>)
    ensures
        after_sequence(t).len() <= t.len(),
        exists|k: int| 0 <= k <= t.len() && after_sequence(t) == #[trigger] t.skip(k),
    decreases t.len(),
{
    if t.len() == 0 {
        assert(t.skip(0) =~= t);
    } else if is_alpha(t[0]) {
        assert(t.skip(1) =~= t.drop_first());
    } else {
        lemma_after_sequence_shorter(t.drop_first());
        let k = choose|k: int|
            0 <= k <= t.drop_first().len() && after_sequence(t.drop_first()) == #[trigger] t.drop_first().skip(k);
        assert(t.drop_first().skip(k) =~= t.skip(k + 1));
    }
}

/// The text with ANSI control sequences removed.
pub fn strip_ansi_codes(input: &str) -> (r: String)
    ensures
        r@ == without_ansi(input@),
{
    let cs = chars_of(input);
    let ghost s = cs@;
    let mut out: Vec<char> = Vec::new();
    let mut i: usize = 0;
    assert(s.skip(0) =~= s);
    while i < cs.len()
        invariant
            i <= cs.len(),
            s == cs@,
            out@ + without_ansi(s.skip(i as int)) == without_ansi(s),
        decreases cs.len() - i,
    {
        let ghost rest = s.skip(i as int);
        if cs[i] == '\u{1b}' && i + 1 < cs.len() && cs[i + 1] == '[' {
            let mut j = i + 2;
            assert(rest.skip(2) =~= s.skip(j as int));
            while j < cs.len() && !char_is_alpha(cs[j])
                invariant
                    i + 2 <= j <= cs.len(),
                    s == cs@,
                    after_sequence(s.skip(i + 2)) == after_sequence(s.skip(j as int)),
                decreases cs.len() - j,
            {
                assert(s.skip(j as int).drop_first() =~= s.skip(j + 1));
                j = j + 1;
            }
            if j < cs.len() {
                assert(s.skip(j as int).drop_first() =~= s.skip(j + 1));
                j = j + 1;
            } else {
                assert(s.skip(j as int).len() == 0);
            }
            assert(after_sequence(rest.skip(2)) == s.skip(j as int));
            i = j;
        } else {
            out.push(cs[i]);
            assert(rest.drop_first() =~= s.skip(i + 1));
            assert(out@ + without_ansi(s.skip(i + 1)) =~= out@.drop_last() + without_ansi(rest));
            i = i + 1;
        }
    }
    assert(s.skip(cs.len() as int) =~= Seq::<char>::empty());
    assert(out@ + without_ansi(Seq::<char>::empty()) =~= out@);
    string_from_chars(&out)
}

} // verus!
