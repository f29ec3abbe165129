//! Completion providers: requests, responses, errors, the provider trait, the
//! echo provider, and the text rules of the Amp command line and thread ids.
use vstd::prelude::*;

use crate::amp_stream::chunk_sent;
use crate::domain::opt_str_view;
use crate::text::{
    append_str, char_is_alnum, char_is_hex, char_is_ws, chars_of, concat2, decimal_digits,
    format_decimal, is_alnum, is_hex, is_ws, string_from_chars, trim_str, trim_ws,
};

verus! {

#[derive(Debug, Clone, PartialEq, Eq)]
pub struct ProviderRequest {
    pub prompt: String,
    pub thread_id: Option<String>,
}

#[derive(Debug, Clone, PartialEq, Eq)]
pub struct ProviderResponse {
    pub output: String,
    pub thread_id: Option<String>,
}

#[derive(Debug, Clone, PartialEq, Eq)]
pub enum ProviderKind {
    Echo,
    Amp,
    Anthropic,
}

#[derive(Debug, Clone, PartialEq, Eq)]
pub enum ProviderError {
    CommandFailed { provider: ProviderKind, status_code: Option<i32>, stderr: String },
    CommandExecutionFailed { provider: ProviderKind, error_message: String },
    MissingThreadId { provider: ProviderKind },
    ThreadIdParseFailed { provider: ProviderKind, output: String },
    StreamJsonParseFailed { provider: ProviderKind, line: String, error_message: String },
    MissingResult { provider: ProviderKind, output: String },
}

/// The name of a provider kind, as its variant is written.
pub open spec fn provider_kind_name(k: ProviderKind) -> Seq<char> {
    match k {
        ProviderKind::Echo => "Echo"@,
        ProviderKind::Amp => "Amp"@,
        ProviderKind::Anthropic => "Anthropic"@,
    }
}

/// Decimal text of a signed integer, with a leading `-` when negative.
pub open spec fn signed_text(v: int) -> Seq<char> {
    if v < 0 {
        "-"@ + decimal_digits((-v) as nat, 1)
    } else {
        decimal_digits(v as nat, 1)
    }
}

/// An optional exit status as written for diagnostics: `None` or `Some(..)`.
pub open spec fn status_text(o: Option<i32>) -> Seq<char> {
    match o {
        None => "None"@,
        Some(v) => "Some("@ + signed_text(v as int) + ")"@,
    }
}

/// The human-readable message of a provider error.
pub open spec fn provider_error_text(e: ProviderError) -> Seq<char> {
    match e {
        ProviderError::CommandFailed { provider, status_code, stderr } => "provider "@
            + provider_kind_name(provider) + " failed with status "@ + status_text(status_code)
            + ": "@ + stderr@,
        ProviderError::CommandExecutionFailed { provider, error_message } => "provider "@
            + provider_kind_name(provider) + " command failed to execute: "@ + error_message@,
        ProviderError::MissingThreadId { provider } => "provider "@ + provider_kind_name(provider)
            + " requires a thread id"@,
        ProviderError::ThreadIdParseFailed { provider, output } => "provider "@
            + provider_kind_name(provider) + " did not return a parseable thread id: "@ + output@,
        ProviderError::StreamJsonParseFailed { provider, line, error_message } => "provider "@
            + provider_kind_name(provider) + " returned invalid stream-json line '"@ + line@
            + "': "@ + error_message@,
        ProviderError::MissingResult { provider, output } => "provider "@ + provider_kind_name(
            provider,
        ) + " stream-json response missing final result: "@ + output@,
    }
}

impl ProviderKind {
    /// A copy of this kind.
    pub fn duplicate(&self) -> (r: Self)
        ensures
            r == *self,
    {
        match self {
            ProviderKind::Echo => ProviderKind::Echo,
            ProviderKind::Amp => ProviderKind::Amp,
            ProviderKind::Anthropic => ProviderKind::Anthropic,
        }
    }

    /// The name of this kind, as its variant is written.
    pub fn name(&self) -> (r: &'static str)
        ensures
            r@ == provider_kind_name(*self),
    {
        match self {
            ProviderKind::Echo => "Echo",
            ProviderKind::Amp => "Amp",
            ProviderKind::Anthropic => "Anthropic",
        }
    }
}

/// Decimal text of a signed 32-bit integer.
pub fn format_signed(v: i32) -> (r: String)
    ensures
        r@ == signed_text(v as int),
{
    if v < 0 {
        let wide: i64 = v as i64;
        let magnitude: u64 = (-wide) as u64;
        let digits = format_decimal(magnitude, 1);
        let mut r = "-".to_owned();
        append_str(&mut r, digits.as_str());
        r
    } else {
        let magnitude: u64 = v as u64;
        format_decimal(magnitude, 1)
    }
}

fn format_status(o: Option<i32>) -> (r: String)
    ensures
        r@ == status_text(o),
{
    match o {
        None => "None".to_owned(),
        Some(v) => {
            let mut r = "Some(".to_owned();
            let t = format_signed(v);
            append_str(&mut r, t.as_str());
            append_str(&mut r, ")");
            r
        },
    }
}

impl ProviderError {
    /// The human-readable message of this error.
    pub fn message(&self) -> (r: String)
        ensures
            r@ == provider_error_text(*self),
    {
        match self {
            ProviderError::CommandFailed { provider, status_code, stderr } => {
                let mut r = "provider ".to_owned();
                append_str(&mut r, provider.name());
                append_str(&mut r, " failed with status ");
                let st = format_status(*status_code);
                append_str(&mut r, st.as_str());
                append_str(&mut r, ": ");
                append_str(&mut r, stderr.as_str());
                r
            },
            ProviderError::CommandExecutionFailed { provider, error_message } => {
                let mut r = "provider ".to_owned();
                append_str(&mut r, provider.name());
                append_str(&mut r, " command failed to execute: ");
                append_str(&mut r, error_message.as_str());
                r
            },
            ProviderError::MissingThreadId { provider } => {
                let mut r = "provider ".to_owned();
                append_str(&mut r, provider.name());
                append_str(&mut r, " requires a thread id");
                r
            },
            ProviderError::ThreadIdParseFailed { provider, output } => {
                let mut r = "provider ".to_owned();
                append_str(&mut r, provider.name());
                append_str(&mut r, " did not return a parseable thread id: ");
                append_str(&mut r, output.as_str());
                r
            },
            ProviderError::StreamJsonParseFailed { provider, line, error_message } => {
                let mut r = "provider ".to_owned();
                append_str(&mut r, provider.name());
                append_str(&mut r, " returned invalid stream-json line '");
                append_str(&mut r, line.as_str());
                append_str(&mut r, "': ");
                append_str(&mut r, error_message.as_str());
                r
            },
            ProviderError::MissingResult { provider, output } => {
                let mut r = "provider ".to_owned();
                append_str(&mut r, provider.name());
                append_str(&mut r, " stream-json response missing final result: ");
                append_str(&mut r, output.as_str());
                r
            },
        }
    }
}

/// A completion provider: turns a prompt (on an optional thread) into output.
pub trait CompletionProvider {
    fn generate(&self, request: &ProviderRequest) -> Result<ProviderResponse, ProviderError>;

    /// Generates, then hands the whole output to `on_chunk` once.
    fn generate_streaming<F: FnMut(&str)>(
        &self,
        request: &ProviderRequest,
        on_chunk: &mut F,
    ) -> (r: Result<ProviderResponse, ProviderError>)
        requires
            forall|c: &str| call_requires(*old(on_chunk), (c,)),
        default_ensures
            call_ensures(Self::generate, (self, request), r),
            r matches Ok(resp) ==> chunk_sent(*old(on_chunk), resp.output@),
    {
        broadcast use vstd::function::group_function_axioms;

        let response = self.generate(request)?;
        let c = response.output.as_str();
        on_chunk(c);
        assert(call_ensures(*old(on_chunk), (c,), ()));
        Ok(response)
    }

    /// Creates a provider-side thread; by default there is none.
    fn create_thread(&self) -> (r: Result<Option<String>, ProviderError>)
        default_ensures
            r matches Ok(None),
    {
        Ok(None)
    }
}

/// A provider that answers every prompt with `echo:` followed by the prompt.
#[derive(Debug, Clone, Copy, PartialEq, Eq)]
pub struct EchoProvider;

impl CompletionProvider for EchoProvider {
    fn generate(&self, request: &ProviderRequest) -> (r: Result<ProviderResponse, ProviderError>)
        ensures
            r matches Ok(resp) && resp.output@ == "echo:"@ + request.prompt@ && resp.thread_id
                == request.thread_id,
    {
        let output = concat2("echo:", request.prompt.as_str());
        let thread_id = match &request.thread_id {
            Some(t) => Some(t.clone()),
            None => None,
        };
        Ok(ProviderResponse { output, thread_id })
    }
}

/// The arguments of `amp` that continue thread `thread_id` with `prompt` and
/// stream JSON lines.
pub fn build_amp_continue_args(thread_id: &str, prompt: &str) -> (r: Vec<String>)
    ensures
        r@.map_values(|s: String| s@) == seq![
            "--no-color"@,
            "threads"@,
            "continue"@,
            thread_id@,
            "-x"@,
            prompt@,
            "--stream-json"@,
        ],
{
    let mut r: Vec<String> = Vec::new();
    r.push("--no-color".to_owned());
    r.push("threads".to_owned());
    r.push("continue".to_owned());
    r.push(thread_id.to_owned());
    r.push("-x".to_owned());
    r.push(prompt.to_owned());
    r.push("--stream-json".to_owned());
    assert(r@.map_values(|s: String| s@) =~= seq![
        "--no-color"@,
        "threads"@,
        "continue"@,
        thread_id@,
        "-x"@,
        prompt@,
        "--stream-json"@,
    ]);
    r
}

/// The shape of an Amp thread id: `T-` followed by 36 hexadecimal digits or hyphens.
pub open spec fn is_thread_id_shape(s: Seq<char>) -> bool {
    &&& s.len() == 38
    &&& s[0] == 'T'
    &&& s[1] == '-'
    &&& forall|k: int| 2 <= k < 38 ==> is_hex(#[trigger] s[k]) || s[k] == '-'
}

fn chars_thread_id_shape(cs: &Vec<char>) -> (r: bool)
    ensures
        r == is_thread_id_shape(cs@),
{
    if cs.len() != 38 || cs[0] != 'T' || cs[1] != '-' {
        return false;
    }
    let mut k: usize = 2;
    while k < 38
        invariant
            2 <= k <= 38,
            cs.len() == 38,
            forall|q: int| 2 <= q < k ==> is_hex(#[trigger] cs@[q]) || cs@[q] == '-',
        decreases 38 - k,
    {
        if !(char_is_hex(cs[k]) || cs[k] == '-') {
            return false;
        }
        k = k + 1;
    }
    true
}

/// Whether `token` has the shape of an Amp thread id.
pub fn looks_like_thread_id(token: &str) -> (r: bool)
    ensures
        r == is_thread_id_shape(token@),
{
    let cs = chars_of(token);
    chars_thread_id_shape(&cs)
}

/// Characters kept at the ends of a candidate thread id.
pub open spec fn id_char(c: char) -> bool {
    is_alnum(c) || c == '-'
}

/// Drops characters other than letters, digits and hyphens from the front.
pub open spec fn trim_id_start(w: Seq<char>) -> Seq<char>
    decreases w.len(),
{
    if w.len() > 0 && !id_char(w[0]) {
        trim_id_start(w.drop_first())
    } else {
        w
    }
}

/// Drops characters other than letters, digits and hyphens from the back.
pub open spec fn trim_id_end(w: Seq<char>) -> Seq<char>
    decreases w.len(),
{
    if w.len() > 0 && !id_char(w.last()) {
        trim_id_end(w.drop_last())
    } else {
        w
    }
}

/// Position where the whitespace-free run starting at `i` ends.
pub open spec fn token_end(s: Seq<char>, i: int) -> int
    decreases s.len() - i,
{
    if i < 0 || i >= s.len() {
        s.len() as int
    } else if is_ws(s[i]) {
        i
    } else {
        token_end(s, i + 1)
    }
}

/// The whitespace-separated words of `s` from position `i` on.
pub open spec fn words_from(s: Seq<char>, i: int) -> Seq<Seq<char>>
    decreases s.len() - i,
{
    if i < 0 || i >= s.len() {
        seq![]
    } else if is_ws(s[i]) {
        words_from(s, i + 1)
    } else {
        let j = token_end(s, i);
        if j <= i || j > s.len() {
            seq![]
        } else {
            seq![s.subrange(i, j)] + words_from(s, j)
        }
    }
}

/// The first word that, trimmed of characters other than letters, digits and
/// hyphens at its ends, has the shape of a thread id; that trimmed word.
pub open spec fn first_thread_id(words: Seq<Seq<char>>) -> Option<Seq<char>>
    decreases words.len(),
{
    if words.len() == 0 {
        None
    } else if is_thread_id_shape(trim_id_end(trim_id_start(words[0]))) {
        Some(trim_id_end(trim_id_start(words[0])))
    } else {
        first_thread_id(words.drop_first())
    }
}

pub proof fn lemma_token_end(s: Seq<char>, i: int)
    requires
        0 <= i <= s.len(),
    ensures
        i <= token_end(s, i) <= s.len(),
        forall|k: int| i <= k < token_end(s, i) ==> !is_ws(#[trigger] s[k]),
        token_end(s, i) < s.len() ==> is_ws(s[token_end(s, i)]),
    decreases s.len() - i,
{
    if i < s.len() && !is_ws(s[i]) {
        lemma_token_end(s, i + 1);
    }
}

/// The word `w[a..b]` with characters other than letters, digits and hyphens
/// trimmed from both ends.
fn trim_id_word(cs: &Vec<char>, a: usize, b: usize) -> (r: Vec<char>)
    requires
        a <= b <= cs.len(),
    ensures
        r@ == trim_id_end(trim_id_start(cs@.subrange(a as int, b as int))),
{
    let mut lo = a;
    while lo < b && !(char_is_alnum(cs[lo]) || cs[lo] == '-')
        invariant
            a <= lo <= b <= cs.len(),
            trim_id_start(cs@.subrange(a as int, b as int)) == trim_id_start(
                cs@.subrange(lo as int, b as int),
            ),
        decreases b - lo,
    {
        assert(cs@.subrange(lo as int, b as int).drop_first() =~= cs@.subrange(lo + 1, b as int));
        lo = lo + 1;
    }
    assert(trim_id_start(cs@.subrange(lo as int, b as int)) == cs@.subrange(lo as int, b as int));
    let mut hi = b;
    while hi > lo && !(char_is_alnum(cs[hi - 1]) || cs[hi - 1] == '-')
        invariant
            a <= lo <= hi <= b <= cs.len(),
            trim_id_end(cs@.subrange(lo as int, b as int)) == trim_id_end(
                cs@.subrange(lo as int, hi as int),
            ),
        decreases hi - lo,
    {
        assert(cs@.subrange(lo as int, hi as int).drop_last() =~= cs@.subrange(lo as int, hi - 1));
        hi = hi - 1;
    }
    assert(trim_id_end(cs@.subrange(lo as int, hi as int)) == cs@.subrange(lo as int, hi as int));
    let mut r: Vec<char> = Vec::new();
    let mut k = lo;
    while k < hi
        invariant
            lo <= k <= hi <= cs.len(),
            r@ == cs@.subrange(lo as int, k as int),
        decreases hi - k,
    {
        r.push(cs[k]);
        assert(r@ =~= cs@.subrange(lo as int, k + 1));
        k = k + 1;
    }
    r
}

/// The first whitespace-separated token of `output` that, trimmed of
/// characters other than letters, digits and hyphens, looks like a thread id.
pub fn extract_thread_id(output: &str) -> (r: Option<String>)
    ensures
        opt_str_view(r) == first_thread_id(words_from(output@, 0)),
{
    let cs = chars_of(output);
    let ghost s = cs@;
    let mut i: usize = 0;
    while i < cs.len()
        invariant
            s == cs@,
            s == output@,
            i <= cs.len(),
            first_thread_id(words_from(s, 0)) == first_thread_id(words_from(s, i as int)),
        decreases cs.len() - i,
    {
        if char_is_ws(cs[i]) {
            i = i + 1;
        } else {
            let mut j = i;
            while j < cs.len() && !char_is_ws(cs[j])
                invariant
                    s == cs@,
                    i <= j <= cs.len(),
                    token_end(s, i as int) == token_end(s, j as int),
                decreases cs.len() - j,
            {
                j = j + 1;
            }
            proof {
                lemma_token_end(s, i as int);
                assert(token_end(s, i as int) == j);
                let w = s.subrange(i as int, j as int);
                assert((seq![w] + words_from(s, j as int)).drop_first() =~= words_from(
                    s,
                    j as int,
                ));
                assert((seq![w] + words_from(s, j as int))[0] == w);
            }
            let t = trim_id_word(&cs, i, j);
            if chars_thread_id_shape(&t) {
                return Some(string_from_chars(&t));
            }
            i = j;
        }
    }
    None
}

/// The arguments of the Anthropic command line that answer `prompt` once, as plain text.
pub fn build_anthropic_args(prompt: &str) -> (r: Vec<String>)
    ensures
        r@.map_values(|s: String| s@) == seq!["-p"@, "--output-format"@, "text"@, prompt@],
{
    let mut r: Vec<String> = Vec::new();
    r.push("-p".to_owned());
    r.push("--output-format".to_owned());
    r.push("text".to_owned());
    r.push(prompt.to_owned());
    assert(r@.map_values(|s: String| s@) =~= seq!["-p"@, "--output-format"@, "text"@, prompt@]);
    r
}

/// The thread that an Amp request continues; Amp cannot answer without one.
pub fn amp_thread_id(request: &ProviderRequest) -> (r: Result<String, ProviderError>)
    ensures
        match request.thread_id {
            Some(t) => r matches Ok(x) && x@ == t@,
            None => r == Err::<String, ProviderError>(
                ProviderError::MissingThreadId { provider: ProviderKind::Amp },
            ),
        },
{
    match &request.thread_id {
        Some(t) => Ok(t.as_str().to_owned()),
        None => Err(ProviderError::MissingThreadId { provider: ProviderKind::Amp }),
    }
}

/// The response of a finished provider command: its trimmed standard
/// output, or, when it failed, an error with its status and trimmed
/// standard error.
pub fn command_response(
    provider: ProviderKind,
    exit_success: bool,
    status_code: Option<i32>,
    stdout: &str,
    stderr: &str,
) -> (r: Result<ProviderResponse, ProviderError>)
    ensures
        !exit_success ==> (r matches Err(
            ProviderError::CommandFailed { provider: p, status_code: c, stderr: e },
        ) && p == provider && c == status_code && e@ == trim_ws(stderr@)),
        exit_success ==> (r matches Ok(resp) && resp.output@ == trim_ws(stdout@)
            && resp.thread_id is None),
{
    if !exit_success {
        let e = trim_str(stderr);
        return Err(ProviderError::CommandFailed { provider, status_code, stderr: e });
    }
    Ok(ProviderResponse { output: trim_str(stdout), thread_id: None })
}

/// The thread that `amp threads new` reported: the first token of its
/// output shaped like a thread id; without one the output is returned in
/// the error.
pub fn thread_id_from_output(output: String) -> (r: Result<Option<String>, ProviderError>)
    ensures
        match first_thread_id(words_from(output@, 0)) {
            Some(t) => r matches Ok(Some(x)) && x@ == t,
            None => r matches Err(ProviderError::ThreadIdParseFailed { provider: p, output: o })
                && p == ProviderKind::Amp && o@ == output@,
        },
{
    match extract_thread_id(output.as_str()) {
        Some(t) => Ok(Some(t)),
        None => Err(ProviderError::ThreadIdParseFailed { provider: ProviderKind::Amp, output }),
    }
}

} // verus!
