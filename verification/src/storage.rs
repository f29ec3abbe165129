//! Storage rules that do not touch the disk: file names, schema version
//! checks, loading a session payload through migrations, and
//! deterministic, collision-aware labels.
use vstd::prelude::*;
use vstd::string::StringSliceAdditionalSpecFns;

use crate::amp_stream::{
    field, json_field, json_number_as_u64, number_as_u64, parse_json, parsed_json, JsonValue,
};
use crate::cli::IoFailureKind;
use crate::domain::{NodeId, SessionId};
use crate::text::{
    append_str, ascii_lower, char_ascii_lower, char_is_alnum, chars_of, decimal_digits,
    format_decimal, format_hex, hex_digits, is_alnum, string_from_chars,
};

verus! {

pub const SESSION_SCHEMA_VERSION: u32 = 1;

pub const SESSION_FILE_NAME: &'static str = "session.json";

pub const EVENTS_FILE_NAME: &'static str = "events.jsonl";

pub const LOCK_FILE_NAME: &'static str = "session.lock";

pub const CHECKPOINT_FILE_NAME: &'static str = "checkpoint.json";

pub const LABEL_COLLISION_MAX_ATTEMPTS: u32 = 256;

#[derive(Debug, Clone, Copy, PartialEq, Eq, Structural)]
pub enum LabelKind {
    Intent,
    Prompt,
    Artifact,
}

/// The word that starts every label of a kind.
pub open spec fn label_prefix(kind: LabelKind) -> Seq<char> {
    match kind {
        LabelKind::Intent => "intent"@,
        LabelKind::Prompt => "prompt"@,
        LabelKind::Artifact => "artifact"@,
    }
}

impl LabelKind {
    /// The word that starts every label of this kind.
    pub fn prefix(self) -> (r: &'static str)
        ensures
            r@ == label_prefix(self),
    {
        match self {
            LabelKind::Intent => "intent",
            LabelKind::Prompt => "prompt",
            LabelKind::Artifact => "artifact",
        }
    }
}

// ---------------------------------------------------------------------------
// Slugs
// ---------------------------------------------------------------------------

/// The state of slug building: the characters so far, whether the last one
/// is a hyphen, and whether the length limit has stopped the building.
pub struct SlugState {
    pub out: Seq<char>,
    pub prev_hyphen: bool,
    pub done: bool,
}

/// One input character of slug building: letters and digits are kept in
/// lowercase, anything else becomes a hyphen, no hyphen starts the slug or
/// follows another, and building stops once `max_len` characters are out.
pub open spec fn slug_step(st: SlugState, c: char, max_len: nat) -> SlugState {
    if st.done {
        st
    } else if !is_alnum(c) {
        if st.prev_hyphen || st.out.len() == 0 {
            st
        } else {
            SlugState { out: st.out.push('-'), prev_hyphen: true, done: st.out.len() + 1 >= max_len }
        }
    } else {
        SlugState {
            out: st.out.push(ascii_lower(c)),
            prev_hyphen: false,
            done: st.out.len() + 1 >= max_len,
        }
    }
}

/// Slug building over all of `input`.
pub open spec fn slug_run(input: Seq<char>, max_len: nat) -> SlugState
    decreases input.len(),
{
    if input.len() == 0 {
        SlugState { out: seq![], prev_hyphen: false, done: false }
    } else {
        slug_step(slug_run(input.drop_last(), max_len), input.last(), max_len)
    }
}

/// Drops hyphens from the end.
pub open spec fn trim_trailing_hyphens(s: Seq<char>) -> Seq<char>
    decreases s.len(),
{
    if s.len() > 0 && s.last() == '-' {
        trim_trailing_hyphens(s.drop_last())
    } else {
        s
    }
}

/// The slug of `input` of at most `max_len` characters: lowercase letters,
/// digits and single hyphens between them; `item` when nothing is left.
pub open spec fn normalized_segment(input: Seq<char>, max_len: nat) -> Seq<char> {
    let t = trim_trailing_hyphens(slug_run(input, max_len).out);
    if t.len() == 0 {
        "item"@
    } else {
        t
    }
}

/// Builds the slug of `input`: see [`normalized_segment`].
pub fn normalize_label_segment(input: &str, max_len: usize) -> (r: String)
    ensures
        r@ == normalized_segment(input@, max_len as nat),
{
    let cs = chars_of(input);
    let ghost s = cs@;
    let mut out: Vec<char> = Vec::new();
    let mut prev_hyphen = false;
    let mut i: usize = 0;
    while i < cs.len()
        invariant
            s == cs@,
            s == input@,
            i <= cs.len(),
            slug_run(s.take(i as int), max_len as nat) == (SlugState {
                out: out@,
                prev_hyphen,
                done: false,
            }),
        decreases cs.len() - i,
    {
        assert(s.take(i + 1).drop_last() =~= s.take(i as int));
        let c = cs[i];
        if !char_is_alnum(c) {
            if prev_hyphen || out.len() == 0 {
                i = i + 1;
                continue;
            }
            prev_hyphen = true;
            out.push('-');
        } else {
            prev_hyphen = false;
            out.push(char_ascii_lower(c));
        }
        if out.len() >= max_len {
            proof {
                let st = slug_run(s.take(i + 1), max_len as nat);
                assert(st.done);
                assert forall|k: int| i + 1 <= k <= s.len() implies slug_run(
                    #[trigger] s.take(k),
                    max_len as nat,
                ) == st by {
                    lemma_slug_run_done(s, i + 1, k, max_len as nat);
                }
                assert(s.take(s.len() as int) =~= s);
            }
            return finish_slug(out, Ghost(slug_run(s, max_len as nat)), Ghost(s), max_len);
        }
        i = i + 1;
    }
    assert(s.take(s.len() as int) =~= s);
    finish_slug(out, Ghost(slug_run(s, max_len as nat)), Ghost(s), max_len)
}

proof fn lemma_slug_run_done(s: Seq<char>, i: int, k: int, max_len: nat)
    requires
        0 <= i <= k <= s.len(),
        slug_run(s.take(i), max_len).done,
    ensures
        slug_run(s.take(k), max_len) == slug_run(s.take(i), max_len),
    decreases k - i,
{
    if k > i {
        lemma_slug_run_done(s, i, k - 1, max_len);
        assert(s.take(k).drop_last() =~= s.take(k - 1));
    }
}

fn finish_slug(out: Vec<char>, st: Ghost<SlugState>, s: Ghost<Seq<char>>, max_len: usize) -> (r:
    String)
    requires
        st@ == slug_run(s@, max_len as nat),
        out@ == st@.out,
    ensures
        r@ == normalized_segment(s@, max_len as nat),
{
    let mut n = out.len();
    assert(out@.take(n as int) =~= out@);
    while n > 0 && out[n - 1] == '-'
        invariant
            n <= out.len(),
            trim_trailing_hyphens(out@) == trim_trailing_hyphens(out@.take(n as int)),
        decreases n,
    {
        assert(out@.take(n as int).drop_last() =~= out@.take(n - 1));
        n = n - 1;
    }
    assert(trim_trailing_hyphens(out@.take(n as int)) == out@.take(n as int));
    assert(out@.take(out.len() as int) =~= out@);
    if n == 0 {
        return "item".to_owned();
    }
    let mut kept: Vec<char> = Vec::new();
    let mut k: usize = 0;
    while k < n
        invariant
            n <= out.len(),
            k <= n,
            kept@ == out@.take(k as int),
        decreases n - k,
    {
        kept.push(out[k]);
        assert(kept@ =~= out@.take(k + 1));
        k = k + 1;
    }
    string_from_chars(&kept)
}

// ---------------------------------------------------------------------------
// Hash tokens and labels
// ---------------------------------------------------------------------------

/// The 32-bit FNV-1a hash of a byte sequence.
pub open spec fn fnv1a(bytes: Seq<u8>) -> u32
    decreases bytes.len(),
{
    if bytes.len() == 0 {
        0x811C_9DC5u32
    } else {
        (fnv1a(bytes.drop_last()) ^ (bytes.last() as u32)).wrapping_mul(0x0100_0193u32)
    }
}

/// The token of a text: the FNV-1a hash of its UTF-8 bytes as eight
/// lowercase hexadecimal digits.
pub open spec fn hash_token(text: &str) -> Seq<char> {
    hex_digits(fnv1a(text.spec_bytes()) as nat, 8)
}

/// The hash token of `value`: see [`hash_token`].
pub fn short_hash_token(value: &str) -> (r: String)
    ensures
        r@ == hash_token(value),
{
    let bytes = value.as_bytes();
    let mut hash: u32 = 0x811C_9DC5;
    let mut i: usize = 0;
    while i < bytes.len()
        invariant
            bytes@ == value.spec_bytes(),
            i <= bytes.len(),
            hash == fnv1a(bytes@.take(i as int)),
        decreases bytes.len() - i,
    {
        assert(bytes@.take(i + 1).drop_last() =~= bytes@.take(i as int));
        hash = hash ^ (bytes[i] as u32);
        hash = hash.wrapping_mul(0x0100_0193);
        i = i + 1;
    }
    assert(bytes@.take(bytes.len() as int) =~= bytes@);
    format_hex(hash, 8)
}

/// The text hashed for a label: `<prefix>:<source>:<attempt>`.
pub open spec fn label_hash_source(kind: LabelKind, source: Seq<char>, attempt: nat) -> Seq<char> {
    label_prefix(kind) + ":"@ + source + ":"@ + decimal_digits(attempt, 1)
}

/// The label of `source` at collision attempt `attempt`:
/// `<prefix>-<slug of at most 16 characters>-<hash token>`, where the token
/// hashes the UTF-8 bytes of [`label_hash_source`].
pub open spec fn label_text(kind: LabelKind, source: Seq<char>, attempt: nat) -> Seq<char> {
    label_prefix(kind) + "-"@ + normalized_segment(source, 16) + "-"@ + hex_digits(
        fnv1a(utf8_of(label_hash_source(kind, source, attempt))) as nat,
        8,
    )
}

/// The UTF-8 encoding of a character sequence.
pub open spec fn utf8_of(s: Seq<char>) -> Seq<u8> {
    vstd::utf8::encode_utf8(s)
}

fn build_label(kind: LabelKind, source: &str, attempt: u32) -> (r: String)
    ensures
        r@ == label_text(kind, source@, attempt as nat),
{
    let prefix = kind.prefix();
    let slug = normalize_label_segment(source, 16);
    let mut hashed = prefix.to_owned();
    append_str(&mut hashed, ":");
    append_str(&mut hashed, source);
    append_str(&mut hashed, ":");
    let attempt_text = format_decimal(attempt as u64, 1);
    append_str(&mut hashed, attempt_text.as_str());
    let hs = hashed.as_str();
    let token = short_hash_token(hs);
    assert(hs.spec_bytes() == utf8_of(label_hash_source(kind, source@, attempt as nat)));
    let mut r = prefix.to_owned();
    append_str(&mut r, "-");
    append_str(&mut r, slug.as_str());
    append_str(&mut r, "-");
    append_str(&mut r, token.as_str());
    r
}

/// The label of `source` for its kind, at the first attempt.
pub fn generate_label(kind: LabelKind, source: &str) -> (r: String)
    ensures
        r@ == label_text(kind, source@, 0),
{
    build_label(kind, source, 0)
}

/// The intent label of `intent`.
pub fn generate_intent_label(intent: &str) -> (r: String)
    ensures
        r@ == label_text(LabelKind::Intent, intent@, 0),
{
    generate_label(LabelKind::Intent, intent)
}

/// The prompt label of `prompt`.
pub fn generate_prompt_label(prompt: &str) -> (r: String)
    ensures
        r@ == label_text(LabelKind::Prompt, prompt@, 0),
{
    generate_label(LabelKind::Prompt, prompt)
}

/// The artifact label of `artifact`.
pub fn generate_artifact_label(artifact: &str) -> (r: String)
    ensures
        r@ == label_text(LabelKind::Artifact, artifact@, 0),
{
    generate_label(LabelKind::Artifact, artifact)
}

#[verifier::external_type_specification]
#[verifier::external_body]
pub struct ExIoError(std::io::Error);

/// The label candidate of attempt `a` was reported as taken (`taken`) or free.
pub open spec fn probe_answer<F: Fn(&str) -> bool>(
    label_exists: F,
    kind: LabelKind,
    source: Seq<char>,
    a: nat,
    taken: bool,
) -> bool {
    exists|c: &str|
        c@ == label_text(kind, source, a) && #[trigger] call_ensures(label_exists, (c,), taken)
}

/// Tries the labels of attempts 0, 1, ... in order and returns the first one
/// that `label_exists` reports as free; after 256 taken candidates it fails
/// with an `AlreadyExists` error.
pub fn generate_unique_label<F: Fn(&str) -> bool>(
    kind: LabelKind,
    source: &str,
    label_exists: F,
) -> (r: Result<String, StorageError>)
    requires
        forall|c: &str| call_requires(label_exists, (c,)),
    ensures
        match r {
            Ok(l) => exists|a: nat|
                a < 256 && l@ == #[trigger] label_text(kind, source@, a) && probe_answer(
                    label_exists,
                    kind,
                    source@,
                    a,
                    false,
                ) && forall|b: nat| b < a ==> probe_answer(label_exists, kind, source@, b, true),
            Err(e) => e.kind == IoFailureKind::AlreadyExists && e.message@
                == "unable to create unique label for '"@ + label_prefix(kind)
                + "' after 256 attempts"@ && forall|b: nat|
                b < 256 ==> probe_answer(label_exists, kind, source@, b, true),
        },
{
    let mut attempt: u32 = 0;
    while attempt < LABEL_COLLISION_MAX_ATTEMPTS
        invariant
            attempt <= 256,
            forall|c: &str| call_requires(label_exists, (c,)),
            forall|b: nat| b < attempt ==> probe_answer(label_exists, kind, source@, b, true),
        decreases 256 - attempt,
    {
        let candidate = build_label(kind, source, attempt);
        let probe = candidate.as_str();
        let taken = label_exists(probe);
        assert(probe_answer(label_exists, kind, source@, attempt as nat, taken));
        if !taken {
            assert(candidate@ == label_text(kind, source@, attempt as nat));
            return Ok(candidate);
        }
        assert(probe_answer(label_exists, kind, source@, attempt as nat, true));
        attempt = attempt + 1;
    }
    let mut message = "unable to create unique label for '".to_owned();
    append_str(&mut message, kind.prefix());
    append_str(&mut message, "' after 256 attempts");
    Err(StorageError { kind: IoFailureKind::AlreadyExists, message })
}

// ---------------------------------------------------------------------------
// Schema versions and migrations
// ---------------------------------------------------------------------------

/// A storage failure: the I/O kind it is reported with, and its message.
#[derive(Debug, Clone, PartialEq, Eq)]
pub struct StorageError {
    pub kind: IoFailureKind,
    pub message: String,
}

/// The records that carry a schema version.
#[derive(Debug, Clone, Copy, PartialEq, Eq, Structural)]
pub enum SchemaRecord {
    Session,
    Event,
    Checkpoint,
}

/// How a record is being accessed.
#[derive(Debug, Clone, Copy, PartialEq, Eq, Structural)]
pub enum SchemaAccess {
    Read,
    Write,
    Append,
}

/// The word for each record in messages.
pub open spec fn record_word(r: SchemaRecord) -> Seq<char> {
    match r {
        SchemaRecord::Session => "session"@,
        SchemaRecord::Event => "event"@,
        SchemaRecord::Checkpoint => "checkpoint"@,
    }
}

/// What each access adds to the message.
pub open spec fn access_words(a: SchemaAccess) -> Seq<char> {
    match a {
        SchemaAccess::Read => ""@,
        SchemaAccess::Write => " for write"@,
        SchemaAccess::Append => " for append"@,
    }
}

/// Only records of the current schema version are read or written; a
/// refused write or append is invalid input, a refused read invalid data.
pub fn check_schema_version(version: u32, record: SchemaRecord, access: SchemaAccess) -> (r: Result<
    (),
    StorageError,
>)
    ensures
        version == SESSION_SCHEMA_VERSION ==> r is Ok,
        version != SESSION_SCHEMA_VERSION ==> (r matches Err(e) && e.kind == (if access
            == SchemaAccess::Read {
            IoFailureKind::InvalidData
        } else {
            IoFailureKind::InvalidInput
        }) && e.message@ == "unsupported "@ + record_word(record) + " schema version "@
            + decimal_digits(version as nat, 1) + access_words(access) + "; expected "@
            + decimal_digits(SESSION_SCHEMA_VERSION as nat, 1)),
{
    if version == SESSION_SCHEMA_VERSION {
        return Ok(());
    }
    let mut message = "unsupported ".to_owned();
    let word = match record {
        SchemaRecord::Session => "session",
        SchemaRecord::Event => "event",
        SchemaRecord::Checkpoint => "checkpoint",
    };
    append_str(&mut message, word);
    append_str(&mut message, " schema version ");
    let v = format_decimal(version as u64, 1);
    append_str(&mut message, v.as_str());
    let suffix = match access {
        SchemaAccess::Read => "",
        SchemaAccess::Write => " for write",
        SchemaAccess::Append => " for append",
    };
    append_str(&mut message, suffix);
    append_str(&mut message, "; expected ");
    let expected = format_decimal(SESSION_SCHEMA_VERSION as u64, 1);
    append_str(&mut message, expected.as_str());
    let kind = match access {
        SchemaAccess::Read => IoFailureKind::InvalidData,
        _ => IoFailureKind::InvalidInput,
    };
    Err(StorageError { kind, message })
}

/// The schema version of a raw session payload, from its `schema_version`
/// field read as an unsigned integer (`None` when missing or not one).
pub fn schema_version_from_raw(raw: Option<u64>) -> (r: Result<u32, StorageError>)
    ensures
        match raw {
            None => r matches Err(e) && e.kind == IoFailureKind::InvalidData && e.message@
                == "missing or invalid schema_version in session payload"@,
            Some(v) => if v <= u32::MAX {
                r == Ok::<u32, StorageError>(v as u32)
            } else {
                r matches Err(e) && e.kind == IoFailureKind::InvalidData && e.message@
                    == "schema_version "@ + decimal_digits(v as nat, 1) + " is too large"@
            },
        },
{
    match raw {
        None => Err(
            StorageError {
                kind: IoFailureKind::InvalidData,
                message: "missing or invalid schema_version in session payload".to_owned(),
            },
        ),
        Some(v) => {
            if v <= 4294967295 {
                Ok(v as u32)
            } else {
                let mut message = "schema_version ".to_owned();
                let t = format_decimal(v, 1);
                append_str(&mut message, t.as_str());
                append_str(&mut message, " is too large");
                Err(StorageError { kind: IoFailureKind::InvalidData, message })
            }
        },
    }
}

/// The first migration, given by its source and target versions, that
/// starts from `version`; none is invalid data.
pub fn find_migration(migrations: &Vec<(u32, u32)>, version: u32) -> (r: Result<usize, StorageError>)
    ensures
        match r {
            Ok(i) => i < migrations.len() && migrations@[i as int].0 == version && forall|j: int|
                0 <= j < i ==> (#[trigger] migrations@[j]).0 != version,
            Err(e) => (forall|j: int|
                0 <= j < migrations.len() ==> (#[trigger] migrations@[j]).0 != version) && e.kind
                == IoFailureKind::InvalidData && e.message@ == "no migration found from schema version "@
                + decimal_digits(version as nat, 1) + " to "@ + decimal_digits(
                SESSION_SCHEMA_VERSION as nat,
                1,
            ),
        },
{
    let mut i: usize = 0;
    while i < migrations.len()
        invariant
            i <= migrations.len(),
            forall|j: int| 0 <= j < i ==> (#[trigger] migrations@[j]).0 != version,
        decreases migrations.len() - i,
    {
        if migrations[i].0 == version {
            return Ok(i);
        }
        i = i + 1;
    }
    let mut message = "no migration found from schema version ".to_owned();
    let v = format_decimal(version as u64, 1);
    append_str(&mut message, v.as_str());
    append_str(&mut message, " to ");
    let expected = format_decimal(SESSION_SCHEMA_VERSION as u64, 1);
    append_str(&mut message, expected.as_str());
    Err(StorageError { kind: IoFailureKind::InvalidData, message })
}

/// A migration must produce the version it announced; otherwise the payload
/// is invalid data.
pub fn check_migration_result(source: u32, target: u32, produced: u32) -> (r: Result<(), StorageError>)
    ensures
        produced == target ==> r is Ok,
        produced != target ==> (r matches Err(e) && e.kind == IoFailureKind::InvalidData
            && e.message@ == "migration from "@ + decimal_digits(source as nat, 1)
            + " reported target "@ + decimal_digits(target as nat, 1) + " but produced "@
            + decimal_digits(produced as nat, 1)),
{
    if produced == target {
        return Ok(());
    }
    let mut message = "migration from ".to_owned();
    let a = format_decimal(source as u64, 1);
    append_str(&mut message, a.as_str());
    append_str(&mut message, " reported target ");
    let b = format_decimal(target as u64, 1);
    append_str(&mut message, b.as_str());
    append_str(&mut message, " but produced ");
    let c = format_decimal(produced as u64, 1);
    append_str(&mut message, c.as_str());
    Err(StorageError { kind: IoFailureKind::InvalidData, message })
}

// ---------------------------------------------------------------------------
// Loading a session payload
// ---------------------------------------------------------------------------

/// A step that upgrades a raw session payload from one schema version to
/// another.
pub trait SessionMigration {
    fn source_version(&self) -> u32;

    fn target_version(&self) -> u32;

    fn migrate(&self, raw_session: JsonValue) -> Result<JsonValue, StorageError>;
}

/// The `schema_version` member of a payload as an unsigned integer, if it is one.
pub open spec fn raw_schema_version(v: JsonValue) -> Option<u64> {
    match json_field(v, "schema_version"@) {
        Some(JsonValue::Number(n)) => number_as_u64(n),
        _ => None,
    }
}

/// The schema version of a payload, when its `schema_version` is an
/// unsigned integer that fits in 32 bits.
pub open spec fn schema_version_of(v: JsonValue) -> Option<u32> {
    match raw_schema_version(v) {
        Some(x) => if x <= u32::MAX {
            Some(x as u32)
        } else {
            None
        },
        None => None,
    }
}

/// The message with which [`schema_version_from_raw`] refuses `raw`, if it does.
pub open spec fn schema_version_error(raw: Option<u64>) -> Option<Seq<char>> {
    match raw {
        None => Some("missing or invalid schema_version in session payload"@),
        Some(v) => if v <= u32::MAX {
            None
        } else {
            Some("schema_version "@ + decimal_digits(v as nat, 1) + " is too large"@)
        },
    }
}

/// The message for migrations that lead from `version` round in a circle.
pub open spec fn migration_cycle_message(version: u32) -> Seq<char> {
    "migrations from schema version "@ + decimal_digits(version as nat, 1) + " do not reach "@
        + decimal_digits(SESSION_SCHEMA_VERSION as nat, 1)
}

/// The schema version of a raw payload.
pub fn payload_schema_version(raw: &JsonValue) -> (r: Result<u32, StorageError>)
    ensures
        match r {
            Ok(x) => schema_version_of(*raw) == Some(x),
            Err(e) => schema_version_of(*raw) is None && e.kind == IoFailureKind::InvalidData
                && schema_version_error(raw_schema_version(*raw)) == Some(e.message@),
        },
{
    let n = match field(raw, "schema_version") {
        Some(JsonValue::Number(n)) => json_number_as_u64(n),
        _ => None,
    };
    schema_version_from_raw(n)
}

/// Parses a session payload and upgrades it to the current schema version.
/// Text that is not JSON, and a payload without a usable `schema_version`,
/// are invalid data. While the version is not the current one, the first
/// migration that starts from it is applied and must produce the version it
/// announced. A chain longer than the list of migrations would have to use
/// some migration twice and so go round for ever; it is refused.
pub fn load_session_payload<M: SessionMigration + ?Sized>(text: &str, migrations: &Vec<&M>) -> (r:
    Result<JsonValue, StorageError>)
    ensures
        parsed_json(text@) matches Err(m) ==> (r matches Err(e) && e.kind
            == IoFailureKind::InvalidData && e.message@ == m),
        parsed_json(text@) matches Ok(v0) ==> (schema_version_of(v0) is None ==> (r matches Err(e)
            && e.kind == IoFailureKind::InvalidData && schema_version_error(raw_schema_version(v0))
            == Some(e.message@))),
        parsed_json(text@) matches Ok(v0) ==> (schema_version_of(v0) == Some(SESSION_SCHEMA_VERSION)
            ==> r == Ok::<JsonValue, StorageError>(v0)),
        parsed_json(text@) matches Ok(v0) ==> (schema_version_of(v0) matches Some(x) ==> (x
            != SESSION_SCHEMA_VERSION && forall|i: int, s: u32|
            0 <= i < migrations@.len() && #[trigger] call_ensures(M::source_version, (migrations@[i],), s)
                ==> s != x) ==> (r matches Err(e) && e.kind == IoFailureKind::InvalidData && e.message@
            == "no migration found from schema version "@ + decimal_digits(x as nat, 1) + " to "@
            + decimal_digits(SESSION_SCHEMA_VERSION as nat, 1))),
        r matches Ok(v) ==> schema_version_of(v) == Some(SESSION_SCHEMA_VERSION),
        r matches Err(e) ==> e.kind == IoFailureKind::InvalidData || exists|i: int, x: JsonValue|
            0 <= i < migrations@.len() && #[trigger] call_ensures(
                M::migrate,
                (migrations@[i], x),
                Err::<JsonValue, StorageError>(e),
            ),
{
    let mut raw = match parse_json(text) {
        Ok(v) => v,
        Err(m) => {
            return Err(StorageError { kind: IoFailureKind::InvalidData, message: m });
        },
    };
    let ghost v0 = raw;
    let mut version = payload_schema_version(&raw)?;
    let mut declared: Vec<(u32, u32)> = Vec::new();
    let mut k: usize = 0;
    while k < migrations.len()
        invariant
            k <= migrations.len(),
            declared.len() == k,
            forall|j: int|
                0 <= j < k ==> call_ensures(M::source_version, (migrations@[j],), #[trigger] declared@[j].0),
        decreases migrations.len() - k,
    {
        let m = migrations[k];
        let source = m.source_version();
        let target = m.target_version();
        declared.push((source, target));
        k = k + 1;
    }
    let ghost first_version = version;
    let mut steps: usize = 0;
    while version != SESSION_SCHEMA_VERSION
        invariant
            declared.len() == migrations.len(),
            forall|j: int|
                0 <= j < declared.len() ==> call_ensures(M::source_version, (migrations@[j],), #[trigger] declared@[j].0),
            schema_version_of(raw) == Some(version),
            steps <= migrations.len(),
            parsed_json(text@) == Ok::<JsonValue, Seq<char>>(v0),
            schema_version_of(v0) == Some(first_version),
            steps == 0 ==> version == first_version && raw == v0,
            steps > 0 ==> exists|j: int| 0 <= j < declared.len() && (#[trigger] declared@[j]).0 == first_version,
            steps > 0 ==> first_version != SESSION_SCHEMA_VERSION,
        decreases migrations.len() - steps,
    {
        let index = find_migration(&declared, version)?;
        assert(steps == 0 ==> declared@[index as int].0 == first_version);
        if steps >= migrations.len() {
            let mut message = "migrations from schema version ".to_owned();
            let v = format_decimal(version as u64, 1);
            append_str(&mut message, v.as_str());
            append_str(&mut message, " do not reach ");
            let expected = format_decimal(SESSION_SCHEMA_VERSION as u64, 1);
            append_str(&mut message, expected.as_str());
            return Err(StorageError { kind: IoFailureKind::InvalidData, message });
        }
        let migration = migrations[index];
        let ghost before = raw;
        let stepped = migration.migrate(raw);
        raw = match stepped {
            Ok(v) => v,
            Err(e) => {
                assert(call_ensures(M::migrate, (migrations@[index as int], before), Err::<JsonValue, StorageError>(e)));
                return Err(e);
            },
        };
        version = payload_schema_version(&raw)?;
        check_migration_result(declared[index].0, declared[index].1, version)?;
        steps = steps + 1;
    }
    Ok(raw)
}

/// The name of the folder for a session labelled `session_label`: the label
/// normalized to at most 64 characters.
pub fn session_folder_name(session_label: &str) -> (r: String)
    ensures
        r@ == normalized_segment(session_label@, 64),
{
    normalize_label_segment(session_label, 64)
}

// ---------------------------------------------------------------------------
// Session files
// ---------------------------------------------------------------------------

/// The kinds of event that a session's event log records.
#[derive(Debug, Clone, Copy, PartialEq, Eq, Structural)]
pub enum SessionEventKind {
    SessionCreated,
    PromptAdded,
    ArtifactProposed,
    ArtifactAccepted,
    ArtifactRejected,
    SessionCompleted,
    OrchestrationDecision,
}

/// One entry of a session's event log. The time is the caller's: the clock
/// is read where the event happens.
#[derive(Debug)]
pub struct SessionEvent {
    pub schema_version: u32,
    pub event_kind: SessionEventKind,
    pub session_id: SessionId,
    pub node_id: Option<NodeId>,
    pub timestamp_ms: u64,
    pub metadata: JsonValue,
}

impl SessionEvent {
    /// An event of the current schema version.
    pub fn new(
        event_kind: SessionEventKind,
        session_id: SessionId,
        node_id: Option<NodeId>,
        metadata: JsonValue,
        timestamp_ms: u64,
    ) -> (r: Self)
        ensures
            r.schema_version == SESSION_SCHEMA_VERSION,
            r.event_kind == event_kind,
            r.session_id == session_id,
            r.node_id == node_id,
            r.timestamp_ms == timestamp_ms,
            r.metadata == metadata,
    {
        SessionEvent {
            schema_version: SESSION_SCHEMA_VERSION,
            event_kind,
            session_id,
            node_id,
            timestamp_ms,
            metadata,
        }
    }
}

/// Where an auto run stands, saved so that it can resume. The time is the
/// caller's.
#[derive(Debug)]
pub struct SessionCheckpoint {
    pub schema_version: u32,
    pub session_id: SessionId,
    pub current_node_id: NodeId,
    pub step: u32,
    pub pending_prompt: Option<String>,
    pub timestamp_ms: u64,
    pub metadata: JsonValue,
}

impl SessionCheckpoint {
    /// A checkpoint of the current schema version.
    pub fn new(
        session_id: SessionId,
        current_node_id: NodeId,
        step: u32,
        pending_prompt: Option<String>,
        metadata: JsonValue,
        timestamp_ms: u64,
    ) -> (r: Self)
        ensures
            r.schema_version == SESSION_SCHEMA_VERSION,
            r.session_id == session_id,
            r.current_node_id == current_node_id,
            r.step == step,
            r.pending_prompt == pending_prompt,
            r.timestamp_ms == timestamp_ms,
            r.metadata == metadata,
    {
        SessionCheckpoint {
            schema_version: SESSION_SCHEMA_VERSION,
            session_id,
            current_node_id,
            step,
            pending_prompt,
            timestamp_ms,
            metadata,
        }
    }
}

#[verifier::external_type_specification]
#[verifier::external_body]
pub struct ExPath(std::path::Path);

#[verifier::external_type_specification]
#[verifier::external_body]
pub struct ExPathBuf(std::path::PathBuf);

/// Calls `Path::join`: the base followed by `name`, as the platform joins
/// paths. Paths are not modelled, so nothing is stated of the result.
#[verifier::external_body]
fn join_path(base: &std::path::Path, name: &str) -> std::path::PathBuf {
    base.join(name)
}

/// The session file in a session folder.
pub fn session_file_path(base_dir: &std::path::Path) -> std::path::PathBuf {
    join_path(base_dir, SESSION_FILE_NAME)
}

/// The event log in a session folder.
pub fn events_file_path(base_dir: &std::path::Path) -> std::path::PathBuf {
    join_path(base_dir, EVENTS_FILE_NAME)
}

/// The lock file in a session folder.
pub fn session_lock_path(base_dir: &std::path::Path) -> std::path::PathBuf {
    join_path(base_dir, LOCK_FILE_NAME)
}

/// The checkpoint file in a session folder.
pub fn checkpoint_file_path(base_dir: &std::path::Path) -> std::path::PathBuf {
    join_path(base_dir, CHECKPOINT_FILE_NAME)
}

/// The folder of the session labelled `session_label` under `sessions_root`:
/// the label normalized to at most 64 characters.
pub fn session_folder_path(sessions_root: &std::path::Path, session_label: &str) -> std::path::PathBuf {
    let name = session_folder_name(session_label);
    join_path(sessions_root, name.as_str())
}

} // verus!
