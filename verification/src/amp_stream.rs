//! The stream-json protocol of the Amp command line: JSON lines that carry
//! assistant text while it is produced and a final result.
use vstd::prelude::*;

use crate::domain::opt_str_view;
use crate::providers::{ProviderError, ProviderKind, ProviderResponse};
use crate::text::{append_str, chars_of, push_char, string_from_chars, trim_ws, trim_ws_chars};

verus! {

#[verifier::external_type_specification]
#[verifier::external_body]
pub struct ExJsonNumber(serde_json::Number);

#[verifier::external_type_specification]
#[verifier::external_body]
pub struct ExJsonValue(serde_json::Value);

/// A JSON document as the protocol reads it: objects keep their entries in
/// the order in which `serde_json` lists them, numbers stay as parsed.
#[derive(Debug)]
pub enum JsonValue {
    Null,
    Bool(bool),
    Number(serde_json::Number),
    Text(String),
    Array(Vec<JsonValue>),
    Object(Vec<(String, JsonValue)>),
}

/// What `serde_json::from_str` makes of a text: the document, or the text of
/// its error.
pub uninterp spec fn parsed_json(text: Seq<char>) -> Result<JsonValue, Seq<char>>;

/// The compact JSON text that `serde_json` writes for a document.
pub uninterp spec fn json_text(v: JsonValue) -> Seq<char>;

/// Converts a `serde_json::Value` variant by variant; no statement is made
/// about it beyond what the caller states.
#[verifier::external_body]
fn json_from_value(v: serde_json::Value) -> JsonValue {
    match v {
        serde_json::Value::Null => JsonValue::Null,
        serde_json::Value::Bool(b) => JsonValue::Bool(b),
        serde_json::Value::Number(n) => JsonValue::Number(n),
        serde_json::Value::String(s) => JsonValue::Text(s),
        serde_json::Value::Array(items) => JsonValue::Array(
            items.into_iter().map(json_from_value).collect(),
        ),
        serde_json::Value::Object(map) => JsonValue::Object(
            map.into_iter().map(|(k, x)| (k, json_from_value(x))).collect(),
        ),
    }
}

/// Converts back into a `serde_json::Value` variant by variant; no
/// statement is made about it beyond what the caller states.
#[verifier::external_body]
fn json_to_value(v: &JsonValue) -> serde_json::Value {
    match v {
        JsonValue::Null => serde_json::Value::Null,
        JsonValue::Bool(b) => serde_json::Value::Bool(*b),
        JsonValue::Number(n) => serde_json::Value::Number(n.clone()),
        JsonValue::Text(s) => serde_json::Value::String(s.clone()),
        JsonValue::Array(items) => serde_json::Value::Array(items.iter().map(json_to_value).collect()),
        JsonValue::Object(es) => serde_json::Value::Object(
            es.iter().map(|(k, x)| (k.clone(), json_to_value(x))).collect(),
        ),
    }
}

/// Parses `text` with `serde_json::from_str` into a JSON document; its result
/// is named by [`parsed_json`], the error by its displayed text.
#[verifier::external_body]
pub(crate) fn parse_json(text: &str) -> (r: Result<JsonValue, String>)
    ensures
        match (r, parsed_json(text@)) {
            (Ok(v), Ok(w)) => v == w,
            (Err(m), Err(n)) => m@ == n,
            _ => false,
        },
{
    match serde_json::from_str::<serde_json::Value>(text) {
        Ok(v) => Ok(json_from_value(v)),
        Err(e) => Err(e.to_string()),
    }
}

/// What `serde_json::Number::as_u64` gives for a number: the number itself
/// when it was read as a non-negative integer, nothing for a negative integer
/// or a float. It depends on the number alone.
pub uninterp spec fn number_as_u64(n: serde_json::Number) -> Option<u64>;

/// Calls `serde_json::Number::as_u64`; its result is named by [`number_as_u64`].
#[verifier::external_body]
pub(crate) fn json_number_as_u64(n: &serde_json::Number) -> (r: Option<u64>)
    ensures
        r == number_as_u64(*n),
{
    n.as_u64()
}

/// Writes a JSON document with `serde_json`'s compact `Display`; the text is
/// named by [`json_text`].
#[verifier::external_body]
pub(crate) fn render_json(v: &JsonValue) -> (r: String)
    ensures
        r@ == json_text(*v),
{
    json_to_value(v).to_string()
}

// ---------------------------------------------------------------------------
// Reading documents
// ---------------------------------------------------------------------------

/// The value of the first entry named `key`.
pub open spec fn entry_value(es: Seq<(String, JsonValue)>, key: Seq<char>) -> Option<JsonValue>
    decreases es.len(),
{
    if es.len() == 0 {
        None
    } else if es[0].0@ == key {
        Some(es[0].1)
    } else {
        entry_value(es.drop_first(), key)
    }
}

/// The member `key` of an object; nothing for other documents.
pub open spec fn json_field(v: JsonValue, key: Seq<char>) -> Option<JsonValue> {
    match v {
        JsonValue::Object(es) => entry_value(es@, key),
        _ => None,
    }
}

/// The text of a string document.
pub open spec fn json_string(v: Option<JsonValue>) -> Option<Seq<char>> {
    match v {
        Some(JsonValue::Text(s)) => Some(s@),
        _ => None,
    }
}

/// The `type` of a stream entry, or empty when it has no string `type`.
pub open spec fn entry_kind(v: JsonValue) -> Seq<char> {
    match json_string(json_field(v, "type"@)) {
        Some(t) => t,
        None => seq![],
    }
}

/// The string `text` members of the items, in order; items without one are skipped.
pub open spec fn item_texts(items: Seq<JsonValue>) -> Seq<Seq<char>>
    decreases items.len(),
{
    if items.len() == 0 {
        seq![]
    } else {
        let rest = item_texts(items.drop_last());
        match json_string(json_field(items.last(), "text"@)) {
            Some(t) => rest.push(t),
            None => rest,
        }
    }
}

/// The texts of an assistant entry: the `text` members of the array
/// `message.content`.
pub open spec fn assistant_texts(v: JsonValue) -> Seq<Seq<char>> {
    match json_field(v, "message"@) {
        Some(m) => match json_field(m, "content"@) {
            Some(JsonValue::Array(items)) => item_texts(items@),
            _ => seq![],
        },
        None => seq![],
    }
}

/// The final result of a result entry: its string, or the JSON text of any
/// other document.
pub open spec fn result_text(x: JsonValue) -> Seq<char> {
    match x {
        JsonValue::Text(s) => s@,
        _ => json_text(x),
    }
}

pub(crate) fn field<'a>(v: &'a JsonValue, key: &str) -> (r: Option<&'a JsonValue>)
    ensures
        match r {
            Some(x) => json_field(*v, key@) == Some(*x),
            None => json_field(*v, key@) is None,
        },
{
    match v {
        JsonValue::Object(es) => {
            let k = key.to_owned();
            let mut i: usize = 0;
            assert(es@.skip(0) =~= es@);
            assert(json_field(*v, key@) == entry_value(es@, key@));
            while i < es.len()
                invariant
                    i <= es.len(),
                    k@ == key@,
                    json_field(*v, key@) == entry_value(es@, key@),
                    entry_value(es@, key@) == entry_value(es@.skip(i as int), key@),
                decreases es.len() - i,
            {
                proof {
                    assert(es@.skip(i as int).drop_first() =~= es@.skip(i + 1));
                    assert(es@.skip(i as int)[0] == es@[i as int]);
                }
                if es[i].0 == k {
                    assert(es@.skip(i as int)[0].0@ == key@);
                    assert(entry_value(es@.skip(i as int), key@) == Some(es@[i as int].1));
                    assert(json_field(*v, key@) == Some(es@[i as int].1));
                    return Some(&es[i].1);
                }
                i = i + 1;
            }
            assert(es@.skip(i as int).len() == 0);
            None
        },
        _ => None,
    }
}

fn as_text(v: Option<&JsonValue>) -> (r: Option<&String>)
    ensures
        match r {
            Some(s) => json_string(match v {
                Some(x) => Some(*x),
                None => None,
            }) == Some(s@),
            None => json_string(match v {
                Some(x) => Some(*x),
                None => None,
            }) is None,
        },
{
    match v {
        Some(JsonValue::Text(s)) => Some(s),
        _ => None,
    }
}

/// The texts of an assistant entry, in order.
pub fn assistant_chunks(payload: &JsonValue) -> (r: Vec<String>)
    ensures
        r@.map_values(|t: String| t@) == assistant_texts(*payload),
{
    let mut out: Vec<String> = Vec::new();
    let message = field(payload, "message");
    let content = match message {
        Some(m) => field(m, "content"),
        None => None,
    };
    match content {
        Some(JsonValue::Array(items)) => {
            let mut i: usize = 0;
            while i < items.len()
                invariant
                    i <= items.len(),
                    out@.map_values(|t: String| t@) == item_texts(items@.take(i as int)),
                decreases items.len() - i,
            {
                proof {
                    assert(items@.take(i + 1).drop_last() =~= items@.take(i as int));
                    assert(items@.take(i + 1).last() == items@[i as int]);
                }
                let text = as_text(field(&items[i], "text"));
                match text {
                    Some(t) => {
                        let ghost before = out@;
                        out.push(t.as_str().to_owned());
                        assert(out@.map_values(|t: String| t@) =~= before.map_values(
                            |t: String| t@,
                        ).push(t@));
                    },
                    None => {},
                }
                i = i + 1;
            }
            assert(items@.take(items.len() as int) =~= items@);
        },
        _ => {
            assert(out@.map_values(|t: String| t@) =~= Seq::<Seq<char>>::empty());
        },
    }
    out
}

/// Whether `f` was called with a string slice holding `text`.
pub open spec fn chunk_sent<F: FnMut(&str)>(f: F, text: Seq<char>) -> bool {
    exists|c: &str| c@ == text && #[trigger] call_ensures(f, (c,), ())
}

/// Hands the texts of an assistant entry to `on_chunk`, one call each, in order.
pub fn emit_assistant_text_chunks<F: FnMut(&str)>(payload: &JsonValue, on_chunk: &mut F)
    requires
        forall|c: &str| assistant_texts(*payload).contains(c@) ==> call_requires(*old(on_chunk), (c,)),
    ensures
        (forall|c: &str| call_requires(*old(on_chunk), (c,))) ==> forall|c: &str| call_requires(*final(on_chunk), (c,)),
        *final(on_chunk) == *old(on_chunk),
        forall|i: int|
            0 <= i < assistant_texts(*payload).len() ==> chunk_sent(
                *old(on_chunk),
                #[trigger] assistant_texts(*payload)[i],
            ),
{
    broadcast use vstd::function::group_function_axioms;

    let texts = assistant_chunks(payload);
    let ghost f0 = *on_chunk;
    let mut i: usize = 0;
    while i < texts.len()
        invariant
            forall|c: &str| assistant_texts(*payload).contains(c@) ==> call_requires(*on_chunk, (c,)),
            *on_chunk == f0,
            texts@.map_values(|t: String| t@) == assistant_texts(*payload),
            i <= texts.len(),
            forall|j: int| 0 <= j < i ==> chunk_sent(f0, #[trigger] texts@[j]@),
        decreases texts.len() - i,
    {
        let c = texts[i].as_str();
        assert(texts@.map_values(|t: String| t@)[i as int] == texts@[i as int]@);
        assert(assistant_texts(*payload).contains(c@));
        on_chunk(c);
        assert(call_ensures(f0, (c,), ()));
        assert(chunk_sent(f0, texts@[i as int]@));
        i = i + 1;
    }
    assert forall|i: int|
        0 <= i < assistant_texts(*payload).len() implies chunk_sent(
            *old(on_chunk),
            #[trigger] assistant_texts(*payload)[i],
        ) by {
        assert(texts@.map_values(|t: String| t@)[i] == texts@[i]@);
    }
}

// ---------------------------------------------------------------------------
// Lines and streams
// ---------------------------------------------------------------------------

/// The raw output after a non-empty trimmed line: lines are separated by line feeds.
pub open spec fn appended_raw(raw: Seq<char>, t: Seq<char>) -> Seq<char> {
    if raw.len() > 0 {
        raw + "\n"@ + t
    } else {
        t
    }
}

/// The raw output and final result after one line, or nothing when the line
/// is refused: it is not JSON, or it is a result entry without `result`.
pub open spec fn line_step(raw: Seq<char>, fin: Option<Seq<char>>, line: Seq<char>) -> Option<
    (Seq<char>, Option<Seq<char>>),
> {
    let t = trim_ws(line);
    if t.len() == 0 {
        Some((raw, fin))
    } else {
        let raw1 = appended_raw(raw, t);
        match parsed_json(t) {
            Err(_) => None,
            Ok(v) => if entry_kind(v) == "result"@ {
                match json_field(v, "result"@) {
                    None => None,
                    Some(x) => Some((raw1, Some(result_text(x)))),
                }
            } else {
                Some((raw1, fin))
            },
        }
    }
}

/// The assistant texts that a line carries: those of an assistant entry,
/// none for a blank line, any other entry, or a line that is not JSON.
pub open spec fn line_texts(line: Seq<char>) -> Seq<Seq<char>> {
    let t = trim_ws(line);
    if t.len() == 0 {
        seq![]
    } else {
        match parsed_json(t) {
            Ok(v) => if entry_kind(v) == "assistant"@ {
                assistant_texts(v)
            } else {
                seq![]
            },
            Err(_) => seq![],
        }
    }
}

/// Only assistant entries stream text: a line that parses to any other
/// entry (a result entry among them), a blank line, or a line that is not
/// JSON carries no text for the handler; an assistant entry carries the
/// `text` members of its `message.content` items.
pub proof fn law_only_assistant_entries_stream(line: Seq<char>)
    ensures
        (parsed_json(trim_ws(line)) matches Ok(v) && trim_ws(line).len() > 0 && entry_kind(v)
            == "assistant"@) ==> line_texts(line) == assistant_texts(parsed_json(trim_ws(line))->Ok_0),
        !(parsed_json(trim_ws(line)) matches Ok(v) && trim_ws(line).len() > 0 && entry_kind(v)
            == "assistant"@) ==> line_texts(line).len() == 0,
{
}

/// Whether every assistant text of `line` was handed to `f`.
pub open spec fn line_texts_sent<F: FnMut(&str)>(f: F, line: Seq<char>) -> bool {
    forall|i: int| 0 <= i < line_texts(line).len() ==> chunk_sent(f, #[trigger] line_texts(line)[i])
}

/// The error for a refused line read after raw output `raw`: a line that is
/// not JSON fails with the trimmed line and the parser's message; a result
/// entry without `result` fails with the trimmed raw output.
pub open spec fn line_error(provider: ProviderKind, raw: Seq<char>, line: Seq<char>, e: ProviderError) -> bool {
    let t = trim_ws(line);
    match parsed_json(t) {
        Err(msg) => e matches ProviderError::StreamJsonParseFailed {
            provider: p,
            line: l,
            error_message: m,
        } && p == provider && l@ == t && m@ == msg,
        Ok(_) => e matches ProviderError::MissingResult { provider: p, output: o } && p == provider
            && o@ == trim_ws(appended_raw(raw, t)),
    }
}

/// Reads one line of a stream-json response: blank lines are skipped; any
/// other line is added, trimmed, to the raw output, parsed as JSON, its
/// assistant texts are handed to `on_chunk`, and a result entry sets the
/// final result. A line that is not JSON, or a result entry without
/// `result`, is an error.
pub fn parse_amp_stream_json_line<F: FnMut(&str)>(
    provider: &ProviderKind,
    line: &str,
    on_chunk: &mut F,
    final_result: &mut Option<String>,
    raw_output: &mut String,
) -> (r: Result<(), ProviderError>)
    requires
        forall|c: &str| line_texts(line@).contains(c@) ==> call_requires(*old(on_chunk), (c,)),
    ensures
        (forall|c: &str| call_requires(*old(on_chunk), (c,))) ==> forall|c: &str| call_requires(*final(on_chunk), (c,)),
        r is Ok <==> line_step(old(raw_output)@, opt_str_view(*old(final_result)), line@) is Some,
        line_step(old(raw_output)@, opt_str_view(*old(final_result)), line@) matches Some(st) ==> (
        final(raw_output)@ == st.0 && opt_str_view(*final(final_result)) == st.1),
        trim_ws(line@).len() > 0 ==> final(raw_output)@ == appended_raw(
            old(raw_output)@,
            trim_ws(line@),
        ),
        trim_ws(line@).len() > 0 ==> (parsed_json(trim_ws(line@)) matches Err(msg) ==> (r matches Err(
            ProviderError::StreamJsonParseFailed { provider: p, line: l, error_message: m },
        ) && p == *provider && l@ == trim_ws(line@) && m@ == msg)),
        trim_ws(line@).len() > 0 ==> (parsed_json(trim_ws(line@)) matches Ok(v) ==> ((entry_kind(v)
            == "result"@ && json_field(v, "result"@) is None) ==> (r matches Err(
            ProviderError::MissingResult { provider: p, output: o },
        ) && p == *provider && o@ == trim_ws(appended_raw(old(raw_output)@, trim_ws(line@)))))),
        r is Err ==> *final(final_result) == *old(final_result),
        r matches Err(e) ==> line_error(*provider, old(raw_output)@, line@, e),
        *final(on_chunk) == *old(on_chunk),
        line_texts_sent(*old(on_chunk), line@),
{
    let cs = chars_of(line);
    let tc = trim_ws_chars(&cs);
    if tc.len() == 0 {
        return Ok(());
    }
    let trimmed = string_from_chars(&tc);
    if raw_output.as_str().unicode_len() > 0 {
        push_char(raw_output, '\n');
    }
    append_str(raw_output, trimmed.as_str());
    proof {
        reveal_strlit("\n");
        assert(raw_output@ =~= appended_raw(old(raw_output)@, trim_ws(line@)));
    }
    let payload = match parse_json(trimmed.as_str()) {
        Ok(v) => v,
        Err(message) => {
            return Err(
                ProviderError::StreamJsonParseFailed {
                    provider: provider.duplicate(),
                    line: trimmed,
                    error_message: message,
                },
            );
        },
    };
    let kind = as_text(field(&payload, "type"));
    let assistant_word = "assistant".to_owned();
    let is_assistant = match kind {
        Some(k) => *k == assistant_word,
        None => false,
    };
    let result_word = "result".to_owned();
    let is_result = match kind {
        Some(k) => *k == result_word,
        None => false,
    };
    proof {
        reveal_strlit("result");
        assert(json_string(json_field(payload, "type"@)) == match kind {
            Some(k) => Some(k@),
            None => None,
        });
        assert(result_word@ == "result"@);
        if kind is None {
            assert("result"@.len() == 6);
            assert(entry_kind(payload) =~= Seq::<char>::empty());
        }
        assert(is_result == (entry_kind(payload) == "result"@));
        reveal_strlit("assistant");
        assert(assistant_word@ == "assistant"@);
        if kind is None {
            assert("assistant"@.len() == 9);
        }
        assert(is_assistant == (entry_kind(payload) == "assistant"@));
        assert(parsed_json(trim_ws(line@)) == Ok::<JsonValue, Seq<char>>(payload));
    }
    if is_assistant {
        emit_assistant_text_chunks(&payload, on_chunk);
    }
    if is_result {
        match field(&payload, "result") {
            None => {
                let out = crate::text::trim_str(raw_output.as_str());
                return Err(
                    ProviderError::MissingResult { provider: provider.duplicate(), output: out },
                );
            },
            Some(x) => {
                let rendered = match x {
                    JsonValue::Text(s) => s.as_str().to_owned(),
                    _ => render_json(x),
                };
                *final_result = Some(rendered);
            },
        }
    }
    Ok(())
}

/// The complete lines of a text and what follows the last line feed.
pub open spec fn split_lines(s: Seq<char>) -> (Seq<Seq<char>>, Seq<char>)
    decreases s.len(),
{
    if s.len() == 0 {
        (seq![], seq![])
    } else {
        let (ls, cur) = split_lines(s.drop_last());
        if s.last() == '\n' {
            (ls.push(cur), seq![])
        } else {
            (ls, cur.push(s.last()))
        }
    }
}

/// The raw output and final result after the lines in order, or nothing
/// when one of them is refused.
pub open spec fn lines_fold(raw: Seq<char>, fin: Option<Seq<char>>, lines: Seq<Seq<char>>) -> Option<
    (Seq<char>, Option<Seq<char>>),
>
    decreases lines.len(),
{
    if lines.len() == 0 {
        Some((raw, fin))
    } else {
        match lines_fold(raw, fin, lines.drop_last()) {
            None => None,
            Some(st) => line_step(st.0, st.1, lines.last()),
        }
    }
}

/// Whether `text` is an assistant text of one of `lines`.
pub open spec fn chunk_line_text(lines: Seq<Seq<char>>, text: Seq<char>) -> bool {
    exists|j: int| 0 <= j < lines.len() && #[trigger] line_texts(lines[j]).contains(text)
}

/// Whether `f` was handed the assistant texts of every line that is read,
/// that is, of every line whose predecessors were all accepted.
pub open spec fn lines_sent<F: FnMut(&str)>(
    f: F,
    raw: Seq<char>,
    fin: Option<Seq<char>>,
    lines: Seq<Seq<char>>,
) -> bool {
    forall|j: int|
        0 <= j < lines.len() && (#[trigger] lines_fold(raw, fin, lines.take(j))) is Some
            ==> line_texts_sent(f, lines[j])
}

/// Whether `e` is the error of the first refused line among `lines`.
pub open spec fn fold_error(
    provider: ProviderKind,
    raw: Seq<char>,
    fin: Option<Seq<char>>,
    lines: Seq<Seq<char>>,
    e: ProviderError,
) -> bool {
    exists|k: int|
        0 <= k < lines.len() && match #[trigger] lines_fold(raw, fin, lines.take(k)) {
            Some(st) => line_step(st.0, st.1, lines[k]) is None && line_error(
                provider,
                st.0,
                lines[k],
                e,
            ),
            None => false,
        }
}

/// The complete lines of a prefix come first among the complete lines of the whole.
proof fn lemma_split_prefix(s: Seq<char>, k: int)
    requires
        0 <= k <= s.len(),
    ensures
        split_lines(s.take(k)).0.len() <= split_lines(s).0.len(),
        split_lines(s).0.take(split_lines(s.take(k)).0.len() as int) == split_lines(s.take(k)).0,
    decreases s.len() - k,
{
    if k < s.len() {
        lemma_split_prefix(s, k + 1);
        assert(s.take(k + 1).drop_last() =~= s.take(k));
        let (ls, cur) = split_lines(s.take(k));
        let b = split_lines(s).0;
        if s[k] == '\n' {
            assert(split_lines(s.take(k + 1)).0 == ls.push(cur));
            assert(b.take(ls.len() as int) =~= ls.push(cur).take(ls.len() as int));
            assert(ls.push(cur).take(ls.len() as int) =~= ls);
        } else {
            assert(split_lines(s.take(k + 1)).0 == ls);
        }
    } else {
        assert(s.take(k) =~= s);
        assert(split_lines(s).0.take(split_lines(s).0.len() as int) =~= split_lines(s).0);
    }
}

/// Once a line is refused, every longer run of lines is refused too.
proof fn lemma_fold_none_extends(
    raw: Seq<char>,
    fin: Option<Seq<char>>,
    lines: Seq<Seq<char>>,
    a: int,
    b: int,
)
    requires
        0 <= a <= b <= lines.len(),
        lines_fold(raw, fin, lines.take(a)) is None,
    ensures
        lines_fold(raw, fin, lines.take(b)) is None,
    decreases b - a,
{
    if a < b {
        lemma_fold_none_extends(raw, fin, lines, a, b - 1);
        assert(lines.take(b).drop_last() =~= lines.take(b - 1));
    }
}

/// A stream-json response being read: the text after the last complete
/// line, the raw output so far, and the final result once seen.
pub struct AmpStreamState {
    pub pending: String,
    pub raw_output: String,
    pub final_result: Option<String>,
}

impl AmpStreamState {
    /// A response of which nothing was read yet.
    pub fn new() -> (r: Self)
        ensures
            r.pending@.len() == 0,
            r.raw_output@.len() == 0,
            r.final_result is None,
    {
        AmpStreamState { pending: String::new(), raw_output: String::new(), final_result: None }
    }

    /// Reads a chunk of the response: every line that it completes is read
    /// in order, and the text after the last line feed waits for more.
    pub fn push_chunk<F: FnMut(&str)>(
        &mut self,
        provider: &ProviderKind,
        chunk: &str,
        on_chunk: &mut F,
    ) -> (r: Result<(), ProviderError>)
        requires
            forall|c: &str| chunk_line_text(split_lines(old(self).pending@ + chunk@).0, c@) ==> call_requires(*old(on_chunk), (c,)),
        ensures
            ({
                let (lines, rest) = split_lines(old(self).pending@ + chunk@);
                let outcome = lines_fold(
                    old(self).raw_output@,
                    opt_str_view(old(self).final_result),
                    lines,
                );
                &&& r is Ok <==> outcome is Some
                &&& outcome matches Some(st) ==> final(self).raw_output@ == st.0 && opt_str_view(
                    final(self).final_result,
                ) == st.1 && final(self).pending@ == rest
                &&& r matches Err(e) ==> fold_error(
                    *provider,
                    old(self).raw_output@,
                    opt_str_view(old(self).final_result),
                    lines,
                    e,
                )
                &&& lines_sent(
                    *old(on_chunk),
                    old(self).raw_output@,
                    opt_str_view(old(self).final_result),
                    lines,
                )
            }),
            *final(on_chunk) == *old(on_chunk),
    {
        let mut text = self.pending.as_str().to_owned();
        append_str(&mut text, chunk);
        let cs = chars_of(text.as_str());
        let ghost s = cs@;
        let mut cur: Vec<char> = Vec::new();
        let mut i: usize = 0;
        while i < cs.len()
            invariant
                i <= cs.len(),
                s == cs@,
                s == old(self).pending@ + chunk@,
                forall|c: &str| chunk_line_text(split_lines(s).0, c@) ==> call_requires(*on_chunk, (c,)),
                split_lines(s.take(i as int)).1 == cur@,
                lines_fold(
                    old(self).raw_output@,
                    opt_str_view(old(self).final_result),
                    split_lines(s.take(i as int)).0,
                ) == Some((self.raw_output@, opt_str_view(self.final_result))),
                *on_chunk == *old(on_chunk),
                lines_sent(
                    *old(on_chunk),
                    old(self).raw_output@,
                    opt_str_view(old(self).final_result),
                    split_lines(s.take(i as int)).0,
                ),
            decreases cs.len() - i,
        {
            proof {
                assert(s.take(i + 1).drop_last() =~= s.take(i as int));
            }
            let ghost lines0 = split_lines(s.take(i as int)).0;
            if cs[i] == '\n' {
                proof {
                    assert(split_lines(s.take(i + 1)) == (lines0.push(cur@), Seq::<char>::empty()));
                    assert(lines0.push(cur@).drop_last() =~= lines0);
                }
                let line = string_from_chars(&cur);
                let ghost raw_before = self.raw_output@;
                let ghost fin_before = opt_str_view(self.final_result);
                proof {
                    lemma_split_prefix(s, i + 1);
                    let full = split_lines(s).0;
                    let lk = lines0.len() as int;
                    assert(full.take(lk + 1) =~= lines0.push(cur@));
                    assert(full[lk] == full.take(lk + 1)[lk]);
                    assert(full[lk] == line@);
                    assert forall|c: &str| line_texts(line@).contains(c@) implies call_requires(
                        *on_chunk,
                        (c,),
                    ) by {
                        assert(line_texts(full[lk]).contains(c@));
                        assert(chunk_line_text(full, c@));
                    }
                }
                let step = parse_amp_stream_json_line(
                    provider,
                    line.as_str(),
                    on_chunk,
                    &mut self.final_result,
                    &mut self.raw_output,
                );
                let ghost raw0 = old(self).raw_output@;
                let ghost fin0 = opt_str_view(old(self).final_result);
                let ghost lines1 = lines0.push(cur@);
                proof {
                    let k = lines0.len() as int;
                    assert(lines1.take(k) =~= lines0);
                    assert forall|j: int|
                        0 <= j < lines1.len() && (#[trigger] lines_fold(
                            raw0,
                            fin0,
                            lines1.take(j),
                        )) is Some implies line_texts_sent(*old(on_chunk), lines1[j]) by {
                        if j < k {
                            assert(lines1.take(j) =~= lines0.take(j));
                            assert(lines1[j] == lines0[j]);
                        }
                    }
                }
                match step {
                    Ok(()) => {},
                    Err(e) => {
                        proof {
                            let k = lines0.len() as int;
                            assert(lines_fold(raw0, fin0, lines1) is None);
                            lemma_fold_stays_failed(raw0, fin0, s, i + 1);
                            assert(s.take(s.len() as int) =~= s);
                            lemma_split_prefix(s, i + 1);
                            let full = split_lines(s).0;
                            assert(full.take(k + 1) =~= lines1);
                            assert(full.take(k) =~= lines0);
                            assert(full[k] == lines1[k]);
                            assert(lines_fold(raw0, fin0, full.take(k)) == Some((raw_before, fin_before)));
                            assert(fold_error(*provider, raw0, fin0, full, e));
                            assert forall|j: int|
                                0 <= j < full.len() && (#[trigger] lines_fold(
                                    raw0,
                                    fin0,
                                    full.take(j),
                                )) is Some implies line_texts_sent(*old(on_chunk), full[j]) by {
                                if j <= k {
                                    assert(full.take(j) =~= lines1.take(j));
                                    assert(full[j] == lines1[j]);
                                } else {
                                    lemma_fold_none_extends(raw0, fin0, full, k + 1, j);
                                }
                            }
                        }
                        return Err(e);
                    },
                }
                cur = Vec::new();
            } else {
                cur.push(cs[i]);
                assert(split_lines(s.take(i + 1)) == (lines0, cur@));
            }
            i = i + 1;
        }
        assert(s.take(s.len() as int) =~= s);
        self.pending = string_from_chars(&cur);
        Ok(())
    }

    /// Reads what is left after the last line feed as a final line.
    pub fn finish<F: FnMut(&str)>(&mut self, provider: &ProviderKind, on_chunk: &mut F) -> (r: Result<
        (),
        ProviderError,
    >)
        requires
            forall|c: &str| line_texts(old(self).pending@).contains(c@) ==> call_requires(*old(on_chunk), (c,)),
        ensures
            r matches Err(e) ==> line_error(
                *provider,
                old(self).raw_output@,
                old(self).pending@,
                e,
            ),
            line_texts_sent(*old(on_chunk), old(self).pending@),
            *final(on_chunk) == *old(on_chunk),
            ({
                let outcome = line_step(
                    old(self).raw_output@,
                    opt_str_view(old(self).final_result),
                    old(self).pending@,
                );
                &&& r is Ok <==> outcome is Some
                &&& outcome matches Some(st) ==> final(self).raw_output@ == st.0 && opt_str_view(
                    final(self).final_result,
                ) == st.1 && final(self).pending@.len() == 0
            }),
    {
        let rest = self.pending.as_str().to_owned();
        self.pending = String::new();
        parse_amp_stream_json_line(
            provider,
            rest.as_str(),
            on_chunk,
            &mut self.final_result,
            &mut self.raw_output,
        )
    }

    /// The response once the command has ended: a failed command is an
    /// error with its trimmed standard error; a response without a final
    /// result is an error with the trimmed raw output.
    pub fn into_response(
        self,
        provider: ProviderKind,
        exit_success: bool,
        status_code: Option<i32>,
        stderr: &str,
    ) -> (r: Result<ProviderResponse, ProviderError>)
        ensures
            !exit_success ==> (r matches Err(
                ProviderError::CommandFailed { provider: p, status_code: c, stderr: e },
            ) && p == provider && c == status_code && e@ == trim_ws(stderr@)),
            exit_success && self.final_result is None ==> (r matches Err(
                ProviderError::MissingResult { provider: p, output: o },
            ) && p == provider && o@ == trim_ws(self.raw_output@)),
            exit_success ==> (self.final_result matches Some(out) ==> (r matches Ok(resp)
                && resp.output@ == out@ && resp.thread_id is None)),
    {
        if !exit_success {
            let e = crate::text::trim_str(stderr);
            return Err(ProviderError::CommandFailed { provider, status_code, stderr: e });
        }
        match self.final_result {
            None => {
                let o = crate::text::trim_str(self.raw_output.as_str());
                Err(ProviderError::MissingResult { provider, output: o })
            },
            Some(out) => Ok(ProviderResponse { output: out, thread_id: None }),
        }
    }
}

proof fn lemma_fold_stays_failed(raw: Seq<char>, fin: Option<Seq<char>>, s: Seq<char>, k: int)
    requires
        0 <= k <= s.len(),
        lines_fold(raw, fin, split_lines(s.take(k)).0) is None,
    ensures
        lines_fold(raw, fin, split_lines(s).0) is None,
    decreases s.len() - k,
{
    if k < s.len() {
        assert(s.take(k + 1).drop_last() =~= s.take(k));
        let (ls, cur) = split_lines(s.take(k));
        if s[k] == '\n' {
            assert(split_lines(s.take(k + 1)).0 == ls.push(cur));
            assert(ls.push(cur).drop_last() =~= ls);
        } else {
            assert(split_lines(s.take(k + 1)).0 == ls);
        }
        lemma_fold_stays_failed(raw, fin, s, k + 1);
    } else {
        assert(s.take(k) =~= s);
    }
}

} // verus!
