//! The Alexa Voice Service wire formats: the JSON events the client sends,
//! the `multipart/form-data` body of a Recognize request, the parser for the
//! `multipart/related` response, and the lookup of Alexa's spoken answer in
//! it (the `Speak` directive's `cid:` URL and the part with that Content-ID).
use crate::json::{
    json_field, json_get_opt, json_parse_bytes, json_quote, json_str, parse_json_bytes, push_quoted,
    json_get, json_as_str,
};
use crate::text::{
    ascii_lower, ascii_lower_exec, chars_of, eq_ignore_case, eq_ignore_case_exec, find_bytes,
    find_chars, find_from, index_of, index_of_exec, lemma_find_from_props, occurs_at, push_bytes,
    push_str_chars, starts_with, strip_all, strip_all_chars, strip_all_end, strip_all_start,
    string_of, sub_bytes, sub_chars, trim, trim_chars, utf8_lossy, utf8_lossy_text, contains,
    decimal, decimal_chars, push_all, is_ws, trim_start, trim_end,
};
use vstd::prelude::*;
use vstd::utf8::encode_utf8;

verus! {

// ---------------------------------------------------------------------------
// Events
// ---------------------------------------------------------------------------

/// The `SpeechRecognizer.Recognize` event, as compact JSON with sorted keys.
pub open spec fn recognize_event_text(message_id: Seq<char>, dialog_request_id: Seq<char>) -> Seq<
    char,
> {
    "{\"context\":[],\"event\":{\"header\":{\"dialogRequestId\":"@ + json_quote(dialog_request_id)
        + ",\"messageId\":"@ + json_quote(message_id)
        + ",\"name\":\"Recognize\",\"namespace\":\"SpeechRecognizer\"},\"payload\":{\"format\":\"AUDIO_L16_RATE_16000_CHANNELS_1\",\"initiator\":{\"type\":\"TAP\"},\"profile\":\"CLOSE_TALK\"}}}"@
}

/// The `System.SynchronizeState` event, as compact JSON with sorted keys.
pub open spec fn synchronize_state_text(message_id: Seq<char>) -> Seq<char> {
    "{\"context\":[],\"event\":{\"header\":{\"messageId\":"@ + json_quote(message_id)
        + ",\"name\":\"SynchronizeState\",\"namespace\":\"System\"},\"payload\":{}}}"@
}

/// The `SpeechRecognizer.Recognize` event for a close-talk, tap-initiated
/// 16 kHz mono L16 utterance.
pub fn recognize_event_json(message_id: &str, dialog_request_id: &str) -> (r: String)
    ensures
        r@ == recognize_event_text(message_id@, dialog_request_id@),
{
    let mut out: Vec<char> = Vec::new();
    push_str_chars(&mut out, "{\"context\":[],\"event\":{\"header\":{\"dialogRequestId\":");
    push_quoted(&mut out, dialog_request_id);
    push_str_chars(&mut out, ",\"messageId\":");
    push_quoted(&mut out, message_id);
    push_str_chars(
        &mut out,
        ",\"name\":\"Recognize\",\"namespace\":\"SpeechRecognizer\"},\"payload\":{\"format\":\"AUDIO_L16_RATE_16000_CHANNELS_1\",\"initiator\":{\"type\":\"TAP\"},\"profile\":\"CLOSE_TALK\"}}}",
    );
    string_of(out.as_slice())
}

/// The `System.SynchronizeState` event, with an empty context.
pub fn synchronize_state_json(message_id: &str) -> (r: String)
    ensures
        r@ == synchronize_state_text(message_id@),
{
    let mut out: Vec<char> = Vec::new();
    push_str_chars(&mut out, "{\"context\":[],\"event\":{\"header\":{\"messageId\":");
    push_quoted(&mut out, message_id);
    push_str_chars(&mut out, ",\"name\":\"SynchronizeState\",\"namespace\":\"System\"},\"payload\":{}}}");
    string_of(out.as_slice())
}

// ---------------------------------------------------------------------------
// Recognize request body
// ---------------------------------------------------------------------------

/// The `multipart/form-data` body of a Recognize request: a JSON `metadata`
/// part holding the event, then an `audio` part holding the raw PCM bytes.
pub open spec fn recognize_multipart_bytes(event_json: Seq<char>, pcm: Seq<u8>, boundary: Seq<
    char,
>) -> Seq<u8> {
    encode_utf8("--"@) + encode_utf8(boundary) + encode_utf8("\r\n"@) + encode_utf8(
        "Content-Disposition: form-data; name=\"metadata\"\r\n"@,
    ) + encode_utf8("Content-Type: application/json; charset=UTF-8\r\n\r\n"@) + encode_utf8(
        event_json,
    ) + encode_utf8("\r\n"@) + encode_utf8("--"@) + encode_utf8(boundary) + encode_utf8("\r\n"@)
        + encode_utf8("Content-Disposition: form-data; name=\"audio\"\r\n"@) + encode_utf8(
        "Content-Type: application/octet-stream\r\n\r\n"@,
    ) + pcm + encode_utf8("\r\n"@) + encode_utf8("--"@) + encode_utf8(boundary) + encode_utf8(
        "--\r\n"@,
    )
}

/// The `multipart/form-data` body of a Recognize request.
pub fn build_recognize_multipart(event_json: &str, pcm: &[u8], boundary: &str) -> (r: Vec<u8>)
    ensures
        r@ == recognize_multipart_bytes(event_json@, pcm@, boundary@),
{
    let mut out: Vec<u8> = Vec::new();
    push_bytes(&mut out, "--".as_bytes());
    push_bytes(&mut out, boundary.as_bytes());
    push_bytes(&mut out, "\r\n".as_bytes());
    push_bytes(&mut out, "Content-Disposition: form-data; name=\"metadata\"\r\n".as_bytes());
    push_bytes(&mut out, "Content-Type: application/json; charset=UTF-8\r\n\r\n".as_bytes());
    push_bytes(&mut out, event_json.as_bytes());
    push_bytes(&mut out, "\r\n".as_bytes());
    push_bytes(&mut out, "--".as_bytes());
    push_bytes(&mut out, boundary.as_bytes());
    push_bytes(&mut out, "\r\n".as_bytes());
    push_bytes(&mut out, "Content-Disposition: form-data; name=\"audio\"\r\n".as_bytes());
    push_bytes(&mut out, "Content-Type: application/octet-stream\r\n\r\n".as_bytes());
    push_bytes(&mut out, pcm);
    push_bytes(&mut out, "\r\n".as_bytes());
    push_bytes(&mut out, "--".as_bytes());
    push_bytes(&mut out, boundary.as_bytes());
    push_bytes(&mut out, "--\r\n".as_bytes());
    out
}

// ---------------------------------------------------------------------------
// Response parts
// ---------------------------------------------------------------------------

/// One part of a multipart body: its headers in order and its content.
pub struct Part {
    pub headers: Vec<(String, String)>,
    pub body: Vec<u8>,
}

pub struct PartView {
    pub headers: Seq<(Seq<char>, Seq<char>)>,
    pub body: Seq<u8>,
}

pub open spec fn header_pairs_view(h: Seq<(String, String)>) -> Seq<(Seq<char>, Seq<char>)> {
    h.map_values(|p: (String, String)| (p.0@, p.1@))
}

impl View for Part {
    type V = PartView;

    open spec fn view(&self) -> PartView {
        PartView { headers: header_pairs_view(self.headers@), body: self.body@ }
    }
}

pub open spec fn parts_view(ps: Seq<Part>) -> Seq<PartView> {
    ps.map_values(|p: Part| p@)
}

/// The value of the first header named `name`, compared ignoring ASCII case.
pub open spec fn header_value(headers: Seq<(Seq<char>, Seq<char>)>, name: Seq<char>) -> Option<
    Seq<char>,
>
    decreases headers.len(),
{
    if headers.len() == 0 {
        None
    } else if eq_ignore_case(headers[0].0, name) {
        Some(headers[0].1)
    } else {
        header_value(headers.drop_first(), name)
    }
}

impl Part {
    /// The value of the first header named `name`, ignoring ASCII case.
    pub fn header(&self, name: &str) -> (r: Option<&str>)
        ensures
            r matches Some(v) ==> header_value(self@.headers, name@) == Some(v@),
            r is None ==> header_value(self@.headers, name@) is None,
    {
        let n = chars_of(name);
        let mut i: usize = 0;
        assert(self@.headers.subrange(0, self@.headers.len() as int) =~= self@.headers);
        while i < self.headers.len()
            invariant
                i <= self.headers.len(),
                n@ == name@,
                header_value(self@.headers, name@) == header_value(
                    self@.headers.subrange(i as int, self@.headers.len() as int),
                    name@,
                ),
            decreases self.headers.len() - i,
        {
            let k = chars_of(self.headers[i].0.as_str());
            let ghost rest = self@.headers.subrange(i as int, self@.headers.len() as int);
            assert(rest[0] == (self.headers@[i as int].0@, self.headers@[i as int].1@));
            if eq_ignore_case_exec(k.as_slice(), n.as_slice()) {
                return Some(self.headers[i].1.as_str());
            }
            assert(rest.drop_first() =~= self@.headers.subrange(
                i + 1,
                self@.headers.len() as int,
            ));
            i += 1;
        }
        None
    }
}

// ---------------------------------------------------------------------------
// Errors
// ---------------------------------------------------------------------------

/// Why a response could not be read.
pub enum AvsError {
    /// The content type names no boundary.
    NoBoundary { content_type: String },
    /// A part's headers are not ended by a blank line.
    NoHeaderTerminator,
    /// A part is not followed by a boundary.
    NoClosingBoundary,
    /// No part holds a `SpeechSynthesizer.Speak` directive with a `cid:` URL.
    NoSpeakDirective,
    /// No part carries the Content-ID that the Speak directive names.
    NoMatchingAudio { cid: String },
    /// AVS answered 204: Alexa had nothing to say.
    NoResponse,
    /// AVS answered 403: the token is invalid or expired, or the region is
    /// wrong.
    Forbidden,
    /// AVS answered 400; the response body, as text.
    BadRequest { detail: String },
    /// AVS answered with another status than 200; the response body, as text.
    UnexpectedStatus { status: u16, detail: String },
}

impl AvsError {
    /// The message shown for this error.
    pub fn message(&self) -> (r: String)
        ensures
            r@ == avs_error_message(*self),
    {
        let mut out: Vec<char> = Vec::new();
        match self {
            AvsError::NoBoundary { content_type } => {
                push_str_chars(&mut out, "no boundary in content-type: ");
                push_str_chars(&mut out, content_type.as_str());
            },
            AvsError::NoHeaderTerminator => {
                push_str_chars(&mut out, "malformed part: no header terminator");
            },
            AvsError::NoClosingBoundary => {
                push_str_chars(&mut out, "malformed part: no closing boundary");
            },
            AvsError::NoSpeakDirective => {
                push_str_chars(&mut out, "no SpeechSynthesizer.Speak directive in response");
            },
            AvsError::NoMatchingAudio { cid } => {
                push_str_chars(&mut out, "no audio attachment matching cid:");
                push_str_chars(&mut out, cid.as_str());
            },
            AvsError::NoResponse => {
                push_str_chars(&mut out, "Alexa returned no response (204) — try rephrasing");
            },
            AvsError::Forbidden => {
                push_str_chars(
                    &mut out,
                    "403 from AVS — token invalid/expired or wrong region (try `alexa login` / --region)",
                );
            },
            AvsError::BadRequest { detail } => {
                push_str_chars(&mut out, "400 from AVS — bad request/audio format: ");
                push_str_chars(&mut out, detail.as_str());
            },
            AvsError::UnexpectedStatus { status, detail } => {
                push_str_chars(&mut out, "unexpected AVS status ");
                let digits = decimal_chars(*status as u64);
                push_all(&mut out, digits.as_slice());
                push_str_chars(&mut out, ": ");
                push_str_chars(&mut out, detail.as_str());
            },
        }
        string_of(out.as_slice())
    }
}

pub open spec fn avs_error_message(e: AvsError) -> Seq<char> {
    match e {
        AvsError::NoBoundary { content_type } => Seq::empty() + "no boundary in content-type: "@
            + content_type@,
        AvsError::NoHeaderTerminator => Seq::empty() + "malformed part: no header terminator"@,
        AvsError::NoClosingBoundary => Seq::empty() + "malformed part: no closing boundary"@,
        AvsError::NoSpeakDirective => Seq::empty()
            + "no SpeechSynthesizer.Speak directive in response"@,
        AvsError::NoMatchingAudio { cid } => Seq::empty() + "no audio attachment matching cid:"@
            + cid@,
        AvsError::NoResponse => Seq::empty()
            + "Alexa returned no response (204) — try rephrasing"@,
        AvsError::Forbidden => Seq::empty()
            + "403 from AVS — token invalid/expired or wrong region (try `alexa login` / --region)"@,
        AvsError::BadRequest { detail } => Seq::empty()
            + "400 from AVS — bad request/audio format: "@ + detail@,
        AvsError::UnexpectedStatus { status, detail } => Seq::empty() + "unexpected AVS status "@
            + decimal(status as nat) + ": "@ + detail@,
    }
}

/// The error an AVS status stands for, if any: 200 carries the answer, every
/// other status is an error (its body read as text, invalid UTF-8 replaced).
pub open spec fn status_error_matches(r: Option<AvsError>, status: u16, body: Seq<u8>) -> bool {
    if status == 200 {
        r is None
    } else if status == 204 {
        r matches Some(AvsError::NoResponse)
    } else if status == 403 {
        r matches Some(AvsError::Forbidden)
    } else if status == 400 {
        r matches Some(AvsError::BadRequest { detail }) && detail@ == utf8_lossy_text(body)
    } else {
        r matches Some(AvsError::UnexpectedStatus { status: s, detail }) && s == status && detail@
            == utf8_lossy_text(body)
    }
}

/// What the status of AVS's answer to a Recognize event means.
pub fn status_error(status: u16, body: &[u8]) -> (r: Option<AvsError>)
    ensures
        status_error_matches(r, status, body@),
{
    if status == 200 {
        None
    } else if status == 204 {
        Some(AvsError::NoResponse)
    } else if status == 403 {
        Some(AvsError::Forbidden)
    } else if status == 400 {
        Some(AvsError::BadRequest { detail: utf8_lossy(body) })
    } else {
        Some(AvsError::UnexpectedStatus { status, detail: utf8_lossy(body) })
    }
}

// ---------------------------------------------------------------------------
// Content-type boundary
// ---------------------------------------------------------------------------

/// The boundary named by a content type: the text after the first
/// `boundary=` (found ignoring ASCII case), trimmed and unquoted, up to the
/// next `;`, trimmed and unquoted again.
pub open spec fn boundary_of(content_type: Seq<char>) -> Option<Seq<char>> {
    match find_from(ascii_lower(content_type), "boundary="@, 0) {
        None => None,
        Some(idx) => {
            let raw = strip_all(
                trim(content_type.subrange(idx + "boundary="@.len(), content_type.len() as int)),
                '"',
            );
            let end = match index_of(raw, ';') {
                Some(e) => e,
                None => raw.len() as int,
            };
            Some(strip_all(trim(raw.subrange(0, end)), '"'))
        },
    }
}

/// The boundary named by a content type.
pub fn boundary_from_content_type(content_type: &str) -> (r: Option<String>)
    ensures
        r matches Some(b) ==> boundary_of(content_type@) == Some(b@),
        r is None ==> boundary_of(content_type@) is None,
{
    let ct = chars_of(content_type);
    let lower = ascii_lower_exec(ct.as_slice());
    let key = chars_of("boundary=");
    let idx = match find_chars(lower.as_slice(), key.as_slice(), 0) {
        Some(i) => i,
        None => return None,
    };
    proof {
        lemma_find_from_props(lower@, key@, 0);
    }
    assert(occurs_at(lower@, key@, idx as int));
    assert(idx + key@.len() <= lower.len());
    assert(lower@.len() == ct@.len());
    let tail = sub_chars(ct.as_slice(), idx + key.len(), ct.len());
    let tail_trim = trim_chars(tail.as_slice());
    let raw = strip_all_chars(tail_trim.as_slice(), '"');
    let end = match index_of_exec(raw.as_slice(), ';') {
        Some(e) => {
            proof {
                lemma_find_from_props(raw@, seq![';'], 0);
            }
            e
        },
        None => raw.len(),
    };
    let head = sub_chars(raw.as_slice(), 0, end);
    let head_trim = trim_chars(head.as_slice());
    let b = strip_all_chars(head_trim.as_slice(), '"');
    Some(string_of(b.as_slice()))
}

/// `find_subsequence`: the first occurrence of a non-empty `needle` at or
/// after `from`.
pub open spec fn find_subsequence_spec(haystack: Seq<u8>, needle: Seq<u8>, from: int) -> Option<
    int,
> {
    if needle.len() == 0 {
        None
    } else {
        find_from(haystack, needle, from)
    }
}

/// The first index at or after `from` where `needle` occurs in `haystack`.
pub fn find_subsequence(haystack: &[u8], needle: &[u8], from: usize) -> (r: Option<usize>)
    ensures
        r matches Some(i) ==> find_subsequence_spec(haystack@, needle@, from as int) == Some(
            i as int,
        ),
        r is None ==> find_subsequence_spec(haystack@, needle@, from as int) is None,
{
    if needle.len() == 0 {
        return None;
    }
    find_bytes(haystack, needle, from)
}

// ---------------------------------------------------------------------------
// Header block
// ---------------------------------------------------------------------------

/// The header named on one line: `name: value`, both trimmed, split at the
/// first colon. Empty lines and lines without a colon name none.
pub open spec fn line_header(line: Seq<char>) -> Seq<(Seq<char>, Seq<char>)> {
    if line.len() == 0 {
        seq![]
    } else {
        match index_of(line, ':') {
            Some(k) => seq![
                (trim(line.subrange(0, k)), trim(line.subrange(k + 1, line.len() as int))),
            ],
            None => seq![],
        }
    }
}

/// The text of a part's header bytes as `String::from_utf8_lossy` reads
/// them: the decoded text where the bytes are valid UTF-8.
pub open spec fn header_text(bytes: Seq<u8>) -> Seq<char> {
    if vstd::utf8::valid_utf8(bytes) {
        vstd::utf8::decode_utf8(bytes)
    } else {
        utf8_lossy_text(bytes)
    }
}

/// The headers of a header block, one per CRLF-separated line.
pub open spec fn block_headers(block: Seq<char>) -> Seq<(Seq<char>, Seq<char>)>
    decreases block.len(),
{
    match find_from(block, seq!['\r', '\n'], 0) {
        Some(i) => {
            if 0 <= i && i + 2 <= block.len() {
                line_header(block.subrange(0, i)) + block_headers(
                    block.subrange(i + 2, block.len() as int),
                )
            } else {
                seq![]
            }
        },
        None => line_header(block),
    }
}

fn line_header_exec(line: &[char]) -> (r: Vec<(String, String)>)
    ensures
        header_pairs_view(r@) == line_header(line@),
{
    let mut out: Vec<(String, String)> = Vec::new();
    if line.len() == 0 {
        assert(header_pairs_view(out@) =~= line_header(line@));
        return out;
    }
    match index_of_exec(line, ':') {
        Some(k) => {
            proof {
                lemma_find_from_props(line@, seq![':'], 0);
            }
            let name = trim_chars(sub_chars(line, 0, k).as_slice());
            let value = trim_chars(sub_chars(line, k + 1, line.len()).as_slice());
            out.push((string_of(name.as_slice()), string_of(value.as_slice())));
        },
        None => {},
    }
    assert(header_pairs_view(out@) =~= line_header(line@));
    out
}

/// The headers named in a header block.
pub fn parse_header_block(block: &[char]) -> (r: Vec<(String, String)>)
    ensures
        header_pairs_view(r@) == block_headers(block@),
{
    let crlf = vec!['\r', '\n'];
    assert(crlf@ =~= seq!['\r', '\n']);
    let mut out: Vec<(String, String)> = Vec::new();
    let mut rest: Vec<char> = sub_chars(block, 0, block.len());
    assert(rest@ =~= block@);
    loop
        invariant
            crlf@ == seq!['\r', '\n'],
            block_headers(block@) == header_pairs_view(out@) + block_headers(rest@),
        decreases rest@.len(),
    {
        match find_chars(rest.as_slice(), crlf.as_slice(), 0) {
            Some(i) => {
                proof {
                    lemma_find_from_props(rest@, crlf@, 0);
                }
                assert(occurs_at(rest@, crlf@, i as int));
                assert(i + 2 <= rest.len());
                let line = sub_chars(rest.as_slice(), 0, i);
                let hs = line_header_exec(line.as_slice());
                let ghost before = out@;
                let mut j: usize = 0;
                while j < hs.len()
                    invariant
                        j <= hs.len(),
                        out@ == before + hs@.subrange(0, j as int),
                    decreases hs.len() - j,
                {
                    out.push((hs[j].0.clone(), hs[j].1.clone()));
                    j += 1;
                    assert(out@ =~= before + hs@.subrange(0, j as int));
                }
                assert(hs@.subrange(0, hs@.len() as int) =~= hs@);
                assert(header_pairs_view(out@) =~= header_pairs_view(before) + header_pairs_view(
                    hs@,
                ));
                let next = sub_chars(rest.as_slice(), i + 2, rest.len());
                rest = next;
            },
            None => {
                let hs = line_header_exec(rest.as_slice());
                let ghost before = out@;
                let mut j: usize = 0;
                while j < hs.len()
                    invariant
                        j <= hs.len(),
                        out@ == before + hs@.subrange(0, j as int),
                    decreases hs.len() - j,
                {
                    out.push((hs[j].0.clone(), hs[j].1.clone()));
                    j += 1;
                    assert(out@ =~= before + hs@.subrange(0, j as int));
                }
                assert(hs@.subrange(0, hs@.len() as int) =~= hs@);
                assert(header_pairs_view(out@) =~= header_pairs_view(before) + header_pairs_view(
                    hs@,
                ));
                return out;
            },
        }
    }
}

// ---------------------------------------------------------------------------
// multipart/related parser
// ---------------------------------------------------------------------------

/// Where reading the parts from a cursor on ends.
pub enum PartsOutcome {
    /// The parts read, in order.
    Parsed(Seq<PartView>),
    /// A part was malformed.
    Failed(AvsError),
    /// A part whose content is empty and directly followed by the boundary:
    /// its content would end before it starts.
    Inverted,
}

pub open spec fn crlf() -> Seq<u8> {
    seq![13u8, 10u8]
}

pub open spec fn crlfcrlf() -> Seq<u8> {
    seq![13u8, 10u8, 13u8, 10u8]
}

pub open spec fn dashes() -> Seq<u8> {
    seq![45u8, 45u8]
}

/// Reads parts from `cursor`, which stands right after a delimiter.
pub open spec fn parts_from(body: Seq<u8>, delim: Seq<u8>, cursor: int) -> PartsOutcome
    decreases body.len() - cursor,
{
    if cursor < 0 || cursor > body.len() || delim.len() == 0 {
        PartsOutcome::Parsed(seq![])
    } else if starts_with(body.subrange(cursor, body.len() as int), dashes()) {
        PartsOutcome::Parsed(seq![])
    } else {
        let c1 = if starts_with(body.subrange(cursor, body.len() as int), crlf()) {
            cursor + 2
        } else {
            cursor
        };
        match find_from(body, crlfcrlf(), c1) {
            None => PartsOutcome::Failed(AvsError::NoHeaderTerminator),
            Some(he) => {
                let cs = he + 4;
                match find_from(body, delim, cs) {
                    None => PartsOutcome::Failed(AvsError::NoClosingBoundary),
                    Some(nb) => {
                        let ce = if nb >= 2 && body[nb - 2] == 13u8 && body[nb - 1] == 10u8 {
                            nb - 2
                        } else {
                            nb
                        };
                        if ce < cs || nb < cs {
                            PartsOutcome::Inverted
                        } else {
                            proof {
                                lemma_find_from_props(body, crlfcrlf(), c1);
                                lemma_find_from_props(body, delim, cs);
                            }
                            let part = PartView {
                                headers: block_headers(header_text(body.subrange(c1, he))),
                                body: body.subrange(cs, ce),
                            };
                            match parts_from(body, delim, nb + delim.len()) {
                                PartsOutcome::Parsed(ps) => PartsOutcome::Parsed(seq![part] + ps),
                                other => other,
                            }
                        }
                    },
                }
            },
        }
    }
}

/// What reading a `multipart/related` body gives: `None` where the content
/// type names no boundary.
pub open spec fn multipart_outcome(content_type: Seq<char>, body: Seq<u8>) -> Option<PartsOutcome> {
    match boundary_of(content_type) {
        None => None,
        Some(b) => {
            let delim = encode_utf8("--"@ + b);
            match find_from(body, delim, 0) {
                None => Some(PartsOutcome::Parsed(seq![])),
                Some(p) => Some(parts_from(body, delim, p + delim.len())),
            }
        },
    }
}

/// `prefix` followed by what reading from a cursor gives.
pub open spec fn after_parts(prefix: Seq<PartView>, o: PartsOutcome) -> PartsOutcome {
    match o {
        PartsOutcome::Parsed(ps) => PartsOutcome::Parsed(prefix + ps),
        other => other,
    }
}

/// The outcome of `parse_multipart_related` as a `Result`.
pub open spec fn parse_result_matches(r: Result<Vec<Part>, AvsError>, content_type: Seq<char>, body: Seq<u8>) -> bool {
    match multipart_outcome(content_type, body) {
        None => r matches Err(AvsError::NoBoundary { content_type: c }) && c@ == content_type,
        Some(PartsOutcome::Parsed(ps)) => r matches Ok(v) && parts_view(v@) == ps,
        Some(PartsOutcome::Failed(e)) => r matches Err(x) && x == e,
        Some(PartsOutcome::Inverted) => false,
    }
}

/// What reading a `multipart/related` body gave, the body of the kind that
/// `parse_multipart_related` cannot read (`Inverted`) included.
pub enum MultipartRead {
    Parts(Vec<Part>),
    Malformed(AvsError),
    /// A part whose content is empty and directly followed by the boundary.
    Inverted,
}

/// The outcome of `read_multipart_related`.
pub open spec fn read_matches(r: MultipartRead, content_type: Seq<char>, body: Seq<u8>) -> bool {
    match multipart_outcome(content_type, body) {
        None => r matches MultipartRead::Malformed(AvsError::NoBoundary { content_type: c }) && c@
            == content_type,
        Some(PartsOutcome::Parsed(ps)) => r matches MultipartRead::Parts(v) && parts_view(v@)
            == ps,
        Some(PartsOutcome::Failed(e)) => r matches MultipartRead::Malformed(x) && x == e,
        Some(PartsOutcome::Inverted) => r is Inverted,
    }
}

/// Reads the parts of a `multipart/related` body, telling apart the bodies
/// that `parse_multipart_related` does not accept.
pub fn read_multipart_related(content_type: &str, body: &[u8]) -> (r: MultipartRead)
    ensures
        read_matches(r, content_type@, body@),
{
    let boundary = match boundary_from_content_type(content_type) {
        Some(b) => b,
        None => return MultipartRead::Malformed(
            AvsError::NoBoundary { content_type: content_type.to_string() },
        ),
    };
    let mut dv: Vec<char> = Vec::new();
    push_str_chars(&mut dv, "--");
    push_str_chars(&mut dv, boundary.as_str());
    let delim = string_of(dv.as_slice());
    let delim_bytes = delim.as_str().as_bytes();
    let ghost d = encode_utf8("--"@ + boundary@);
    assert(delim_bytes@ == d);
    proof {
        assert("--"@ + boundary@ =~= dv@);
        reveal_strlit("--");
        assert(encode_utf8(dv@).len() >= 1) by {
            assert(dv@.len() >= 2);
            assert(encode_utf8(dv@) == vstd::utf8::encode_scalar(dv@[0] as u32) + encode_utf8(
                dv@.drop_first(),
            ));
        }
    }
    let mut parts: Vec<Part> = Vec::new();
    let first = find_subsequence(body, delim_bytes, 0);
    let mut cursor = match first {
        Some(p) => {
            proof {
                lemma_find_from_props(body@, d, 0);
            }
            assert(find_from(body@, d, 0) == Some(p as int));
            assert(occurs_at(body@, d, p as int));
            assert(p + delim_bytes@.len() <= body.len());
            p + delim_bytes.len()
        },
        None => {
            assert(parts_view(parts@) =~= seq![]);
            return MultipartRead::Parts(parts);
        },
    };
    let crlf_v = vec![13u8, 10u8];
    let crlfcrlf_v = vec![13u8, 10u8, 13u8, 10u8];
    assert(crlf_v@ =~= crlf());
    assert(crlfcrlf_v@ =~= crlfcrlf());
    assert(parts_view(parts@) =~= seq![]);
    loop
        invariant
            delim_bytes@ == d,
            d.len() >= 1,
            crlf_v@ == crlf(),
            crlfcrlf_v@ == crlfcrlf(),
            cursor <= body.len(),
            multipart_outcome(content_type@, body@) == Some(
                after_parts(parts_view(parts@), parts_from(body@, d, cursor as int)),
            ),
        decreases body.len() - cursor,
    {
        let ghost outcome = parts_from(body@, d, cursor as int);
        let ghost rest = body@.subrange(cursor as int, body@.len() as int);
        if body.len() - cursor >= 2 && body[cursor] == 45u8 && body[cursor + 1] == 45u8 {
            assert(starts_with(rest, dashes())) by {
                assert(rest.subrange(0, 2) =~= dashes());
            }
            assert(after_parts(parts_view(parts@), outcome) == PartsOutcome::Parsed(
                parts_view(parts@),
            )) by {
                assert(parts_view(parts@) + seq![] =~= parts_view(parts@));
            }
            return MultipartRead::Parts(parts);
        }
        assert(!starts_with(rest, dashes()));
        let mut c1 = cursor;
        if body.len() - cursor >= 2 && body[cursor] == 13u8 && body[cursor + 1] == 10u8 {
            assert(starts_with(rest, crlf())) by {
                assert(rest.subrange(0, 2) =~= crlf());
            }
            c1 = cursor + 2;
        } else {
            assert(!starts_with(rest, crlf()));
        }
        let header_end = match find_subsequence(body, crlfcrlf_v.as_slice(), c1) {
            Some(h) => h,
            None => {
                return MultipartRead::Malformed(AvsError::NoHeaderTerminator);
            },
        };
        proof {
            lemma_find_from_props(body@, crlfcrlf(), c1 as int);
        }
        let blob = utf8_lossy(sub_bytes(body, c1, header_end).as_slice());
        let blob_chars = chars_of(blob.as_str());
        let headers = parse_header_block(blob_chars.as_slice());
        let content_start = header_end + 4;
        let next_boundary = match find_subsequence(body, delim_bytes, content_start) {
            Some(n) => n,
            None => {
                return MultipartRead::Malformed(AvsError::NoClosingBoundary);
            },
        };
        proof {
            lemma_find_from_props(body@, d, content_start as int);
        }
        let mut content_end = next_boundary;
        if next_boundary >= 2 && body[next_boundary - 2] == 13u8 && body[next_boundary - 1]
            == 10u8 {
            content_end = next_boundary - 2;
        }
        if content_end < content_start {
            return MultipartRead::Inverted;
        }
        let part = Part { headers, body: sub_bytes(body, content_start, content_end) };
        let ghost pv = part@;
        let ghost before = parts_view(parts@);
        parts.push(part);
        assert(parts_view(parts@) =~= before.push(pv));
        proof {
            let tail = parts_from(body@, d, next_boundary + d.len());
            assert(after_parts(before, outcome) == after_parts(parts_view(parts@), tail)) by {
                match tail {
                    PartsOutcome::Parsed(ps) => {
                        assert(before + (seq![pv] + ps) =~= before.push(pv) + ps);
                    },
                    _ => {},
                }
            }
        }
        cursor = next_boundary + delim_bytes.len();
    }
}

// ---------------------------------------------------------------------------

/// Reads the parts of a `multipart/related` body: each part's headers and
/// content, in order. Fails where the content type names no boundary or a
/// part is malformed.
pub fn parse_multipart_related(content_type: &str, body: &[u8]) -> (r: Result<Vec<Part>, AvsError>)
    requires
        !(multipart_outcome(content_type@, body@) matches Some(PartsOutcome::Inverted)),
    ensures
        parse_result_matches(r, content_type@, body@),
{
    match read_multipart_related(content_type, body) {
        MultipartRead::Parts(v) => Ok(v),
        MultipartRead::Malformed(e) => Err(e),
        MultipartRead::Inverted => {
            proof {
                assert(false);
            }
            Err(AvsError::NoClosingBoundary)
        },
    }
}

// ---------------------------------------------------------------------------
// The spoken answer
// ---------------------------------------------------------------------------

/// Whether a part declares JSON content.
pub open spec fn is_json_part(p: PartView) -> bool {
    match header_value(p.headers, "Content-Type"@) {
        Some(c) => contains(c, "application/json"@),
        None => false,
    }
}

/// The Content-ID named by a part holding a `SpeechSynthesizer.Speak`
/// directive whose `payload.url` is `cid:<id>`.
pub open spec fn speak_cid_of(p: PartView) -> Option<Seq<char>> {
    if !is_json_part(p) {
        None
    } else {
        match json_parse_bytes(p.body) {
            None => None,
            Some(t) => {
                let d = json_field(t, "directive"@);
                let h = json_get_opt(d, "header"@);
                if json_str(json_get_opt(h, "namespace"@)) == Some("SpeechSynthesizer"@) && json_str(
                    json_get_opt(h, "name"@),
                ) == Some("Speak"@) {
                    match json_str(json_get_opt(json_get_opt(d, "payload"@), "url"@)) {
                        Some(u) => crate::text::strip_prefix(u, "cid:"@),
                        None => None,
                    }
                } else {
                    None
                }
            },
        }
    }
}

/// The first Content-ID named by a `SpeechSynthesizer.Speak` directive among
/// the parts.
pub open spec fn first_speak_cid(parts: Seq<PartView>) -> Option<Seq<char>>
    decreases parts.len(),
{
    if parts.len() == 0 {
        None
    } else {
        match speak_cid_of(parts[0]) {
            Some(c) => Some(c),
            None => first_speak_cid(parts.drop_first()),
        }
    }
}

/// A Content-ID header value without whitespace and angle brackets.
pub open spec fn normalize_cid(v: Seq<char>) -> Seq<char> {
    strip_all_end(strip_all_start(trim(v), '<'), '>')
}

pub open spec fn has_content_id(p: PartView, cid: Seq<char>) -> bool {
    match header_value(p.headers, "Content-ID"@) {
        Some(v) => normalize_cid(v) == cid,
        None => false,
    }
}

/// The content of the first part whose Content-ID is `cid`.
pub open spec fn attachment(parts: Seq<PartView>, cid: Seq<char>) -> Option<Seq<u8>>
    decreases parts.len(),
{
    if parts.len() == 0 {
        None
    } else if has_content_id(parts[0], cid) {
        Some(parts[0].body)
    } else {
        attachment(parts.drop_first(), cid)
    }
}

/// What `extract_speak_audio` answers for the given parts.
pub open spec fn speak_audio_matches(r: Result<Vec<u8>, AvsError>, parts: Seq<PartView>) -> bool {
    match first_speak_cid(parts) {
        None => r matches Err(AvsError::NoSpeakDirective),
        Some(cid) => match attachment(parts, cid) {
            Some(audio) => r matches Ok(a) && a@ == audio,
            None => r matches Err(AvsError::NoMatchingAudio { cid: c }) && c@ == cid,
        },
    }
}

fn speak_cid_exec(p: &Part) -> (r: Option<Vec<char>>)
    ensures
        r matches Some(c) ==> speak_cid_of(p@) == Some(c@),
        r is None ==> speak_cid_of(p@) is None,
{
    let is_json = match p.header("Content-Type") {
        Some(c) => {
            let cv = chars_of(c);
            let pat = chars_of("application/json");
            find_chars(cv.as_slice(), pat.as_slice(), 0).is_some()
        },
        None => false,
    };
    if !is_json {
        return None;
    }
    let v = match parse_json_bytes(p.body.as_slice()) {
        Some(v) => v,
        None => return None,
    };
    let ghost t = crate::json::json_content(v);
    let d = match json_get(&v, "directive") {
        Some(d) => d,
        None => {
            return None;
        },
    };
    let ghost dt = json_field(t, "directive"@);
    let name_ok = match json_get(d, "header") {
        Some(h) => {
            let ns_ok = match json_get(h, "namespace") {
                Some(n) => match json_as_str(n) {
                    Some(s) => crate::text::str_eq(s, "SpeechSynthesizer"),
                    None => false,
                },
                None => false,
            };
            ns_ok && match json_get(h, "name") {
                Some(n) => match json_as_str(n) {
                    Some(s) => crate::text::str_eq(s, "Speak"),
                    None => false,
                },
                None => false,
            }
        },
        None => false,
    };
    if !name_ok {
        return None;
    }
    let url = match json_get(d, "payload") {
        Some(pl) => match json_get(pl, "url") {
            Some(u) => match json_as_str(u) {
                Some(s) => s,
                None => return None,
            },
            None => return None,
        },
        None => return None,
    };
    let uc = chars_of(url);
    let prefix = chars_of("cid:");
    crate::text::strip_prefix_chars(uc.as_slice(), prefix.as_slice())
}

fn has_content_id_exec(p: &Part, cid: &[char]) -> (r: bool)
    ensures
        r == has_content_id(p@, cid@),
{
    match p.header("Content-ID") {
        Some(v) => {
            let vc = chars_of(v);
            let t = trim_chars(vc.as_slice());
            let a = strip_start_chars(t.as_slice(), '<');
            let b = strip_end_chars(a.as_slice(), '>');
            crate::text::chars_eq(b.as_slice(), cid)
        },
        None => false,
    }
}

fn strip_start_chars(s: &[char], c: char) -> (r: Vec<char>)
    ensures
        r@ == strip_all_start(s@, c),
{
    let mut start: usize = 0;
    assert(s@.subrange(0, s@.len() as int) =~= s@);
    while start < s.len() && s[start] == c
        invariant
            start <= s.len(),
            strip_all_start(s@, c) == strip_all_start(s@.subrange(start as int, s.len() as int), c),
        decreases s.len() - start,
    {
        assert(s@.subrange(start as int, s.len() as int).drop_first() =~= s@.subrange(
            start + 1,
            s.len() as int,
        ));
        start += 1;
    }
    sub_chars(s, start, s.len())
}

fn strip_end_chars(s: &[char], c: char) -> (r: Vec<char>)
    ensures
        r@ == strip_all_end(s@, c),
{
    let mut end: usize = s.len();
    assert(s@.subrange(0, s@.len() as int) =~= s@);
    while end > 0 && s[end - 1] == c
        invariant
            end <= s.len(),
            strip_all_end(s@, c) == strip_all_end(s@.subrange(0, end as int), c),
        decreases end,
    {
        assert(s@.subrange(0, end as int).drop_last() =~= s@.subrange(0, end - 1));
        end -= 1;
    }
    sub_chars(s, 0, end)
}

/// The content of the first part whose Content-ID is `cid`.
fn find_attachment(parts: &[Part], cid: &[char]) -> (r: Result<Vec<u8>, AvsError>)
    ensures
        match attachment(parts_view(parts@), cid@) {
            Some(audio) => r matches Ok(a) && a@ == audio,
            None => r matches Err(AvsError::NoMatchingAudio { cid: c }) && c@ == cid@,
        },
{
    let ghost pv = parts_view(parts@);
    let mut j: usize = 0;
    assert(pv.subrange(0, pv.len() as int) =~= pv);
    while j < parts.len()
        invariant
            j <= parts.len(),
            pv == parts_view(parts@),
            attachment(pv, cid@) == attachment(pv.subrange(j as int, pv.len() as int), cid@),
        decreases parts.len() - j,
    {
        let ghost rest = pv.subrange(j as int, pv.len() as int);
        assert(rest[0] == parts@[j as int]@);
        if has_content_id_exec(&parts[j], cid) {
            let b = &parts[j].body;
            return Ok(crate::text::sub_bytes(b.as_slice(), 0, b.len()));
        }
        assert(rest.drop_first() =~= pv.subrange(j + 1, pv.len() as int));
        j += 1;
    }
    assert(pv.subrange(parts.len() as int, pv.len() as int) =~= Seq::<PartView>::empty());
    Err(AvsError::NoMatchingAudio { cid: string_of(cid) })
}

/// Alexa's spoken answer: the content of the part that the first `Speak`
/// directive's `cid:` URL names.
pub fn extract_speak_audio(parts: &[Part]) -> (r: Result<Vec<u8>, AvsError>)
    ensures
        speak_audio_matches(r, parts_view(parts@)),
{
    let ghost pv = parts_view(parts@);
    let mut i: usize = 0;
    assert(pv.subrange(0, pv.len() as int) =~= pv);
    while i < parts.len()
        invariant
            i <= parts.len(),
            pv == parts_view(parts@),
            first_speak_cid(pv) == first_speak_cid(pv.subrange(i as int, pv.len() as int)),
        decreases parts.len() - i,
    {
        let ghost rest = pv.subrange(i as int, pv.len() as int);
        assert(rest[0] == parts@[i as int]@);
        match speak_cid_exec(&parts[i]) {
            Some(c) => {
                return find_attachment(parts, c.as_slice());
            },
            None => {},
        }
        assert(rest.drop_first() =~= pv.subrange(i + 1, pv.len() as int));
        i += 1;
    }
    assert(pv.subrange(parts.len() as int, pv.len() as int) =~= Seq::<PartView>::empty());
    Err(AvsError::NoSpeakDirective)
}

// ---------------------------------------------------------------------------
// A Recognize body reads back
// ---------------------------------------------------------------------------

proof fn lemma_encode_concat(x: Seq<char>, y: Seq<char>)
    ensures
        encode_utf8(x + y) == encode_utf8(x) + encode_utf8(y),
    decreases x.len(),
{
    if x.len() > 0 {
        lemma_encode_concat(x.drop_first(), y);
        assert((x + y).drop_first() =~= x.drop_first() + y);
        assert((x + y)[0] == x[0]);
        assert(encode_utf8(x + y) =~= encode_utf8(x) + encode_utf8(y));
    } else {
        assert(x + y =~= y);
    }
}

proof fn lemma_scalar_no_byte(x: u32, c: u8)
    requires
        c < 0x80,
        vstd::utf8::is_scalar(x),
        x != c as u32,
    ensures
        forall|k: int|
            0 <= k < vstd::utf8::encode_scalar(x).len() ==> #[trigger] vstd::utf8::encode_scalar(
                x,
            )[k] != c,
{
    let e = vstd::utf8::encode_scalar(x);
    if x <= 0x7F {
        assert((x & 0x7F) as u8 != c) by (bit_vector)
            requires
                x <= 0x7F,
                x != c as u32,
                c < 0x80,
        ;
    } else {
        assert(forall|y: u8| #[trigger] (0xC0u8 | y) >= 0x80u8) by (bit_vector);
        assert(forall|y: u8| #[trigger] (0xE0u8 | y) >= 0x80u8) by (bit_vector);
        assert(forall|y: u8| #[trigger] (0xF0u8 | y) >= 0x80u8) by (bit_vector);
        assert(forall|y: u8| #[trigger] (0x80u8 | y) >= 0x80u8) by (bit_vector);
        assert(forall|k: int| 0 <= k < e.len() ==> #[trigger] e[k] >= 0x80);
    }
}

/// The UTF-8 encoding of text without the ASCII character `c` holds no byte
/// `c`.
proof fn lemma_encode_no_byte(t: Seq<char>, c: u8)
    requires
        c < 0x80,
        forall|i: int| 0 <= i < t.len() ==> (#[trigger] t[i] as u32) != c as u32,
    ensures
        forall|k: int| 0 <= k < encode_utf8(t).len() ==> #[trigger] encode_utf8(t)[k] != c,
    decreases t.len(),
{
    if t.len() > 0 {
        assert(t[0] as u32 != c as u32);
        vstd::utf8::char_is_scalar(t[0]);
        lemma_scalar_no_byte(t[0] as u32, c);
        assert forall|i: int| 0 <= i < t.drop_first().len() implies (#[trigger] t.drop_first()[i] as u32)
            != c as u32 by {
            assert(t.drop_first()[i] == t[i + 1]);
        }
        lemma_encode_no_byte(t.drop_first(), c);
        let h = vstd::utf8::encode_scalar(t[0] as u32);
        let r = encode_utf8(t.drop_first());
        assert(encode_utf8(t) == h + r);
        assert forall|k: int| 0 <= k < encode_utf8(t).len() implies #[trigger] encode_utf8(t)[k] != c by {
            if k < h.len() {
                assert(encode_utf8(t)[k] == h[k]);
            } else {
                assert(encode_utf8(t)[k] == r[k - h.len()]);
            }
        }
    }
}

proof fn lemma_find_first<A>(hay: Seq<A>, needle: Seq<A>, from: int, i: int)
    requires
        0 <= from <= i,
        occurs_at(hay, needle, i),
        forall|j: int| from <= j < i ==> !occurs_at(hay, needle, j),
    ensures
        find_from(hay, needle, from) == Some(i),
    decreases i - from,
{
    if from < i {
        assert(!occurs_at(hay, needle, from));
        lemma_find_first(hay, needle, from + 1, i);
    }
}

#[verifier::spinoff_prover]
proof fn lemma_header_end(hay: Seq<u8>, c1: int, ea: Seq<u8>, eb: Seq<u8>)
    requires
        0 <= c1,
        c1 + ea.len() + eb.len() + 6 <= hay.len(),
        hay.subrange(c1, c1 + ea.len() + eb.len() + 6) == ea + crlf() + eb + crlfcrlf(),
        forall|k: int| 0 <= k < ea.len() ==> #[trigger] ea[k] != 13u8,
        forall|k: int| 0 <= k < eb.len() ==> #[trigger] eb[k] != 13u8,
        eb.len() > 0,
    ensures
        find_from(hay, crlfcrlf(), c1) == Some(c1 + ea.len() + 2 + eb.len()),
{
    let w = ea + crlf() + eb + crlfcrlf();
    let n = w.len() as int;
    let a = ea.len() as int;
    let b = eb.len() as int;
    assert forall|r: int| 0 <= r < n implies #[trigger] hay[c1 + r] == w[r] by {
        assert(hay.subrange(c1, c1 + n)[r] == hay[c1 + r]);
    }
    assert forall|r: int| 0 <= r < a implies #[trigger] w[r] == ea[r] by {}
    assert forall|r: int| a + 2 <= r < a + 2 + b implies #[trigger] w[r] == eb[r - a - 2] by {}
    assert(w[a] == 13u8 && w[a + 1] == 10u8);
    assert(w[a + 2 + b] == 13u8 && w[a + 3 + b] == 10u8 && w[a + 4 + b] == 13u8 && w[a + 5 + b]
        == 10u8);
    let i0 = c1 + a + 2 + b;
    assert(hay.subrange(i0, i0 + 4) =~= crlfcrlf()) by {
        assert(hay[c1 + (a + 2 + b)] == w[a + 2 + b]);
        assert(hay[c1 + (a + 3 + b)] == w[a + 3 + b]);
        assert(hay[c1 + (a + 4 + b)] == w[a + 4 + b]);
        assert(hay[c1 + (a + 5 + b)] == w[a + 5 + b]);
    }
    assert forall|j: int| c1 <= j < i0 implies !occurs_at(hay, crlfcrlf(), j) by {
        if occurs_at(hay, crlfcrlf(), j) {
            assert(hay.subrange(j, j + 4)[0] == hay[j]);
            assert(hay.subrange(j, j + 4)[1] == hay[j + 1]);
            assert(hay.subrange(j, j + 4)[2] == hay[j + 2]);
            let r = j - c1;
            assert(hay[c1 + r] == w[r]);
            assert(hay[c1 + (r + 1)] == w[r + 1]);
            assert(hay[c1 + (r + 2)] == w[r + 2]);
            if r < a {
                assert(w[r] == ea[r]);
            } else if r == a {
                assert(w[r + 2] == eb[0]);
            } else if r == a + 1 {
            } else {
                assert(w[r] == eb[r - a - 2]);
            }
        }
    }
    lemma_find_first(hay, crlfcrlf(), c1, i0);
}

#[verifier::spinoff_prover]
proof fn lemma_delim_after(hay: Seq<u8>, cs: int, cc: Seq<u8>, d: Seq<u8>)
    requires
        0 <= cs,
        cs + cc.len() + 2 + d.len() <= hay.len(),
        hay.subrange(cs, cs + cc.len() + 2 + d.len()) == cc + crlf() + d,
        d.len() >= 1,
        forall|k: int| 0 <= k < d.len() ==> #[trigger] d[k] != 13u8,
        d[0] != 10u8,
        !contains(cc, d),
    ensures
        find_from(hay, d, cs) == Some(cs + cc.len() + 2),
{
    let w = cc + crlf() + d;
    let c = cc.len() as int;
    let n = w.len() as int;
    assert forall|r: int| 0 <= r < n implies #[trigger] hay[cs + r] == w[r] by {
        assert(hay.subrange(cs, cs + n)[r] == hay[cs + r]);
    }
    lemma_find_from_props(cc, d, 0);
    let nb = cs + c + 2;
    assert(hay.subrange(nb, nb + d.len()) =~= d) by {
        assert forall|k: int| 0 <= k < d.len() implies hay.subrange(nb, nb + d.len())[k] == d[k] by {
            assert(hay[cs + (c + 2 + k)] == w[c + 2 + k]);
        }
    }
    assert forall|j: int| cs <= j < nb implies !occurs_at(hay, d, j) by {
        if occurs_at(hay, d, j) {
            let r = j - cs;
            assert(hay.subrange(j, j + d.len()) == d);
            if r + d.len() <= c {
                assert(cc.subrange(r, r + d.len()) =~= d) by {
                    assert forall|k: int| 0 <= k < d.len() implies cc.subrange(r, r + d.len())[k]
                        == d[k] by {
                        assert(hay.subrange(j, j + d.len())[k] == hay[cs + (r + k)]);
                        assert(w[r + k] == cc[r + k]);
                    }
                }
                assert(occurs_at(cc, d, r));
            } else if r < c {
                let k = c - r;
                assert(hay.subrange(j, j + d.len())[k] == hay[cs + c]);
                assert(w[c] == 13u8);
            } else if r == c {
                assert(hay.subrange(j, j + d.len())[0] == hay[cs + c]);
                assert(w[c] == 13u8);
            } else {
                assert(hay.subrange(j, j + d.len())[0] == hay[cs + (c + 1)]);
                assert(w[c + 1] == 10u8);
            }
        }
    }
    lemma_find_first(hay, d, cs, nb);
}

/// The bytes of one well-formed part, from just after its delimiter through
/// the next delimiter.
pub open spec fn part_bytes(ea: Seq<u8>, eb: Seq<u8>, content: Seq<u8>, d: Seq<u8>) -> Seq<u8> {
    crlf() + ea + crlf() + eb + crlfcrlf() + content + crlf() + d
}

#[verifier::spinoff_prover]
proof fn lemma_one_part(
    hay: Seq<u8>,
    d: Seq<u8>,
    cursor: int,
    ea: Seq<u8>,
    eb: Seq<u8>,
    content: Seq<u8>,
)
    requires
        0 <= cursor,
        cursor + part_bytes(ea, eb, content, d).len() <= hay.len(),
        hay.subrange(cursor, cursor + part_bytes(ea, eb, content, d).len()) == part_bytes(
            ea,
            eb,
            content,
            d,
        ),
        forall|k: int| 0 <= k < ea.len() ==> #[trigger] ea[k] != 13u8,
        forall|k: int| 0 <= k < eb.len() ==> #[trigger] eb[k] != 13u8,
        eb.len() > 0,
        d.len() >= 1,
        forall|k: int| 0 <= k < d.len() ==> #[trigger] d[k] != 13u8,
        d[0] != 10u8,
        !contains(content, d),
    ensures
        ({
            let next = cursor + part_bytes(ea, eb, content, d).len();
            let part = PartView {
                headers: block_headers(header_text(ea + crlf() + eb)),
                body: content,
            };
            parts_from(hay, d, cursor) == match parts_from(hay, d, next) {
                PartsOutcome::Parsed(ps) => PartsOutcome::Parsed(seq![part] + ps),
                other => other,
            }
        }),
{
    let w = part_bytes(ea, eb, content, d);
    let n = w.len() as int;
    let a = ea.len() as int;
    let b = eb.len() as int;
    let c = content.len() as int;
    assert forall|r: int| 0 <= r < n implies #[trigger] hay[cursor + r] == w[r] by {
        assert(hay.subrange(cursor, cursor + n)[r] == hay[cursor + r]);
    }
    let rest = hay.subrange(cursor, hay.len() as int);
    assert(rest[0] == 13u8) by {
        assert(hay[cursor + 0] == w[0]);
    }
    assert(!starts_with(rest, dashes())) by {
        if starts_with(rest, dashes()) {
            assert(rest.subrange(0, 2)[0] == rest[0]);
        }
    }
    assert(starts_with(rest, crlf())) by {
        assert(hay[cursor + 1] == w[1]);
        assert(rest.subrange(0, 2) =~= crlf());
    }
    let c1 = cursor + 2;
    assert(hay.subrange(c1, c1 + a + b + 6) =~= ea + crlf() + eb + crlfcrlf()) by {
        assert forall|k: int| 0 <= k < a + b + 6 implies hay.subrange(c1, c1 + a + b + 6)[k]
            == (ea + crlf() + eb + crlfcrlf())[k] by {
            assert(hay[cursor + (2 + k)] == w[2 + k]);
        }
    }
    lemma_header_end(hay, c1, ea, eb);
    let he = c1 + a + 2 + b;
    let cs = he + 4;
    assert(hay.subrange(cs, cs + c + 2 + d.len()) =~= content + crlf() + d) by {
        assert forall|k: int| 0 <= k < c + 2 + d.len() implies hay.subrange(
            cs,
            cs + c + 2 + d.len(),
        )[k] == (content + crlf() + d)[k] by {
            assert(hay[cursor + (a + b + 8 + k)] == w[a + b + 8 + k]);
        }
    }
    lemma_delim_after(hay, cs, content, d);
    let nb = cs + c + 2;
    assert(hay[nb - 2] == 13u8 && hay[nb - 1] == 10u8) by {
        assert(hay[cursor + (a + b + 8 + c)] == w[a + b + 8 + c]);
        assert(hay[cursor + (a + b + 9 + c)] == w[a + b + 9 + c]);
    }
    assert(hay.subrange(c1, he) =~= ea + crlf() + eb) by {
        assert forall|k: int| 0 <= k < a + 2 + b implies hay.subrange(c1, he)[k] == (ea + crlf()
            + eb)[k] by {
            assert(hay[cursor + (2 + k)] == w[2 + k]);
        }
    }
    assert(hay.subrange(cs, nb - 2) =~= content) by {
        assert forall|k: int| 0 <= k < c implies hay.subrange(cs, nb - 2)[k] == content[k] by {
            assert(hay[cursor + (a + b + 8 + k)] == w[a + b + 8 + k]);
        }
    }
    assert(nb + d.len() == cursor + n);
}

/// A boundary that reads back from a content type unchanged: not empty,
/// without white space (CR and LF included), `"` or `;`.
pub open spec fn plain_boundary(b: Seq<char>) -> bool {
    &&& b.len() > 0
    &&& forall|i: int|
        0 <= i < b.len() ==> !is_ws(#[trigger] b[i]) && b[i] != '"' && b[i] != ';'
}

proof fn lemma_plain_unchanged(b: Seq<char>)
    requires
        plain_boundary(b),
    ensures
        strip_all(trim(b), '"') == b,
{
    assert(!is_ws(b[0]) && !is_ws(b.last()));
    assert(trim_start(b) == b);
    assert(trim_end(b) == b);
    assert(strip_all_start(b, '"') == b);
    assert(strip_all_end(b, '"') == b);
}

/// The boundary of `multipart/form-data; boundary=<b>` is `b`.
#[verifier::spinoff_prover]
proof fn lemma_boundary_of_form_data(b: Seq<char>)
    requires
        plain_boundary(b),
    ensures
        boundary_of("multipart/form-data; boundary="@ + b) == Some(b),
{
    let pre = "multipart/form-data; boundary="@;
    let needle = "boundary="@;
    reveal_strlit("multipart/form-data; boundary=");
    reveal_strlit("boundary=");
    let ct = pre + b;
    let lo = ascii_lower(ct);
    assert(pre.len() == 30);
    assert forall|i: int| 0 <= i < 30 implies #[trigger] lo[i] == pre[i] by {
        assert(ct[i] == pre[i]);
    }
    assert(forall|i: int| 0 <= i < 21 ==> #[trigger] pre[i] != 'b');
    assert(lo.subrange(21, 30) =~= needle) by {
        assert forall|k: int| 0 <= k < 9 implies lo.subrange(21, 30)[k] == needle[k] by {
            assert(lo[21 + k] == pre[21 + k]);
        }
    }
    assert forall|j: int| 0 <= j < 21 implies !occurs_at(lo, needle, j) by {
        if occurs_at(lo, needle, j) {
            assert(lo.subrange(j, j + 9)[0] == lo[j]);
            assert(lo[j] == pre[j]);
        }
    }
    lemma_find_first(lo, needle, 0, 21);
    assert(ct.subrange(30, ct.len() as int) =~= b);
    lemma_plain_unchanged(b);
    lemma_find_from_props(b, seq![';'], 0);
    if index_of(b, ';') is Some {
        let i = index_of(b, ';')->0;
        assert(b.subrange(i, i + 1)[0] == b[i]);
    }
    assert(index_of(b, ';') is None);
    assert(b.subrange(0, b.len() as int) =~= b);
}

/// The headers of the `metadata` part of a Recognize body.
pub open spec fn metadata_part_headers() -> Seq<char> {
    "Content-Disposition: form-data; name=\"metadata\"\r\nContent-Type: application/json; charset=UTF-8"@
}

/// The headers of the `audio` part of a Recognize body.
pub open spec fn audio_part_headers() -> Seq<char> {
    "Content-Disposition: form-data; name=\"audio\"\r\nContent-Type: application/octet-stream"@
}

/// Text without CR has no byte 13 in its encoding.
proof fn lemma_no_cr_encoding(t: Seq<char>)
    requires
        forall|i: int| 0 <= i < t.len() ==> #[trigger] t[i] != '\r',
    ensures
        forall|k: int| 0 <= k < encode_utf8(t).len() ==> #[trigger] encode_utf8(t)[k] != 13u8,
{
    assert forall|i: int| 0 <= i < t.len() implies (#[trigger] t[i] as u32) != 13u8 as u32 by {
        let ch = t[i];
        assert(ch != '\r');
        vstd::utf8::char_u32_cast(ch, ch as u32);
        assert((13u32 as char) == '\r');
        assert(ch as u32 != 13u32);
        assert(13u8 as u32 == 13u32);
    }
    lemma_encode_no_byte(t, 13u8);
}

/// The encoding of a header line `text` followed by `tail` (CRLF, or CRLF
/// twice) is the encoding of `text` followed by the bytes of `tail`.
proof fn lemma_header_line(full: Seq<char>, text: Seq<char>, tail: Seq<char>, tail_bytes: Seq<u8>)
    requires
        full == text + tail,
        encode_utf8(tail) == tail_bytes,
    ensures
        encode_utf8(full) == encode_utf8(text) + tail_bytes,
{
    lemma_encode_concat(text, tail);
}

proof fn lemma_fixed_bytes()
    ensures
        encode_utf8("--"@) == dashes(),
        encode_utf8("\r\n"@) == crlf(),
        encode_utf8("--\r\n"@) == dashes() + crlf(),
{
    reveal_strlit("--");
    reveal_strlit("\r\n");
    reveal_strlit("--\r\n");
    vstd::utf8::is_ascii_chars_encode_utf8("--"@);
    vstd::utf8::is_ascii_chars_encode_utf8("\r\n"@);
    vstd::utf8::is_ascii_chars_encode_utf8("--\r\n"@);
    assert(encode_utf8("--"@) =~= dashes());
    assert(encode_utf8("\r\n"@) =~= crlf());
    assert(encode_utf8("--\r\n"@) =~= dashes() + crlf());
}

/// The two header lines of a part, each encoded, with CR nowhere but in the
/// line ends, read back as `headers`.
pub open spec fn header_lines_ok(l1: Seq<char>, l2: Seq<char>, t1: Seq<char>, t2: Seq<char>, headers: Seq<char>) -> bool {
    &&& encode_utf8(l1) == encode_utf8(t1) + crlf()
    &&& encode_utf8(l2) == encode_utf8(t2) + crlfcrlf()
    &&& forall|k: int| 0 <= k < encode_utf8(t1).len() ==> #[trigger] encode_utf8(t1)[k] != 13u8
    &&& forall|k: int| 0 <= k < encode_utf8(t2).len() ==> #[trigger] encode_utf8(t2)[k] != 13u8
    &&& encode_utf8(t2).len() > 0
    &&& header_text(encode_utf8(t1) + crlf() + encode_utf8(t2)) == headers
}

proof fn lemma_header_lines(l1: Seq<char>, l2: Seq<char>, t1: Seq<char>, t2: Seq<char>, headers: Seq<char>)
    requires
        l1 == t1 + "\r\n"@,
        l2 == t2 + "\r\n\r\n"@,
        headers == t1 + "\r\n"@ + t2,
        forall|i: int| 0 <= i < t1.len() ==> #[trigger] t1[i] != '\r',
        forall|i: int| 0 <= i < t2.len() ==> #[trigger] t2[i] != '\r',
        t2.len() > 0,
    ensures
        header_lines_ok(l1, l2, t1, t2, headers),
{
    reveal_strlit("\r\n");
    reveal_strlit("\r\n\r\n");
    vstd::utf8::is_ascii_chars_encode_utf8("\r\n"@);
    vstd::utf8::is_ascii_chars_encode_utf8("\r\n\r\n"@);
    assert(encode_utf8("\r\n"@) =~= crlf());
    assert(encode_utf8("\r\n\r\n"@) =~= crlfcrlf());
    lemma_header_line(l1, t1, "\r\n"@, crlf());
    lemma_header_line(l2, t2, "\r\n\r\n"@, crlfcrlf());
    lemma_no_cr_encoding(t1);
    lemma_no_cr_encoding(t2);
    assert(encode_utf8(t2).len() > 0) by {
        assert(encode_utf8(t2) == vstd::utf8::encode_scalar(t2[0] as u32) + encode_utf8(
            t2.drop_first(),
        ));
    }
    lemma_encode_concat(t1, "\r\n"@);
    lemma_encode_concat(t1 + "\r\n"@, t2);
    vstd::utf8::encode_utf8_valid_utf8(headers);
    vstd::utf8::encode_utf8_decode_utf8(headers);
}

proof fn lemma_metadata_lines()
    ensures
        header_lines_ok(
            "Content-Disposition: form-data; name=\"metadata\"\r\n"@,
            "Content-Type: application/json; charset=UTF-8\r\n\r\n"@,
            "Content-Disposition: form-data; name=\"metadata\""@,
            "Content-Type: application/json; charset=UTF-8"@,
            metadata_part_headers(),
        ),
{
    reveal_strlit("\r\n");
    reveal_strlit("\r\n\r\n");
    reveal_strlit("Content-Disposition: form-data; name=\"metadata\"\r\n");
    reveal_strlit("Content-Disposition: form-data; name=\"metadata\"");
    reveal_strlit("Content-Type: application/json; charset=UTF-8\r\n\r\n");
    reveal_strlit("Content-Type: application/json; charset=UTF-8");
    reveal_strlit(
        "Content-Disposition: form-data; name=\"metadata\"\r\nContent-Type: application/json; charset=UTF-8",
    );
    let t1 = "Content-Disposition: form-data; name=\"metadata\""@;
    let t2 = "Content-Type: application/json; charset=UTF-8"@;
    assert("Content-Disposition: form-data; name=\"metadata\"\r\n"@ =~= t1 + "\r\n"@);
    assert("Content-Type: application/json; charset=UTF-8\r\n\r\n"@ =~= t2 + "\r\n\r\n"@);
    assert(metadata_part_headers() =~= t1 + "\r\n"@ + t2);
    assert(forall|i: int| 0 <= i < t1.len() ==> #[trigger] t1[i] != '\r');
    assert(forall|i: int| 0 <= i < t2.len() ==> #[trigger] t2[i] != '\r');
    lemma_header_lines(
        "Content-Disposition: form-data; name=\"metadata\"\r\n"@,
        "Content-Type: application/json; charset=UTF-8\r\n\r\n"@,
        t1,
        t2,
        metadata_part_headers(),
    );
}

proof fn lemma_audio_lines()
    ensures
        header_lines_ok(
            "Content-Disposition: form-data; name=\"audio\"\r\n"@,
            "Content-Type: application/octet-stream\r\n\r\n"@,
            "Content-Disposition: form-data; name=\"audio\""@,
            "Content-Type: application/octet-stream"@,
            audio_part_headers(),
        ),
{
    reveal_strlit("\r\n");
    reveal_strlit("\r\n\r\n");
    reveal_strlit("Content-Disposition: form-data; name=\"audio\"\r\n");
    reveal_strlit("Content-Disposition: form-data; name=\"audio\"");
    reveal_strlit("Content-Type: application/octet-stream\r\n\r\n");
    reveal_strlit("Content-Type: application/octet-stream");
    reveal_strlit(
        "Content-Disposition: form-data; name=\"audio\"\r\nContent-Type: application/octet-stream",
    );
    let t1 = "Content-Disposition: form-data; name=\"audio\""@;
    let t2 = "Content-Type: application/octet-stream"@;
    assert("Content-Disposition: form-data; name=\"audio\"\r\n"@ =~= t1 + "\r\n"@);
    assert("Content-Type: application/octet-stream\r\n\r\n"@ =~= t2 + "\r\n\r\n"@);
    assert(audio_part_headers() =~= t1 + "\r\n"@ + t2);
    assert(forall|i: int| 0 <= i < t1.len() ==> #[trigger] t1[i] != '\r');
    assert(forall|i: int| 0 <= i < t2.len() ==> #[trigger] t2[i] != '\r');
    lemma_header_lines(
        "Content-Disposition: form-data; name=\"audio\"\r\n"@,
        "Content-Type: application/octet-stream\r\n\r\n"@,
        t1,
        t2,
        audio_part_headers(),
    );
}

proof fn lemma_delimiter_bytes(b: Seq<char>)
    requires
        plain_boundary(b),
    ensures
        encode_utf8("--"@ + b) == dashes() + encode_utf8(b),
        forall|k: int|
            0 <= k < encode_utf8("--"@ + b).len() ==> #[trigger] encode_utf8("--"@ + b)[k]
                != 13u8,
        encode_utf8("--"@ + b)[0] == 45u8,
        encode_utf8("--"@ + b).len() >= 2,
{
    lemma_fixed_bytes();
    lemma_encode_concat("--"@, b);
    let d = encode_utf8("--"@ + b);
    let eb = encode_utf8(b);
    assert forall|i: int| 0 <= i < b.len() implies #[trigger] b[i] != '\r' by {
        assert(!is_ws(b[i]));
    }
    lemma_no_cr_encoding(b);
    assert forall|k: int| 0 <= k < d.len() implies #[trigger] d[k] != 13u8 by {
        if k >= 2 {
            assert(d[k] == eb[k - 2]);
        }
    }
}

/// The bytes of a Recognize body, laid out as the delimiter, the two parts
/// and the closing `--` CRLF.
#[verifier::rlimit(50)]
#[verifier::spinoff_prover]
proof fn lemma_body_layout(ev: Seq<char>, pcm: Seq<u8>, b: Seq<char>)
    requires
        plain_boundary(b),
    ensures
        recognize_multipart_bytes(ev, pcm, b) == encode_utf8("--"@ + b) + part_bytes(
            encode_utf8("Content-Disposition: form-data; name=\"metadata\""@),
            encode_utf8("Content-Type: application/json; charset=UTF-8"@),
            encode_utf8(ev),
            encode_utf8("--"@ + b),
        ) + part_bytes(
            encode_utf8("Content-Disposition: form-data; name=\"audio\""@),
            encode_utf8("Content-Type: application/octet-stream"@),
            pcm,
            encode_utf8("--"@ + b),
        ) + (dashes() + crlf()),
{
    lemma_fixed_bytes();
    lemma_metadata_lines();
    lemma_audio_lines();
    lemma_delimiter_bytes(b);
    let d = encode_utf8("--"@ + b);
    let eb_ = encode_utf8(b);
    let ma = encode_utf8("Content-Disposition: form-data; name=\"metadata\""@);
    let mb = encode_utf8("Content-Type: application/json; charset=UTF-8"@);
    let aa = encode_utf8("Content-Disposition: form-data; name=\"audio\""@);
    let ab = encode_utf8("Content-Type: application/octet-stream"@);
    let ee = encode_utf8(ev);
    let body = recognize_multipart_bytes(ev, pcm, b);
    let x1 = dashes() + eb_ + crlf() + (ma + crlf()) + (mb + crlfcrlf()) + ee + crlf();
    let x2 = dashes() + eb_ + crlf() + (aa + crlf()) + (ab + crlfcrlf()) + pcm + crlf();
    let x3 = dashes() + eb_ + (dashes() + crlf());
    assert(body == x1 + x2 + x3);
    assert(body =~= d + part_bytes(ma, mb, ee, d) + part_bytes(aa, ab, pcm, d) + (dashes()
        + crlf()));
}

/// A body made of a delimiter, two well-formed parts and the closing `--`
/// reads as those two parts.
#[verifier::spinoff_prover]
proof fn lemma_two_parts(
    body: Seq<u8>,
    d: Seq<u8>,
    ea: Seq<u8>,
    eb: Seq<u8>,
    c0: Seq<u8>,
    fa: Seq<u8>,
    fb: Seq<u8>,
    c1: Seq<u8>,
)
    requires
        body == d + part_bytes(ea, eb, c0, d) + part_bytes(fa, fb, c1, d) + (dashes() + crlf()),
        forall|k: int| 0 <= k < ea.len() ==> #[trigger] ea[k] != 13u8,
        forall|k: int| 0 <= k < eb.len() ==> #[trigger] eb[k] != 13u8,
        forall|k: int| 0 <= k < fa.len() ==> #[trigger] fa[k] != 13u8,
        forall|k: int| 0 <= k < fb.len() ==> #[trigger] fb[k] != 13u8,
        eb.len() > 0,
        fb.len() > 0,
        d.len() >= 1,
        forall|k: int| 0 <= k < d.len() ==> #[trigger] d[k] != 13u8,
        d[0] != 10u8,
        !contains(c0, d),
        !contains(c1, d),
    ensures
        find_from(body, d, 0) == Some(0int),
        parts_from(body, d, d.len() as int) == PartsOutcome::Parsed(
            seq![
                PartView { headers: block_headers(header_text(ea + crlf() + eb)), body: c0 },
                PartView { headers: block_headers(header_text(fa + crlf() + fb)), body: c1 },
            ],
        ),
{
    let pb0 = part_bytes(ea, eb, c0, d);
    let pb1 = part_bytes(fa, fb, c1, d);
    assert(body.subrange(0, d.len() as int) =~= d);
    lemma_find_first(body, d, 0, 0);
    let s0 = d.len() as int;
    assert(body.subrange(s0, s0 + pb0.len()) =~= pb0);
    lemma_one_part(body, d, s0, ea, eb, c0);
    let s1 = s0 + pb0.len();
    assert(body.subrange(s1, s1 + pb1.len()) =~= pb1);
    lemma_one_part(body, d, s1, fa, fb, c1);
    let s2 = s1 + pb1.len();
    let rest = body.subrange(s2, body.len() as int);
    assert(rest.subrange(0, 2) =~= dashes());
    assert(starts_with(rest, dashes()));
    assert(parts_from(body, d, s2) == PartsOutcome::Parsed(seq![]));
    let p0 = PartView { headers: block_headers(header_text(ea + crlf() + eb)), body: c0 };
    let p1 = PartView { headers: block_headers(header_text(fa + crlf() + fb)), body: c1 };
    assert(seq![p0] + (seq![p1] + seq![]) =~= seq![p0, p1]);
}

/// A Recognize body reads back: parsing what `build_recognize_multipart`
/// builds, under the content type that names its boundary, gives its two
/// parts, the `metadata` part holding the event's bytes and the `audio` part
/// holding the audio, each with the headers it was written with. This holds
/// where the boundary is plain (not empty; no white space, `"` or `;`) and
/// its delimiter `--<boundary>` occurs in neither the event nor the audio;
/// `parse_multipart_related` then returns these parts.
#[verifier::spinoff_prover]
pub proof fn lemma_recognize_body_reads_back(ev: Seq<char>, pcm: Seq<u8>, b: Seq<char>)
    requires
        plain_boundary(b),
        !contains(encode_utf8(ev), encode_utf8("--"@ + b)),
        !contains(pcm, encode_utf8("--"@ + b)),
    ensures
        multipart_outcome(
            "multipart/form-data; boundary="@ + b,
            recognize_multipart_bytes(ev, pcm, b),
        ) == Some(
            PartsOutcome::Parsed(
                seq![
                    PartView {
                        headers: seq![
                            ("Content-Disposition"@, "form-data; name=\"metadata\""@),
                            ("Content-Type"@, "application/json; charset=UTF-8"@),
                        ],
                        body: encode_utf8(ev),
                    },
                    PartView {
                        headers: seq![
                            ("Content-Disposition"@, "form-data; name=\"audio\""@),
                            ("Content-Type"@, "application/octet-stream"@),
                        ],
                        body: pcm,
                    },
                ],
            ),
        ),
{
    lemma_recognize_part_headers();
    lemma_metadata_lines();
    lemma_audio_lines();
    lemma_delimiter_bytes(b);
    lemma_body_layout(ev, pcm, b);
    lemma_boundary_of_form_data(b);
    let d = encode_utf8("--"@ + b);
    lemma_two_parts(
        recognize_multipart_bytes(ev, pcm, b),
        d,
        encode_utf8("Content-Disposition: form-data; name=\"metadata\""@),
        encode_utf8("Content-Type: application/json; charset=UTF-8"@),
        encode_utf8(ev),
        encode_utf8("Content-Disposition: form-data; name=\"audio\""@),
        encode_utf8("Content-Type: application/octet-stream"@),
        pcm,
    );
}

proof fn lemma_trim_plain(t: Seq<char>)
    requires
        t.len() > 0,
        !is_ws(t[0]),
        !is_ws(t.last()),
    ensures
        trim(t) == t,
{
    assert(trim_start(t) == t);
    assert(trim_end(t) == t);
}

/// A header line `<name>: <value>` reads as the one header `(name, value)`.
proof fn lemma_line_pair(name: Seq<char>, value: Seq<char>)
    requires
        name.len() > 0,
        value.len() > 0,
        forall|i: int| 0 <= i < name.len() ==> #[trigger] name[i] != ':',
        !is_ws(name[0]),
        !is_ws(name.last()),
        !is_ws(value[0]),
        !is_ws(value.last()),
    ensures
        line_header(name + ": "@ + value) == seq![(name, value)],
{
    reveal_strlit(": ");
    let line = name + ": "@ + value;
    let k = name.len() as int;
    assert(line[k] == ':');
    assert(line.subrange(k, k + 1) =~= seq![':']);
    assert forall|j: int| 0 <= j < k implies !occurs_at(line, seq![':'], j) by {
        if occurs_at(line, seq![':'], j) {
            assert(line.subrange(j, j + 1)[0] == line[j]);
            assert(line[j] == name[j]);
        }
    }
    lemma_find_first(line, seq![':'], 0, k);
    assert(line.subrange(0, k) =~= name);
    lemma_trim_plain(name);
    let after = line.subrange(k + 1, line.len() as int);
    assert(after =~= seq![' '] + value);
    assert(is_ws(after[0]));
    assert(after.drop_first() =~= value);
    assert(trim_start(after) == trim_start(value));
    lemma_trim_plain(value);
    assert(trim_start(value) == value);
    assert(trim(after) == trim_end(value));
}

/// Two header lines joined by CRLF read as the headers of each line.
proof fn lemma_block_two_lines(t1: Seq<char>, t2: Seq<char>)
    requires
        forall|i: int| 0 <= i < t1.len() ==> #[trigger] t1[i] != '\r',
        forall|i: int| 0 <= i < t2.len() ==> #[trigger] t2[i] != '\r',
    ensures
        block_headers(t1 + "\r\n"@ + t2) == line_header(t1) + line_header(t2),
{
    reveal_strlit("\r\n");
    let crlf_c = seq!['\r', '\n'];
    let block = t1 + "\r\n"@ + t2;
    let k = t1.len() as int;
    assert(block.subrange(k, k + 2) =~= crlf_c);
    assert forall|j: int| 0 <= j < k implies !occurs_at(block, crlf_c, j) by {
        if occurs_at(block, crlf_c, j) {
            assert(block.subrange(j, j + 2)[0] == block[j]);
            assert(block[j] == t1[j]);
        }
    }
    lemma_find_first(block, crlf_c, 0, k);
    assert(block.subrange(0, k) =~= t1);
    assert(block.subrange(k + 2, block.len() as int) =~= t2);
    lemma_find_from_props(t2, crlf_c, 0);
    if find_from(t2, crlf_c, 0) is Some {
        let i = find_from(t2, crlf_c, 0)->0;
        assert(t2.subrange(i, i + 2)[0] == t2[i]);
    }
    assert(find_from(t2, crlf_c, 0) is None);
    assert(block_headers(t2) == line_header(t2));
    assert(find_from(block, crlf_c, 0) == Some(k));
    assert(k + 2 <= block.len());
    assert(block_headers(block) == line_header(block.subrange(0, k)) + block_headers(
        block.subrange(k + 2, block.len() as int),
    ));
}

/// The headers of the two parts of a Recognize body, as name and value.
pub proof fn lemma_recognize_part_headers()
    ensures
        block_headers(metadata_part_headers()) == seq![
            ("Content-Disposition"@, "form-data; name=\"metadata\""@),
            ("Content-Type"@, "application/json; charset=UTF-8"@),
        ],
        block_headers(audio_part_headers()) == seq![
            ("Content-Disposition"@, "form-data; name=\"audio\""@),
            ("Content-Type"@, "application/octet-stream"@),
        ],
{
    reveal_strlit("\r\n");
    reveal_strlit(": ");
    reveal_strlit("Content-Disposition");
    reveal_strlit("Content-Type");
    reveal_strlit("form-data; name=\"metadata\"");
    reveal_strlit("form-data; name=\"audio\"");
    reveal_strlit("application/json; charset=UTF-8");
    reveal_strlit("application/octet-stream");
    reveal_strlit(
        "Content-Disposition: form-data; name=\"metadata\"\r\nContent-Type: application/json; charset=UTF-8",
    );
    reveal_strlit(
        "Content-Disposition: form-data; name=\"audio\"\r\nContent-Type: application/octet-stream",
    );
    let cd = "Content-Disposition"@;
    let ct = "Content-Type"@;
    let vm = "form-data; name=\"metadata\""@;
    let va = "form-data; name=\"audio\""@;
    let vj = "application/json; charset=UTF-8"@;
    let vo = "application/octet-stream"@;
    assert(forall|i: int| 0 <= i < cd.len() ==> #[trigger] cd[i] != ':' && cd[i] != '\r');
    assert(forall|i: int| 0 <= i < ct.len() ==> #[trigger] ct[i] != ':' && ct[i] != '\r');
    assert(forall|i: int| 0 <= i < vm.len() ==> #[trigger] vm[i] != '\r');
    assert(forall|i: int| 0 <= i < va.len() ==> #[trigger] va[i] != '\r');
    assert(forall|i: int| 0 <= i < vj.len() ==> #[trigger] vj[i] != '\r');
    assert(forall|i: int| 0 <= i < vo.len() ==> #[trigger] vo[i] != '\r');
    lemma_line_pair(cd, vm);
    lemma_line_pair(cd, va);
    lemma_line_pair(ct, vj);
    lemma_line_pair(ct, vo);
    let l1 = cd + ": "@ + vm;
    let l2 = ct + ": "@ + vj;
    let l3 = cd + ": "@ + va;
    let l4 = ct + ": "@ + vo;
    assert(forall|i: int| 0 <= i < l1.len() ==> #[trigger] l1[i] != '\r');
    assert(forall|i: int| 0 <= i < l2.len() ==> #[trigger] l2[i] != '\r');
    assert(forall|i: int| 0 <= i < l3.len() ==> #[trigger] l3[i] != '\r');
    assert(forall|i: int| 0 <= i < l4.len() ==> #[trigger] l4[i] != '\r');
    assert(metadata_part_headers() =~= l1 + "\r\n"@ + l2);
    assert(audio_part_headers() =~= l3 + "\r\n"@ + l4);
    lemma_block_two_lines(l1, l2);
    lemma_block_two_lines(l3, l4);
    assert(seq![(cd, vm)] + seq![(ct, vj)] =~= seq![(cd, vm), (ct, vj)]);
    assert(seq![(cd, va)] + seq![(ct, vo)] =~= seq![(cd, va), (ct, vo)]);
}

/// Every part is searched for the answer's directive: the Content-ID named is
/// that of the first part, wherever it stands, holding a
/// `SpeechSynthesizer.Speak` directive; none where no part holds one.
pub proof fn lemma_first_speak_cid_searches_all(parts: Seq<PartView>, k: int, c: Seq<char>)
    requires
        0 <= k < parts.len(),
        speak_cid_of(parts[k]) == Some(c),
        forall|j: int| 0 <= j < k ==> (#[trigger] speak_cid_of(parts[j])) is None,
    ensures
        first_speak_cid(parts) == Some(c),
    decreases k,
{
    if k > 0 {
        let rest = parts.drop_first();
        assert(speak_cid_of(parts[0]) is None);
        assert forall|j: int| 0 <= j < k - 1 implies (#[trigger] speak_cid_of(rest[j])) is None by {
            assert(rest[j] == parts[j + 1]);
        }
        assert(rest[k - 1] == parts[k]);
        lemma_first_speak_cid_searches_all(rest, k - 1, c);
    }
}

/// Where no part holds a `SpeechSynthesizer.Speak` directive, no Content-ID
/// is named.
pub proof fn lemma_first_speak_cid_none(parts: Seq<PartView>)
    requires
        forall|j: int| 0 <= j < parts.len() ==> (#[trigger] speak_cid_of(parts[j])) is None,
    ensures
        first_speak_cid(parts) is None,
    decreases parts.len(),
{
    if parts.len() > 0 {
        let rest = parts.drop_first();
        assert(speak_cid_of(parts[0]) is None);
        assert forall|j: int| 0 <= j < rest.len() implies (#[trigger] speak_cid_of(rest[j])) is None by {
            assert(rest[j] == parts[j + 1]);
        }
        lemma_first_speak_cid_none(rest);
    }
}

/// Every part is searched for the audio: the attachment with a Content-ID
/// is the content of the first part, wherever it stands, carrying it; none
/// where no part carries it.
pub proof fn lemma_attachment_searches_all(parts: Seq<PartView>, cid: Seq<char>, k: int)
    requires
        0 <= k < parts.len(),
        has_content_id(parts[k], cid),
        forall|j: int| 0 <= j < k ==> !#[trigger] has_content_id(parts[j], cid),
    ensures
        attachment(parts, cid) == Some(parts[k].body),
    decreases k,
{
    if k > 0 {
        let rest = parts.drop_first();
        assert(!has_content_id(parts[0], cid));
        assert forall|j: int| 0 <= j < k - 1 implies !#[trigger] has_content_id(rest[j], cid) by {
            assert(rest[j] == parts[j + 1]);
        }
        assert(rest[k - 1] == parts[k]);
        lemma_attachment_searches_all(rest, cid, k - 1);
    }
}

/// The spoken answer of a response: where part `k` is the first to hold a
/// `SpeechSynthesizer.Speak` directive naming `cid:<c>` and part `m` is the
/// first to carry Content-ID `c`, `extract_speak_audio` answers part `m`'s
/// content, wherever `k` and `m` stand.
pub proof fn lemma_speak_audio_found(
    parts: Seq<PartView>,
    k: int,
    c: Seq<char>,
    m: int,
    r: Result<Vec<u8>, AvsError>,
)
    requires
        0 <= k < parts.len(),
        speak_cid_of(parts[k]) == Some(c),
        forall|j: int| 0 <= j < k ==> (#[trigger] speak_cid_of(parts[j])) is None,
        0 <= m < parts.len(),
        has_content_id(parts[m], c),
        forall|j: int| 0 <= j < m ==> !#[trigger] has_content_id(parts[j], c),
        speak_audio_matches(r, parts),
    ensures
        r matches Ok(a) && a@ == parts[m].body,
{
    lemma_first_speak_cid_searches_all(parts, k, c);
    lemma_attachment_searches_all(parts, c, m);
}

} // verus!
