//! Decisions around the HTTP commands: request methods, the audio upload
//! for transcription, and how responses are turned into results.
use vstd::prelude::*;
use base64::Engine;
use crate::text::{
    chars_of, concat2, concat3, decimal, from_utf8_lossy, is_lit, push_str, string_of, take_chars,
    take_prefix, trim, trim_str, u64_text, utf8_lossy,
};
use vstd::utf8::encode_utf8;

verus! {

// ───────────────────────── base64 ─────────────────────────

/// The decoding error of the base64 crate.
#[verifier::external_type_specification]
#[verifier::external_body]
pub struct ExDecodeError(base64::DecodeError);

/// What standard (padded) base64 decoding gives for these bytes: `None` when
/// they are not valid base64.
pub uninterp spec fn b64_decoded(input: Seq<u8>) -> Option<Seq<u8>>;

/// What standard (padded) base64 encoding gives for these bytes.
pub uninterp spec fn b64_encoded(input: Seq<u8>) -> Seq<char>;

/// `base64::engine::general_purpose::STANDARD.decode`.
///
/// Claimed: `Ok` exactly when the named decoding of the input exists, and then
/// it is the decoded bytes.
#[verifier::external_body]
fn b64_decode(input: &[u8]) -> (r: Result<Vec<u8>, base64::DecodeError>)
    ensures
        match r {
            Ok(v) => b64_decoded(input@) == Some(v@),
            Err(_) => b64_decoded(input@) is None,
        },
{
    base64::engine::general_purpose::STANDARD.decode(input)
}

/// The `Display` text of a base64 decoding error (its content is not stated).
#[verifier::external_body]
fn decode_error_text(e: &base64::DecodeError) -> String {
    e.to_string()
}

/// `base64::engine::general_purpose::STANDARD.encode`.
///
/// Claimed: the result is the named encoding of the input, and decoding it
/// with the same engine gives the input back. (The crate panics when the
/// encoded length overflows `usize`; `requires` leaves that out.)
#[verifier::external_body]
fn b64_encode(input: &[u8]) -> (r: String)
    requires
        (input@.len() / 3) * 4 + 4 <= usize::MAX,
    ensures
        r@ == b64_encoded(input@),
        b64_decoded(encode_utf8(r@)) == Some(input@),
{
    base64::engine::general_purpose::STANDARD.encode(input)
}

/// Bytes whose base64 text can be built (its length fits in memory).
pub open spec fn encodable(b: Seq<u8>) -> bool {
    (b.len() / 3) * 4 + 4 <= usize::MAX
}

// ───────────────────────── statuses and methods ─────────────────────────

/// A success status (200..=299).
pub open spec fn is_success_status(status: u16) -> bool {
    200 <= status && status <= 299
}

/// Whether an HTTP status code means success.
pub fn is_success(status: u16) -> (r: bool)
    ensures
        r == is_success_status(status),
{
    200 <= status && status <= 299
}

/// The HTTP methods the commands use.
#[derive(PartialEq, Eq, Structural, Clone, Copy, Debug)]
pub enum HttpMethod {
    Get,
    Post,
    Put,
    Delete,
    Patch,
}

/// The method a proxied request asks for (`GET` when absent or unknown).
pub open spec fn proxy_method_of(m: Option<Seq<char>>) -> HttpMethod {
    match m {
        Some(s) => if s == "POST"@ {
            HttpMethod::Post
        } else if s == "PUT"@ {
            HttpMethod::Put
        } else if s == "DELETE"@ {
            HttpMethod::Delete
        } else if s == "PATCH"@ {
            HttpMethod::Patch
        } else {
            HttpMethod::Get
        },
        None => HttpMethod::Get,
    }
}

/// The method of a byte fetch (`POST`, `PUT`, otherwise `GET`).
pub open spec fn fetch_method_of(m: Option<Seq<char>>) -> HttpMethod {
    match m {
        Some(s) => if s == "POST"@ {
            HttpMethod::Post
        } else if s == "PUT"@ {
            HttpMethod::Put
        } else {
            HttpMethod::Get
        },
        None => HttpMethod::Get,
    }
}

/// The view of an optional string slice.
pub open spec fn opt_view(m: Option<&str>) -> Option<Seq<char>> {
    match m {
        Some(s) => Some(s@),
        None => None,
    }
}

/// The method for the generic HTTP proxy.
pub fn proxy_method(m: Option<&str>) -> (r: HttpMethod)
    ensures
        r == proxy_method_of(opt_view(m)),
{
    match m {
        Some(s) => {
            let v = chars_of(s);
            if is_lit(&v, "POST") {
                HttpMethod::Post
            } else if is_lit(&v, "PUT") {
                HttpMethod::Put
            } else if is_lit(&v, "DELETE") {
                HttpMethod::Delete
            } else if is_lit(&v, "PATCH") {
                HttpMethod::Patch
            } else {
                HttpMethod::Get
            }
        },
        None => HttpMethod::Get,
    }
}

/// The method for a byte fetch.
pub fn fetch_method(m: Option<&str>) -> (r: HttpMethod)
    ensures
        r == fetch_method_of(opt_view(m)),
{
    match m {
        Some(s) => {
            let v = chars_of(s);
            if is_lit(&v, "POST") {
                HttpMethod::Post
            } else if is_lit(&v, "PUT") {
                HttpMethod::Put
            } else {
                HttpMethod::Get
            }
        },
        None => HttpMethod::Get,
    }
}

/// The response headers that have a text value, in order.
pub open spec fn text_headers_of(pairs: Seq<(String, Option<String>)>) -> Seq<(Seq<char>, Seq<char>)>
    decreases pairs.len(),
{
    if pairs.len() == 0 {
        Seq::empty()
    } else {
        let rest = text_headers_of(pairs.drop_last());
        match pairs.last().1 {
            Some(v) => rest.push((pairs.last().0@, v@)),
            None => rest,
        }
    }
}

/// Keep the response headers whose value is text (`None` marks one that is not).
pub fn text_headers(pairs: Vec<(String, Option<String>)>) -> (r: Vec<(String, String)>)
    ensures
        r@.map_values(|p: (String, String)| (p.0@, p.1@)) == text_headers_of(pairs@),
{
    let mut out: Vec<(String, String)> = Vec::new();
    let mut i: usize = 0;
    while i < pairs.len()
        invariant
            i <= pairs@.len(),
            out@.map_values(|p: (String, String)| (p.0@, p.1@)) == text_headers_of(pairs@.subrange(0, i as int)),
        decreases pairs@.len() - i,
    {
        proof {
            assert(pairs@.subrange(0, i + 1).drop_last() =~= pairs@.subrange(0, i as int));
        }
        match &pairs[i].1 {
            Some(v) => {
                let ghost before = out@;
                out.push((pairs[i].0.clone(), v.clone()));
                proof {
                    assert(out@.map_values(|p: (String, String)| (p.0@, p.1@)) =~= before.map_values(|p: (String, String)| (p.0@, p.1@)).push((pairs@[i as int].0@, v@)));
                }
            },
            None => {},
        }
        i = i + 1;
    }
    proof {
        assert(pairs@.subrange(0, pairs@.len() as int) =~= pairs@);
    }
    out
}

// ───────────────────────── transcription upload ─────────────────────────

/// What gets uploaded for a transcription.
pub struct GroqUpload {
    pub audio: Vec<u8>,
    pub model: String,
    pub filename: String,
    pub authorization: String,
}

/// The model used when none is given.
pub open spec fn default_model() -> Seq<char> {
    "whisper-large-v3-turbo"@
}

/// The file name used when none is given.
pub open spec fn default_filename() -> Seq<char> {
    "recording.wav"@
}

/// Prepare an audio upload: decode the (trimmed) base64 audio, default the
/// model and file name, and build the bearer authorization.
pub fn groq_upload(audio_b64: &str, api_key: &str, model: Option<String>, filename: Option<String>) -> (r: Result<GroqUpload, String>)
    ensures
        b64_decoded(encode_utf8(trim(audio_b64@))) is None <==> r is Err,
        r matches Err(e) ==> e@.len() >= "bad audio encoding: "@.len()
            && e@.subrange(0, "bad audio encoding: "@.len() as int) == "bad audio encoding: "@,
        r matches Ok(u) ==> {
            &&& b64_decoded(encode_utf8(trim(audio_b64@))) == Some(u.audio@)
            &&& u.model@ == (match model { Some(m) => m@, None => default_model() })
            &&& u.filename@ == (match filename { Some(f) => f@, None => default_filename() })
            &&& u.authorization@ == "Bearer "@ + api_key@
        },
{
    let t = trim_str(audio_b64);
    match b64_decode(t.as_str().as_bytes()) {
        Err(e) => {
            let text = decode_error_text(&e);
            let m = concat2("bad audio encoding: ", text.as_str());
            proof {
                assert(m@.subrange(0, "bad audio encoding: "@.len() as int) =~= "bad audio encoding: "@);
            }
            Err(m)
        },
        Ok(audio) => {
            let model = match model {
                Some(m) => m,
                None => string_of(chars_of("whisper-large-v3-turbo").as_slice()),
            };
            let filename = match filename {
                Some(f) => f,
                None => string_of(chars_of("recording.wav").as_slice()),
            };
            let authorization = concat2("Bearer ", api_key);
            Ok(GroqUpload { audio, model, filename, authorization })
        },
    }
}

/// The outcome of a transcription request: the raw JSON body on success.
pub fn groq_result(status: u16, body: String) -> (r: Result<String, String>)
    ensures
        is_success_status(status) ==> r == Ok::<String, String>(body),
        !is_success_status(status) ==> (r matches Err(e) && e@ == "groq http "@ + decimal(status as nat)
            + ": "@ + body@),
{
    if is_success(status) {
        Ok(body)
    } else {
        let s = u64_text(status as u64);
        let mut m = chars_of("groq http ");
        push_str(&mut m, s.as_str());
        push_str(&mut m, ": ");
        push_str(&mut m, body.as_str());
        Err(string_of(m.as_slice()))
    }
}

// ───────────────────────── speech audio and byte fetches ─────────────────────────

/// Whether a speech-audio response may be read.
pub fn tts_status(status: u16) -> (r: Result<(), String>)
    ensures
        is_success_status(status) <==> r is Ok,
        r matches Err(e) ==> e@ == "tts http "@ + decimal(status as nat),
{
    if is_success(status) {
        Ok(())
    } else {
        let s = u64_text(status as u64);
        Err(concat2("tts http ", s.as_str()))
    }
}

/// Speech audio as base64 text.
pub fn tts_body(bytes: &[u8]) -> (r: String)
    requires
        encodable(bytes@),
    ensures
        r@ == b64_encoded(bytes@),
        b64_decoded(encode_utf8(r@)) == Some(bytes@),
{
    b64_encode(bytes)
}

/// The content type of a fetched body (`application/octet-stream` when the
/// response gives none as text).
pub fn content_type_or_default(ct: Option<String>) -> (r: String)
    ensures
        r@ == (match ct { Some(c) => c@, None => "application/octet-stream"@ }),
{
    match ct {
        Some(c) => c,
        None => string_of(chars_of("application/octet-stream").as_slice()),
    }
}

/// The outcome of a byte fetch: `content-type\n<base64>` on success, the
/// status and the first 200 characters of the body otherwise.
pub open spec fn fetch_outcome(status: u16, ct: Seq<char>, body: Seq<u8>) -> Result<Seq<char>, Seq<char>> {
    if is_success_status(status) {
        Ok(ct + "\n"@ + b64_encoded(body))
    } else {
        Err("http "@ + decimal(status as nat) + ": "@ + take_chars(utf8_lossy(body), 200))
    }
}

/// Turn a fetched response into the command's result.
pub fn fetch_result(status: u16, ct: &str, body: &[u8]) -> (r: Result<String, String>)
    requires
        encodable(body@),
    ensures
        match r {
            Ok(s) => fetch_outcome(status, ct@, body@) == Ok::<Seq<char>, Seq<char>>(s@),
            Err(e) => fetch_outcome(status, ct@, body@) == Err::<Seq<char>, Seq<char>>(e@),
        },
{
    if !is_success(status) {
        let txt = from_utf8_lossy(body);
        let head = take_prefix(txt.as_str(), 200);
        let s = u64_text(status as u64);
        let mut m = chars_of("http ");
        push_str(&mut m, s.as_str());
        push_str(&mut m, ": ");
        push_str(&mut m, head.as_str());
        return Err(string_of(m.as_slice()));
    }
    let enc = b64_encode(body);
    Ok(concat3(ct, "\n", enc.as_str()))
}

} // verus!
