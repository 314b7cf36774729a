//! Speech recognition: its errors, the length gate every cloud engine
//! applies before uploading audio, and the mock engine used in tests.
use vstd::prelude::*;
use crate::encoding::{data_url, spec_base64};
use crate::text::{
    chars_of, concat, decimal, push_decimal, skip_ws_backward, skip_ws_forward, string_from_range,
    string_of, trim,
};

verus! {

/// Failures of a speech recognition engine.
#[derive(Debug)]
pub enum AsrError {
    Internal(String),
    ModelNotFound(String),
    /// The clip's length in milliseconds.
    AudioTooShort(u32),
}

/// The message of each error.
pub open spec fn asr_error_text(e: AsrError) -> Seq<char> {
    match e {
        AsrError::Internal(m) => "ASR internal error: "@ + m@,
        AsrError::ModelNotFound(m) => "model not found: "@ + m@,
        AsrError::AudioTooShort(ms) => "audio too short: "@ + decimal(ms as nat) + "ms < minimum"@,
    }
}

impl AsrError {
    /// The error's message.
    pub fn message(&self) -> (s: String)
        ensures
            s@ == asr_error_text(*self),
    {
        match self {
            AsrError::Internal(m) => concat("ASR internal error: ", m.as_str()),
            AsrError::ModelNotFound(m) => concat("model not found: ", m.as_str()),
            AsrError::AudioTooShort(ms) => {
                let mut s = string_of("audio too short: ");
                push_decimal(&mut s, *ms as u64);
                s.append("ms < minimum");
                s
            },
        }
    }
}

/// Sample rate of captured audio (16 kHz mono).
pub const SAMPLE_RATE: u32 = 16000;

/// The fewest samples an engine accepts: a tenth of a second.
pub const MIN_SAMPLES: usize = 1600;

/// Refuses clips shorter than a tenth of a second, reporting their length
/// in whole milliseconds.
pub fn check_audio_length(n: usize) -> (r: Result<(), AsrError>)
    ensures
        n >= 1600 ==> r is Ok,
        n < 1600 ==> (r matches Err(AsrError::AudioTooShort(ms)) && ms == n * 1000 / 16000),
{
    if n < MIN_SAMPLES {
        let ms: u32 = (n as u32) * 1000 / SAMPLE_RATE;
        Err(AsrError::AudioTooShort(ms))
    } else {
        Ok(())
    }
}

/// Mock ASR engine for testing: always answers the same text.
pub struct MockAsr {
    response: String,
}

impl MockAsr {
    /// The text every transcription returns.
    pub closed spec fn spec_response(&self) -> Seq<char> {
        self.response@
    }

    /// A mock that answers `response`.
    pub fn new(response: &str) -> (m: Self)
        ensures
            m.spec_response() == response@,
    {
        MockAsr { response: string_of(response) }
    }

    /// Transcribes a clip: the fixed answer, whatever the audio.
    pub fn transcribe(&self, _sample_count: usize) -> (r: Result<String, AsrError>)
        ensures
            r matches Ok(t) && t@ == self.spec_response(),
    {
        Ok(self.response.clone())
    }

    /// Switching the model of the mock always succeeds and changes nothing.
    pub fn switch_model(&mut self, _model: &str) -> (r: Result<(), AsrError>)
        ensures
            r is Ok,
            final(self).spec_response() == old(self).spec_response(),
    {
        Ok(())
    }
}

/// A WAV clip as a `data:` URL, the form the Xiaomi endpoint takes audio in.
pub fn wav_data_url(wav: &[u8]) -> (s: String)
    ensures
        s@ == "data:audio/wav;base64,"@ + spec_base64(wav@),
{
    let s = data_url("audio/wav", wav);
    proof {
        reveal_strlit("data:");
        reveal_strlit("audio/wav");
        reveal_strlit(";base64,");
        reveal_strlit("data:audio/wav;base64,");
        assert("data:"@ + "audio/wav"@ + ";base64,"@ =~= "data:audio/wav;base64,"@);
    }
    s
}

/// What `serde_json` reads of a Whisper reply: the string at `text`
/// (`None` when missing or not a string), or the parse error's message.
pub uninterp spec fn json_text_field(body: Seq<char>) -> Result<Option<Seq<char>>, Seq<char>>;

/// What `serde_json` reads of a chat-completion reply body (bytes): the
/// string at `choices[0].message.content` (`Some(None)` when missing or not
/// a string), or `None` when the body is not JSON.
pub uninterp spec fn json_completion_content(body: Seq<u8>) -> Option<Option<Seq<char>>>;

/// The view of a parsed reply field.
pub open spec fn reply_view(r: Result<Option<String>, String>) -> Result<Option<Seq<char>>, Seq<char>> {
    match r {
        Ok(Some(t)) => Ok(Some(t@)),
        Ok(None) => Ok(None),
        Err(m) => Err(m@),
    }
}

/// The view of a parsed completion field.
pub open spec fn content_view(r: Option<Option<String>>) -> Option<Option<Seq<char>>> {
    match r {
        Some(Some(t)) => Some(Some(t@)),
        Some(None) => Some(None),
        None => None,
    }
}

/// Parses a Whisper reply with `serde_json::from_str` and reads `text`;
/// the contract names the result, which depends on the body alone.
#[verifier::external_body]
fn parse_whisper_reply(body: &str) -> (r: Result<Option<String>, String>)
    ensures
        reply_view(r) == json_text_field(body@),
{
    let v: serde_json::Value = serde_json::from_str(body).map_err(|e| e.to_string())?;
    Ok(v["text"].as_str().map(String::from))
}

/// Parses a chat-completion reply body with `serde_json::from_slice` and
/// reads `choices[0].message.content`; the contract names the result, which
/// depends on the body alone.
#[verifier::external_body]
fn parse_completion_reply(body: &[u8]) -> (r: Option<Option<String>>)
    ensures
        content_view(r) == json_completion_content(body@),
{
    let v: serde_json::Value = serde_json::from_slice(body).ok()?;
    Some(v["choices"][0]["message"]["content"].as_str().map(String::from))
}

/// The transcript in a reply field: the text without surrounding
/// whitespace, empty when the field is missing.
pub open spec fn field_transcript(f: Option<Seq<char>>) -> Seq<char> {
    trim(
        match f {
            Some(x) => x,
            None => Seq::<char>::empty(),
        },
    )
}

/// The transcript in a Whisper reply; a reply that is not JSON is an
/// internal error: `json parse: ` followed by the parser's message.
pub open spec fn whisper_reply_transcript(body: Seq<char>) -> Result<Seq<char>, Seq<char>> {
    match json_text_field(body) {
        Ok(f) => Ok(field_transcript(f)),
        Err(m) => Err("json parse: "@ + m),
    }
}

/// The message of the error a reply body that is not JSON gives when it is
/// read with `reqwest`'s `Response::json` (its decode error's text).
pub open spec fn body_decode_error() -> Seq<char> {
    "error decoding response body"@
}

/// The transcript in the Xiaomi endpoint's chat-completion reply; a body
/// that is not JSON is an internal error: `json: ` followed by the text of
/// the HTTP client's decode error.
pub open spec fn completion_reply_transcript(body: Seq<u8>) -> Result<Seq<char>, Seq<char>> {
    match json_completion_content(body) {
        Some(f) => Ok(field_transcript(f)),
        None => Err("json: "@ + body_decode_error()),
    }
}

/// Reads the transcript out of a Whisper reply (see
/// `whisper_reply_transcript`).
pub fn whisper_transcript(body: &str) -> (r: Result<String, AsrError>)
    ensures
        match whisper_reply_transcript(body@) {
            Ok(t) => r matches Ok(s) && s@ == t,
            Err(m) => r matches Err(AsrError::Internal(e)) && e@ == m,
        },
{
    match parse_whisper_reply(body) {
        Ok(f) => {
            let t = match f {
                Some(x) => x,
                None => String::new(),
            };
            Ok(trimmed(t.as_str()))
        },
        Err(e) => Err(AsrError::Internal(concat("json parse: ", e.as_str()))),
    }
}

/// Reads the transcript out of the Xiaomi endpoint's reply body (see
/// `completion_reply_transcript`).
pub fn completion_transcript(body: &[u8]) -> (r: Result<String, AsrError>)
    ensures
        match completion_reply_transcript(body@) {
            Ok(t) => r matches Ok(s) && s@ == t,
            Err(m) => r matches Err(AsrError::Internal(e)) && e@ == m,
        },
{
    match parse_completion_reply(body) {
        Some(f) => {
            let t = match f {
                Some(x) => x,
                None => String::new(),
            };
            Ok(trimmed(t.as_str()))
        },
        None => {
            proof {
                reveal_strlit("json: error decoding response body");
                reveal_strlit("json: ");
                reveal_strlit("error decoding response body");
            }
            let e = string_of("json: error decoding response body");
            assert(e@ =~= "json: "@ + body_decode_error());
            Err(AsrError::Internal(e))
        },
    }
}

/// `s` without surrounding whitespace (`str::trim`).
pub fn trimmed(s: &str) -> (r: String)
    ensures
        r@ == trim(s@),
{
    let v = chars_of(s);
    let lo = skip_ws_forward(&v, 0, v.len());
    let hi = skip_ws_backward(&v, lo, v.len());
    proof {
        assert(v@.subrange(0, v.len() as int) =~= s@);
        assert(trim(s@) =~= v@.subrange(lo as int, hi as int));
    }
    string_from_range(&v, lo, hi)
}

} // verus!
