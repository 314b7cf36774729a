//! Rules of the desktop shell's system commands: which pages may be
//! captured, and the URLs built for the provider's model list and for
//! screenshots, and what is read from the provider's model list.
use vstd::prelude::*;
use crate::encoding::{data_url, spec_base64};
use crate::asr::body_decode_error;
use crate::chat::strings_view;
use crate::text::{
    chars_of, concat, decimal, lowercase, push_decimal, str_starts_with, string_from_range,
    string_of, to_lowercase,
};

verus! {

/// Only web pages may be captured: the URL must start with `http://` or
/// `https://`, in any case.
pub open spec fn browsable(url: Seq<char>) -> bool {
    let l = lowercase(url);
    "http://"@.is_prefix_of(l) || "https://"@.is_prefix_of(l)
}

/// Checks a URL to be captured.
pub fn check_browse_url(url: &str) -> (r: Result<(), String>)
    ensures
        browsable(url@) ==> r is Ok,
        !browsable(url@) ==> (r matches Err(m) && m@ == "Only http:// and https:// URLs are allowed"@),
{
    let l = to_lowercase(url);
    if str_starts_with(l.as_str(), "http://") || str_starts_with(l.as_str(), "https://") {
        Ok(())
    } else {
        Err(string_of("Only http:// and https:// URLs are allowed"))
    }
}

/// A PNG screenshot as a `data:` URL.
pub fn png_data_url(png: &[u8]) -> (s: String)
    ensures
        s@ == "data:image/png;base64,"@ + spec_base64(png@),
{
    let s = data_url("image/png", png);
    proof {
        reveal_strlit("data:");
        reveal_strlit("image/png");
        reveal_strlit(";base64,");
        reveal_strlit("data:image/png;base64,");
        assert("data:"@ + "image/png"@ + ";base64,"@ =~= "data:image/png;base64,"@);
    }
    s
}

/// `s` without its trailing copies of `c` (`str::trim_end_matches` on a char).
pub open spec fn trim_trailing(s: Seq<char>, c: char) -> Seq<char>
    decreases s.len(),
{
    if s.len() > 0 && s.last() == c {
        trim_trailing(s.drop_last(), c)
    } else {
        s
    }
}

/// The model list endpoint of a provider: its base URL without trailing
/// slashes, then `/models`.
pub fn models_url(base_url: &str) -> (s: String)
    ensures
        s@ == trim_trailing(base_url@, '/') + "/models"@,
{
    let v = chars_of(base_url);
    let mut k = v.len();
    assert(v@.take(k as int) =~= v@);
    while k > 0 && v[k - 1] == '/'
        invariant
            k <= v.len(),
            trim_trailing(base_url@, '/') == trim_trailing(v@.take(k as int), '/'),
            v@ == base_url@,
        decreases k,
    {
        assert(v@.take(k as int).drop_last() =~= v@.take(k - 1));
        k = k - 1;
    }
    proof {
        if k == v.len() {
            assert(v@.take(k as int) =~= v@);
        }
        assert(v@.subrange(0, k as int) =~= v@.take(k as int));
    }
    let mut s = string_from_range(&v, 0, k);
    s.append("/models");
    s
}

/// The error text for a model-list request the provider refused: the
/// status code and the reply's text.
pub fn http_error_text(code: u16, body: &str) -> (s: String)
    ensures
        s@ == "HTTP "@ + decimal(code as nat) + ": "@ + body@,
{
    let mut s = string_of("HTTP ");
    push_decimal(&mut s, code as u64);
    s.append(": ");
    s.append(body);
    s
}

/// What `serde_json` reads of a model-list reply body: `None` when it is
/// not JSON; `Some(None)` when its `data` is not an array; otherwise, for
/// each element of `data` in order, its `id` string (`None` when missing or
/// not a string).
pub uninterp spec fn json_model_entries(body: Seq<u8>) -> Option<Option<Seq<Option<Seq<char>>>>>;

/// The view of optional strings.
pub open spec fn opt_strings_view(v: Seq<Option<String>>) -> Seq<Option<Seq<char>>> {
    v.map_values(
        |o: Option<String>|
            match o {
                Some(s) => Some(s@),
                None => None,
            },
    )
}

/// The view of what `parse_model_entries` returns.
pub open spec fn model_entries_view(r: Option<Option<Vec<Option<String>>>>) -> Option<
    Option<Seq<Option<Seq<char>>>>,
> {
    match r {
        None => None,
        Some(None) => Some(None),
        Some(Some(v)) => Some(Some(opt_strings_view(v@))),
    }
}

/// Parses a model-list reply body with `serde_json::from_slice` and reads
/// the `id` string of each element of `data`; the contract names the
/// result, which depends on the body alone.
#[verifier::external_body]
fn parse_model_entries(body: &[u8]) -> (r: Option<Option<Vec<Option<String>>>>)
    ensures
        model_entries_view(r) == json_model_entries(body@),
{
    let v: serde_json::Value = serde_json::from_slice(body).ok()?;
    Some(v["data"].as_array().map(|a| a.iter().map(|e| e["id"].as_str().map(String::from)).collect()))
}

/// The ids that are present, in order.
pub open spec fn present_ids(s: Seq<Option<Seq<char>>>) -> Seq<Seq<char>>
    decreases s.len(),
{
    if s.len() == 0 {
        Seq::empty()
    } else {
        let r = present_ids(s.drop_last());
        match s.last() {
            Some(id) => r.push(id),
            None => r,
        }
    }
}

/// The models a provider offers, from its model-list reply: the `id` of
/// each element of `data` that has a string id, in order; none when `data`
/// is not an array. A body that is not JSON is the error `Parse: ` followed
/// by the text of the HTTP client's decode error.
pub open spec fn model_list(body: Seq<u8>) -> Result<Seq<Seq<char>>, Seq<char>> {
    match json_model_entries(body) {
        None => Err("Parse: "@ + body_decode_error()),
        Some(None) => Ok(Seq::empty()),
        Some(Some(es)) => Ok(present_ids(es)),
    }
}

/// Reads the model ids out of a model-list reply body (see `model_list`).
pub fn model_ids(body: &[u8]) -> (r: Result<Vec<String>, String>)
    ensures
        match model_list(body@) {
            Ok(ids) => r matches Ok(v) && strings_view(v@) == ids,
            Err(m) => r matches Err(e) && e@ == m,
        },
{
    match parse_model_entries(body) {
        None => {
            proof {
                reveal_strlit("Parse: error decoding response body");
                reveal_strlit("Parse: ");
                reveal_strlit("error decoding response body");
            }
            let e = string_of("Parse: error decoding response body");
            assert(e@ =~= "Parse: "@ + body_decode_error());
            Err(e)
        },
        Some(None) => {
            let v: Vec<String> = Vec::new();
            assert(strings_view(v@) =~= Seq::<Seq<char>>::empty());
            Ok(v)
        },
        Some(Some(entries)) => {
            let ghost es = opt_strings_view(entries@);
            let mut out: Vec<String> = Vec::new();
            let mut i: usize = 0;
            proof {
                assert(es.take(0) =~= Seq::<Option<Seq<char>>>::empty());
                assert(strings_view(out@) =~= Seq::<Seq<char>>::empty());
            }
            while i < entries.len()
                invariant
                    i <= entries@.len(),
                    es == opt_strings_view(entries@),
                    strings_view(out@) == present_ids(es.take(i as int)),
                decreases entries.len() - i,
            {
                let ghost before = strings_view(out@);
                proof {
                    assert(es.take(i + 1).drop_last() =~= es.take(i as int));
                    assert(es.take(i + 1).last() == es[i as int]);
                }
                match &entries[i] {
                    Some(id) => {
                        out.push(string_of(id.as_str()));
                        assert(strings_view(out@) =~= before.push(id@));
                    },
                    None => {},
                }
                i = i + 1;
            }
            assert(es.take(entries@.len() as int) =~= es);
            Ok(out)
        },
    }
}

} // verus!
