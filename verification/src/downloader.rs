//! Model download: the progress events, and where each entry of a model
//! archive is extracted to under the model's directory.
use vstd::prelude::*;
use crate::text::{
    chars_of, concat, contains_chars, contains_seq, decimal, push_decimal, starts_with,
    string_from_range, string_of,
};

verus! {

/// Progress of a download and extraction.
#[derive(Debug, Clone)]
pub enum DownloadProgress {
    /// Bytes received so far, of `total` (0 when unknown).
    Downloading { downloaded: u64, total: u64 },
    /// Download complete, extracting the archive.
    Extracting,
    /// The model is ready.
    Done { model_id: String },
    /// Something went wrong.
    Error { message: String },
}

/// `s` without its leading copies of `c` (`str::trim_start_matches` on a char).
pub open spec fn trim_leading(s: Seq<char>, c: char) -> Seq<char>
    decreases s.len(),
{
    if s.len() > 0 && s[0] == c {
        trim_leading(s.drop_first(), c)
    } else {
        s
    }
}

/// Whether `name` is a top-level directory named `model_id` or lies under
/// it: it is `model_id`, or `model_id` followed by a `/` or a backslash.
pub open spec fn under_model_dir(name: Seq<char>, model_id: Seq<char>) -> bool {
    &&& model_id.is_prefix_of(name)
    &&& (name.len() == model_id.len() || name[model_id.len() as int] == '/'
        || name[model_id.len() as int] == '\\')
}

/// Where an archive entry goes, relative to the model's directory.
///
/// macOS metadata (`__MACOSX`) and hidden entries are skipped. An entry
/// under a top-level directory named like the model loses that directory
/// (and the separators after it); the directory itself is skipped. Any
/// other entry keeps its path.
pub open spec fn entry_target(name: Seq<char>, model_id: Seq<char>) -> Option<Seq<char>> {
    if contains_seq(name, "__MACOSX"@) || (name.len() > 0 && name[0] == '.') {
        None
    } else if under_model_dir(name, model_id) {
        let rest = trim_leading(trim_leading(name.skip(model_id.len() as int), '/'), '\\');
        if rest.len() == 0 {
            None
        } else {
            Some(rest)
        }
    } else {
        Some(name)
    }
}

/// Index of the first character of `v[lo..]` that is not `c`.
fn skip_char(v: &Vec<char>, lo: usize, c: char) -> (k: usize)
    requires
        lo <= v.len(),
    ensures
        lo <= k <= v.len(),
        v@.subrange(k as int, v.len() as int) == trim_leading(
            v@.subrange(lo as int, v.len() as int),
            c,
        ),
{
    let mut k = lo;
    while k < v.len() && v[k] == c
        invariant
            lo <= k <= v.len(),
            trim_leading(v@.subrange(lo as int, v.len() as int), c) == trim_leading(
                v@.subrange(k as int, v.len() as int),
                c,
            ),
        decreases v.len() - k,
    {
        assert(v@.subrange(k as int, v.len() as int).drop_first() =~= v@.subrange(
            k + 1,
            v.len() as int,
        ));
        k = k + 1;
    }
    k
}

/// Where the archive entry `name` of the model `model_id` is extracted to,
/// relative to the model's directory; `None` for entries that are skipped.
///
/// Only a top-level directory named exactly like the model is removed: a
/// name that merely begins with the model id, such as `haru2/a.json` for the
/// model `haru`, keeps its whole path instead of losing those characters
/// (which would make it `2/a.json`).
pub fn zip_entry_target(name: &str, model_id: &str) -> (r: Option<String>)
    ensures
        match r {
            Some(p) => entry_target(name@, model_id@) == Some(p@),
            None => entry_target(name@, model_id@) is None,
        },
{
    let v = chars_of(name);
    if contains_chars(&v, "__MACOSX") || (v.len() > 0 && v[0] == '.') {
        return None;
    }
    let n = model_id.unicode_len();
    if starts_with(&v, model_id) && (v.len() == n || v[n] == '/' || v[n] == '\\') {
        let a = skip_char(&v, n, '/');
        let b = skip_char(&v, a, '\\');
        proof {
            assert(v@.subrange(n as int, v.len() as int) =~= name@.skip(model_id@.len() as int));
        }
        if b == v.len() {
            assert(v@.subrange(b as int, v.len() as int).len() == 0);
            None
        } else {
            Some(string_from_range(&v, b, v.len()))
        }
    } else {
        Some(string_of(name))
    }
}

/// The progress after a chunk of `chunk_len` bytes arrives, and the new
/// byte count.
pub fn progress_after_chunk(downloaded: u64, chunk_len: u64, total: u64) -> (r: (u64, DownloadProgress))
    requires
        downloaded + chunk_len <= u64::MAX,
    ensures
        r.0 == downloaded + chunk_len,
        r.1 matches DownloadProgress::Downloading { downloaded: d, total: t } && d == r.0 && t
            == total,
{
    let d = downloaded + chunk_len;
    (d, DownloadProgress::Downloading { downloaded: d, total })
}

/// What `zip` reads of an archive: the number of its entries, or the
/// message of the error that stops it from opening.
pub uninterp spec fn spec_zip_count(bytes: Seq<u8>) -> Result<nat, Seq<char>>;

/// What `zip` reads of entry `i` of an archive: its mangled name (as text)
/// and whether it is a directory, or the message of the error reading it.
pub uninterp spec fn spec_zip_entry(bytes: Seq<u8>, i: nat) -> Result<(Seq<char>, bool), Seq<char>>;

/// Opens the archive with `zip::ZipArchive::new` and counts its entries
/// (`len`); the contract names the result, which depends on the bytes alone.
#[verifier::external_body]
fn zip_entry_count(bytes: &[u8]) -> (r: Result<usize, String>)
    ensures
        match r {
            Ok(n) => spec_zip_count(bytes@) == Ok::<nat, Seq<char>>(n as nat),
            Err(m) => spec_zip_count(bytes@) == Err::<nat, Seq<char>>(m@),
        },
{
    zip::ZipArchive::new(std::io::Cursor::new(bytes)).map(|a| a.len()).map_err(|e| e.to_string())
}

/// Reads entry `i` of the archive (`ZipArchive::by_index`, `mangled_name`,
/// `is_dir`); the contract names the result, which depends on the bytes
/// and the index alone.
#[verifier::external_body]
fn zip_entry_info(bytes: &[u8], i: usize) -> (r: Result<(String, bool), String>)
    ensures
        match r {
            Ok((n, d)) => spec_zip_entry(bytes@, i as nat) == Ok::<(Seq<char>, bool), Seq<char>>(
                (n@, d),
            ),
            Err(m) => spec_zip_entry(bytes@, i as nat) == Err::<(Seq<char>, bool), Seq<char>>(m@),
        },
{
    let mut a = zip::ZipArchive::new(std::io::Cursor::new(bytes)).map_err(|e| e.to_string())?;
    let f = a.by_index(i).map_err(|e| e.to_string())?;
    Ok((f.mangled_name().to_string_lossy().into_owned(), f.is_dir()))
}

/// The number of entries of a downloaded archive, or `open zip: ` and the
/// reason it cannot be opened.
pub fn archive_size(bytes: &[u8]) -> (r: Result<usize, String>)
    ensures
        match spec_zip_count(bytes@) {
            Ok(n) => r matches Ok(k) && k == n,
            Err(m) => r matches Err(e) && e@ == "open zip: "@ + m,
        },
{
    match zip_entry_count(bytes) {
        Ok(n) => Ok(n),
        Err(m) => Err(concat("open zip: ", m.as_str())),
    }
}

/// What becomes of entry `i`: skipped (`None`), or extracted to the path
/// `entry_target` gives relative to the model's directory, with whether it
/// is a directory; an entry that cannot be read is an error naming its
/// index.
pub open spec fn entry_plan(bytes: Seq<u8>, model_id: Seq<char>, i: nat) -> Result<
    Option<(Seq<char>, bool)>,
    Seq<char>,
> {
    match spec_zip_entry(bytes, i) {
        Err(m) => Err("read zip entry "@ + decimal(i) + ": "@ + m),
        Ok((name, is_dir)) => Ok(
            match entry_target(name, model_id) {
                Some(t) => Some((t, is_dir)),
                None => None,
            },
        ),
    }
}

/// Plans the extraction of entry `i` of a downloaded archive of the model
/// `model_id` (see `entry_plan`).
pub fn plan_entry(bytes: &[u8], model_id: &str, i: usize) -> (r: Result<Option<(String, bool)>, String>)
    ensures
        match entry_plan(bytes@, model_id@, i as nat) {
            Ok(Some((t, d))) => r matches Ok(Some((p, e))) && p@ == t && e == d,
            Ok(None) => r matches Ok(None),
            Err(m) => r matches Err(e) && e@ == m,
        },
{
    match zip_entry_info(bytes, i) {
        Err(m) => {
            let mut e = string_of("read zip entry ");
            push_decimal(&mut e, i as u64);
            e.append(": ");
            e.append(m.as_str());
            Err(e)
        },
        Ok((name, is_dir)) => match zip_entry_target(name.as_str(), model_id) {
            Some(t) => Ok(Some((t, is_dir))),
            None => Ok(None),
        },
    }
}

} // verus!
