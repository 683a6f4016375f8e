//! The registry's side: request addresses, the handling of its HTTP answers,
//! and the decoding of its JSON bodies.
use vstd::prelude::*;
use vstd::string::*;
use vstd::utf8::encode_utf8;
use crate::error::Error;

verus! {

pub open spec fn api_root() -> Seq<char> {
    "https://crates.io/api/v1/crates/"@
}

/// The address of a registry call about `krate`, or of the crate itself.
pub open spec fn crate_url_spec(krate: Seq<char>, call: Option<&str>) -> Seq<char> {
    match call {
        Some(c) => api_root() + krate + "/"@ + c@,
        None => api_root() + krate,
    }
}

pub fn crate_url(krate: &str, call: Option<&str>) -> (r: String)
    ensures
        r@ == crate_url_spec(krate@, call),
{
    let mut url = String::from_str("https://crates.io/api/v1/crates/");
    url.append(krate);
    match call {
        Some(c) => {
            url.append("/");
            url.append(c);
        },
        None => {},
    }
    url
}

/// What to do with one HTTP answer.
#[derive(Debug)]
pub enum HttpStep {
    /// The answer's body is the result.
    Body,
    /// Ask again at this address.
    Follow(String),
    /// The call failed with this answer's status.
    Fail,
}

/// A 200 answer is taken; a first 302 answer with a location is followed
/// once; anything else fails.
pub fn http_response_step(redirected: bool, code: u32, location: Option<String>) -> (r: HttpStep)
    ensures
        code == 200 ==> r is Body,
        code == 302 && !redirected && location is Some ==> r == HttpStep::Follow(location->0),
        code != 200 && (code != 302 || redirected || location is None) ==> r is Fail,
{
    if code == 200 {
        HttpStep::Body
    } else if code == 302 && !redirected {
        match location {
            Some(l) => HttpStep::Follow(l),
            None => HttpStep::Fail,
        }
    } else {
        HttpStep::Fail
    }
}

/// The text that `String::from_utf8` makes of some bytes, if they are UTF-8.
pub uninterp spec fn utf8_text(b: Seq<u8>) -> Option<Seq<char>>;

/// Relies on `String::from_utf8`: `Ok` exactly for valid UTF-8.
#[verifier::external_body]
fn decode_utf8(b: Vec<u8>) -> (r: Option<String>)
    ensures
        match r {
            Some(s) => utf8_text(b@) == Some(s@),
            None => utf8_text(b@) is None,
        },
{
    String::from_utf8(b).ok()
}

/// A response body as text.
pub fn http_get_to_string(body: Vec<u8>) -> (r: Result<String, Error>)
    ensures
        match r {
            Ok(s) => utf8_text(body@) == Some(s@),
            Err(e) => utf8_text(body@) is None && e == Error::FromUtf8Error,
        },
{
    match decode_utf8(body) {
        Some(s) => Ok(s),
        None => Err(Error::FromUtf8Error),
    }
}

/// What rustc_serialize's JSON reader finds in `text` at
/// `{ list_key: [ { field_key: "..." }, ... ] }`: the strings in order, or
/// nothing when the text is not JSON or does not have that shape.
pub uninterp spec fn json_string_fields(
    text: Seq<char>,
    list_key: Seq<char>,
    field_key: Seq<char>,
) -> Option<Seq<Seq<char>>>;

/// The deepest nesting of arrays and objects that the JSON reader would
/// recurse into is at most this.
pub const MAX_JSON_DEPTH: usize = 64;

/// Scanner state after some bytes of JSON text: open brackets outside
/// strings, inside a string, after a backslash in a string, deepest nesting
/// so far. A stray closing bracket does not take the count below zero.
pub open spec fn scan_byte(st: (nat, bool, bool, nat), b: u8) -> (nat, bool, bool, nat) {
    let (d, in_str, esc, m) = st;
    if in_str {
        if esc {
            (d, true, false, m)
        } else if b == 92u8 {
            (d, true, true, m)
        } else if b == 34u8 {
            (d, false, false, m)
        } else {
            st
        }
    } else if b == 34u8 {
        (d, true, false, m)
    } else if b == 91u8 || b == 123u8 {
        (d + 1, false, false, if d + 1 > m { (d + 1) as nat } else { m })
    } else if b == 93u8 || b == 125u8 {
        (if d > 0 { (d - 1) as nat } else { 0 }, false, false, m)
    } else {
        st
    }
}

pub open spec fn scan_bytes(b: Seq<u8>) -> (nat, bool, bool, nat)
    decreases b.len(),
{
    if b.len() == 0 {
        (0, false, false, 0)
    } else {
        scan_byte(scan_bytes(b.drop_last()), b.last())
    }
}

/// How deeply `[` and `{` nest in a text's UTF-8 encoding, not counting
/// those inside strings. The bracket, quote and backslash bytes never occur
/// inside the encoding of another character.
pub open spec fn json_nesting(text: Seq<char>) -> nat {
    scan_bytes(encode_utf8(text)).3
}

/// Whether `text` nests no deeper than `MAX_JSON_DEPTH`.
pub fn json_depth_ok(text: &str) -> (r: bool)
    ensures
        r == (json_nesting(text@) <= MAX_JSON_DEPTH),
{
    let b = text.as_bytes_vec();
    let mut depth: usize = 0;
    let mut in_str = false;
    let mut esc = false;
    let mut deepest: usize = 0;
    let mut i: usize = 0;
    while i < b.len()
        invariant
            b@ == encode_utf8(text@),
            i <= b@.len(),
            depth <= i,
            deepest <= i,
            !in_str ==> !esc,
            (depth as nat, in_str, esc, deepest as nat) == scan_bytes(b@.take(i as int)),
        decreases b.len() - i,
    {
        let c = b[i];
        assert(b@.take(i + 1).last() == c);
        assert(b@.take(i + 1).drop_last() =~= b@.take(i as int));
        if in_str {
            if esc {
                esc = false;
            } else if c == 92u8 {
                esc = true;
            } else if c == 34u8 {
                in_str = false;
            }
        } else if c == 34u8 {
            in_str = true;
        } else if c == 91u8 || c == 123u8 {
            depth = depth + 1;
            if depth > deepest {
                deepest = depth;
            }
        } else if c == 93u8 || c == 125u8 {
            if depth > 0 {
                depth = depth - 1;
            }
        }
        i += 1;
    }
    assert(b@.take(i as int) =~= b@);
    deepest <= MAX_JSON_DEPTH
}

/// Relies on `rustc_serialize::json::Json::from_str`, `find`, `as_array` and
/// `as_string`: reads the string `field_key` of each object in the array
/// `list_key`, and fails if any step does. The reader recurses once per level
/// of nesting, so the depth is bounded.
#[verifier::external_body]
fn json_strings(text: &str, list_key: &str, field_key: &str) -> (r: Option<Vec<String>>)
    requires
        json_nesting(text@) <= MAX_JSON_DEPTH,
    ensures
        match r {
            Some(v) => json_string_fields(text@, list_key@, field_key@) == Some(
                v@.map_values(|s: String| s@),
            ),
            None => json_string_fields(text@, list_key@, field_key@) is None,
        },
{
    let j = rustc_serialize::json::Json::from_str(text).ok()?;
    j.find(list_key)?.as_array()?.iter().map(
        |d| d.find(field_key).and_then(|v| v.as_string()).map(|s| s.to_string()),
    ).collect()
}

/// The names in a reverse-dependencies answer; nothing when it nests deeper
/// than `MAX_JSON_DEPTH`.
pub open spec fn rev_deps_of(text: Seq<char>) -> Option<Seq<Seq<char>>> {
    if json_nesting(text) > MAX_JSON_DEPTH {
        None
    } else {
        json_string_fields(text, "dependencies"@, "crate_id"@)
    }
}

/// The version texts in a crate-metadata answer; nothing when it nests
/// deeper than `MAX_JSON_DEPTH`.
pub open spec fn versions_of(text: Seq<char>) -> Option<Seq<Seq<char>>> {
    if json_nesting(text) > MAX_JSON_DEPTH {
        None
    } else {
        json_string_fields(text, "versions"@, "num"@)
    }
}

/// The names in a reverse-dependencies answer. Fails with `JsonDecode` when
/// the text nests deeper than `MAX_JSON_DEPTH`, is not JSON, or lacks that
/// shape.
pub fn parse_rev_deps(s: &str) -> (r: Result<Vec<String>, Error>)
    ensures
        match r {
            Ok(v) => rev_deps_of(s@) == Some(v@.map_values(|n: String| n@)),
            Err(e) => rev_deps_of(s@) is None && e == Error::JsonDecode,
        },
        json_nesting(s@) > MAX_JSON_DEPTH ==> r == Err::<Vec<String>, Error>(Error::JsonDecode),
{
    if !json_depth_ok(s) {
        return Err(Error::JsonDecode);
    }
    match json_strings(s, "dependencies", "crate_id") {
        Some(v) => Ok(v),
        None => Err(Error::JsonDecode),
    }
}

/// The version texts that a crate's metadata lists. Fails with `JsonDecode`
/// when the text nests deeper than `MAX_JSON_DEPTH`, is not JSON, or lacks
/// that shape.
pub fn parse_crate(s: &str) -> (r: Result<Vec<String>, Error>)
    ensures
        match r {
            Ok(v) => versions_of(s@) == Some(v@.map_values(|n: String| n@)),
            Err(e) => versions_of(s@) is None && e == Error::JsonDecode,
        },
        json_nesting(s@) > MAX_JSON_DEPTH ==> r == Err::<Vec<String>, Error>(Error::JsonDecode),
{
    if !json_depth_ok(s) {
        return Err(Error::JsonDecode);
    }
    match json_strings(s, "versions", "num") {
        Some(v) => Ok(v),
        None => Err(Error::JsonDecode),
    }
}

/// The downstream packages listed in the body of a reverse-dependencies
/// answer.
pub fn get_rev_deps(body: Vec<u8>) -> (r: Result<Vec<String>, Error>)
    ensures
        match r {
            Ok(v) => exists|t: Seq<char>|
                utf8_text(body@) == Some(t) && rev_deps_of(t) == Some(v@.map_values(|n: String| n@)),
            Err(e) => match utf8_text(body@) {
                None => e == Error::FromUtf8Error,
                Some(t) => rev_deps_of(t) is None && e == Error::JsonDecode,
            },
        },
{
    let text = http_get_to_string(body)?;
    parse_rev_deps(text.as_str())
}

} // verus!
