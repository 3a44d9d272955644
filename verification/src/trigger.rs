//! New-object trigger glue: the storage key of a newly arrived file comes
//! percent-encoded; it is decoded and then split at its last slash into
//! the object prefix (directory part, trailing slash included) and the
//! bare object name.

use vstd::prelude::*;
use vstd::string::StrSliceExecFns;
use vstd::string::StringExecFns;

verus! {

/// What percent-decoding yields for a given key: `None` where the decoded
/// bytes are not valid text. The outcome depends on the characters of the
/// key alone.
pub uninterp spec fn unquote_plus_of(s: Seq<char>) -> Option<Seq<char>>;

/// Relies on urlparse's `unquote_plus`: plus signs become spaces, `%xx`
/// escapes become their byte, and the result is validated as text; the
/// outcome is a function of the input characters alone.
#[verifier::external_body]
fn unquote_plus(s: &str) -> (r: Option<String>)
    ensures
        r is Some <==> unquote_plus_of(s@) is Some,
        r matches Some(t) ==> t@ == unquote_plus_of(s@).unwrap(),
{
    match urlparse::unquote_plus(s) {
        Ok(t) => Some(t),
        Err(_) => None,
    }
}

/// Index just past the last '/' in `s`: every '/' lies before it, and the
/// character right before it (where the index is positive) is a '/'.
/// Zero where `s` holds no slash at all would not do — the split demands
/// a slash — so the spec below is phrased over an explicit index.
pub open spec fn is_split_point(s: Seq<char>, p: int) -> bool {
    &&& 1 <= p <= s.len()
    &&& s[p - 1] == '/'
    &&& forall|k: int| p <= k < s.len() ==> s[k] != '/'
}

/// Whether the key holds a slash at all.
pub open spec fn has_slash(s: Seq<char>) -> bool {
    exists|k: int| 0 <= k < s.len() && s[k] == '/'
}

/// Split a decoded storage key at its last slash: the prefix keeps the
/// trailing slash, the name is what follows it. A key without any slash
/// has no prefix to split off and yields `None`.
pub fn split_object_key(key: &str) -> (r: Option<(String, String)>)
    ensures
        r is Some <==> has_slash(key@),
        r matches Some(pn) ==> ({
            &&& is_split_point(key@, pn.0@.len() as int)
            &&& pn.0@ == key@.subrange(0, pn.0@.len() as int)
            &&& pn.1@ == key@.subrange(pn.0@.len() as int, key@.len() as int)
        }),
{
    let len = key.unicode_len();
    let mut i: usize = len;
    while i > 0
        invariant
            i <= len,
            len == key@.len(),
            forall|k: int| i <= k < len ==> key@[k] != '/',
        decreases i,
    {
        if key.get_char(i - 1) == '/' {
            let prefix = String::from_str(key.substring_char(0, i));
            let name = String::from_str(key.substring_char(i, len));
            return Some((prefix, name));
        }
        i = i - 1;
    }
    proof {
        assert(!has_slash(key@)) by {
            if has_slash(key@) {
                let k = choose|k: int| 0 <= k < key@.len() && key@[k] == '/';
                assert(false);
            }
        }
    }
    None
}

/// Decode a percent-encoded storage key and split it into object prefix
/// and object name. `None` where the key does not decode to text or the
/// decoded key holds no slash.
pub fn decoded_object_parts(raw_key: &str) -> (r: Option<(String, String)>)
    ensures
        r matches Some(pn) ==> ({
            let decoded = unquote_plus_of(raw_key@).unwrap();
            &&& unquote_plus_of(raw_key@) is Some
            &&& is_split_point(decoded, pn.0@.len() as int)
            &&& pn.0@ == decoded.subrange(0, pn.0@.len() as int)
            &&& pn.1@ == decoded.subrange(pn.0@.len() as int, decoded.len() as int)
        }),
        r is None <==> (unquote_plus_of(raw_key@) is None || !has_slash(
            unquote_plus_of(raw_key@).unwrap(),
        )),
{
    match unquote_plus(raw_key) {
        Some(decoded) => split_object_key(decoded.as_str()),
        None => None,
    }
}

} // verus!
