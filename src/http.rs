//! What the library needs to know of HTTP methods and payloads.
use vstd::prelude::*;
use vstd::string::StrSliceExecFns;

verus! {

/// A character that may stand in an HTTP method token.
pub open spec fn is_method_char(c: char) -> bool {
    ('a' <= c && c <= 'z') || ('A' <= c && c <= 'Z') || ('0' <= c && c <= '9')
        || c == '!' || c == '*' || c == '+' || c == '-' || c == '.' || c == '^'
        || c == '_' || c == '`' || c == '|' || c == '~'
}

/// A method that the HTTP client accepts: a non-empty token.
pub open spec fn is_valid_method(s: Seq<char>) -> bool {
    s.len() > 0 && forall|i: int| 0 <= i < s.len() ==> is_method_char(#[trigger] s[i])
}

/// Relies on `reqwest::Method::from_bytes` (http 0.2): it fails on an empty
/// input and on any byte outside its token table, and accepts the rest.
#[verifier::external_body]
pub(crate) fn method_accepted(m: &str) -> (r: bool)
    ensures
        r == is_valid_method(m@),
{
    reqwest::Method::from_bytes(m.as_bytes()).is_ok()
}

/// The media type that `infer` recognises from the leading bytes of a
/// payload, if any.
pub uninterp spec fn inferred_mime(b: Seq<u8>) -> Option<Seq<char>>;

/// Relies on `infer::get` and `Type::mime_type` (infer 0.8): the media type
/// of the first matcher that recognises the bytes; the bytes alone decide.
#[verifier::external_body]
fn infer_mime(b: &[u8]) -> (r: Option<String>)
    ensures
        r matches Some(m) ==> inferred_mime(b@) == Some(m@),
        r is None ==> inferred_mime(b@) is None,
{
    infer::get(b).map(|t| t.mime_type().to_string())
}

/// The content type sent for a payload: the inferred one, else plain text.
pub open spec fn content_type_spec(found: Option<Seq<char>>) -> Seq<char> {
    match found {
        Some(m) => m,
        None => "text/plain"@,
    }
}

/// The content type to send for a payload whose inferred type is `found`.
pub fn mime_or_plain(found: Option<String>) -> (r: String)
    ensures
        r@ == content_type_spec(
            match found {
                Some(m) => Some(m@),
                None => None,
            },
        ),
{
    match found {
        Some(m) => m,
        None => "text/plain".to_owned(),
    }
}

/// The content type to send for `payload`, inferred from its leading bytes.
pub fn content_type(payload: &[u8]) -> (r: String)
    ensures
        r@ == content_type_spec(inferred_mime(payload@)),
{
    mime_or_plain(infer_mime(payload))
}

/// The position of the last `/` in `s`, or -1 where there is none.
pub open spec fn last_slash(s: Seq<char>) -> int
    decreases s.len(),
{
    if s.len() == 0 {
        -1
    } else if s.last() == '/' {
        s.len() - 1
    } else {
        last_slash(s.drop_last())
    }
}

/// The last segment of a path: what follows its last `/`, or all of it.
pub open spec fn file_name_spec(s: Seq<char>) -> Seq<char> {
    s.subrange(last_slash(s) + 1, s.len() as int)
}

proof fn lemma_last_slash_bounds(s: Seq<char>)
    ensures
        -1 <= last_slash(s) < s.len(),
    decreases s.len(),
{
    if s.len() > 0 && s.last() != '/' {
        lemma_last_slash_bounds(s.drop_last());
    }
}

/// The file name under which a file at `path` is uploaded.
pub fn file_name_of(path: &str) -> (r: String)
    ensures
        r@ == file_name_spec(path@),
{
    let len = path.unicode_len();
    let mut i: usize = len;
    assert(path@.take(len as int) =~= path@);
    while i > 0 && path.get_char(i - 1) != '/'
        invariant
            0 <= i <= len,
            len == path@.len(),
            last_slash(path@) == last_slash(path@.take(i as int)),
        decreases i,
    {
        assert(path@.take(i as int).drop_last() =~= path@.take(i - 1));
        i = i - 1;
    }
    proof {
        if i == 0 {
            assert(path@.take(0) =~= Seq::<char>::empty());
        } else {
            assert(path@.take(i as int).last() == path@[i - 1]);
        }
    }
    path.substring_char(i, len).to_owned()
}

} // verus!
