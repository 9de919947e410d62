//! URL parsing and rewriting, from the `url` crate.

use vstd::prelude::*;
use vstd::utf8::encode_utf8;

verus! {

/// The `url` crate's parsed URL, carried through opaque.
#[verifier::external_type_specification]
#[verifier::external_body]
pub struct ExUrl(url::Url);

/// `raw` parsed as an absolute URL: its serialization and its host (when
/// it has one), `None` when it does not parse.
pub uninterp spec fn url_parse(raw: Seq<char>) -> Option<(Seq<char>, Option<Seq<char>>)>;

/// The serialization of `raw` parsed as an absolute URL whose path was
/// then replaced by `path`.
pub uninterp spec fn url_with_path(raw: Seq<char>, path: Seq<char>) -> Seq<char>;

/// The serialization of `raw` parsed as an absolute URL.
pub open spec fn url_serialization(raw: Seq<char>) -> Option<Seq<char>> {
    match url_parse(raw) {
        Some((serialization, _)) => Some(serialization),
        None => None,
    }
}

/// The host of `raw` parsed as an absolute URL, `None` when it does not
/// parse or has no host.
pub open spec fn url_host(raw: Seq<char>) -> Option<Seq<char>> {
    match url_parse(raw) {
        Some((_, host)) => host,
        None => None,
    }
}

/// A path character that `Url::set_path` writes as it is, never
/// percent-encoded: an ASCII letter or digit, `.`, `-`, `_`, `~` or `/`.
pub open spec fn is_plain_path_char(c: char) -> bool {
    ||| ('a' <= c && c <= 'z')
    ||| ('A' <= c && c <= 'Z')
    ||| ('0' <= c && c <= '9')
    ||| c == '.' || c == '-' || c == '_' || c == '~' || c == '/'
}

/// Whether `Url::set_path(path)` on a parsed URL of serialization
/// `serialization` keeps the rewritten serialization within the 32-bit
/// offsets the `url` crate unwraps: the path is made of plain characters,
/// and the part of the URL before its path, at most all of it, plus the
/// written path (the plain characters themselves and at most two more)
/// stays within `u32::MAX` bytes.
pub open spec fn path_fits(serialization: Seq<char>, path: Seq<char>) -> bool {
    &&& forall|i: int| 0 <= i < path.len() ==> is_plain_path_char(#[trigger] path[i])
    &&& encode_utf8(serialization).len() + path.len() + 2 <= 0xffff_ffff
}

/// A parsed URL, as plain values.
pub struct ParsedUrl {
    pub serialization: String,
    pub host: Option<String>,
}

/// `url::Url::parse`, read back through `Url::as_str` and
/// `Url::host_str`. The contract claims that the result is a function of
/// `raw` alone, named `url_parse`.
#[verifier::external_body]
pub(crate) fn parse_url(raw: &str) -> (r: Option<ParsedUrl>)
    ensures
        match r {
            Some(p) => url_parse(raw@) == Some(
                (
                    p.serialization@,
                    match p.host {
                        Some(h) => Some(h@),
                        None => None,
                    },
                ),
            ),
            None => url_parse(raw@) is None,
        },
{
    url::Url::parse(raw).ok().map(
        |u| ParsedUrl { serialization: u.as_str().to_string(), host: u.host_str().map(String::from) },
    )
}

/// `url::Url::set_path` on `raw` parsed (`url::Url::parse`), read back as
/// its serialization. The contract claims that the result is a function
/// of `raw` and `path` alone, named `url_with_path`. It is only called on
/// a `raw` that parses, with a `path` that fits: `set_path` unwraps a
/// 32-bit offset into the rewritten serialization (the part before the
/// path plus the path written), which `path_fits` keeps within
/// `u32::MAX` bytes.
#[verifier::external_body]
pub(crate) fn serialized_with_path(raw: &str, path: &str) -> (r: String)
    requires
        url_parse(raw@) matches Some((serialization, _)) && path_fits(serialization, path@),
    ensures
        r@ == url_with_path(raw@, path@),
{
    let mut url = url::Url::parse(raw).unwrap();
    url.set_path(path);
    String::from(url)
}

} // verus!
