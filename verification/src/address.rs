//! What a download URL says: whether it looks like one, and which file name
//! its path ends in.

use crate::headers::lemma_after_last_of_tail;
use crate::text::{after_last, chars_of, last_piece_start, lemma_after_last_is_suffix};
use vstd::prelude::*;

verus! {

broadcast use vstd::string::group_string_axioms;

/// The path of `url` as the `url` crate parses it (the part after the
/// authority, up to the query or fragment), or none when it is no valid
/// absolute URL.
pub uninterp spec fn parsed_url_path(url: Seq<char>) -> Option<Seq<char>>;

/// What searching `text` for the regular expression `pattern` gives with the
/// `regex` crate: whether some part of `text` matches, or none when the
/// pattern does not compile.
pub uninterp spec fn regex_search(pattern: Seq<char>, text: Seq<char>) -> Option<bool>;

/// Calls `Url::parse` and, on success, `Url::path`; claimed: the result is
/// the path those calls give, which depends on the URL text alone, and it
/// holds no `?` or `#`, since the `url` parser ends the path at either (the
/// query and the fragment begin there).
#[verifier::external_body]
pub(crate) fn parse_url_path(url: &str) -> (path: Option<String>)
    ensures
        match parsed_url_path(url@) {
            Some(p) => path matches Some(s) && s@ == p && no_query_marks(s@),
            None => path is None,
        },
{
    match reqwest::Url::parse(url) {
        Ok(parsed) => Some(parsed.path().to_string()),
        Err(_) => None,
    }
}

/// Calls `Regex::new` on `pattern` and, on success, `Regex::captures` on
/// `text`; claimed: the result is whether a match was found, or none when the
/// pattern did not compile, which depends on the two texts alone.
#[verifier::external_body]
pub(crate) fn search_regex(pattern: &str, text: &str) -> (found: Option<bool>)
    ensures
        found == regex_search(pattern@, text@),
{
    match regex::Regex::new(pattern) {
        Ok(re) => Some(re.captures(text).is_some()),
        Err(_) => None,
    }
}

/// The pattern a download URL must contain: `http://` or `https://`
/// followed by a character that is no space, `/`, `$`, `.`, `?` or `#`,
/// then one more character.
pub open spec fn url_pattern() -> Seq<char> {
    "https?://[^\\s/$.?#].[^\\s]*"@
}

/// Whether `url` looks like an address this downloader accepts: some part of
/// it matches `url_pattern`.
pub fn is_valid_url(url: &str) -> (ok: bool)
    ensures
        ok == (regex_search(url_pattern(), url@) == Some(true)),
{
    match search_regex("https?://[^\\s/$.?#].[^\\s]*", url) {
        Some(found) => found,
        None => false,
    }
}

/// The file name a URL path names: its last `/`-separated segment, when the
/// path begins with `/` (otherwise the URL has no segments) and that segment
/// is not empty.
pub open spec fn path_filename(path: Seq<char>) -> Option<Seq<char>> {
    if path.len() > 0 && path[0] == '/' && after_last(path, '/').len() > 0 {
        Some(after_last(path, '/'))
    } else {
        None
    }
}

/// Law: the file name of a path is its last segment whenever that segment is
/// not empty, however many directories come before it: for a path made of
/// `dirs` (beginning and ending with `/`, so `/` alone for a file at the
/// server root) and then a non-empty segment holding no `/`, the name is
/// that segment.
pub proof fn law_path_filename_is_last_segment(dirs: Seq<char>, segment: Seq<char>)
    requires
        dirs.len() > 0,
        dirs[0] == '/',
        dirs.last() == '/',
        segment.len() > 0,
        forall|i: int| 0 <= i < segment.len() ==> #[trigger] segment[i] != '/',
    ensures
        path_filename(dirs + segment) == Some(segment),
{
    let head = dirs.drop_last();
    assert(head.push('/') =~= dirs);
    lemma_after_last_of_tail(head, '/', segment);
    assert((dirs + segment)[0] == '/');
}

/// Law: a file at the server root, path `/` and a non-empty name holding no
/// `/`, is named by that name.
pub proof fn law_root_path_filename(segment: Seq<char>)
    requires
        segment.len() > 0,
        forall|i: int| 0 <= i < segment.len() ==> #[trigger] segment[i] != '/',
    ensures
        path_filename(seq!['/'] + segment) == Some(segment),
{
    law_path_filename_is_last_segment(seq!['/'], segment);
}

/// Law: a path that ends in `/`, or that does not begin with `/` (so the URL
/// has no segments), names no file.
pub proof fn law_path_filename_none(path: Seq<char>)
    requires
        path.len() == 0 || path[0] != '/' || path.last() == '/',
    ensures
        path_filename(path) is None,
{
}

/// Law: the pattern a URL is searched with is the one `furl` checks
/// arguments with, `https?://[^\s/$.?#].[^\s]*`, written out character by
/// character: `http`, an optional `s`, `://`, one character that is no
/// white space, `/`, `$`, `.`, `?` or `#`, one more character, and then
/// anything up to white space. What the `regex` crate finds with it is not
/// modelled here; this fixes what it is asked.
pub proof fn law_url_pattern_is_the_http_pattern()
    ensures
        url_pattern() == seq![
            'h', 't', 't', 'p', 's', '?', ':', '/', '/', '[', '^', '\\', 's', '/', '$', '.', '?',
            '#', ']', '.', '[', '^', '\\', 's', ']', '*',
        ],
{
    reveal_strlit("https?://[^\\s/$.?#].[^\\s]*");
    assert(url_pattern() =~= seq![
        'h', 't', 't', 'p', 's', '?', ':', '/', '/', '[', '^', '\\', 's', '/', '$', '.', '?',
        '#', ']', '.', '[', '^', '\\', 's', ']', '*',
    ]);
}

/// The file name a URL names, when it parses and its path ends in one.
pub open spec fn url_filename(url: Seq<char>) -> Option<Seq<char>> {
    match parsed_url_path(url) {
        Some(path) => path_filename(path),
        None => None,
    }
}

/// The file name that a URL path names; see `path_filename`.
pub fn filename_from_url_path(path: &str) -> (name: Option<String>)
    ensures
        match path_filename(path@) {
            Some(f) => name matches Some(s) && s@ == f,
            None => name is None,
        },
{
    let v = chars_of(path);
    if v.len() == 0 || v[0] != '/' {
        return None;
    }
    let k = last_piece_start(&v, '/');
    if k == v.len() {
        return None;
    }
    Some(String::from_str(path.substring_char(k, v.len())))
}

/// `s` holds neither `?` nor `#`, which would begin a URL's query or fragment.
pub open spec fn no_query_marks(s: Seq<char>) -> bool {
    forall|i: int| 0 <= i < s.len() ==> #[trigger] s[i] != '?' && s[i] != '#'
}

/// The file name that a URL names, used when the response headers give none:
/// `file.txt` for `https://example.com/path/to/file.txt`, and none for
/// `https://example.com/path/to/`.
pub fn extract_filename_from_url(url: &str) -> (name: Option<String>)
    ensures
        match url_filename(url@) {
            Some(f) => name matches Some(s) && s@ == f,
            None => name is None,
        },
        name matches Some(s) ==> no_query_marks(s@),
{
    match parse_url_path(url) {
        Some(path) => {
            let name = filename_from_url_path(path.as_str());
            proof {
                lemma_after_last_is_suffix(path@, '/');
                let tail = after_last(path@, '/');
                assert forall|i: int| 0 <= i < tail.len() implies #[trigger] tail[i] != '?'
                    && tail[i] != '#' by {
                    assert(tail[i] == path@[path@.len() - tail.len() + i]);
                }
            }
            name
        },
        None => None,
    }
}

} // verus!
