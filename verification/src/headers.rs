//! Reading the file name and the file size out of response headers.

use crate::header_map::{
    all_visible_ascii, ascii_text, header_entries, header_get, header_value_to_str,
};
use crate::text::{
    after_last, chars_of, decimal, is_digit, law_parse_decimal_roundtrip, lemma_decimal_digits, find_from, find_from_exec, last_piece_start, occurs_at, parse_u64_from,
    parse_u64_spec, strip_leading, ParseIntKind, strip_trailing, trim_bounds, trim_char,
};
use reqwest::header::HeaderMap;
use vstd::prelude::*;

verus! {

broadcast use vstd::string::group_string_axioms;

/// Why a value could not be read out of the response headers.
#[derive(Debug, Clone, Copy, PartialEq, Eq, Structural)]
pub enum HeaderError {
    /// There is no Content-Disposition header, or it names no `filename=`.
    FilenameNotFound,
    /// There is no Content-Range header.
    ContentRangeNotFound,
    /// The header holds a byte that is neither a tab nor printable ASCII.
    NotVisibleAscii,
    /// The total after the last `/` of Content-Range is not a `u64`, for the
    /// reason given.
    InvalidFileSize(ParseIntKind),
}

/// The text that describes a header error: the library's own words when a
/// header is missing or names no file, and otherwise the words of the error
/// that `http` or `u64::from_str` reported.
pub open spec fn error_message(e: HeaderError) -> Seq<char> {
    match e {
        HeaderError::FilenameNotFound => "Unable to extract filename"@,
        HeaderError::ContentRangeNotFound => "Content_range not found"@,
        HeaderError::NotVisibleAscii => "failed to convert header to a str"@,
        HeaderError::InvalidFileSize(ParseIntKind::Empty) => "cannot parse integer from empty string"@,
        HeaderError::InvalidFileSize(ParseIntKind::InvalidDigit) => "invalid digit found in string"@,
        HeaderError::InvalidFileSize(ParseIntKind::PosOverflow) => "number too large to fit in target type"@,
    }
}

impl HeaderError {
    /// The text that describes this error.
    pub fn message(&self) -> (text: String)
        ensures
            text@ == error_message(*self),
    {
        match self {
            HeaderError::FilenameNotFound => String::from_str("Unable to extract filename"),
            HeaderError::ContentRangeNotFound => String::from_str("Content_range not found"),
            HeaderError::NotVisibleAscii => String::from_str("failed to convert header to a str"),
            HeaderError::InvalidFileSize(ParseIntKind::Empty) => String::from_str(
                "cannot parse integer from empty string",
            ),
            HeaderError::InvalidFileSize(ParseIntKind::InvalidDigit) => String::from_str(
                "invalid digit found in string",
            ),
            HeaderError::InvalidFileSize(ParseIntKind::PosOverflow) => String::from_str(
                "number too large to fit in target type",
            ),
        }
    }
}

/// The text `filename=` that introduces a file name in Content-Disposition.
pub open spec fn filename_key() -> Seq<char> {
    seq!['f', 'i', 'l', 'e', 'n', 'a', 'm', 'e', '=']
}

/// The file name a Content-Disposition text gives: the second piece of the
/// text split at `filename=`, with every leading and trailing `"` removed;
/// none when `filename=` does not occur.
pub open spec fn disposition_filename(text: Seq<char>) -> Option<Seq<char>> {
    match find_from(text, filename_key(), 0) {
        None => None,
        Some(k) => {
            let from = k + filename_key().len();
            let to = match find_from(text, filename_key(), from) {
                Some(next) => next as int,
                None => text.len() as int,
            };
            Some(trim_char(text.subrange(from as int, to), '"'))
        },
    }
}

/// What reading a file name out of a Content-Disposition value gives.
pub open spec fn filename_from_header(value: Option<Seq<u8>>) -> Result<Seq<char>, HeaderError> {
    match value {
        None => Err(HeaderError::FilenameNotFound),
        Some(bytes) => if !all_visible_ascii(bytes) {
            Err(HeaderError::NotVisibleAscii)
        } else {
            match disposition_filename(ascii_text(bytes)) {
                Some(name) => Ok(name),
                None => Err(HeaderError::FilenameNotFound),
            }
        },
    }
}

/// The total size a Content-Range text gives: what follows its last `/`
/// (all of it when there is no `/`), read as a `u64`.
pub open spec fn content_range_total(text: Seq<char>) -> Result<u64, ParseIntKind> {
    parse_u64_spec(after_last(text, '/'))
}

/// What reading the file size out of a Content-Range value gives.
pub open spec fn file_size_from_header(value: Option<Seq<u8>>) -> Result<u64, HeaderError> {
    match value {
        None => Err(HeaderError::ContentRangeNotFound),
        Some(bytes) => if !all_visible_ascii(bytes) {
            Err(HeaderError::NotVisibleAscii)
        } else {
            match content_range_total(ascii_text(bytes)) {
                Ok(n) => Ok(n),
                Err(kind) => Err(HeaderError::InvalidFileSize(kind)),
            }
        },
    }
}

/// The first value stored under `name` in a header map, if any.
pub open spec fn first_header_value(map: HeaderMap, name: Seq<char>) -> Option<Seq<u8>> {
    if header_entries(map).dom().contains(name) {
        Some(header_entries(map)[name][0])
    } else {
        None
    }
}

/// Reading the values a download needs out of response headers.
pub trait HeaderUtils {
    /// The (first) Content-Disposition value, if any.
    spec fn content_disposition(&self) -> Option<Seq<u8>>;

    /// The (first) Content-Range value, if any.
    spec fn content_range(&self) -> Option<Seq<u8>>;

    /// The file name that Content-Disposition gives, e.g. `myfile.bin` for
    /// `attachment; filename="myfile.bin"`.
    fn extract_filename(&self) -> (name: Result<String, HeaderError>)
        ensures
            match filename_from_header(self.content_disposition()) {
                Ok(f) => name matches Ok(s) && s@ == f,
                Err(e) => name == Err::<String, HeaderError>(e),
            },
    ;

    /// The total file size in bytes that Content-Range gives, e.g. 360996864
    /// for `bytes 0-0/360996864`.
    fn extract_file_size(&self) -> (size: Result<u64, HeaderError>)
        ensures
            size == file_size_from_header(self.content_range()),
    ;
}

/// `find_from` gives the first position at or after `i` where the needle occurs.
pub proof fn lemma_find_from_first(hay: Seq<char>, needle: Seq<char>, i: nat, k: nat)
    requires
        i <= k,
        occurs_at(hay, needle, k as int),
        forall|j: int| i <= j < k ==> !occurs_at(hay, needle, j),
    ensures
        find_from(hay, needle, i) == Some(k),
    decreases k - i,
{
    if i < k {
        lemma_find_from_first(hay, needle, i + 1, k);
    }
}

/// `find_from` gives nothing when the needle occurs nowhere at or after `i`.
pub proof fn lemma_find_from_none(hay: Seq<char>, needle: Seq<char>, i: nat)
    requires
        forall|j: int| i <= j ==> !occurs_at(hay, needle, j),
    ensures
        find_from(hay, needle, i) is None,
    decreases hay.len() + 1 - i,
{
    if i + needle.len() <= hay.len() {
        lemma_find_from_none(hay, needle, i + 1);
    }
}

/// `filename=` has its only `f` at the start.
pub proof fn lemma_key_has_one_f()
    ensures
        filename_key().len() == 9,
        filename_key()[0] == 'f',
        forall|m: int| 1 <= m < 9 ==> #[trigger] filename_key()[m] != 'f',
{
    let key = filename_key();
    assert(key[1] == 'i' && key[2] == 'l' && key[3] == 'e' && key[4] == 'n');
    assert(key[5] == 'a' && key[6] == 'm' && key[7] == 'e' && key[8] == '=');
}

/// In `prefix`, `filename=`, `rest`, the first `filename=` is the one after
/// the prefix, when the prefix holds none: an occurrence that ran from the
/// prefix into the key would need an `f` where the key has none.
pub proof fn lemma_key_after_prefix_is_first(prefix: Seq<char>, rest: Seq<char>)
    requires
        forall|j: int| !occurs_at(prefix, filename_key(), j),
    ensures
        find_from(prefix + filename_key() + rest, filename_key(), 0) == Some(prefix.len()),
{
    let key = filename_key();
    lemma_key_has_one_f();
    let text = prefix + key + rest;
    let p = prefix.len() as int;
    assert(text.subrange(p, p + 9) =~= key);
    assert(text[p] == 'f');
    assert forall|j: int| 0 <= j < p implies !occurs_at(text, key, j) by {
        if occurs_at(text, key, j) {
            if j + 9 <= p {
                assert(text.subrange(j, j + 9) =~= prefix.subrange(j, j + 9));
                assert(occurs_at(prefix, key, j));
            } else {
                let m = p - j;
                assert(text.subrange(j, j + 9)[m] == text[p]);
                assert(key[m] != 'f');
            }
        }
    }
    lemma_find_from_first(text, key, 0, p as nat);
}

/// After `head`, the text `"`, `name`, `"` holds no `filename=` when the name
/// holds none: one starting at the opening quote fails on `f`, one reaching
/// the closing quote fails on `=`, and any other lies inside the name.
pub proof fn lemma_no_key_in_quoted(head: Seq<char>, name: Seq<char>)
    requires
        forall|j: int| !occurs_at(name, filename_key(), j),
    ensures
        find_from(head + seq!['"'] + name + seq!['"'], filename_key(), head.len()) is None,
{
    let key = filename_key();
    let text = head + seq!['"'] + name + seq!['"'];
    let h = head.len() as int;
    assert forall|j: int| h <= j implies !occurs_at(text, key, j) by {
        if occurs_at(text, key, j) {
            let sub = text.subrange(j, j + 9);
            assert(sub[0] == text[j]);
            assert(sub[8] == text[j + 8]);
            if j == h {
                assert(text[h] == '"');
            } else if j + 8 == text.len() - 1 {
                assert(text[j + 8] == '"');
            } else {
                let m = j - h - 1;
                assert(name.subrange(m, m + 9) =~= sub);
                assert(occurs_at(name, key, m));
            }
        }
    }
    lemma_find_from_none(text, key, h as nat);
}

/// Removing the quotes around a name that neither begins nor ends with a
/// quote gives back the name.
pub proof fn lemma_trim_quotes(name: Seq<char>)
    requires
        name.len() > 0 ==> name[0] != '"' && name.last() != '"',
    ensures
        trim_char(seq!['"'] + name + seq!['"'], '"') == name,
{
    let quoted = seq!['"'] + name + seq!['"'];
    let inner = name + seq!['"'];
    assert(quoted.drop_first() =~= inner);
    assert(strip_leading(quoted, '"') == strip_leading(inner, '"'));
    if name.len() == 0 {
        assert(inner.drop_first() =~= Seq::<char>::empty());
        assert(strip_leading(inner, '"') == strip_leading(Seq::<char>::empty(), '"'));
    } else {
        assert(inner[0] == name[0]);
        assert(strip_leading(inner, '"') == inner);
        assert(inner.drop_last() =~= name);
        assert(strip_trailing(inner, '"') == strip_trailing(name, '"'));
    }
}

/// Law: a Content-Disposition text that reads `filename="<name>"` after a
/// prefix holding no `filename=` gives back `<name>`, as long as the name
/// neither begins nor ends with `"` and holds no `filename=` itself; so
/// `attachment; filename="<name>"` gives `<name>`.
pub proof fn law_disposition_filename_read_back(prefix: Seq<char>, name: Seq<char>)
    requires
        forall|j: int| !occurs_at(prefix, filename_key(), j),
        forall|j: int| !occurs_at(name, filename_key(), j),
        name.len() > 0 ==> name[0] != '"' && name.last() != '"',
    ensures
        disposition_filename(prefix + filename_key() + seq!['"'] + name + seq!['"']) == Some(name),
{
    let key = filename_key();
    let head = prefix + key;
    let text = head + seq!['"'] + name + seq!['"'];
    assert(text =~= prefix + key + (seq!['"'] + name + seq!['"']));
    lemma_key_after_prefix_is_first(prefix, seq!['"'] + name + seq!['"']);
    lemma_no_key_in_quoted(head, name);
    assert(text.subrange(head.len() as int, text.len() as int) =~= seq!['"'] + name + seq!['"']);
    lemma_trim_quotes(name);
}

fn read_filename(text: &str) -> (name: Option<String>)
    ensures
        match disposition_filename(text@) {
            Some(f) => name matches Some(s) && s@ == f,
            None => name is None,
        },
{
    let v = chars_of(text);
    let key: Vec<char> = vec!['f', 'i', 'l', 'e', 'n', 'a', 'm', 'e', '='];
    assert(key@ =~= filename_key());
    match find_from_exec(&v, &key, 0) {
        None => None,
        Some(k) => {
            proof {
                assert(find_from(v@, key@, 0) == Some(k as nat));
                lemma_find_from_bounds(v@, key@, 0, k as nat);
            }
            let len = v.len();
            assert(k + key.len() <= len);
            let from = k + key.len();
            let to = match find_from_exec(&v, &key, from) {
                Some(next) => {
                    proof {
                        lemma_find_from_bounds(v@, key@, from as nat, next as nat);
                    }
                    next
                },
                None => v.len(),
            };
            let (a, b) = trim_bounds(&v, from, to, '"');
            Some(String::from_str(text.substring_char(a, b)))
        },
    }
}

/// A position `find_from` gives lies at or after where the search began, with
/// the whole needle inside the text.
pub proof fn lemma_find_from_bounds(hay: Seq<char>, needle: Seq<char>, i: nat, k: nat)
    requires
        find_from(hay, needle, i) == Some(k),
    ensures
        i <= k,
        k + needle.len() <= hay.len(),
    decreases hay.len() + 1 - i,
{
    if i + needle.len() <= hay.len() && !occurs_at(hay, needle, i as int) {
        lemma_find_from_bounds(hay, needle, i + 1, k);
    }
}

/// When `tail` holds no `sep`, the last piece of `head`, `sep`, `tail` is `tail`.
pub proof fn lemma_after_last_of_tail(head: Seq<char>, sep: char, tail: Seq<char>)
    requires
        forall|i: int| 0 <= i < tail.len() ==> #[trigger] tail[i] != sep,
    ensures
        after_last(head.push(sep) + tail, sep) == tail,
    decreases tail.len(),
{
    let s = head.push(sep) + tail;
    if tail.len() == 0 {
        assert(s =~= head.push(sep));
    } else {
        let t = tail.drop_last();
        assert(s.drop_last() =~= head.push(sep) + t);
        lemma_after_last_of_tail(head, sep, t);
        assert(t.push(tail.last()) =~= tail);
    }
}

/// Law: whatever precedes it, a Content-Range text that ends in `/` and the
/// decimal writing of a `u64` gives back that number as the file size; so
/// `bytes <first>-<last>/<total>` gives `<total>`.
pub proof fn law_content_range_total_read_back(prefix: Seq<char>, total: u64)
    ensures
        content_range_total(prefix.push('/') + decimal(total as nat)) == Ok::<u64, ParseIntKind>(total),
{
    lemma_decimal_digits(total as nat);
    let d = decimal(total as nat);
    assert forall|i: int| 0 <= i < d.len() implies #[trigger] d[i] != '/' by {
        assert(is_digit(d[i]));
    }
    lemma_after_last_of_tail(prefix, '/', d);
    law_parse_decimal_roundtrip(total);
}

fn read_file_size(text: &str) -> (size: Result<u64, ParseIntKind>)
    ensures
        size == content_range_total(text@),
{
    let v = chars_of(text);
    let k = last_piece_start(&v, '/');
    parse_u64_from(&v, k)
}

impl HeaderUtils for HeaderMap {
    open spec fn content_disposition(&self) -> Option<Seq<u8>> {
        first_header_value(*self, "content-disposition"@)
    }

    open spec fn content_range(&self) -> Option<Seq<u8>> {
        first_header_value(*self, "content-range"@)
    }

    fn extract_filename(&self) -> (name: Result<String, HeaderError>) {
        proof {
            reveal_strlit("content-disposition");
        }
        match header_get(self, "content-disposition") {
            None => Err(HeaderError::FilenameNotFound),
            Some(value) => match header_value_to_str(value) {
                Err(_) => Err(HeaderError::NotVisibleAscii),
                Ok(text) => match read_filename(text) {
                    Some(name) => Ok(name),
                    None => Err(HeaderError::FilenameNotFound),
                },
            },
        }
    }

    fn extract_file_size(&self) -> (size: Result<u64, HeaderError>) {
        proof {
            reveal_strlit("content-range");
        }
        match header_get(self, "content-range") {
            None => Err(HeaderError::ContentRangeNotFound),
            Some(value) => match header_value_to_str(value) {
                Err(_) => Err(HeaderError::NotVisibleAscii),
                Ok(text) => match read_file_size(text) {
                    Ok(n) => Ok(n),
                    Err(kind) => Err(HeaderError::InvalidFileSize(kind)),
                },
            },
        }
    }
}

} // verus!
