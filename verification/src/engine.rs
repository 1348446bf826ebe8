//! The state of one download and the decisions taken before and while its
//! bytes are fetched.

use crate::address::url_filename;
use crate::chunks::{
    plan_chunks, ranges_of, chunk_plan, resolve_thread_count, thread_count_spec, Chunk,
};
use crate::header_map::{header_entries, new_header_map};
use crate::headers::{file_size_from_header, filename_from_header, HeaderError};
use crate::text::{chars_of, decimal, push_decimal};
use reqwest::header::HeaderMap;
use vstd::prelude::*;

pub use crate::address::extract_filename_from_url;
pub use crate::headers::HeaderUtils;

verus! {

broadcast use vstd::string::group_string_axioms;

/// The name a download is saved under when neither the headers nor the URL
/// give one.
pub open spec fn default_filename() -> Seq<char> {
    seq!['d', 'o', 'w', 'n', 'l', 'o', 'a', 'd', '.', 'b', 'i', 'n']
}

/// The name a download is saved under: the one the headers give, else the
/// one the URL gives, else `download.bin`.
pub open spec fn chosen_filename(from_headers: Result<Seq<char>, HeaderError>, url: Seq<char>) -> Seq<char> {
    match from_headers {
        Ok(name) => name,
        Err(_) => match url_filename(url) {
            Some(name) => name,
            None => default_filename(),
        },
    }
}

/// `s` with each `//`, taken from left to right without overlap, made `/`,
/// as `str::replace(s, "//", "/")` does.
pub open spec fn collapse_double_slashes(s: Seq<char>) -> Seq<char>
    decreases s.len(),
{
    if s.len() >= 2 && s[0] == '/' && s[1] == '/' {
        seq!['/'] + collapse_double_slashes(s.skip(2))
    } else if s.len() == 0 {
        s
    } else {
        seq![s[0]] + collapse_double_slashes(s.drop_first())
    }
}

/// Where a file named `filename` is written inside directory `dir`.
pub open spec fn output_path_spec(dir: Seq<char>, filename: Seq<char>) -> Seq<char> {
    collapse_double_slashes(dir + seq!['/'] + filename)
}

/// The value of the Range header that asks for bytes `start..=end`.
pub open spec fn range_header_spec(start: u64, end: u64) -> Seq<char> {
    seq!['b', 'y', 't', 'e', 's', '='] + decimal(start as nat) + seq!['-'] + decimal(end as nat)
}

/// Law: a name the headers give is used as it is; whenever the headers give
/// none, whatever the error, the URL's file name is used when the URL has
/// one, and only otherwise is the file called `download.bin`.
pub proof fn law_filename_fallback(name: Seq<char>, error: HeaderError, url: Seq<char>)
    ensures
        chosen_filename(Ok(name), url) == name,
        url_filename(url) matches Some(f) ==> chosen_filename(Err(error), url) == f,
        url_filename(url) is None ==> chosen_filename(Err(error), url) == seq![
            'd', 'o', 'w', 'n', 'l', 'o', 'a', 'd', '.', 'b', 'i', 'n',
        ],
{
}

/// The file name chosen for a download from what the headers gave and the URL.
pub fn choose_filename(from_headers: Result<String, HeaderError>, url: &str) -> (name: String)
    ensures
        name@ == chosen_filename(
            match from_headers {
                Ok(s) => Ok(s@),
                Err(e) => Err(e),
            },
            url@,
        ),
{
    match from_headers {
        Ok(name) => name,
        Err(_) => match extract_filename_from_url(url) {
            Some(name) => name,
            None => {
                let mut name = String::new();
                name.append("download.bin");
                proof {
                    reveal_strlit("download.bin");
                }
                assert(name@ =~= default_filename());
                name
            },
        },
    }
}

/// Where a file named `filename` is written inside directory `dir`: the two
/// joined by `/`, with each `//` made `/`.
pub fn output_path(dir: &str, filename: &str) -> (path: String)
    ensures
        path@ == output_path_spec(dir@, filename@),
{
    let mut joined = String::from_str(dir);
    joined.append("/");
    joined.append(filename);
    proof {
        reveal_strlit("/");
    }
    assert(joined@ =~= dir@ + seq!['/'] + filename@);
    let text = joined.as_str();
    let v = chars_of(text);
    let len = v.len();
    let mut out = String::new();
    let mut i: usize = 0;
    assert(v@.skip(0) =~= v@);
    while i < len
        invariant
            i <= len,
            len == v@.len(),
            v@ == text@,
            out@ + collapse_double_slashes(v@.skip(i as int)) == collapse_double_slashes(v@),
        decreases len - i,
    {
        let ghost rest = v@.skip(i as int);
        let ghost before = out@;
        assert(rest[0] == v@[i as int]);
        if i + 1 < len && v[i] == '/' && v[i + 1] == '/' {
            assert(rest[1] == v@[i + 1]);
            assert(rest.skip(2) =~= v@.skip(i + 2));
            assert(collapse_double_slashes(rest) == seq!['/'] + collapse_double_slashes(rest.skip(2)));
            out.append("/");
            proof {
                reveal_strlit("/");
            }
            assert(out@ + collapse_double_slashes(v@.skip(i + 2)) =~= before
                + collapse_double_slashes(rest));
            i = i + 2;
        } else {
            assert(rest.drop_first() =~= v@.skip(i + 1));
            assert(collapse_double_slashes(rest) == seq![rest[0]] + collapse_double_slashes(
                rest.drop_first(),
            ));
            assert(text@.subrange(i as int, i + 1) =~= seq![v@[i as int]]);
            out.append(text.substring_char(i, i + 1));
            assert(out@ + collapse_double_slashes(v@.skip(i + 1)) =~= before
                + collapse_double_slashes(rest));
            i = i + 1;
        }
    }
    assert(v@.skip(len as int) =~= Seq::<char>::empty());
    out
}

/// The value of the Range header that asks for bytes `start..=end`,
/// `bytes=<start>-<end>`.
pub fn range_header_value(start: u64, end: u64) -> (value: String)
    ensures
        value@ == range_header_spec(start, end),
{
    let mut value = String::new();
    value.append("bytes=");
    push_decimal(&mut value, start);
    value.append("-");
    push_decimal(&mut value, end);
    proof {
        reveal_strlit("bytes=");
        reveal_strlit("-");
    }
    assert(value@ =~= range_header_spec(start, end));
    value
}

/// How many workers to start: the worker count asked for, but no more than
/// there are chunks to fetch.
pub fn workers_to_spawn(threads: u64, num_chunks: usize) -> (workers: usize)
    ensures
        workers as int == if threads < num_chunks {
            threads as int
        } else {
            num_chunks as int
        },
{
    if (num_chunks as u64) <= threads {
        num_chunks
    } else {
        threads as usize
    }
}

/// Records that `downloaded` bytes of chunk `index` have arrived; an index
/// past the end of the list changes nothing.
pub fn record_progress(chunks: &mut Vec<Chunk>, index: usize, downloaded: u64)
    ensures
        index < old(chunks).len() ==> final(chunks)@ == old(chunks)@.update(
            index as int,
            Chunk { downloaded, ..old(chunks)@[index as int] },
        ),
        index >= old(chunks).len() ==> final(chunks)@ == old(chunks)@,
{
    if index < chunks.len() {
        let current = chunks[index];
        chunks.set(index, Chunk { downloaded, ..current });
    }
}

/// One download: where it comes from, the response headers, what they told
/// about the file, where it is written, and the chunks it is fetched in.
#[derive(Debug)]
pub struct Downloader {
    pub url: String,
    pub headers: HeaderMap,
    pub file_size: Option<u64>,
    pub filename: Option<String>,
    pub chunks: Vec<Chunk>,
}

impl Downloader {
    /// A download of `url` about which nothing is known yet.
    pub fn new(url: &str) -> (d: Self)
        ensures
            d.url@ == url@,
            header_entries(d.headers).dom().is_empty(),
            d.file_size is None,
            d.filename is None,
            d.chunks@.len() == 0,
    {
        Downloader {
            url: String::from_str(url),
            headers: new_header_map(),
            file_size: None,
            filename: None,
            chunks: Vec::new(),
        }
    }

    /// Takes in the headers of the first response: keeps them, chooses the
    /// file name (from the headers, else the URL, else `download.bin`), sets
    /// the file's place inside directory `dir`, and notes the file size when
    /// Content-Range gives it. Returns the chosen file name.
    pub fn take_response_headers(&mut self, headers: HeaderMap, dir: &str) -> (name: String)
        ensures
            final(self).url == old(self).url,
            final(self).chunks == old(self).chunks,
            final(self).headers == headers,
            name@ == chosen_filename(filename_from_header(headers.content_disposition()), old(self).url@),
            final(self).filename matches Some(path) && path@ == output_path_spec(dir@, name@),
            final(self).file_size == match file_size_from_header(headers.content_range()) {
                Ok(n) => Some(n),
                Err(_) => None::<u64>,
            },
    {
        self.headers = headers;
        let from_headers = self.headers.extract_filename();
        let name = choose_filename(from_headers, self.url.as_str());
        self.filename = Some(output_path(dir, name.as_str()));
        self.file_size = match self.headers.extract_file_size() {
            Ok(n) => Some(n),
            Err(_) => None,
        };
        name
    }

    /// Cuts the download into chunks for the worker count asked for, when
    /// the file size is known, adds them after the chunks already listed, and
    /// returns how many workers to start: the worker count, but no more than
    /// there are chunks listed. When the size is unknown nothing is cut and no
    /// worker is started, and the file is fetched whole.
    pub fn plan(&mut self, threads: Option<u8>) -> (workers: usize)
        ensures
            final(self).url == old(self).url,
            final(self).headers == old(self).headers,
            final(self).file_size == old(self).file_size,
            final(self).filename == old(self).filename,
            match old(self).file_size {
                Some(size) => {
                    let before = old(self).chunks@.len();
                    let after = final(self).chunks@;
                    &&& after.take(before as int) == old(self).chunks@
                    &&& ranges_of(after.skip(before as int)) == chunk_plan(size, thread_count_spec(threads))
                    &&& forall|i: int| before <= i < after.len() ==> #[trigger] after[i].downloaded == 0
                    &&& workers as int == if thread_count_spec(threads) < after.len() {
                        thread_count_spec(threads) as int
                    } else {
                        after.len() as int
                    }
                },
                None => final(self).chunks == old(self).chunks && workers == 0,
            },
    {
        let threads = resolve_thread_count(threads);
        match self.file_size {
            Some(size) => {
                let planned = plan_chunks(size, threads);
                let ghost before = self.chunks@;
                let mut i: usize = 0;
                while i < planned.len()
                    invariant
                        i <= planned.len(),
                        self.url == old(self).url,
                        self.headers == old(self).headers,
                        self.file_size == old(self).file_size,
                        self.filename == old(self).filename,
                        before == old(self).chunks@,
                        self.chunks@ == before + planned@.take(i as int),
                    decreases planned.len() - i,
                {
                    self.chunks.push(planned[i]);
                    assert(planned@.take(i + 1) =~= planned@.take(i as int).push(planned@[i as int]));
                    i = i + 1;
                }
                assert(planned@.take(i as int) =~= planned@);
                assert(self.chunks@.take(before.len() as int) =~= before);
                assert(self.chunks@.skip(before.len() as int) =~= planned@);
                workers_to_spawn(threads, self.chunks.len())
            },
            None => 0,
        }
    }
}

} // verus!
