//! From a playlist line to the URL to fetch and the name to store it under.

use vstd::prelude::*;
use crate::error::PipelineError;
use crate::text::{
    find_first, find_tail_start, first_index, lemma_first_index_is_first,
    lemma_tail_start_is_last, tail_start, to_chars, to_string,
};

verus! {

/// The part of `line` before its first `?`; all of it where it holds none.
pub open spec fn before_query(line: Seq<char>) -> Seq<char> {
    line.take(first_index(line, '?'))
}

/// The part of `line` from its first `?` on; empty where it holds none.
pub open spec fn query_string(line: Seq<char>) -> Seq<char> {
    line.skip(first_index(line, '?'))
}

/// The part of `path` behind its last `/`; all of it where it holds none.
pub open spec fn basename(path: Seq<char>) -> Seq<char> {
    path.skip(tail_start(path, '/'))
}

/// The name a segment is stored under: the last path component of the line
/// without its query string.
pub open spec fn local_filename(line: Seq<char>) -> Seq<char> {
    basename(before_query(line))
}

/// The URL a segment is fetched from: base and the whole line, query string
/// included, with one `/` between them.
pub open spec fn fetch_url(base_url: Seq<char>, line: Seq<char>) -> Seq<char> {
    base_url.push('/') + line
}

/// A name can be used for a file where it is not empty and is neither `.` nor
/// `..`, which stand for the directory itself and for its parent.
pub open spec fn usable_name(name: Seq<char>) -> bool {
    name.len() > 0 && name != seq!['.'] && name != seq!['.', '.']
}

/// A line can be resolved where its local filename can be used for a file.
pub open spec fn resolvable(line: Seq<char>) -> bool {
    usable_name(local_filename(line))
}

/// One segment of the playlist, ready to be fetched.
#[derive(Debug)]
pub struct SegmentReference {
    /// The playlist line as it stood.
    pub raw_line: String,
    /// Where to fetch the segment from.
    pub fetch_url: String,
    /// The file name to store it under, inside the destination directory.
    pub local_filename: String,
}

impl SegmentReference {
    /// This reference is what `line` resolves to against `base_url`.
    pub open spec fn resolves(&self, base_url: Seq<char>, line: Seq<char>) -> bool {
        &&& resolvable(line)
        &&& self.raw_line@ == line
        &&& self.fetch_url@ == fetch_url(base_url, line)
        &&& self.local_filename@ == local_filename(line)
    }

    /// The stored name is not empty, is neither `.` nor `..`, and holds
    /// neither `/` nor `?`: joined to the destination directory it stays
    /// directly inside it.
    pub open spec fn well_formed(&self) -> bool {
        &&& usable_name(self.local_filename@)
        &&& !self.local_filename@.contains('/')
        &&& !self.local_filename@.contains('?')
    }
}

/// A local filename holds neither `/` nor `?`.
pub proof fn lemma_local_filename_plain(line: Seq<char>)
    ensures
        !local_filename(line).contains('/'),
        !local_filename(line).contains('?'),
{
    let path = before_query(line);
    lemma_first_index_is_first(line, '?');
    lemma_tail_start_is_last(path, '/');
    let name = local_filename(line);
    assert forall|k: int| 0 <= k < name.len() implies name[k] != '/' && name[k] != '?' by {
        let j = tail_start(path, '/') + k;
        assert(name[k] == path[j]);
        assert(path[j] == line[j]);
    }
}

/// A line with a query string keeps it in the fetch URL, which ends with the
/// query string, and loses it in the local filename.
pub proof fn lemma_query_kept_and_stripped(base_url: Seq<char>, line: Seq<char>)
    requires
        line.contains('?'),
    ensures
        query_string(line).len() > 0,
        query_string(line)[0] == '?',
        fetch_url(base_url, line) == base_url.push('/') + before_query(line) + query_string(line),
        !local_filename(line).contains('?'),
{
    lemma_first_index_is_first(line, '?');
    lemma_local_filename_plain(line);
    let q = first_index(line, '?');
    if q == line.len() {
        let k = choose|k: int| 0 <= k < line.len() && line[k] == '?';
        assert(line[k] != '?');
    }
    assert(before_query(line) + query_string(line) =~= line);
    assert(base_url.push('/') + before_query(line) + query_string(line) =~= base_url.push('/')
        + line);
}

/// The local filename of `line`, or `None` where it has none that can be used
/// for a file: where it is empty, `.` or `..`.
pub fn local_filename_of(line: &str) -> (name: Option<String>)
    ensures
        resolvable(line@) ==> (name matches Some(n) && n@ == local_filename(line@)),
        !resolvable(line@) ==> name is None,
{
    let chars = to_chars(line);
    let query = find_first(&chars, 0, chars.len(), '?');
    assert(chars@.subrange(0, chars@.len() as int) =~= line@);
    let start = find_tail_start(&chars, 0, query, '/');
    assert(chars@.subrange(0, query as int) =~= before_query(line@));
    assert(chars@.subrange(start as int, query as int) =~= local_filename(line@));
    let length = query - start;
    let dots = (length == 1 && chars[start] == '.') || (length == 2 && chars[start] == '.'
        && chars[start + 1] == '.');
    proof {
        let name = local_filename(line@);
        if length == 1 && chars@[start as int] == '.' {
            assert(name =~= seq!['.']);
        }
        if length == 2 && chars@[start as int] == '.' && chars@[start + 1] == '.' {
            assert(name =~= seq!['.', '.']);
        }
        if name == seq!['.'] {
            assert(name.len() == 1 && name[0] == '.');
        }
        if name == seq!['.', '.'] {
            assert(name.len() == 2 && name[0] == '.' && name[1] == '.');
        }
    }
    if length == 0 || dots {
        None
    } else {
        Some(to_string(&chars, start, query))
    }
}

/// Resolves a segment line against the base URL.
///
/// Succeeds exactly on the lines whose local filename can be used for a file;
/// on any other, such as a line that ends in `/` or in `..`, the error carries
/// the line.
pub fn resolve(base_url: &str, line: &str) -> (r: Result<SegmentReference, PipelineError>)
    ensures
        resolvable(line@) ==> (r matches Ok(seg) && seg.resolves(base_url@, line@)
            && seg.well_formed()),
        !resolvable(line@) ==> (r matches Err(PipelineError::ReferenceMalformed { line: l }) && l@
            == line@),
{
    match local_filename_of(line) {
        Some(name) => {
            let mut url = base_url.to_owned();
            url.push('/');
            url.push_str(line);
            proof {
                lemma_local_filename_plain(line@);
            }
            Ok(SegmentReference { raw_line: line.to_owned(), fetch_url: url, local_filename: name })
        },
        None => Err(PipelineError::ReferenceMalformed { line: line.to_owned() }),
    }
}

} // verus!
