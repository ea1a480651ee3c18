//! The playlist with every segment line pointing at its local copy.

use vstd::prelude::*;
use crate::error::PipelineError;
use crate::playlist::{
    ends_with_cr, is_directive_line, is_playlist_of, join, join_lines,
    lemma_lines_have_no_line_feed, lemma_split_after_join, line_texts, lines_of, no_line_feed,
    parse_playlist, rejoined, strip_cr, views, PlaylistLine,
};
use crate::resolver::{
    basename, before_query, lemma_local_filename_plain, local_filename, local_filename_of,
    resolvable,
};
use crate::text::{
    lemma_first_index_is_first, lemma_tail_start_is_last, lemma_tail_start_unique, tail_start,
};

verus! {

/// The scheme that marks a line as a reference to a local file: `file://`.
pub open spec fn file_scheme() -> Seq<char> {
    seq!['f', 'i', 'l', 'e', ':', '/', '/']
}

/// Whether `line` starts with `file://`.
pub open spec fn is_local_reference(line: Seq<char>) -> bool {
    file_scheme().is_prefix_of(line)
}

/// The local reference that replaces a segment line: scheme, destination
/// directory, `/`, local filename.
pub open spec fn local_reference(dest_dir: Seq<char>, line: Seq<char>) -> Seq<char> {
    (file_scheme() + dest_dir).push('/') + local_filename(line)
}

/// What a line becomes: a directive stays, a segment line becomes its local
/// reference.
pub open spec fn rewritten_line(dest_dir: Seq<char>, line: Seq<char>) -> Seq<char> {
    if is_directive_line(line) {
        line
    } else {
        local_reference(dest_dir, line)
    }
}

/// The lines rewritten one by one, in place.
pub open spec fn rewritten_lines(dest_dir: Seq<char>, lines: Seq<Seq<char>>) -> Seq<Seq<char>> {
    Seq::new(lines.len(), |i: int| rewritten_line(dest_dir, lines[i]))
}

/// The text of the rewritten playlist: the rewritten lines, joined.
pub open spec fn rewritten_text(dest_dir: Seq<char>, text: Seq<char>) -> Seq<char> {
    join_lines(rewritten_lines(dest_dir, lines_of(text)))
}

/// A line is malformed where it is a segment line without a local filename
/// that can be used for a file.
pub open spec fn is_malformed(line: Seq<char>) -> bool {
    !is_directive_line(line) && !resolvable(line)
}

/// `at` is the position of the first malformed line of `lines`.
pub open spec fn first_malformed_at(lines: Seq<Seq<char>>, at: int) -> bool {
    &&& 0 <= at < lines.len()
    &&& is_malformed(lines[at])
    &&& forall|k: int| 0 <= k < at ==> !is_malformed(#[trigger] lines[k])
}

/// No line of `lines` is malformed.
pub open spec fn all_usable(lines: Seq<Seq<char>>) -> bool {
    forall|k: int| 0 <= k < lines.len() ==> !is_malformed(#[trigger] lines[k])
}

/// The name that the manifest takes from a rewritten segment line is the local
/// filename that the resolver gives to the line it replaces, and the rewritten
/// line is marked as a local reference.
pub proof fn lemma_rewritten_name_is_local_filename(dest_dir: Seq<char>, line: Seq<char>)
    requires
        !is_directive_line(line),
    ensures
        rewritten_line(dest_dir, line) == local_reference(dest_dir, line),
        is_local_reference(rewritten_line(dest_dir, line)),
        basename(rewritten_line(dest_dir, line)) == local_filename(line),
{
    let head = (file_scheme() + dest_dir).push('/');
    let name = local_filename(line);
    let whole = head + name;
    lemma_local_filename_plain(line);
    assert forall|k: int| head.len() <= k < whole.len() implies whole[k] != '/' by {
        assert(whole[k] == name[k - head.len()]);
        assert(name.contains(name[k - head.len()]));
    }
    assert(whole[head.len() - 1] == '/');
    lemma_tail_start_unique(whole, '/', head.len() as int);
    assert(whole.skip(head.len() as int) =~= name);
    assert(whole.take(file_scheme().len() as int) =~= file_scheme());
}

/// Rewriting keeps the number of lines, leaves every directive where it was
/// and as it was, and puts a local reference in the place of every other line.
pub proof fn lemma_rewrite_preserves_order(dest_dir: Seq<char>, lines: Seq<Seq<char>>)
    ensures
        rewritten_lines(dest_dir, lines).len() == lines.len(),
        forall|i: int|
            0 <= i < lines.len() && is_directive_line(lines[i]) ==> #[trigger] rewritten_lines(
                dest_dir,
                lines,
            )[i] == lines[i],
        forall|i: int|
            0 <= i < lines.len() && !is_directive_line(lines[i]) ==> #[trigger] rewritten_lines(
                dest_dir,
                lines,
            )[i] == local_reference(dest_dir, lines[i]),
{
}

/// A local reference is not empty, and holds no line feed where neither the
/// directory nor the line does.
pub proof fn lemma_local_reference_on_one_line(dest_dir: Seq<char>, line: Seq<char>)
    requires
        no_line_feed(dest_dir),
        no_line_feed(line),
    ensures
        no_line_feed(local_reference(dest_dir, line)),
        local_reference(dest_dir, line).len() > 0,
{
    let path = before_query(line);
    let name = local_filename(line);
    let head = (file_scheme() + dest_dir).push('/');
    let whole = local_reference(dest_dir, line);
    lemma_first_index_is_first(line, '?');
    lemma_tail_start_is_last(path, '/');
    assert forall|k: int| 0 <= k < whole.len() implies whole[k] != '\n' by {
        if k < 7 {
            assert(whole[k] == file_scheme()[k]);
        } else if k < 7 + dest_dir.len() {
            assert(whole[k] == dest_dir[k - 7]);
        } else if k == 7 + dest_dir.len() {
            assert(whole[k] == '/');
        } else {
            let j = k - head.len();
            assert(whole[k] == name[j]);
            assert(name[j] == path[tail_start(path, '/') + j]);
            assert(path[tail_start(path, '/') + j] == line[tail_start(path, '/') + j]);
        }
    }
}

/// Splitting the text of the rewritten playlist gives the rewritten lines
/// back, each but the last without one trailing carriage return.
///
/// This holds where the text can be rewritten and the destination directory
/// holds no line feed unless every line is a directive.
pub proof fn lemma_rewritten_text_splits(dest_dir: Seq<char>, text: Seq<char>)
    requires
        all_usable(lines_of(text)),
        no_line_feed(dest_dir) || forall|i: int|
            0 <= i < lines_of(text).len() ==> is_directive_line(#[trigger] lines_of(text)[i]),
    ensures
        lines_of(rewritten_text(dest_dir, text)) == rejoined(
            rewritten_lines(dest_dir, lines_of(text)),
        ),
{
    let lines = lines_of(text);
    let rewritten = rewritten_lines(dest_dir, lines);
    lemma_lines_have_no_line_feed(text);
    assert forall|i: int| 0 <= i < rewritten.len() implies no_line_feed(
        #[trigger] rewritten[i],
    ) && rewritten[i].len() > 0 by {
        assert(no_line_feed(lines[i]));
        if !is_directive_line(lines[i]) {
            lemma_local_reference_on_one_line(dest_dir, lines[i]);
        }
    }
    lemma_split_after_join(rewritten);
}

/// The lines of the rewritten playlist: as many as the playlist had, every
/// directive where it was and as it was, and a local reference in the place of
/// every other line (a line before the last without one trailing carriage
/// return).
///
/// This holds where the text can be rewritten, the destination directory
/// holds no line feed unless every line is a directive, and no directive
/// before the last line ends with a carriage return.
pub proof fn lemma_rewritten_text_keeps_lines(dest_dir: Seq<char>, text: Seq<char>)
    requires
        all_usable(lines_of(text)),
        no_line_feed(dest_dir) || forall|i: int|
            0 <= i < lines_of(text).len() ==> is_directive_line(#[trigger] lines_of(text)[i]),
        forall|i: int|
            0 <= i < lines_of(text).len() - 1 && is_directive_line(#[trigger] lines_of(text)[i])
                ==> !ends_with_cr(lines_of(text)[i]),
    ensures
        lines_of(rewritten_text(dest_dir, text)).len() == lines_of(text).len(),
        forall|i: int|
            0 <= i < lines_of(text).len() && is_directive_line(#[trigger] lines_of(text)[i])
                ==> lines_of(rewritten_text(dest_dir, text))[i] == lines_of(text)[i],
        forall|i: int|
            0 <= i < lines_of(text).len() && !is_directive_line(#[trigger] lines_of(text)[i])
                ==> lines_of(rewritten_text(dest_dir, text))[i] == (if i < lines_of(text).len() - 1 {
                strip_cr(local_reference(dest_dir, lines_of(text)[i]))
            } else {
                local_reference(dest_dir, lines_of(text)[i])
            }),
{
    let lines = lines_of(text);
    let rewritten = rewritten_lines(dest_dir, lines);
    lemma_rewritten_text_splits(dest_dir, text);
    assert forall|i: int|
        0 <= i < lines.len() && is_directive_line(#[trigger] lines[i]) implies rejoined(
        rewritten,
    )[i] == lines[i] by {
        assert(rewritten[i] == lines[i]);
    }
}

/// The local reference for a segment line; `None` where the line has no
/// local filename that can be used for a file.
pub fn local_reference_of(dest_dir: &str, line: &str) -> (out: Option<String>)
    ensures
        resolvable(line@) ==> (out matches Some(l) && l@ == local_reference(dest_dir@, line@)),
        !resolvable(line@) ==> out is None,
{
    match local_filename_of(line) {
        Some(name) => {
            let mut out = String::new();
            out.push_str("file://");
            out.push_str(dest_dir);
            out.push('/');
            out.push_str(name.as_str());
            proof {
                reveal_strlit("file://");
                assert("file://"@ =~= file_scheme());
                assert(out@ =~= local_reference(dest_dir@, line@));
            }
            Some(out)
        },
        None => None,
    }
}

/// Rewrites one tagged line; `None` where it is malformed.
pub fn rewrite_line(dest_dir: &str, line: &PlaylistLine) -> (out: Option<String>)
    requires
        line.well_formed(),
    ensures
        !is_malformed(line.text()) ==> (out matches Some(l) && l@ == rewritten_line(
            dest_dir@,
            line.text(),
        )),
        is_malformed(line.text()) ==> out is None,
{
    match line {
        PlaylistLine::Directive(text) => Some(text.clone()),
        PlaylistLine::SegmentReference(text) => local_reference_of(dest_dir, text.as_str()),
    }
}

/// Rewrites playlist text so that it refers to the local copies under
/// `dest_dir`.
///
/// Succeeds exactly where no line is malformed; otherwise the error carries
/// the first malformed line.
pub fn rewrite_playlist(text: &str, dest_dir: &str) -> (r: Result<String, PipelineError>)
    ensures
        match r {
            Ok(out) => all_usable(lines_of(text@)) && out@ == rewritten_text(dest_dir@, text@),
            Err(PipelineError::ReferenceMalformed { line }) => exists|at: int|
                first_malformed_at(lines_of(text@), at) && line@ == lines_of(text@)[at],
            Err(_) => false,
        },
{
    let lines = parse_playlist(text);
    let mut out: Vec<String> = Vec::new();
    let mut i: usize = 0;
    while i < lines.len()
        invariant
            i <= lines@.len(),
            is_playlist_of(lines@, text@),
            out@.len() == i,
            forall|k: int| 0 <= k < i ==> !is_malformed(#[trigger] lines_of(text@)[k]),
            forall|k: int|
                0 <= k < i ==> (#[trigger] out@[k])@ == rewritten_line(
                    dest_dir@,
                    lines_of(text@)[k],
                ),
        decreases lines@.len() - i,
    {
        assert(line_texts(lines@)[i as int] == lines@[i as int].text());
        match rewrite_line(dest_dir, &lines[i]) {
            Some(line) => {
                out.push(line);
            },
            None => {
                assert(first_malformed_at(lines_of(text@), i as int));
                return Err(PipelineError::ReferenceMalformed { line: lines[i].raw_line() });
            },
        }
        i += 1;
    }
    assert(views(out@) =~= rewritten_lines(dest_dir@, lines_of(text@)));
    Ok(join(&out))
}

} // verus!
