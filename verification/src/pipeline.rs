//! From playlist text to the list of downloads, and the names of the files
//! that a run leaves behind.

use vstd::prelude::*;
use crate::error::PipelineError;
use crate::manifest::{emit_manifest, entry_head, manifest_of, manifest_part};
use crate::playlist::{
    ends_with_cr, is_directive_line, is_playlist_of, line_texts, lines_of, no_line_feed,
    parse_playlist, rejoined, PlaylistLine,
};
use crate::resolver::{fetch_url, local_filename, resolvable, resolve};
use crate::rewriter::{
    all_usable, file_scheme, first_malformed_at, is_local_reference, is_malformed,
    lemma_rewritten_name_is_local_filename, lemma_rewritten_text_splits, local_reference,
    rewrite_playlist, rewritten_line, rewritten_lines, rewritten_text,
};

verus! {

/// One segment to download: where from, under which name, into which
/// directory.
#[derive(Debug)]
pub struct DownloadTask {
    pub fetch_url: String,
    pub local_filename: String,
    pub destination_directory: String,
}

/// `dir`, a `/`, and `name`.
pub open spec fn path_in(dir: Seq<char>, name: Seq<char>) -> Seq<char> {
    dir.push('/') + name
}

impl DownloadTask {
    /// This is the task for the segment line `line`, which can be resolved.
    pub open spec fn is_for(
        &self,
        base_url: Seq<char>,
        dest_dir: Seq<char>,
        line: Seq<char>,
    ) -> bool {
        &&& resolvable(line)
        &&& self.fetch_url@ == fetch_url(base_url, line)
        &&& self.local_filename@ == local_filename(line)
        &&& self.destination_directory@ == dest_dir
    }

    /// The path that the segment is written to.
    pub fn destination_path(&self) -> (path: String)
        ensures
            path@ == path_in(self.destination_directory@, self.local_filename@),
    {
        join_path(self.destination_directory.as_str(), self.local_filename.as_str())
    }
}

/// The segment lines among `lines`, in order.
pub open spec fn segment_lines(lines: Seq<Seq<char>>) -> Seq<Seq<char>>
    decreases lines.len(),
{
    if lines.len() == 0 {
        Seq::empty()
    } else if is_directive_line(lines.last()) {
        segment_lines(lines.drop_last())
    } else {
        segment_lines(lines.drop_last()).push(lines.last())
    }
}

/// `tasks` are the tasks for `lines`, one for one and in order.
pub open spec fn tasks_match(
    tasks: Seq<DownloadTask>,
    base_url: Seq<char>,
    dest_dir: Seq<char>,
    lines: Seq<Seq<char>>,
) -> bool {
    &&& tasks.len() == lines.len()
    &&& forall|k: int| 0 <= k < tasks.len() ==> (#[trigger] tasks[k]).is_for(base_url, dest_dir, lines[k])
}

/// `playlist` and `manifest` are the two texts that a run derives from the
/// playlist text `text`.
pub open spec fn localized(
    text: Seq<char>,
    dest_dir: Seq<char>,
    playlist: Seq<char>,
    manifest: Seq<char>,
) -> bool {
    &&& playlist == rewritten_text(dest_dir, text)
    &&& manifest == manifest_of(lines_of(playlist))
}

/// Joins a directory or base URL and a name with one `/`.
pub fn join_path(dir: &str, name: &str) -> (path: String)
    ensures
        path@ == path_in(dir@, name@),
{
    let mut path = dir.to_owned();
    path.push('/');
    path.push_str(name);
    path
}

/// The path of the rewritten playlist of the media `media_id`:
/// `{dest_dir}/{media_id}.m3u8`.
pub fn playlist_path(dest_dir: &str, media_id: &str) -> (path: String)
    ensures
        path@ == path_in(dest_dir@, media_id@ + ".m3u8"@),
{
    let mut path = join_path(dest_dir, media_id);
    path.push_str(".m3u8");
    assert(path@ =~= path_in(dest_dir@, media_id@ + ".m3u8"@));
    path
}

/// The path of the manifest of the media `media_id`:
/// `{dest_dir}/{media_id}.txt`.
pub fn manifest_path(dest_dir: &str, media_id: &str) -> (path: String)
    ensures
        path@ == path_in(dest_dir@, media_id@ + ".txt"@),
{
    let mut path = join_path(dest_dir, media_id);
    path.push_str(".txt");
    assert(path@ =~= path_in(dest_dir@, media_id@ + ".txt"@));
    path
}

/// Lists the downloads for a playlist, in playlist order: one task for every
/// line that is no directive.
///
/// Succeeds exactly where no line is malformed; otherwise the error carries
/// the first malformed line, and no task is handed out.
pub fn plan_downloads(text: &str, base_url: &str, dest_dir: &str) -> (r: Result<
    Vec<DownloadTask>,
    PipelineError,
>)
    ensures
        match r {
            Ok(tasks) => all_usable(lines_of(text@)) && tasks_match(
                tasks@,
                base_url@,
                dest_dir@,
                segment_lines(lines_of(text@)),
            ),
            Err(PipelineError::ReferenceMalformed { line }) => exists|at: int|
                first_malformed_at(lines_of(text@), at) && line@ == lines_of(text@)[at],
            Err(_) => false,
        },
{
    let lines = parse_playlist(text);
    let mut tasks: Vec<DownloadTask> = Vec::new();
    let mut i: usize = 0;
    assert(lines_of(text@).take(0) =~= Seq::<Seq<char>>::empty());
    while i < lines.len()
        invariant
            i <= lines@.len(),
            is_playlist_of(lines@, text@),
            forall|k: int| 0 <= k < i ==> !is_malformed(#[trigger] lines_of(text@)[k]),
            tasks_match(tasks@, base_url@, dest_dir@, segment_lines(lines_of(text@).take(i as int))),
        decreases lines@.len() - i,
    {
        let ghost all = lines_of(text@);
        assert(all[i as int] == line_texts(lines@)[i as int]);
        assert(lines@[i as int].well_formed());
        assert(all.take(i + 1).drop_last() =~= all.take(i as int));
        assert(all.take(i + 1).last() == all[i as int]);
        match &lines[i] {
            PlaylistLine::Directive(_) => {},
            PlaylistLine::SegmentReference(line) => {
                match resolve(base_url, line.as_str()) {
                    Ok(segment) => {
                        tasks.push(
                            DownloadTask {
                                fetch_url: segment.fetch_url,
                                local_filename: segment.local_filename,
                                destination_directory: dest_dir.to_owned(),
                            },
                        );
                    },
                    Err(e) => {
                        assert(first_malformed_at(all, i as int));
                        return Err(e);
                    },
                }
            },
        }
        i += 1;
    }
    assert(lines_of(text@).take(lines@.len() as int) =~= lines_of(text@));
    Ok(tasks)
}

/// Derives both texts of a run: the playlist that refers to the local copies
/// and the manifest built from it.
///
/// Succeeds exactly where no line of `text` is malformed; otherwise the error
/// carries the first malformed line.
pub fn localize(text: &str, dest_dir: &str) -> (r: Result<(String, String), PipelineError>)
    ensures
        match r {
            Ok((playlist, manifest)) => all_usable(lines_of(text@)) && localized(
                text@,
                dest_dir@,
                playlist@,
                manifest@,
            ),
            Err(PipelineError::ReferenceMalformed { line }) => exists|at: int|
                first_malformed_at(lines_of(text@), at) && line@ == lines_of(text@)[at],
            Err(_) => false,
        },
{
    match rewrite_playlist(text, dest_dir) {
        Ok(playlist) => {
            let manifest = emit_manifest(playlist.as_str());
            Ok((playlist, manifest))
        },
        Err(e) => Err(e),
    }
}

/// One manifest entry for each of `lines`, named by its local filename.
pub open spec fn entries_for(lines: Seq<Seq<char>>) -> Seq<char>
    decreases lines.len(),
{
    if lines.len() == 0 {
        Seq::empty()
    } else {
        entries_for(lines.drop_last()) + (entry_head() + local_filename(lines.last())).push(
            '\'',
        ).push('\n')
    }
}

/// The manifest of rewritten lines lists the segments in playlist order, each
/// under the local filename that its download is stored under.
pub proof fn lemma_manifest_lists_local_filenames(dest_dir: Seq<char>, lines: Seq<Seq<char>>)
    ensures
        manifest_of(rewritten_lines(dest_dir, lines)) == entries_for(segment_lines(lines)),
    decreases lines.len(),
{
    if lines.len() > 0 {
        let rewritten = rewritten_lines(dest_dir, lines);
        let last = lines.last();
        lemma_manifest_lists_local_filenames(dest_dir, lines.drop_last());
        assert(rewritten.drop_last() =~= rewritten_lines(dest_dir, lines.drop_last()));
        assert(rewritten.last() == rewritten_line(dest_dir, last));
        if is_directive_line(last) {
            if file_scheme().is_prefix_of(last) {
                assert(last[0] == file_scheme()[0]);
            }
            assert(manifest_part(last) =~= Seq::<char>::empty());
            assert(manifest_of(rewritten) =~= manifest_of(rewritten.drop_last()));
        } else {
            lemma_rewritten_name_is_local_filename(dest_dir, last);
            assert(segment_lines(lines).drop_last() =~= segment_lines(lines.drop_last()));
        }
    }
}

/// Lines that add the same parts, one for one, give the same manifest.
pub proof fn lemma_manifest_by_parts(first: Seq<Seq<char>>, second: Seq<Seq<char>>)
    requires
        first.len() == second.len(),
        forall|i: int|
            0 <= i < first.len() ==> manifest_part(#[trigger] first[i]) == manifest_part(second[i]),
    ensures
        manifest_of(first) == manifest_of(second),
    decreases first.len(),
{
    if first.len() > 0 {
        let a = first.drop_last();
        let b = second.drop_last();
        assert forall|i: int| 0 <= i < a.len() implies manifest_part(#[trigger] a[i])
            == manifest_part(b[i]) by {
            assert(a[i] == first[i] && b[i] == second[i]);
            assert(manifest_part(first[i]) == manifest_part(second[i]));
        }
        lemma_manifest_by_parts(a, b);
        assert(manifest_part(first[first.len() - 1]) == manifest_part(second[first.len() - 1]));
    }
}

/// The manifest that is built from the text of the rewritten playlist lists
/// the segments in playlist order, each under the local filename that its
/// download is stored under.
///
/// This holds where the text can be rewritten, the destination directory
/// holds no line feed unless every line is a directive, and no local filename
/// before the last line ends with a carriage return.
pub proof fn lemma_manifest_of_rewritten_text(dest_dir: Seq<char>, text: Seq<char>)
    requires
        all_usable(lines_of(text)),
        no_line_feed(dest_dir) || forall|i: int|
            0 <= i < lines_of(text).len() ==> is_directive_line(#[trigger] lines_of(text)[i]),
        forall|i: int|
            0 <= i < lines_of(text).len() - 1 && !is_directive_line(#[trigger] lines_of(text)[i])
                ==> !ends_with_cr(local_filename(lines_of(text)[i])),
    ensures
        manifest_of(lines_of(rewritten_text(dest_dir, text))) == entries_for(
            segment_lines(lines_of(text)),
        ),
{
    let lines = lines_of(text);
    let rewritten = rewritten_lines(dest_dir, lines);
    lemma_rewritten_text_splits(dest_dir, text);
    let split = rejoined(rewritten);
    assert forall|i: int| 0 <= i < split.len() implies manifest_part(#[trigger] split[i])
        == manifest_part(rewritten[i]) by {
        if i < rewritten.len() - 1 {
            if is_directive_line(lines[i]) {
                assert(rewritten[i] == lines[i]);
                assert(split[i].len() > 0 && split[i][0] == '#');
                if is_local_reference(split[i]) {
                    assert(split[i][0] == file_scheme()[0]);
                }
                if is_local_reference(lines[i]) {
                    assert(lines[i][0] == file_scheme()[0]);
                }
            } else {
                let name = local_filename(lines[i]);
                assert(rewritten[i] == local_reference(dest_dir, lines[i]));
                assert(name.len() > 0);
                assert(rewritten[i].last() == name.last());
            }
        }
    }
    lemma_manifest_by_parts(split, rewritten);
    lemma_manifest_lists_local_filenames(dest_dir, lines);
}

/// Two runs on the same playlist text and destination directory derive the
/// same playlist and the same manifest.
pub proof fn lemma_same_input_same_texts(
    text: Seq<char>,
    dest_dir: Seq<char>,
    first: (Seq<char>, Seq<char>),
    second: (Seq<char>, Seq<char>),
)
    requires
        localized(text, dest_dir, first.0, first.1),
        localized(text, dest_dir, second.0, second.1),
    ensures
        first == second,
{
}

} // verus!
