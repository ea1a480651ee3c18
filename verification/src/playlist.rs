//! A playlist as an ordered sequence of lines.

use vstd::prelude::*;
use crate::text::{
    find_first, first_index, lemma_first_index_is_first, lemma_first_index_unique, to_chars,
    to_string,
};

verus! {

/// A directive line starts with `#`; every other line refers to a segment.
pub open spec fn is_directive_line(line: Seq<char>) -> bool {
    line.len() > 0 && line[0] == '#'
}

/// `line` without one trailing carriage return.
pub open spec fn strip_cr(line: Seq<char>) -> Seq<char> {
    if line.len() > 0 && line.last() == '\r' {
        line.drop_last()
    } else {
        line
    }
}

/// The lines of `text`. A line ends at a line feed, which is dropped together
/// with a carriage return just before it. What stands behind the last line
/// feed is a line of its own unless it is empty.
pub open spec fn lines_of(text: Seq<char>) -> Seq<Seq<char>>
    decreases text.len(),
{
    let end = first_index(text, '\n');
    if text.len() == 0 {
        Seq::empty()
    } else if 0 <= end < text.len() {
        seq![strip_cr(text.take(end))] + lines_of(text.skip(end + 1))
    } else {
        seq![text]
    }
}

/// The lines joined by single line feeds, with none behind the last.
pub open spec fn join_lines(lines: Seq<Seq<char>>) -> Seq<char>
    decreases lines.len(),
{
    if lines.len() == 0 {
        Seq::empty()
    } else if lines.len() == 1 {
        lines[0]
    } else {
        join_lines(lines.drop_last()).push('\n') + lines.last()
    }
}

/// The character sequences that a vector of strings stands for.
pub open spec fn views(lines: Seq<String>) -> Seq<Seq<char>> {
    Seq::new(lines.len(), |i: int| lines[i]@)
}

/// One line of a playlist, tagged by what it is.
#[derive(Debug)]
pub enum PlaylistLine {
    /// A line that starts with `#`; it is passed through.
    Directive(String),
    /// Any other line; it refers to a segment.
    SegmentReference(String),
}

impl PlaylistLine {
    /// The line as it stands in the playlist.
    pub open spec fn text(self) -> Seq<char> {
        match self {
            PlaylistLine::Directive(s) => s@,
            PlaylistLine::SegmentReference(s) => s@,
        }
    }

    /// The tag says what the text is.
    pub open spec fn well_formed(self) -> bool {
        self is Directive <==> is_directive_line(self.text())
    }

    /// A copy of the line as it stands in the playlist.
    pub fn raw_line(&self) -> (line: String)
        ensures
            line@ == self.text(),
    {
        match self {
            PlaylistLine::Directive(line) => line.clone(),
            PlaylistLine::SegmentReference(line) => line.clone(),
        }
    }
}

/// The texts of tagged lines.
pub open spec fn line_texts(lines: Seq<PlaylistLine>) -> Seq<Seq<char>> {
    Seq::new(lines.len(), |i: int| lines[i].text())
}

/// `lines` are the lines of `text`, in order and rightly tagged.
pub open spec fn is_playlist_of(lines: Seq<PlaylistLine>, text: Seq<char>) -> bool {
    &&& line_texts(lines) == lines_of(text)
    &&& forall|i: int| 0 <= i < lines.len() ==> (#[trigger] lines[i]).well_formed()
}

/// Whether `line` is a directive.
pub fn is_directive(line: &str) -> (b: bool)
    ensures
        b == is_directive_line(line@),
{
    let chars = to_chars(line);
    chars.len() > 0 && chars[0] == '#'
}

/// Splits playlist text into its lines.
pub fn split_lines(text: &str) -> (lines: Vec<String>)
    ensures
        views(lines@) == lines_of(text@),
{
    let chars = to_chars(text);
    let mut lines: Vec<String> = Vec::new();
    let mut start: usize = 0;
    assert(text@.skip(0) =~= text@);
    assert(views(lines@) + lines_of(text@) =~= lines_of(text@));
    while start < chars.len()
        invariant
            start <= chars@.len(),
            chars@ == text@,
            lines_of(text@) == views(lines@) + lines_of(text@.skip(start as int)),
        decreases chars@.len() - start,
    {
        let ghost rest = text@.skip(start as int);
        let ghost before = views(lines@);
        let end = find_first(&chars, start, chars.len(), '\n');
        assert(chars@.subrange(start as int, chars@.len() as int) =~= rest);
        if end < chars.len() {
            let stop = if end > start && chars[end - 1] == '\r' {
                end - 1
            } else {
                end
            };
            let line = to_string(&chars, start, stop);
            assert(rest.take(end - start) =~= chars@.subrange(start as int, end as int));
            assert(line@ =~= strip_cr(rest.take(end - start)));
            assert(rest.skip(end - start + 1) =~= text@.skip(end + 1));
            lines.push(line);
            assert(views(lines@) =~= before.push(line@));
            assert(before.push(line@) + lines_of(text@.skip(end + 1)) =~= before + lines_of(rest));
            start = end + 1;
        } else {
            let line = to_string(&chars, start, end);
            assert(line@ =~= rest);
            lines.push(line);
            assert(views(lines@) =~= before.push(line@));
            start = end;
            assert(text@.skip(start as int).len() == 0);
            assert(before.push(line@) + lines_of(text@.skip(start as int)) =~= before + lines_of(
                rest,
            ));
        }
    }
    assert(lines_of(text@.skip(start as int)) =~= Seq::<Seq<char>>::empty());
    assert(views(lines@) + Seq::<Seq<char>>::empty() =~= views(lines@));
    lines
}

/// Tags one line.
pub fn classify(line: String) -> (tagged: PlaylistLine)
    ensures
        tagged.text() == line@,
        tagged.well_formed(),
{
    if is_directive(line.as_str()) {
        PlaylistLine::Directive(line)
    } else {
        PlaylistLine::SegmentReference(line)
    }
}

/// Reads playlist text into its tagged lines, in order.
pub fn parse_playlist(text: &str) -> (lines: Vec<PlaylistLine>)
    ensures
        is_playlist_of(lines@, text@),
{
    let raw = split_lines(text);
    let mut lines: Vec<PlaylistLine> = Vec::new();
    let mut i: usize = 0;
    while i < raw.len()
        invariant
            i <= raw@.len(),
            lines@.len() == i,
            forall|k: int| 0 <= k < i ==> (#[trigger] lines@[k]).text() == raw@[k]@,
            forall|k: int| 0 <= k < i ==> (#[trigger] lines@[k]).well_formed(),
        decreases raw@.len() - i,
    {
        lines.push(classify(raw[i].clone()));
        i += 1;
    }
    assert(line_texts(lines@) =~= views(raw@));
    lines
}

/// Joins lines into text, with a line feed between each two.
pub fn join(lines: &Vec<String>) -> (text: String)
    ensures
        text@ == join_lines(views(lines@)),
{
    let mut text = String::new();
    let mut i: usize = 0;
    assert(views(lines@).take(0) =~= Seq::<Seq<char>>::empty());
    while i < lines.len()
        invariant
            i <= lines@.len(),
            text@ == join_lines(views(lines@).take(i as int)),
        decreases lines@.len() - i,
    {
        let ghost done = views(lines@).take(i as int);
        let ghost next = views(lines@).take(i + 1);
        assert(next.drop_last() =~= done);
        assert(next.last() == lines@[i as int]@);
        if i > 0 {
            text.push('\n');
        } else {
            assert(text@ + lines@[0]@ =~= lines@[0]@);
        }
        text.push_str(lines[i].as_str());
        i += 1;
    }
    assert(views(lines@).take(lines@.len() as int) =~= views(lines@));
    text
}

/// `line` holds no line feed.
pub open spec fn no_line_feed(line: Seq<char>) -> bool {
    forall|k: int| 0 <= k < line.len() ==> line[k] != '\n'
}

/// `line` ends with a carriage return.
pub open spec fn ends_with_cr(line: Seq<char>) -> bool {
    line.len() > 0 && line.last() == '\r'
}

/// What splitting makes of joined lines: every line but the last loses one
/// trailing carriage return.
pub open spec fn rejoined(lines: Seq<Seq<char>>) -> Seq<Seq<char>> {
    Seq::new(
        lines.len(),
        |i: int|
            if i < lines.len() - 1 {
                strip_cr(lines[i])
            } else {
                lines[i]
            },
    )
}

/// No line of a text holds a line feed.
pub proof fn lemma_lines_have_no_line_feed(text: Seq<char>)
    ensures
        forall|i: int| 0 <= i < lines_of(text).len() ==> no_line_feed(#[trigger] lines_of(text)[i]),
    decreases text.len(),
{
    let end = first_index(text, '\n');
    lemma_first_index_is_first(text, '\n');
    if text.len() == 0 {
    } else if end < text.len() {
        let rest = text.skip(end + 1);
        lemma_lines_have_no_line_feed(rest);
        let head = strip_cr(text.take(end));
        assert(no_line_feed(head)) by {
            assert forall|k: int| 0 <= k < head.len() implies head[k] != '\n' by {
                assert(head[k] == text[k]);
            }
        }
        assert forall|i: int| 0 <= i < lines_of(text).len() implies no_line_feed(
            #[trigger] lines_of(text)[i],
        ) by {
            if i > 0 {
                assert(lines_of(text)[i] == lines_of(rest)[i - 1]);
            }
        }
    } else {
    }
}

/// Text that starts with a line without line feed, then a line feed, splits
/// into that line, less a trailing carriage return, and the lines of the rest.
pub proof fn lemma_lines_of_head(head: Seq<char>, rest: Seq<char>)
    requires
        no_line_feed(head),
    ensures
        lines_of(head.push('\n') + rest) == seq![strip_cr(head)] + lines_of(rest),
{
    let text = head.push('\n') + rest;
    assert forall|k: int| 0 <= k < head.len() implies text[k] != '\n' by {
        assert(text[k] == head[k]);
    }
    assert(text[head.len() as int] == '\n');
    lemma_first_index_unique(text, '\n', head.len() as int);
    assert(text.take(head.len() as int) =~= head);
    assert(text.skip(head.len() as int + 1) =~= rest);
}

/// Joining two or more lines puts the first line and a line feed before the
/// others joined.
pub proof fn lemma_join_front(lines: Seq<Seq<char>>)
    requires
        lines.len() >= 2,
    ensures
        join_lines(lines) == lines[0].push('\n') + join_lines(lines.skip(1)),
    decreases lines.len(),
{
    let tail = lines.skip(1);
    if lines.len() == 2 {
        assert(lines.drop_last().len() == 1);
        assert(tail.len() == 1);
        assert(join_lines(lines.drop_last()) == lines[0]);
        assert(join_lines(tail) == lines[1]);
    } else {
        let init = lines.drop_last();
        lemma_join_front(init);
        assert(init.skip(1) =~= tail.drop_last());
        assert(tail.last() == lines.last());
        assert((lines[0].push('\n') + join_lines(tail.drop_last())).push('\n') + lines.last()
            =~= lines[0].push('\n') + (join_lines(tail.drop_last()).push('\n') + lines.last()));
    }
}

/// Splitting what was joined gives the lines back, each but the last without
/// one trailing carriage return, provided that no line holds a line feed and
/// the last line is not empty.
pub proof fn lemma_split_after_join(lines: Seq<Seq<char>>)
    requires
        forall|i: int| 0 <= i < lines.len() ==> no_line_feed(#[trigger] lines[i]),
        lines.len() > 0 ==> lines.last().len() > 0,
    ensures
        lines_of(join_lines(lines)) == rejoined(lines),
    decreases lines.len(),
{
    if lines.len() == 0 {
        assert(rejoined(lines) =~= Seq::<Seq<char>>::empty());
    } else if lines.len() == 1 {
        let only = lines[0];
        assert(no_line_feed(only));
        lemma_first_index_unique(only, '\n', only.len() as int);
        assert(rejoined(lines) =~= seq![only]);
    } else {
        let tail = lines.skip(1);
        lemma_join_front(lines);
        assert(no_line_feed(lines[0]));
        lemma_lines_of_head(lines[0], join_lines(tail));
        assert forall|i: int| 0 <= i < tail.len() implies no_line_feed(#[trigger] tail[i]) by {
            assert(tail[i] == lines[i + 1]);
        }
        assert(tail.last() == lines.last());
        lemma_split_after_join(tail);
        assert(seq![strip_cr(lines[0])] + rejoined(tail) =~= rejoined(lines));
    }
}

} // verus!
