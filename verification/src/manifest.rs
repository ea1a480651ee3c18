//! The concatenation manifest: one `file` entry per local segment.

use vstd::prelude::*;
use crate::playlist::{lines_of, split_lines, views};
use crate::resolver::basename;
use crate::rewriter::{file_scheme, is_local_reference};
use crate::text::{find_tail_start, push_chars, to_chars};

verus! {

/// What stands before the name in an entry: `file '`.
pub open spec fn entry_head() -> Seq<char> {
    seq!['f', 'i', 'l', 'e', ' ', '\'']
}

/// The entry for a local reference: `file '`, the part of the line behind its
/// last `/`, `'` and a line feed. A reference that ends in `/` gives an entry
/// with an empty name.
pub open spec fn manifest_entry(line: Seq<char>) -> Seq<char> {
    (entry_head() + basename(line)).push('\'').push('\n')
}

/// What one line of the rewritten playlist adds to the manifest: its entry
/// where it is a local reference, nothing otherwise.
pub open spec fn manifest_part(line: Seq<char>) -> Seq<char> {
    if is_local_reference(line) {
        manifest_entry(line)
    } else {
        Seq::empty()
    }
}

/// The manifest for `lines`: the parts of all lines, in order.
pub open spec fn manifest_of(lines: Seq<Seq<char>>) -> Seq<char>
    decreases lines.len(),
{
    if lines.len() == 0 {
        Seq::empty()
    } else {
        manifest_of(lines.drop_last()) + manifest_part(lines.last())
    }
}

/// Whether `chars` starts with `file://`.
pub fn starts_with_file_scheme(chars: &Vec<char>) -> (b: bool)
    ensures
        b == is_local_reference(chars@),
{
    let b = chars.len() >= 7 && chars[0] == 'f' && chars[1] == 'i' && chars[2] == 'l' && chars[3]
        == 'e' && chars[4] == ':' && chars[5] == '/' && chars[6] == '/';
    proof {
        if b {
            assert(chars@.subrange(0, 7) =~= file_scheme());
        } else if chars@.len() >= 7 {
            let head = chars@.subrange(0, 7);
            assert(head[0] == chars@[0] && head[1] == chars@[1] && head[2] == chars@[2] && head[3]
                == chars@[3] && head[4] == chars@[4] && head[5] == chars@[5] && head[6]
                == chars@[6]);
        }
    }
    b
}

/// Builds the manifest from the text of a rewritten playlist. Lines that are
/// no local reference are dropped; no line makes it fail.
pub fn emit_manifest(playlist: &str) -> (manifest: String)
    ensures
        manifest@ == manifest_of(lines_of(playlist@)),
{
    let lines = split_lines(playlist);
    let mut manifest = String::new();
    let mut i: usize = 0;
    assert(views(lines@).take(0) =~= Seq::<Seq<char>>::empty());
    while i < lines.len()
        invariant
            i <= lines@.len(),
            views(lines@) == lines_of(playlist@),
            manifest@ == manifest_of(views(lines@).take(i as int)),
        decreases lines@.len() - i,
    {
        let ghost before = manifest@;
        assert(views(lines@).take(i + 1).drop_last() =~= views(lines@).take(i as int));
        assert(views(lines@).take(i + 1).last() == lines@[i as int]@);
        let chars = to_chars(lines[i].as_str());
        if starts_with_file_scheme(&chars) {
            let start = find_tail_start(&chars, 0, chars.len(), '/');
            assert(chars@.subrange(0, chars@.len() as int) =~= chars@);
            assert(chars@.subrange(start as int, chars@.len() as int) =~= basename(chars@));
            manifest.push_str("file '");
            push_chars(&mut manifest, &chars, start, chars.len());
            manifest.push('\'');
            manifest.push('\n');
            proof {
                reveal_strlit("file '");
                assert("file '"@ =~= entry_head());
                assert(manifest@ =~= before + manifest_entry(chars@));
            }
        } else {
            assert(before + manifest_part(chars@) =~= before);
        }
        i += 1;
    }
    assert(views(lines@).take(lines@.len() as int) =~= views(lines@));
    manifest
}

} // verus!
