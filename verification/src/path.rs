//! What a path string says by itself: the name it is displayed under and
//! whether it names a markdown document. Nothing here touches the file system.

use vstd::prelude::*;
use crate::text::{chars_of, ends_with, has_suffix};

verus! {

/// The text of `path` after its last separator: all of `path` if it has none,
/// nothing if it ends with one.
pub open spec fn last_segment(path: Seq<char>) -> Seq<char>
    decreases path.len(),
{
    if path.len() == 0 || path.last() == '/' {
        Seq::empty()
    } else {
        last_segment(path.drop_last()).push(path.last())
    }
}

/// Whether a segment names an entry: it is neither empty nor the single dot
/// that stands for the place it occurs in.
pub open spec fn names_entry(segment: Seq<char>) -> bool {
    segment.len() > 0 && segment != seq!['.']
}

/// The final segment of `path`: the last one that names an entry, whatever
/// separators and single dots follow it. `None` if no segment names one.
pub open spec fn final_segment(path: Seq<char>) -> Option<Seq<char>>
    decreases path.len(),
{
    if path.len() == 0 {
        None
    } else if names_entry(last_segment(path)) {
        Some(last_segment(path))
    } else {
        final_segment(path.drop_last())
    }
}

/// The name a path is displayed under: its final segment, or the placeholder
/// where it has none or where that segment is the double dot of the parent.
pub open spec fn display_name(path: Seq<char>) -> Seq<char> {
    match final_segment(path) {
        Some(segment) => if segment == seq!['.', '.'] {
            "Untitled"@
        } else {
            segment
        },
        None => "Untitled"@,
    }
}

/// Whether `name` carries one of the two markdown extensions, in lower case.
pub open spec fn is_markdown_name(name: Seq<char>) -> bool {
    has_suffix(name, ".md"@) || has_suffix(name, ".markdown"@)
}

/// Where a stretch without separators reaches the end of `path` and starts
/// behind a separator or at the front, it is the last segment.
pub proof fn lemma_last_segment_is_tail(path: Seq<char>, start: int)
    requires
        0 <= start <= path.len(),
        start == 0 || path[start - 1] == '/',
        forall|k: int| start <= k < path.len() ==> path[k] != '/',
    ensures
        last_segment(path) == path.subrange(start, path.len() as int),
    decreases path.len() - start,
{
    if start < path.len() {
        lemma_last_segment_is_tail(path.drop_last(), start);
        assert(path.drop_last().subrange(start, path.len() - 1).push(path.last())
            =~= path.subrange(start, path.len() as int));
    } else {
        assert(path.subrange(start, path.len() as int) =~= Seq::<char>::empty());
    }
}

/// The bounds of the final segment of `chars`, if it has one.
fn final_segment_bounds(chars: &Vec<char>) -> (bounds: Option<(usize, usize)>)
    ensures
        match bounds {
            Some((start, end)) => start < end <= chars.len() && final_segment(chars@) == Some(
                chars@.subrange(start as int, end as int),
            ),
            None => final_segment(chars@) is None,
        },
{
    let mut end: usize = chars.len();
    assert(chars@.take(end as int) == chars@);
    while end > 0
        invariant
            end <= chars.len(),
            final_segment(chars@) == final_segment(chars@.take(end as int)),
        decreases end,
    {
        let mut start: usize = end;
        while start > 0 && chars[start - 1] != '/'
            invariant
                start <= end <= chars.len(),
                forall|k: int| start <= k < end ==> chars@[k] != '/',
            decreases start,
        {
            start -= 1;
        }
        let ghost head = chars@.take(end as int);
        proof {
            lemma_last_segment_is_tail(head, start as int);
            assert(head.subrange(start as int, end as int) == chars@.subrange(
                start as int,
                end as int,
            ));
        }
        let lone_dot = end - start == 1 && chars[start] == '.';
        proof {
            let segment = chars@.subrange(start as int, end as int);
            if lone_dot {
                assert(segment =~= seq!['.']);
            } else if segment.len() == 1 {
                assert(segment[0] != seq!['.'][0]);
            }
        }
        if end > start && !lone_dot {
            return Some((start, end));
        }
        assert(head.drop_last() == chars@.take(end - 1));
        end -= 1;
    }
    None
}

/// The name `path` is displayed under.
pub fn display_name_of(path: &str) -> (name: String)
    ensures
        name@ == display_name(path@),
{
    let chars = chars_of(path);
    match final_segment_bounds(&chars) {
        Some((start, end)) => {
            let parent = end - start == 2 && chars[start] == '.' && chars[start + 1] == '.';
            proof {
                let segment = chars@.subrange(start as int, end as int);
                if parent {
                    assert(segment =~= seq!['.', '.']);
                } else if segment.len() == 2 {
                    assert(segment[0] != seq!['.', '.'][0] || segment[1] != seq!['.', '.'][1]);
                }
            }
            if parent {
                "Untitled".to_owned()
            } else {
                path.substring_char(start, end).to_owned()
            }
        },
        None => "Untitled".to_owned(),
    }
}

/// Whether `name` carries one of the two markdown extensions. The match is
/// exact: an extension in upper case is another extension.
pub fn has_markdown_extension(name: &str) -> (found: bool)
    ensures
        found == is_markdown_name(name@),
{
    ends_with(name, ".md") || ends_with(name, ".markdown")
}

} // verus!
