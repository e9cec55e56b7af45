//! Text primitives over sequences of characters: suffixes, line counting and
//! the lexicographic order of strings.

use vstd::prelude::*;
use vstd::string::StringSliceAdditionalSpecFns;
use vstd::utf8::{encode_scalar, encode_utf8};

verus! {

/// Whether `text` ends with `suffix`.
pub open spec fn has_suffix(text: Seq<char>, suffix: Seq<char>) -> bool {
    suffix.len() <= text.len() && text.subrange(text.len() - suffix.len(), text.len() as int)
        == suffix
}

/// How many line feeds `text` holds.
pub open spec fn newline_count(text: Seq<char>) -> nat
    decreases text.len(),
{
    if text.len() == 0 {
        0
    } else {
        newline_count(text.drop_last()) + if text.last() == '\n' {
            1nat
        } else {
            0nat
        }
    }
}

/// How many lines `text` holds: every line feed closes a line, and whatever
/// follows the last line feed is one more line unless it is empty. A carriage
/// return is an ordinary character of its line.
pub open spec fn line_count(text: Seq<char>) -> nat {
    newline_count(text) + if text.len() > 0 && text.last() != '\n' {
        1nat
    } else {
        0nat
    }
}

/// The strict lexicographic order of strings by the code points of their
/// characters: `a` comes before `b` when, after a common prefix, `a` has
/// ended and `b` has not, or `a` goes on with the smaller character.
pub open spec fn lex_lt(a: Seq<char>, b: Seq<char>) -> bool {
    exists|k: int| #[trigger] differs_below(a, b, k)
}

/// `a` and `b` agree on their first `k` characters, and at position `k`
/// either `a` has ended while `b` goes on, or `a` holds the smaller character.
pub open spec fn differs_below(a: Seq<char>, b: Seq<char>, k: int) -> bool {
    &&& 0 <= k <= a.len()
    &&& k < b.len()
    &&& forall|i: int| 0 <= i < k ==> a[i] == b[i]
    &&& k < a.len() ==> a[k] < b[k]
}

/// No string comes before itself.
pub proof fn lemma_lex_lt_irreflexive(a: Seq<char>)
    ensures
        !lex_lt(a, a),
{
    assert forall|k: int| !differs_below(a, a, k) by {}
}

/// What comes before a string comes before all that the string comes before.
pub proof fn lemma_lex_lt_transitive(a: Seq<char>, b: Seq<char>, c: Seq<char>)
    requires
        lex_lt(a, b),
        lex_lt(b, c),
    ensures
        lex_lt(a, c),
{
    let k1 = choose|k: int| differs_below(a, b, k);
    let k2 = choose|k: int| differs_below(b, c, k);
    if k1 <= k2 {
        assert(differs_below(a, c, k1));
    } else {
        assert(differs_below(a, c, k2));
    }
}

/// Of two different strings one comes before the other.
pub proof fn lemma_lex_lt_total(a: Seq<char>, b: Seq<char>)
    ensures
        a == b || lex_lt(a, b) || lex_lt(b, a),
{
    lemma_lex_lt_total_from(a, b, 0);
}

proof fn lemma_lex_lt_total_from(a: Seq<char>, b: Seq<char>, k: int)
    requires
        0 <= k <= a.len(),
        k <= b.len(),
        forall|i: int| 0 <= i < k ==> a[i] == b[i],
    ensures
        a == b || lex_lt(a, b) || lex_lt(b, a),
    decreases a.len() - k,
{
    if k == a.len() || k == b.len() {
        if a.len() == b.len() {
            assert(a =~= b);
        } else if k == a.len() {
            assert(differs_below(a, b, k));
        } else {
            assert(differs_below(b, a, k));
        }
    } else if a[k] == b[k] {
        lemma_lex_lt_total_from(a, b, k + 1);
    } else if a[k] < b[k] {
        assert(differs_below(a, b, k));
    } else {
        assert(differs_below(b, a, k));
    }
}

/// A string has at most as many characters as its encoding has bytes.
pub proof fn lemma_chars_fit_bytes(text: Seq<char>)
    ensures
        text.len() <= encode_utf8(text).len(),
    decreases text.len(),
{
    if text.len() > 0 {
        lemma_chars_fit_bytes(text.drop_first());
        assert(encode_scalar(text[0] as u32).len() >= 1);
    }
}

/// Adding a character to a text adds one to its line feeds if it is one.
pub proof fn lemma_newline_count_push(text: Seq<char>, c: char)
    ensures
        newline_count(text.push(c)) == newline_count(text) + if c == '\n' {
            1nat
        } else {
            0nat
        },
        newline_count(text) <= text.len(),
    decreases text.len(),
{
    assert(text.push(c).drop_last() == text);
    if text.len() > 0 {
        lemma_newline_count_push(text.drop_last(), text.last());
        assert(text.drop_last().push(text.last()) == text);
    }
}

/// The characters of `text`, in order.
pub fn chars_of(text: &str) -> (chars: Vec<char>)
    ensures
        chars@ == text@,
{
    let mut chars: Vec<char> = Vec::new();
    for c in it: text.chars()
        invariant
            it.seq() == text@,
            chars@ == it.seq().take(it.index()),
    {
        chars.push(c);
    }
    chars
}

/// Whether `text` ends with `suffix`.
pub fn ends_with(text: &str, suffix: &str) -> (found: bool)
    ensures
        found == has_suffix(text@, suffix@),
{
    let whole = chars_of(text);
    let tail = chars_of(suffix);
    if tail.len() > whole.len() {
        return false;
    }
    let offset: usize = whole.len() - tail.len();
    let mut i: usize = 0;
    while i < tail.len()
        invariant
            whole@ == text@,
            tail@ == suffix@,
            offset + tail.len() == whole.len(),
            i <= tail.len(),
            forall|k: int| 0 <= k < i ==> whole@[offset + k] == tail@[k],
        decreases tail.len() - i,
    {
        if whole[offset + i] != tail[i] {
            assert(whole@.subrange(offset as int, whole.len() as int)[i as int] != tail@[i as int]);
            return false;
        }
        i += 1;
    }
    assert(whole@.subrange(offset as int, whole.len() as int) =~= tail@);
    true
}

/// The number of lines of `text`.
pub fn count_lines(text: &str) -> (lines: usize)
    ensures
        lines == line_count(text@),
{
    let bound: usize = text.as_bytes().len();
    proof {
        lemma_chars_fit_bytes(text@);
    }
    let mut feeds: usize = 0;
    let mut open_line: bool = false;
    for c in it: text.chars()
        invariant
            it.seq() == text@,
            text@.len() <= bound,
            feeds == newline_count(it.seq().take(it.index())),
            open_line == (it.index() > 0 && it.seq()[it.index() - 1] != '\n'),
            feeds + if open_line { 1nat } else { 0nat } <= it.index(),
    {
        proof {
            let seen = it.seq().take(it.index());
            lemma_newline_count_push(seen, c);
            assert(seen.push(c) == it.seq().take(it.index() + 1));
        }
        if c == '\n' {
            feeds += 1;
            open_line = false;
        } else {
            open_line = true;
        }
    }
    assert(text@.take(text@.len() as int) == text@);
    if open_line {
        feeds + 1
    } else {
        feeds
    }
}

/// Whether `a` comes before `b` in the lexicographic order.
pub fn lex_less(a: &Vec<char>, b: &Vec<char>) -> (less: bool)
    ensures
        less == lex_lt(a@, b@),
{
    let mut i: usize = 0;
    while i < a.len() && i < b.len()
        invariant
            i <= a.len(),
            i <= b.len(),
            forall|k: int| 0 <= k < i ==> a@[k] == b@[k],
        decreases a.len() - i,
    {
        if a[i] != b[i] {
            let less = a[i] < b[i];
            proof {
                if less {
                    assert(differs_below(a@, b@, i as int));
                } else {
                    assert forall|k: int| !differs_below(a@, b@, k) by {
                        if k > i {
                            assert(a@[i as int] != b@[i as int]);
                        }
                    }
                }
            }
            return less;
        }
        i += 1;
    }
    proof {
        if a.len() < b.len() {
            assert(differs_below(a@, b@, i as int));
        } else {
            assert forall|k: int| !differs_below(a@, b@, k) by {}
        }
    }
    a.len() < b.len()
}

} // verus!
