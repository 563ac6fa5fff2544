//! Character and delimiter searches over strings.

use vstd::prelude::*;

verus! {

/// The first index at or after `i` where `target` occurs, or the length if it
/// never does.
pub open spec fn spec_find_char(s: Seq<char>, i: int, target: char) -> int
    decreases s.len() - i,
{
    if i < 0 || i >= s.len() {
        s.len() as int
    } else if s[i] == target {
        i
    } else {
        spec_find_char(s, i + 1, target)
    }
}

/// The first index at or after `i` where the running delimiter depth,
/// starting from `depth`, returns to zero after counting that index's
/// character; the length if it never does.
pub open spec fn spec_find_delimiter(
    s: Seq<char>,
    i: int,
    depth: int,
    open: char,
    close: char,
) -> int
    decreases s.len() - i,
{
    if i < 0 || i >= s.len() {
        s.len() as int
    } else {
        let d = if s[i] == open {
            depth + 1
        } else if s[i] == close {
            depth - 1
        } else {
            depth
        };
        if d == 0 {
            i
        } else {
            spec_find_delimiter(s, i + 1, d, open, close)
        }
    }
}

/// Index searches the tokenizer and tree builder rely on, by character
/// position.
pub trait StringExt: View<V = Seq<char>> {
    /// Scan for the next occurrence of a character.
    fn find_next_char_index(&self, start_index: usize, target: char) -> (r: usize)
        requires
            start_index <= self@.len(),
        ensures
            r == spec_find_char(self@, start_index as int, target),
    ;

    /// Scan for the index of the matching closing delimiter, counting depth
    /// up on the opening one and down on the closing one, starting at depth
    /// zero.
    fn find_next_delimiter_index(&self, start_index: usize, delimiter_pair: (char, char)) -> (r:
        usize)
        requires
            start_index <= self@.len(),
        ensures
            r == spec_find_delimiter(
                self@,
                start_index as int,
                0,
                delimiter_pair.0,
                delimiter_pair.1,
            ),
    ;
}

impl StringExt for String {
    #[verifier::loop_isolation(false)]
    fn find_next_char_index(&self, start_index: usize, target: char) -> (r: usize) {
        let s = self.as_str();
        let len = s.unicode_len();
        let mut i = start_index;
        while i < len
            invariant
                start_index <= i <= len,
                len == self@.len(),
                spec_find_char(self@, start_index as int, target) == spec_find_char(
                    self@,
                    i as int,
                    target,
                ),
            decreases len - i,
        {
            if s.get_char(i) == target {
                return i;
            }
            i = i + 1;
        }
        len
    }

    #[verifier::loop_isolation(false)]
    fn find_next_delimiter_index(&self, start_index: usize, delimiter_pair: (char, char)) -> (r:
        usize) {
        let s = self.as_str();
        let len = s.unicode_len();
        let mut i = start_index;
        let mut depth: i128 = 0;
        while i < len
            invariant
                start_index <= i <= len,
                len == self@.len(),
                -(i as int) <= depth <= i as int,
                spec_find_delimiter(
                    self@,
                    start_index as int,
                    0,
                    delimiter_pair.0,
                    delimiter_pair.1,
                ) == spec_find_delimiter(
                    self@,
                    i as int,
                    depth as int,
                    delimiter_pair.0,
                    delimiter_pair.1,
                ),
            decreases len - i,
        {
            let c = s.get_char(i);
            if c == delimiter_pair.0 {
                depth = depth + 1;
            } else if c == delimiter_pair.1 {
                depth = depth - 1;
            }
            if depth == 0 {
                return i;
            }
            i = i + 1;
        }
        len
    }
}

} // verus!
