//! Whether a table of comma-separated values starts with a header row.

use crate::literal::{is_number_literal, reads_as_number};
use crate::text::{trim, trimmed};
use vstd::prelude::*;
use vstd::string::*;

verus! {

/// The first index from `i` on at which `s` holds `stop`, or its length.
pub open spec fn find_from(s: Seq<char>, stop: char, i: int) -> int
    decreases s.len() - i,
{
    if 0 <= i < s.len() && s[i] != stop {
        find_from(s, stop, i + 1)
    } else {
        i
    }
}

/// A search from `i` ends at `i` or after it, and within `s`.
pub proof fn lemma_find_from_bounds(s: Seq<char>, stop: char, i: int)
    requires
        0 <= i <= s.len(),
    ensures
        i <= find_from(s, stop, i) <= s.len(),
    decreases s.len() - i,
{
    if i < s.len() && s[i] != stop {
        lemma_find_from_bounds(s, stop, i + 1);
    }
}

/// The first record of `s` from `i` on, where `i` is the start of a line: the
/// first line that, without the white space at its ends, is neither empty nor
/// a comment, which starts with `#`. Lines end at a line feed.
pub open spec fn first_record_from(s: Seq<char>, i: int) -> Option<Seq<char>>
    decreases s.len() - i,
    via first_record_from_ends
{
    if 0 <= i < s.len() {
        let end = find_from(s, '\n', i);
        let line = trimmed(s.subrange(i, end));
        if !(line.len() == 0 || line[0] == '#') {
            Some(line)
        } else if end < s.len() {
            first_record_from(s, end + 1)
        } else {
            None
        }
    } else {
        None
    }
}

#[via_fn]
proof fn first_record_from_ends(s: Seq<char>, i: int) {
    if 0 <= i < s.len() {
        lemma_find_from_bounds(s, '\n', i);
    }
}

/// The first field of a record: what stands before its first comma, without
/// the white space at its ends.
pub open spec fn first_field(record: Seq<char>) -> Seq<char> {
    trimmed(record.subrange(0, find_from(record, ',', 0)))
}

/// The table `data` starts with a header row: it has a record, and the first
/// field of its first record cannot be read as a number.
pub open spec fn has_header(data: Seq<char>) -> bool {
    match first_record_from(data, 0) {
        Some(record) => !is_number_literal(first_field(record)),
        None => false,
    }
}

fn find(s: &str, n: usize, stop: char, from: usize) -> (to: usize)
    requires
        n == s@.len(),
        from <= n,
    ensures
        from <= to <= n,
        to == find_from(s@, stop, from as int),
{
    let mut i = from;
    while i < n && s.get_char(i) != stop
        invariant
            from <= i <= n,
            n == s@.len(),
            find_from(s@, stop, from as int) == find_from(s@, stop, i as int),
        decreases n - i,
    {
        i += 1;
    }
    i
}

/// Whether the first record of `data` is a header row: whether the first
/// field of the first line that is neither empty nor a comment cannot be read
/// as a number. A table without a record has no header.
pub fn detect_header(data: &str) -> (b: bool)
    ensures
        b == has_header(data@),
{
    let n = data.unicode_len();
    let mut i: usize = 0;
    while i < n
        invariant
            0 <= i <= n,
            n == data@.len(),
            first_record_from(data@, 0) == first_record_from(data@, i as int),
        decreases n - i,
    {
        let end = find(data, n, '\n', i);
        let line = trim(data.substring_char(i, end));
        if line.unicode_len() == 0 || line.get_char(0) == '#' {
            if end == n {
                return false;
            }
            i = end + 1;
        } else {
            let comma = find(line, line.unicode_len(), ',', 0);
            let field = trim(line.substring_char(0, comma));
            return !reads_as_number(field);
        }
    }
    false
}

} // verus!
