//! Decoding of hunk headers, `@@ -a[,b] +c[,d] @@ ...`.
use vstd::prelude::*;
use crate::text::{
    after, chars_of, copy_range, find_exec, find_from, has_prefix, parse_u32, parse_u32_exec,
    rest_after, split_words, starts_with, words,
};

verus! {

/// A number that does not read as one counts as zero.
pub open spec fn or_zero(o: Option<u32>) -> u32 {
    match o {
        Some(v) => v,
        None => 0,
    }
}

/// A range `start` or `start,count`; a missing count is one.
pub open spec fn range_of(r: Seq<char>) -> (u32, u32) {
    match find_from(r, ","@, 0) {
        Some(k) => (
            or_zero(parse_u32(r.subrange(0, k))),
            or_zero(parse_u32(r.subrange(k + 1, r.len() as int))),
        ),
        None => (or_zero(parse_u32(r)), 1),
    }
}

/// The old start, old count, new start and new count of a hunk header line,
/// or `None` where the line has no header shape: it must begin with `@@ `, a
/// later ` @@` must close the ranges, and of the words between them the first
/// must begin with `-` and the second with `+`.
pub open spec fn hunk_header(line: Seq<char>) -> Option<(u32, u32, u32, u32)> {
    if !starts_with(line, "@@ "@) {
        None
    } else {
        let rest = after(line, "@@ "@);
        match find_from(rest, " @@"@, 0) {
            None => None,
            Some(end) => {
                let w = words(rest.subrange(0, end));
                if w.len() >= 2 && starts_with(w[0], "-"@) && starts_with(w[1], "+"@) {
                    let old = range_of(after(w[0], "-"@));
                    let new = range_of(after(w[1], "+"@));
                    Some((old.0, old.1, new.0, new.1))
                } else {
                    None
                }
            },
        }
    }
}

/// Decodes a range `start` or `start,count`.
pub fn parse_range(range: &str) -> (r: (u32, u32))
    ensures
        r == range_of(range@),
{
    let cs = chars_of(range);
    decode_range(&cs)
}

/// Decodes a hunk header line into old start, old count, new start and new count.
pub fn parse_hunk_header(line: &str) -> (r: Option<(u32, u32, u32, u32)>)
    ensures
        r == hunk_header(line@),
{
    let cs = chars_of(line);
    decode_hunk_header(&cs)
}

/// Decodes a range given as characters.
pub fn decode_range(range: &Vec<char>) -> (r: (u32, u32))
    ensures
        r == range_of(range@),
{
    match find_exec(range, ",", 0) {
        Some(k) => {
            proof {
                reveal_strlit(",");
            }
            let start = copy_range(range, 0, k);
            let count = copy_range(range, k + 1, range.len());
            let s = match parse_u32_exec(&start) {
                Some(v) => v,
                None => 0,
            };
            let c = match parse_u32_exec(&count) {
                Some(v) => v,
                None => 0,
            };
            (s, c)
        },
        None => {
            let s = match parse_u32_exec(range) {
                Some(v) => v,
                None => 0,
            };
            (s, 1)
        },
    }
}

/// Decodes a hunk header line given as characters.
pub fn decode_hunk_header(line: &Vec<char>) -> (r: Option<(u32, u32, u32, u32)>)
    ensures
        r == hunk_header(line@),
{
    if !has_prefix(line, "@@ ") {
        return None;
    }
    let rest = rest_after(line, "@@ ");
    let end = match find_exec(&rest, " @@", 0) {
        Some(e) => e,
        None => {
            return None;
        },
    };
    proof {
        reveal_strlit(" @@");
    }
    let part = copy_range(&rest, 0, end);
    let w = split_words(&part);
    proof {
        assert(w@.map_values(|x: Vec<char>| x@).len() == w@.len());
    }
    if w.len() < 2 {
        return None;
    }
    proof {
        assert(w@.map_values(|x: Vec<char>| x@)[0] == w@[0]@);
        assert(w@.map_values(|x: Vec<char>| x@)[1] == w@[1]@);
    }
    if !has_prefix(&w[0], "-") || !has_prefix(&w[1], "+") {
        return None;
    }
    let old_range = rest_after(&w[0], "-");
    let new_range = rest_after(&w[1], "+");
    let (old_start, old_count) = decode_range(&old_range);
    let (new_start, new_count) = decode_range(&new_range);
    Some((old_start, old_count, new_start, new_count))
}

} // verus!
