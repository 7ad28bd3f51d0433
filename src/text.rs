//! Character-level helpers: line splitting, prefix and substring search,
//! whitespace tokens and decimal numbers, each with its mathematical meaning.
use vstd::prelude::*;

verus! {

/// `s` begins with `p`.
pub open spec fn starts_with(s: Seq<char>, p: Seq<char>) -> bool {
    p.len() <= s.len() && s.subrange(0, p.len() as int) =~= p
}

/// `p` occurs in `s` at position `i`.
pub open spec fn occurs_at(s: Seq<char>, p: Seq<char>, i: int) -> bool {
    0 <= i && i + p.len() <= s.len() && s.subrange(i, i + p.len()) =~= p
}

/// A line as `str::lines` yields it: a trailing carriage return is dropped
/// from a line that a newline ended.
pub open spec fn strip_cr(l: Seq<char>) -> Seq<char> {
    if l.len() > 0 && l.last() == '\r' {
        l.drop_last()
    } else {
        l
    }
}

/// The lines of `t` from position `i` on, where the current line began at `start`.
pub open spec fn lines_from(t: Seq<char>, start: int, i: int) -> Seq<Seq<char>>
    decreases t.len() - i,
{
    if i >= t.len() || i < 0 {
        if 0 <= start < t.len() {
            seq![t.subrange(start, t.len() as int)]
        } else {
            seq![]
        }
    } else if t[i] == '\n' {
        seq![strip_cr(t.subrange(start, i))] + lines_from(t, i + 1, i + 1)
    } else {
        lines_from(t, start, i + 1)
    }
}

/// The lines of a text: split at each newline; a final newline opens no
/// further line; a carriage return before a newline belongs to the line break.
pub open spec fn text_lines(t: Seq<char>) -> Seq<Seq<char>> {
    lines_from(t, 0, 0)
}

/// The whitespace of `char::is_whitespace` (the Unicode White_Space property).
pub open spec fn is_ws(c: char) -> bool {
    ('\t' <= c && c <= '\r') || c == ' ' || c == '\u{85}' || c == '\u{A0}' || c == '\u{1680}'
        || ('\u{2000}' <= c && c <= '\u{200A}') || c == '\u{2028}' || c == '\u{2029}'
        || c == '\u{202F}' || c == '\u{205F}' || c == '\u{3000}'
}

/// The whitespace-separated words of `s` from position `i` on, where the
/// current word began at `start`.
pub open spec fn words_from(s: Seq<char>, start: int, i: int) -> Seq<Seq<char>>
    decreases s.len() - i,
{
    if i >= s.len() || i < 0 {
        if 0 <= start < s.len() {
            seq![s.subrange(start, s.len() as int)]
        } else {
            seq![]
        }
    } else if is_ws(s[i]) {
        (if start < i {
            seq![s.subrange(start, i)]
        } else {
            seq![]
        }) + words_from(s, i + 1, i + 1)
    } else {
        words_from(s, start, i + 1)
    }
}

/// The words of `s`, as `str::split_whitespace` yields them.
pub open spec fn words(s: Seq<char>) -> Seq<Seq<char>> {
    words_from(s, 0, 0)
}

/// The first position at or after `i` where `p` occurs in `s`, if any.
pub open spec fn find_from(s: Seq<char>, p: Seq<char>, i: int) -> Option<int>
    decreases s.len() - i,
{
    if i < 0 || i + p.len() > s.len() {
        None
    } else if occurs_at(s, p, i) {
        Some(i)
    } else {
        find_from(s, p, i + 1)
    }
}

/// The last position at or before `i` where `p` occurs in `s`, if any.
pub open spec fn rfind_from(s: Seq<char>, p: Seq<char>, i: int) -> Option<int>
    decreases i + 1,
{
    if i < 0 {
        None
    } else if occurs_at(s, p, i) {
        Some(i)
    } else {
        rfind_from(s, p, i - 1)
    }
}

/// The last position where `p` occurs in `s`, if any.
pub open spec fn rfind(s: Seq<char>, p: Seq<char>) -> Option<int> {
    rfind_from(s, p, s.len() - p.len())
}

pub open spec fn is_digit(c: char) -> bool {
    '0' <= c && c <= '9'
}

pub open spec fn all_digits(s: Seq<char>) -> bool {
    forall|i: int| 0 <= i < s.len() ==> is_digit(#[trigger] s[i])
}

/// The number that a string of decimal digits denotes.
pub open spec fn digits_value(s: Seq<char>) -> nat
    decreases s.len(),
{
    if s.len() == 0 {
        0
    } else {
        digits_value(s.drop_last()) * 10 + ((s.last() as u32) - ('0' as u32)) as nat
    }
}

/// What `str::parse::<u32>` accepts: an optional `+`, then at least one
/// decimal digit, with a value that fits in 32 bits.
pub open spec fn parse_u32(s: Seq<char>) -> Option<u32> {
    let d = if s.len() > 0 && s[0] == '+' {
        s.drop_first()
    } else {
        s
    };
    if d.len() > 0 && all_digits(d) && digits_value(d) <= u32::MAX {
        Some(digits_value(d) as u32)
    } else {
        None
    }
}

/// What follows the prefix `p` in `s`.
pub open spec fn after(s: Seq<char>, p: Seq<char>) -> Seq<char> {
    s.subrange(p.len() as int, s.len() as int)
}

/// Relies on `str::chars`: it yields the characters of the string in order.
#[verifier::external_body]
pub(crate) fn chars_of(s: &str) -> (r: Vec<char>)
    ensures
        r@ == s@,
{
    s.chars().collect()
}

/// Relies on `String`'s `FromIterator<char>`: the string holds the characters in order.
#[verifier::external_body]
pub(crate) fn string_of(cs: &Vec<char>) -> (r: String)
    ensures
        r@ == cs@,
{
    cs.iter().collect()
}

/// A copy of the characters of `v` from `from` up to `to`.
pub fn copy_range(v: &Vec<char>, from: usize, to: usize) -> (r: Vec<char>)
    requires
        from <= to <= v.len(),
    ensures
        r@ == v@.subrange(from as int, to as int),
{
    let mut r: Vec<char> = Vec::new();
    let mut i: usize = from;
    while i < to
        invariant
            from <= i <= to <= v.len(),
            r@ == v@.subrange(from as int, i as int),
        decreases to - i,
    {
        r.push(v[i]);
        i = i + 1;
        assert(r@ =~= v@.subrange(from as int, i as int));
    }
    r
}

/// Whether the characters of `p` occur in `s` at position `i`.
pub fn occurs_at_exec(s: &Vec<char>, p: &str, i: usize) -> (r: bool)
    ensures
        r == occurs_at(s@, p@, i as int),
{
    let n = p.unicode_len();
    if n > s.len() || i > s.len() - n {
        return false;
    }
    let mut k: usize = 0;
    while k < n
        invariant
            n == p@.len(),
            i + n <= s@.len(),
            k <= n,
            forall|j: int| 0 <= j < k ==> s@[i + j] == p@[j],
        decreases n - k,
    {
        assert(i + k < s.len());
        if s[i + k] != p.get_char(k) {
            assert(s@.subrange(i as int, i + n)[k as int] != p@[k as int]);
            return false;
        }
        k = k + 1;
    }
    assert(s@.subrange(i as int, i + n) =~= p@);
    true
}

/// Whether `s` begins with the characters of `p`.
pub fn has_prefix(s: &Vec<char>, p: &str) -> (r: bool)
    ensures
        r == starts_with(s@, p@),
{
    let r = occurs_at_exec(s, p, 0);
    proof {
        if r {
            assert(s@.subrange(0, p@.len() as int) =~= p@);
        }
    }
    r
}

/// Whether `s` holds exactly the characters of `p`.
pub fn equals_str(s: &Vec<char>, p: &str) -> (r: bool)
    ensures
        r == (s@ == p@),
{
    let n = p.unicode_len();
    if n != s.len() {
        return false;
    }
    let r = occurs_at_exec(s, p, 0);
    proof {
        if r {
            assert(s@ =~= s@.subrange(0, n as int));
        } else {
            assert(s@ =~= s@.subrange(0, n as int));
        }
    }
    r
}

/// The first position at or after `from` where `p` occurs in `s`.
pub fn find_exec(s: &Vec<char>, p: &str, from: usize) -> (r: Option<usize>)
    requires
        from <= s.len(),
    ensures
        match r {
            Some(k) => find_from(s@, p@, from as int) == Some(k as int) && occurs_at(
                s@,
                p@,
                k as int,
            ),
            None => find_from(s@, p@, from as int) is None,
        },
{
    let n = p.unicode_len();
    if n > s.len() {
        return None;
    }
    let mut i: usize = from;
    while i <= s.len() - n
        invariant
            n == p@.len(),
            n <= s@.len(),
            from <= i <= s@.len(),
            find_from(s@, p@, from as int) == find_from(s@, p@, i as int),
        decreases s.len() - i,
    {
        if occurs_at_exec(s, p, i) {
            return Some(i);
        }
        i = i + 1;
    }
    None
}

/// The last position where `p` occurs in `s`.
pub fn rfind_exec(s: &Vec<char>, p: &str) -> (r: Option<usize>)
    ensures
        match r {
            Some(k) => rfind(s@, p@) == Some(k as int),
            None => rfind(s@, p@) is None,
        },
{
    let n = p.unicode_len();
    if n > s.len() {
        return None;
    }
    let mut i: usize = s.len() - n;
    loop
        invariant
            n == p@.len(),
            n <= s@.len(),
            i <= s@.len() - n,
            rfind(s@, p@) == rfind_from(s@, p@, i as int),
        decreases i,
    {
        if occurs_at_exec(s, p, i) {
            return Some(i);
        }
        if i == 0 {
            return None;
        }
        i = i - 1;
    }
}

/// The lines of a text, as `text_lines` describes them.
pub fn split_lines(t: &Vec<char>) -> (r: Vec<Vec<char>>)
    ensures
        r@.map_values(|l: Vec<char>| l@) == text_lines(t@),
{
    let mut r: Vec<Vec<char>> = Vec::new();
    let mut start: usize = 0;
    let mut i: usize = 0;
    while i < t.len()
        invariant
            start <= i <= t@.len(),
            r@.map_values(|l: Vec<char>| l@) + lines_from(t@, start as int, i as int)
                == text_lines(t@),
        decreases t.len() - i,
    {
        if t[i] == '\n' {
            let mut end: usize = i;
            if end > start && t[end - 1] == '\r' {
                end = end - 1;
            }
            let line = copy_range(t, start, end);
            proof {
                let whole = t@.subrange(start as int, i as int);
                assert(line@ == strip_cr(whole)) by {
                    if whole.len() > 0 && whole.last() == '\r' {
                        assert(whole.drop_last() =~= line@);
                    } else {
                        assert(whole =~= line@);
                    }
                }
                let old_r = r@.map_values(|l: Vec<char>| l@);
                assert(old_r + lines_from(t@, start as int, i as int) =~= old_r.push(line@)
                    + lines_from(t@, i + 1, i + 1));
            }
            let ghost prev = r@.map_values(|l: Vec<char>| l@);
            r.push(line);
            assert(r@.map_values(|l: Vec<char>| l@) =~= prev.push(line@));
            start = i + 1;
        }
        i = i + 1;
    }
    if start < t.len() {
        let line = copy_range(t, start, t.len());
        let ghost prev = r@.map_values(|l: Vec<char>| l@);
        r.push(line);
        assert(r@.map_values(|l: Vec<char>| l@) =~= prev.push(line@));
    }
    assert(r@.map_values(|l: Vec<char>| l@) =~= text_lines(t@));
    r
}

/// What follows the prefix `p` in `s`.
pub fn rest_after(s: &Vec<char>, p: &str) -> (r: Vec<char>)
    requires
        starts_with(s@, p@),
    ensures
        r@ == after(s@, p@),
{
    copy_range(s, p.unicode_len(), s.len())
}

/// Whether `c` is whitespace.
pub fn is_ws_exec(c: char) -> (r: bool)
    ensures
        r == is_ws(c),
{
    ('\t' <= c && c <= '\r') || c == ' ' || c == '\u{85}' || c == '\u{A0}' || c == '\u{1680}'
        || ('\u{2000}' <= c && c <= '\u{200A}') || c == '\u{2028}' || c == '\u{2029}'
        || c == '\u{202F}' || c == '\u{205F}' || c == '\u{3000}'
}

/// The whitespace-separated words of `s`.
pub fn split_words(s: &Vec<char>) -> (r: Vec<Vec<char>>)
    ensures
        r@.map_values(|w: Vec<char>| w@) == words(s@),
{
    let mut r: Vec<Vec<char>> = Vec::new();
    let mut start: usize = 0;
    let mut i: usize = 0;
    while i < s.len()
        invariant
            start <= i <= s@.len(),
            r@.map_values(|w: Vec<char>| w@) + words_from(s@, start as int, i as int) == words(s@),
        decreases s.len() - i,
    {
        if is_ws_exec(s[i]) {
            if start < i {
                let w = copy_range(s, start, i);
                let ghost prev = r@.map_values(|w: Vec<char>| w@);
                r.push(w);
                assert(r@.map_values(|w: Vec<char>| w@) =~= prev.push(w@));
                assert(prev + words_from(s@, start as int, i as int) =~= prev.push(w@) + words_from(
                    s@,
                    i + 1,
                    i + 1,
                ));
            } else {
                assert(words_from(s@, start as int, i as int) =~= words_from(s@, i + 1, i + 1));
            }
            start = i + 1;
        }
        i = i + 1;
    }
    if start < s.len() {
        let w = copy_range(s, start, s.len());
        let ghost prev = r@.map_values(|w: Vec<char>| w@);
        r.push(w);
        assert(r@.map_values(|w: Vec<char>| w@) =~= prev.push(w@));
    }
    assert(r@.map_values(|w: Vec<char>| w@) =~= words(s@));
    r
}

/// The value of `s` as `str::parse::<u32>` reads it, if it reads one.
pub fn parse_u32_exec(s: &Vec<char>) -> (r: Option<u32>)
    ensures
        r == parse_u32(s@),
{
    let d: usize = if s.len() > 0 && s[0] == '+' {
        1
    } else {
        0
    };
    let ghost ds = if s@.len() > 0 && s@[0] == '+' {
        s@.drop_first()
    } else {
        s@
    };
    assert(ds =~= s@.subrange(d as int, s@.len() as int));
    if d == s.len() {
        return None;
    }
    let mut val: u64 = 0;
    let mut over = false;
    let mut i: usize = d;
    while i < s.len()
        invariant
            d <= i <= s@.len(),
            ds == s@.subrange(d as int, s@.len() as int),
            ds == (if s@.len() > 0 && s@[0] == '+' {
                s@.drop_first()
            } else {
                s@
            }),
            all_digits(s@.subrange(d as int, i as int)),
            !over ==> val == digits_value(s@.subrange(d as int, i as int)) && val <= u32::MAX,
            over ==> digits_value(s@.subrange(d as int, i as int)) > u32::MAX,
        decreases s.len() - i,
    {
        let c = s[i];
        if !('0' <= c && c <= '9') {
            assert(ds[i - d] == c);
            assert(!all_digits(ds));
            return None;
        }
        let ghost pre = s@.subrange(d as int, i as int);
        let ghost nxt = s@.subrange(d as int, i + 1);
        assert(nxt.drop_last() =~= pre);
        assert(nxt.last() == c);
        if !over {
            let dv = (c as u32 - '0' as u32) as u64;
            val = val * 10 + dv;
            if val > 0xffff_ffff {
                over = true;
            }
        }
        i = i + 1;
        assert(all_digits(nxt)) by {
            assert forall|j: int| 0 <= j < nxt.len() implies is_digit(#[trigger] nxt[j]) by {
                if j < pre.len() {
                    assert(nxt[j] == pre[j]);
                }
            }
        }
    }
    assert(s@.subrange(d as int, i as int) =~= ds);
    if over {
        None
    } else {
        Some(val as u32)
    }
}

} // verus!
