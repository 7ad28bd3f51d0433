//! Properties of the parser, proved over its state machine.
use vstd::prelude::*;
use vstd::arithmetic::div_mod::{lemma_add_mod_noop, lemma_small_mod};
use crate::header::hunk_header;
use crate::model::{FileStatus, FileView, HunkView, LineType, LineView};
use crate::parser::{
    body_line, close_file, close_hunk, is_boundary, meta_line, next_no, no_newline_line,
    opened_file, parse_lines, parse_text, run, step, with_line, ParseState,
};
use crate::text::{after, starts_with, text_lines};

verus! {

/// The number of lines that open a file block.
pub open spec fn count_boundaries(lines: Seq<Seq<char>>) -> nat
    decreases lines.len(),
{
    if lines.len() == 0 {
        0
    } else {
        count_boundaries(lines.drop_last()) + if is_boundary(lines.last()) {
            1nat
        } else {
            0nat
        }
    }
}

/// A line number on the 32-bit counter.
pub open spec fn wrap32(x: int) -> u32 {
    (x % 0x1_0000_0000) as u32
}

/// How many of the lines hold a place in the old file.
pub open spec fn old_lines_before(ls: Seq<LineView>) -> nat
    decreases ls.len(),
{
    if ls.len() == 0 {
        0
    } else {
        old_lines_before(ls.drop_last()) + if ls.last().line_type == LineType::Addition {
            0nat
        } else {
            1nat
        }
    }
}

/// How many of the lines hold a place in the new file.
pub open spec fn new_lines_before(ls: Seq<LineView>) -> nat
    decreases ls.len(),
{
    if ls.len() == 0 {
        0
    } else {
        new_lines_before(ls.drop_last()) + if ls.last().line_type == LineType::Deletion {
            0nat
        } else {
            1nat
        }
    }
}

/// Line `k` of hunk `h` carries the old number that counts on from
/// `old_start` over the earlier Deletion and Context lines, unless it is an
/// Addition, and the new number that counts on from `new_start` over the
/// earlier Addition and Context lines, unless it is a Deletion.
pub open spec fn line_numbered(h: HunkView, k: int) -> bool {
    let l = h.lines[k];
    &&& l.old_line_no == if l.line_type == LineType::Addition {
        None
    } else {
        Some(wrap32(h.old_start + old_lines_before(h.lines.take(k))))
    }
    &&& l.new_line_no == if l.line_type == LineType::Deletion {
        None
    } else {
        Some(wrap32(h.new_start + new_lines_before(h.lines.take(k))))
    }
}

pub open spec fn hunk_numbered(h: HunkView) -> bool {
    forall|k: int| 0 <= k < h.lines.len() ==> #[trigger] line_numbered(h, k)
}

pub open spec fn file_numbered(f: FileView) -> bool {
    forall|j: int| 0 <= j < f.hunks.len() ==> #[trigger] hunk_numbered(f.hunks[j])
}

spec fn state_numbered(st: ParseState) -> bool {
    &&& forall|i: int| 0 <= i < st.done.len() ==> #[trigger] file_numbered(st.done[i])
    &&& st.file matches Some(f) ==> file_numbered(f)
    &&& st.hunk matches Some(h) ==> {
        &&& hunk_numbered(h)
        &&& st.old_line == wrap32(h.old_start + old_lines_before(h.lines))
        &&& st.new_line == wrap32(h.new_start + new_lines_before(h.lines))
    }
}

proof fn lemma_next_wrap(x: int)
    requires
        x >= 0,
    ensures
        next_no(wrap32(x)) == wrap32(x + 1),
{
    let m: int = 0x1_0000_0000;
    lemma_add_mod_noop(x, 1, m);
    lemma_small_mod(1, m as nat);
    assert(0 <= x % m < m);
    if x % m + 1 < m {
        lemma_small_mod((x % m + 1) as nat, m as nat);
    }
}

proof fn lemma_close_hunk_numbered(st: ParseState)
    requires
        state_numbered(st),
    ensures
        state_numbered(close_hunk(st)),
{
    if let Some(h) = st.hunk {
        if let Some(f) = st.file {
            let f2 = close_hunk(st).file.unwrap();
            assert forall|j: int| 0 <= j < f2.hunks.len() implies #[trigger] hunk_numbered(
                f2.hunks[j],
            ) by {
                if j < f.hunks.len() {
                    assert(f2.hunks[j] == f.hunks[j]);
                }
            }
        }
    }
}

proof fn lemma_close_file_numbered(st: ParseState)
    requires
        state_numbered(st),
    ensures
        state_numbered(close_file(st)),
{
    lemma_close_hunk_numbered(st);
    let s = close_hunk(st);
    if let Some(f) = s.file {
        let d = close_file(st).done;
        assert forall|i: int| 0 <= i < d.len() implies #[trigger] file_numbered(d[i]) by {
            if i < s.done.len() {
                assert(d[i] == s.done[i]);
            }
        }
    }
}

proof fn lemma_body_line_numbered(st: ParseState, l: Seq<char>)
    requires
        state_numbered(st),
    ensures
        state_numbered(body_line(st, l)),
{
    if let Some(h) = st.hunk {
        let r = body_line(st, l);
        if r != st {
            let h2 = r.hunk.unwrap();
            let dl = h2.lines.last();
            assert(h2 == with_line(h, dl));
            assert(h2.lines.drop_last() =~= h.lines);
            lemma_next_wrap(h.old_start + old_lines_before(h.lines));
            lemma_next_wrap(h.new_start + new_lines_before(h.lines));
            assert forall|k: int| 0 <= k < h2.lines.len() implies #[trigger] line_numbered(
                h2,
                k,
            ) by {
                assert(h2.lines.take(k) =~= if k < h.lines.len() {
                    h.lines.take(k)
                } else {
                    h.lines
                });
                if k < h.lines.len() {
                    assert(line_numbered(h, k));
                    assert(h2.lines[k] == h.lines[k]);
                }
            }
        }
    }
}

proof fn lemma_meta_line_numbered(st: ParseState, l: Seq<char>)
    requires
        state_numbered(st),
        st.hunk is None,
    ensures
        state_numbered(meta_line(st, l)),
{
    if starts_with(l, "Binary files"@) {
        lemma_close_file_numbered(st);
    }
    let r = meta_line(st, l);
    if let Some(h) = r.hunk {
        assert(h.lines.len() == 0);
        assert(h.lines.take(0) =~= h.lines);
        lemma_small_mod(h.old_start as nat, 0x1_0000_0000nat);
        lemma_small_mod(h.new_start as nat, 0x1_0000_0000nat);
    }
}

proof fn lemma_step_numbered(st: ParseState, l: Seq<char>)
    requires
        state_numbered(st),
    ensures
        state_numbered(step(st, l)),
{
    if is_boundary(l) {
        lemma_close_file_numbered(st);
    } else if st.file is None {
    } else if st.hunk is Some && !starts_with(l, "@@ "@) {
        lemma_body_line_numbered(st, l);
    } else {
        lemma_close_hunk_numbered(st);
        lemma_meta_line_numbered(close_hunk(st), l);
    }
}

proof fn lemma_run_numbered(lines: Seq<Seq<char>>)
    ensures
        state_numbered(run(lines)),
    decreases lines.len(),
{
    if lines.len() > 0 {
        lemma_run_numbered(lines.drop_last());
        lemma_step_numbered(run(lines.drop_last()), lines.last());
    }
}

/// Every hunk that the parser returns is numbered from its header: the old
/// numbers, over Deletion and Context lines, run on by one from `old_start`,
/// and the new numbers, over Addition and Context lines, run on by one from
/// `new_start` (on the 32-bit counter, which wraps).
pub proof fn lemma_hunk_numbering(t: Seq<char>)
    ensures
        forall|i: int, j: int|
            0 <= i < parse_text(t).len() && 0 <= j < parse_text(t)[i].hunks.len()
                ==> hunk_numbered(#[trigger] parse_text(t)[i].hunks[j]),
{
    lemma_run_numbered(text_lines(t));
    lemma_close_file_numbered(run(text_lines(t)));
    let files = parse_text(t);
    assert forall|i: int, j: int|
        0 <= i < files.len() && 0 <= j < files[i].hunks.len() implies hunk_numbered(
        #[trigger] files[i].hunks[j],
    ) by {
        assert(file_numbered(files[i]));
    }
}

/// An Addition line carries a new line number and no old one, a Deletion
/// line an old one and no new one, and a Context line both.
pub proof fn lemma_line_numbers_present(t: Seq<char>)
    ensures
        forall|i: int, j: int, k: int|
            0 <= i < parse_text(t).len() && 0 <= j < parse_text(t)[i].hunks.len() && 0 <= k
                < parse_text(t)[i].hunks[j].lines.len() ==> {
                let l = #[trigger] parse_text(t)[i].hunks[j].lines[k];
                &&& (l.line_type == LineType::Addition) ==> (l.old_line_no is None
                    && l.new_line_no is Some)
                &&& (l.line_type == LineType::Deletion) ==> (l.old_line_no is Some
                    && l.new_line_no is None)
                &&& (l.line_type == LineType::Context) ==> (l.old_line_no is Some
                    && l.new_line_no is Some)
            },
{
    lemma_hunk_numbering(t);
    let files = parse_text(t);
    assert forall|i: int, j: int, k: int|
        0 <= i < files.len() && 0 <= j < files[i].hunks.len() && 0 <= k
            < files[i].hunks[j].lines.len() implies {
        let l = #[trigger] files[i].hunks[j].lines[k];
        &&& (l.line_type == LineType::Addition) ==> (l.old_line_no is None && l.new_line_no is Some)
        &&& (l.line_type == LineType::Deletion) ==> (l.old_line_no is Some && l.new_line_no is None)
        &&& (l.line_type == LineType::Context) ==> (l.old_line_no is Some && l.new_line_no is Some)
    } by {
        assert(hunk_numbered(files[i].hunks[j]));
        assert(line_numbered(files[i].hunks[j], k));
    }
}

proof fn lemma_run_count(lines: Seq<Seq<char>>)
    ensures
        run(lines).done.len() + (if run(lines).file is Some {
            1nat
        } else {
            0nat
        }) == count_boundaries(lines),
    decreases lines.len(),
{
    if lines.len() > 0 {
        lemma_run_count(lines.drop_last());
    }
}

/// The parser returns one file for each line that opens a file block.
pub proof fn lemma_one_file_per_boundary(lines: Seq<Seq<char>>)
    ensures
        parse_lines(lines).len() == count_boundaries(lines),
{
    lemma_run_count(lines);
}

/// An empty text holds no files.
pub proof fn lemma_empty_text()
    ensures
        parse_text(seq![]) == Seq::<FileView>::empty(),
{
    assert(text_lines(seq![]) =~= Seq::<Seq<char>>::empty());
    assert(parse_text(seq![]) =~= Seq::<FileView>::empty());
}

proof fn lemma_not_prefix(s: Seq<char>, p: Seq<char>)
    requires
        s.len() > 0,
        p.len() > 0,
        s[0] != p[0],
    ensures
        !starts_with(s, p),
{
    if p.len() <= s.len() {
        assert(s.subrange(0, p.len() as int)[0] != p[0]);
    }
}

proof fn lemma_no_newline_step(st: ParseState)
    ensures
        step(st, no_newline_line()) == st,
{
    let l = no_newline_line();
    reveal_strlit("\\ No newline at end of file");
    reveal_strlit("diff --git ");
    reveal_strlit("@@ ");
    reveal_strlit("new file mode");
    reveal_strlit("deleted file mode");
    reveal_strlit("rename from ");
    reveal_strlit("rename to ");
    reveal_strlit("Binary files");
    reveal_strlit("--- ");
    reveal_strlit("+++ ");
    lemma_not_prefix(l, "diff --git "@);
    lemma_not_prefix(l, "@@ "@);
    lemma_not_prefix(l, "new file mode"@);
    lemma_not_prefix(l, "deleted file mode"@);
    lemma_not_prefix(l, "rename from "@);
    lemma_not_prefix(l, "rename to "@);
    lemma_not_prefix(l, "Binary files"@);
    lemma_not_prefix(l, "--- "@);
    lemma_not_prefix(l, "+++ "@);
    assert(hunk_header(l) is None);
}

proof fn lemma_run_without_no_newline(lines: Seq<Seq<char>>)
    ensures
        run(lines) == run(lines.filter(|l: Seq<char>| l != no_newline_line())),
    decreases lines.len(),
{
    reveal(Seq::filter);
    let pred = |l: Seq<char>| l != no_newline_line();
    if lines.len() > 0 {
        lemma_run_without_no_newline(lines.drop_last());
        let fl = lines.drop_last().filter(pred);
        if pred(lines.last()) {
            assert(fl.push(lines.last()).drop_last() =~= fl);
        } else {
            lemma_no_newline_step(run(lines.drop_last()));
        }
    }
}

/// Lines `\ No newline at end of file` leave no trace: without them the
/// parser returns the same files, lines and numbers.
pub proof fn lemma_no_newline_lines_ignored(lines: Seq<Seq<char>>)
    ensures
        parse_lines(lines) == parse_lines(lines.filter(|l: Seq<char>| l != no_newline_line())),
{
    lemma_run_without_no_newline(lines);
}

/// The parser's state after `lines`, from state `st`.
spec fn run_from(st: ParseState, lines: Seq<Seq<char>>) -> ParseState
    decreases lines.len(),
{
    if lines.len() == 0 {
        st
    } else {
        step(run_from(st, lines.drop_last()), lines.last())
    }
}

proof fn lemma_run_concat(x: Seq<Seq<char>>, y: Seq<Seq<char>>)
    ensures
        run(x + y) == run_from(run(x), y),
    decreases y.len(),
{
    if y.len() == 0 {
        assert(x + y =~= x);
    } else {
        assert((x + y).drop_last() =~= x + y.drop_last());
        lemma_run_concat(x, y.drop_last());
    }
}

/// The finished files of `st` stay the first finished files of `s`.
spec fn extends(st: ParseState, s: ParseState) -> bool {
    st.done.len() <= s.done.len() && s.done.subrange(0, st.done.len() as int) == st.done
}

proof fn lemma_close_file_extends(st: ParseState)
    ensures
        extends(st, close_file(st)),
{
    assert(close_file(st).done.subrange(0, st.done.len() as int) =~= st.done);
}

proof fn lemma_step_extends(st: ParseState, l: Seq<char>)
    ensures
        extends(st, step(st, l)),
{
    lemma_close_file_extends(st);
    lemma_close_file_extends(close_hunk(st));
    assert(st.done.subrange(0, st.done.len() as int) =~= st.done);
}

proof fn lemma_run_from_extends(st: ParseState, lines: Seq<Seq<char>>)
    ensures
        extends(st, run_from(st, lines)),
    decreases lines.len(),
{
    if lines.len() == 0 {
        assert(st.done.subrange(0, st.done.len() as int) =~= st.done);
    } else {
        let mid = run_from(st, lines.drop_last());
        lemma_run_from_extends(st, lines.drop_last());
        lemma_step_extends(mid, lines.last());
        let end = step(mid, lines.last());
        assert(end.done.subrange(0, st.done.len() as int) =~= end.done.subrange(
            0,
            mid.done.len() as int,
        ).subrange(0, st.done.len() as int));
    }
}

/// `s1` is `s2` read after the finished files `d`: the counters matter only
/// inside a hunk.
spec fn shifted(s1: ParseState, s2: ParseState, d: Seq<FileView>) -> bool {
    &&& s1.done == d + s2.done
    &&& s1.file == s2.file
    &&& s1.hunk == s2.hunk
    &&& s1.hunk is Some ==> s1.old_line == s2.old_line && s1.new_line == s2.new_line
}

proof fn lemma_close_file_shifted(s1: ParseState, s2: ParseState, d: Seq<FileView>)
    requires
        shifted(s1, s2, d),
    ensures
        shifted(close_file(s1), close_file(s2), d),
{
    if let Some(f) = close_hunk(s2).file {
        assert(d + s2.done.push(f) =~= (d + s2.done).push(f));
    }
}

proof fn lemma_step_shifted(s1: ParseState, s2: ParseState, d: Seq<FileView>, l: Seq<char>)
    requires
        shifted(s1, s2, d),
        !is_boundary(l),
    ensures
        shifted(step(s1, l), step(s2, l), d),
{
    if s1.file is Some && !(s1.hunk is Some && !starts_with(l, "@@ "@)) {
        assert(shifted(close_hunk(s1), close_hunk(s2), d));
        if starts_with(l, "Binary files"@) {
            lemma_close_file_shifted(close_hunk(s1), close_hunk(s2), d);
        }
    }
}

proof fn lemma_block_shifted(
    pre: Seq<Seq<char>>,
    b: Seq<char>,
    block: Seq<Seq<char>>,
    m: int,
)
    requires
        is_boundary(b),
        0 <= m <= block.len(),
        forall|i: int| 0 <= i < block.len() ==> !is_boundary(#[trigger] block[i]),
    ensures
        shifted(
            run(pre + seq![b] + block.take(m)),
            run(seq![b] + block.take(m)),
            close_file(run(pre)).done,
        ),
    decreases m,
{
    let d = close_file(run(pre)).done;
    if m == 0 {
        assert((pre + seq![b] + block.take(0)).drop_last() =~= pre);
        assert((seq![b] + block.take(0)).drop_last() =~= Seq::<Seq<char>>::empty());
        assert(d + close_file(run(Seq::<Seq<char>>::empty())).done =~= d);
    } else {
        lemma_block_shifted(pre, b, block, m - 1);
        assert((pre + seq![b] + block.take(m)).drop_last() =~= pre + seq![b] + block.take(m - 1));
        assert((seq![b] + block.take(m)).drop_last() =~= seq![b] + block.take(m - 1));
        lemma_step_shifted(
            run(pre + seq![b] + block.take(m - 1)),
            run(seq![b] + block.take(m - 1)),
            d,
            block[m - 1],
        );
    }
}

/// Each file depends on its own block alone, and files come in the order of
/// their blocks: the block that the boundary line `b` opens, read inside any
/// diff, yields the file that it yields as a diff of its own, at the place
/// given by the boundary lines before it.
pub proof fn lemma_file_from_own_block(
    pre: Seq<Seq<char>>,
    b: Seq<char>,
    block: Seq<Seq<char>>,
    post: Seq<Seq<char>>,
)
    requires
        is_boundary(b),
        forall|i: int| 0 <= i < block.len() ==> !is_boundary(#[trigger] block[i]),
        post.len() == 0 || is_boundary(post[0]),
    ensures
        parse_lines(seq![b] + block).len() == 1,
        count_boundaries(pre) < parse_lines(pre + seq![b] + block + post).len(),
        parse_lines(pre + seq![b] + block + post)[count_boundaries(pre) as int] == parse_lines(
            seq![b] + block,
        )[0],
{
    let d = close_file(run(pre)).done;
    let x = pre + seq![b] + block;
    let own = seq![b] + block;
    let k = count_boundaries(pre) as int;
    lemma_block_shifted(pre, b, block, block.len() as int);
    assert(block.take(block.len() as int) =~= block);
    lemma_close_file_shifted(run(x), run(own), d);
    lemma_run_count(pre);
    lemma_run_count(own);
    lemma_count_single_block(b, block);
    assert(d.len() == k);
    let px = close_file(run(x)).done;
    assert(px[k] == parse_lines(own)[0]);
    if post.len() == 0 {
        assert(x + post =~= x);
    } else {
        lemma_run_concat(x, post);
        let s0 = step(run(x), post[0]);
        assert(post.take(1).drop_last() =~= Seq::<Seq<char>>::empty());
        assert(post.take(1) =~= seq![post[0]]);
        lemma_run_concat(x, post.take(1));
        assert(s0.done == px);
        assert(x + post =~= (x + post.take(1)) + post.skip(1));
        lemma_run_concat(x + post.take(1), post.skip(1));
        assert(run(x + post.take(1)) == s0) by {
            assert((x + post.take(1)).drop_last() =~= x);
        }
        lemma_run_from_extends(s0, post.skip(1));
        let e = run_from(s0, post.skip(1));
        lemma_close_file_extends(e);
        let fin = close_file(e).done;
        assert(fin.subrange(0, px.len() as int) =~= e.done.subrange(0, px.len() as int));
        assert(fin[k] == fin.subrange(0, px.len() as int)[k]);
    }
}

proof fn lemma_count_single_block(b: Seq<char>, block: Seq<Seq<char>>)
    requires
        is_boundary(b),
        forall|i: int| 0 <= i < block.len() ==> !is_boundary(#[trigger] block[i]),
    ensures
        count_boundaries(seq![b] + block) == 1,
    decreases block.len(),
{
    if block.len() == 0 {
        assert((seq![b] + block).drop_last() =~= Seq::<Seq<char>>::empty());
        assert((seq![b] + block).last() == b);
        assert(count_boundaries(Seq::<Seq<char>>::empty()) == 0);
    } else {
        assert((seq![b] + block).drop_last() =~= seq![b] + block.drop_last());
        assert((seq![b] + block).last() == block.last());
        assert(!is_boundary(block[block.len() - 1]));
        lemma_count_single_block(b, block.drop_last());
    }
}

proof fn lemma_run_block_next(b: Seq<char>, block: Seq<Seq<char>>, m: int)
    requires
        0 <= m < block.len(),
    ensures
        run(seq![b] + block.take(m + 1)) == step(run(seq![b] + block.take(m)), block[m]),
{
    assert((seq![b] + block.take(m + 1)).drop_last() =~= seq![b] + block.take(m));
    assert((seq![b] + block.take(m + 1)).last() == block[m]);
}

proof fn lemma_run_block_start(b: Seq<char>, block: Seq<Seq<char>>)
    requires
        is_boundary(b),
    ensures
        run(seq![b] + block.take(0)).file == Some(opened_file(b)),
        run(seq![b] + block.take(0)).hunk is None,
        run(seq![b] + block.take(0)).done.len() == 0,
{
    assert((seq![b] + block.take(0)).drop_last() =~= Seq::<Seq<char>>::empty());
    assert((seq![b] + block.take(0)).last() == b);
    assert(run(Seq::<Seq<char>>::empty()).done.len() == 0);
}

proof fn lemma_first_char(s: Seq<char>, p: Seq<char>)
    requires
        starts_with(s, p),
        p.len() > 0,
    ensures
        s[0] == p[0],
{
    assert(s.subrange(0, p.len() as int)[0] == s[0]);
}

/// A `Binary files` line opens no other metadata branch.
proof fn lemma_binary_line(l: Seq<char>)
    requires
        starts_with(l, "Binary files"@),
    ensures
        !starts_with(l, "new file mode"@),
        !starts_with(l, "deleted file mode"@),
        !starts_with(l, "rename from "@),
        !starts_with(l, "rename to "@),
{
    reveal_strlit("Binary files");
    reveal_strlit("new file mode");
    reveal_strlit("deleted file mode");
    reveal_strlit("rename from ");
    reveal_strlit("rename to ");
    lemma_first_char(l, "Binary files"@);
    lemma_not_prefix(l, "new file mode"@);
    lemma_not_prefix(l, "deleted file mode"@);
    lemma_not_prefix(l, "rename from "@);
    lemma_not_prefix(l, "rename to "@);
}

/// The block's file is open and no hunk has begun.
spec fn open_without_hunks(st: ParseState) -> bool {
    &&& st.file matches Some(f) && f.hunks.len() == 0
    &&& st.hunk is None
    &&& st.done.len() == 0
}

/// The block's file is closed and has no hunks.
spec fn closed_without_hunks(st: ParseState) -> bool {
    &&& st.file is None
    &&& st.done.len() == 1
    &&& st.done[0].hunks.len() == 0
}

proof fn lemma_binary_prefix(b: Seq<char>, block: Seq<Seq<char>>, j: int, m: int)
    requires
        is_boundary(b),
        forall|i: int| 0 <= i < block.len() ==> !is_boundary(#[trigger] block[i]),
        0 <= j < block.len(),
        starts_with(block[j], "Binary files"@),
        forall|i: int| 0 <= i < j ==> !starts_with(#[trigger] block[i], "@@ "@),
        0 <= m <= block.len(),
    ensures
        m <= j ==> open_without_hunks(run(seq![b] + block.take(m))) || closed_without_hunks(
            run(seq![b] + block.take(m)),
        ),
        m > j ==> closed_without_hunks(run(seq![b] + block.take(m))),
    decreases m,
{
    if m == 0 {
        lemma_run_block_start(b, block);
    } else {
        lemma_binary_prefix(b, block, j, m - 1);
        lemma_run_block_next(b, block, m - 1);
        let st = run(seq![b] + block.take(m - 1));
        let l = block[m - 1];
        if open_without_hunks(st) {
            assert(close_hunk(st) == st);
            if !starts_with(l, "Binary files"@) {
                assert(!starts_with(l, "@@ "@));
                assert(hunk_header(l) is None);
            } else {
                lemma_binary_line(l);
            }
        }
    }
}

/// A block with a `Binary files` line, before which no hunk header stands,
/// yields a file without hunks, whatever else the block holds.
pub proof fn lemma_binary_block_has_no_hunks(
    pre: Seq<Seq<char>>,
    b: Seq<char>,
    block: Seq<Seq<char>>,
    post: Seq<Seq<char>>,
    j: int,
)
    requires
        is_boundary(b),
        forall|i: int| 0 <= i < block.len() ==> !is_boundary(#[trigger] block[i]),
        post.len() == 0 || is_boundary(post[0]),
        0 <= j < block.len(),
        starts_with(block[j], "Binary files"@),
        forall|i: int| 0 <= i < j ==> !starts_with(#[trigger] block[i], "@@ "@),
    ensures
        count_boundaries(pre) < parse_lines(pre + seq![b] + block + post).len(),
        parse_lines(pre + seq![b] + block + post)[count_boundaries(pre) as int].hunks.len() == 0,
{
    lemma_file_from_own_block(pre, b, block, post);
    lemma_binary_prefix(b, block, j, block.len() as int);
    assert(block.take(block.len() as int) =~= block);
}

/// The prefix of the metadata line that sets status `s` (added or deleted).
pub open spec fn mode_prefix(s: FileStatus) -> Seq<char> {
    if s == FileStatus::Added {
        "new file mode"@
    } else {
        "deleted file mode"@
    }
}

/// Every file of the state, finished or open, has status `s`.
spec fn all_status(st: ParseState, s: FileStatus) -> bool {
    &&& forall|i: int| 0 <= i < st.done.len() ==> (#[trigger] st.done[i]).status == s
    &&& st.file matches Some(f) ==> f.status == s
}

proof fn lemma_close_file_status(st: ParseState, s: FileStatus)
    requires
        all_status(st, s),
    ensures
        all_status(close_file(st), s),
{
    let c = close_file(st);
    assert forall|i: int| 0 <= i < c.done.len() implies (#[trigger] c.done[i]).status == s by {
        if i < st.done.len() {
            assert(c.done[i] == st.done[i]);
        }
    }
}

proof fn lemma_mode_prefix(b: Seq<char>, block: Seq<Seq<char>>, j: int, s: FileStatus, m: int)
    requires
        is_boundary(b),
        s == FileStatus::Added || s == FileStatus::Deleted,
        forall|i: int| 0 <= i < block.len() ==> !is_boundary(#[trigger] block[i]),
        0 <= j < block.len(),
        starts_with(block[j], mode_prefix(s)),
        forall|i: int|
            0 <= i < j ==> !starts_with(#[trigger] block[i], "@@ "@) && !starts_with(
                block[i],
                "Binary files"@,
            ),
        forall|i: int|
            0 <= i < block.len() ==> !starts_with(#[trigger] block[i], "rename from "@)
                && (starts_with(block[i], "new file mode"@) ==> s == FileStatus::Added)
                && (starts_with(block[i], "deleted file mode"@) ==> s == FileStatus::Deleted),
        0 <= m <= block.len(),
    ensures
        m <= j ==> run(seq![b] + block.take(m)).file is Some
            && run(seq![b] + block.take(m)).hunk is None
            && run(seq![b] + block.take(m)).done.len() == 0,
        m > j ==> all_status(run(seq![b] + block.take(m)), s),
    decreases m,
{
    if m == 0 {
        lemma_run_block_start(b, block);
    } else {
        lemma_mode_prefix(b, block, j, s, m - 1);
        lemma_run_block_next(b, block, m - 1);
        let st = run(seq![b] + block.take(m - 1));
        let l = block[m - 1];
        if m - 1 < j {
            assert(close_hunk(st) == st);
            assert(!starts_with(l, "@@ "@));
            assert(hunk_header(l) is None);
        } else if m - 1 == j {
            assert(close_hunk(st) == st);
            if s == FileStatus::Deleted {
                reveal_strlit("new file mode");
                reveal_strlit("deleted file mode");
                lemma_first_char(l, "deleted file mode"@);
                lemma_not_prefix(l, "new file mode"@);
            }
        } else {
            if st.file is Some {
                assert(all_status(close_hunk(st), s));
                if starts_with(l, "Binary files"@) {
                    lemma_close_file_status(close_hunk(st), s);
                }
            }
        }
    }
}

/// A block with a `new file mode` line yields an added file, and one with a
/// `deleted file mode` line a deleted file, where no line of the block says
/// otherwise (the other mode, or a rename) and the mode line stands before
/// any hunk header or `Binary files` line.
pub proof fn lemma_mode_line_sets_status(
    pre: Seq<Seq<char>>,
    b: Seq<char>,
    block: Seq<Seq<char>>,
    post: Seq<Seq<char>>,
    j: int,
    s: FileStatus,
)
    requires
        is_boundary(b),
        forall|i: int| 0 <= i < block.len() ==> !is_boundary(#[trigger] block[i]),
        post.len() == 0 || is_boundary(post[0]),
        s == FileStatus::Added || s == FileStatus::Deleted,
        0 <= j < block.len(),
        starts_with(block[j], mode_prefix(s)),
        forall|i: int|
            0 <= i < j ==> !starts_with(#[trigger] block[i], "@@ "@) && !starts_with(
                block[i],
                "Binary files"@,
            ),
        forall|i: int|
            0 <= i < block.len() ==> !starts_with(#[trigger] block[i], "rename from "@)
                && (starts_with(block[i], "new file mode"@) ==> s == FileStatus::Added)
                && (starts_with(block[i], "deleted file mode"@) ==> s == FileStatus::Deleted),
    ensures
        count_boundaries(pre) < parse_lines(pre + seq![b] + block + post).len(),
        parse_lines(pre + seq![b] + block + post)[count_boundaries(pre) as int].status == s,
{
    lemma_file_from_own_block(pre, b, block, post);
    lemma_mode_prefix(b, block, j, s, block.len() as int);
    assert(block.take(block.len() as int) =~= block);
    lemma_close_file_status(run(seq![b] + block), s);
}

/// Every file of the state, finished or open, is the rename of `x` to `y`.
spec fn all_renamed(st: ParseState, x: Seq<char>, y: Seq<char>) -> bool {
    &&& forall|i: int| 0 <= i < st.done.len() ==> renamed(#[trigger] st.done[i], x, y)
    &&& st.file matches Some(f) ==> renamed(f, x, y)
}

pub open spec fn renamed(f: FileView, x: Seq<char>, y: Seq<char>) -> bool {
    f.status == FileStatus::Renamed && f.old_path == Some(x) && f.path == y
}

proof fn lemma_rename_lines(l: Seq<char>)
    ensures
        starts_with(l, "rename to "@) ==> !starts_with(l, "rename from "@),
{
    reveal_strlit("rename from ");
    reveal_strlit("rename to ");
    if starts_with(l, "rename to "@) && starts_with(l, "rename from "@) {
        assert(l.subrange(0, 10)[7] == l[7]);
        assert(l.subrange(0, 12)[7] == l[7]);
    }
}

proof fn lemma_rename_prefix(
    b: Seq<char>,
    block: Seq<Seq<char>>,
    j1: int,
    j2: int,
    m: int,
)
    requires
        is_boundary(b),
        forall|i: int| 0 <= i < block.len() ==> !is_boundary(#[trigger] block[i]),
        0 <= j1 < block.len(),
        0 <= j2 < block.len(),
        starts_with(block[j1], "rename from "@),
        starts_with(block[j2], "rename to "@),
        forall|i: int|
            0 <= i < j1 || 0 <= i < j2 ==> !starts_with(#[trigger] block[i], "@@ "@)
                && !starts_with(block[i], "Binary files"@),
        forall|i: int|
            0 <= i < block.len() ==> !starts_with(#[trigger] block[i], "new file mode"@)
                && !starts_with(block[i], "deleted file mode"@) && (i != j1 ==> !starts_with(
                block[i],
                "rename from "@,
            )) && (i != j2 ==> !starts_with(block[i], "rename to "@)),
        0 <= m <= block.len(),
    ensures
        ({
            let st = run(seq![b] + block.take(m));
            let x = after(block[j1], "rename from "@);
            let y = after(block[j2], "rename to "@);
            &&& (m <= j1 || m <= j2) ==> {
                &&& st.file matches Some(f) && (m > j1 ==> f.status == FileStatus::Renamed
                    && f.old_path == Some(x)) && (m > j2 ==> f.path == y)
                &&& st.hunk is None
                &&& st.done.len() == 0
            }
            &&& (m > j1 && m > j2) ==> all_renamed(st, x, y)
        }),
    decreases m,
{
    let x = after(block[j1], "rename from "@);
    let y = after(block[j2], "rename to "@);
    if m == 0 {
        lemma_run_block_start(b, block);
    } else {
        lemma_rename_prefix(b, block, j1, j2, m - 1);
        lemma_run_block_next(b, block, m - 1);
        let st = run(seq![b] + block.take(m - 1));
        let l = block[m - 1];
        lemma_rename_lines(l);
        if m - 1 < j1 || m - 1 < j2 {
            assert(close_hunk(st) == st);
            assert(!starts_with(l, "@@ "@));
            assert(hunk_header(l) is None);
        } else if m - 1 == j1 || m - 1 == j2 {
            assert(close_hunk(st) == st);
        } else if st.file is Some {
            assert(all_renamed(close_hunk(st), x, y));
            if starts_with(l, "Binary files"@) {
                let c = close_file(close_hunk(st));
                assert forall|i: int| 0 <= i < c.done.len() implies renamed(
                    #[trigger] c.done[i],
                    x,
                    y,
                ) by {
                    if i < st.done.len() {
                        assert(c.done[i] == st.done[i]);
                    }
                }
            }
        }
    }
}

/// A block with a `rename from X` line and a `rename to Y` line yields the
/// rename of `X` to `Y`, where no other line of the block sets a mode or a
/// rename and both lines stand before any hunk header or `Binary files` line.
pub proof fn lemma_rename_lines_set_paths(
    pre: Seq<Seq<char>>,
    b: Seq<char>,
    block: Seq<Seq<char>>,
    post: Seq<Seq<char>>,
    j1: int,
    j2: int,
)
    requires
        is_boundary(b),
        forall|i: int| 0 <= i < block.len() ==> !is_boundary(#[trigger] block[i]),
        post.len() == 0 || is_boundary(post[0]),
        0 <= j1 < block.len(),
        0 <= j2 < block.len(),
        starts_with(block[j1], "rename from "@),
        starts_with(block[j2], "rename to "@),
        forall|i: int|
            0 <= i < j1 || 0 <= i < j2 ==> !starts_with(#[trigger] block[i], "@@ "@)
                && !starts_with(block[i], "Binary files"@),
        forall|i: int|
            0 <= i < block.len() ==> !starts_with(#[trigger] block[i], "new file mode"@)
                && !starts_with(block[i], "deleted file mode"@) && (i != j1 ==> !starts_with(
                block[i],
                "rename from "@,
            )) && (i != j2 ==> !starts_with(block[i], "rename to "@)),
    ensures
        count_boundaries(pre) < parse_lines(pre + seq![b] + block + post).len(),
        renamed(
            parse_lines(pre + seq![b] + block + post)[count_boundaries(pre) as int],
            after(block[j1], "rename from "@),
            after(block[j2], "rename to "@),
        ),
{
    lemma_file_from_own_block(pre, b, block, post);
    lemma_rename_prefix(b, block, j1, j2, block.len() as int);
    assert(block.take(block.len() as int) =~= block);
    let st = run(seq![b] + block);
    let x = after(block[j1], "rename from "@);
    let y = after(block[j2], "rename to "@);
    let c = close_file(st);
    assert forall|i: int| 0 <= i < c.done.len() implies renamed(#[trigger] c.done[i], x, y) by {
        if i < st.done.len() {
            assert(c.done[i] == st.done[i]);
        }
    }
}

} // verus!
