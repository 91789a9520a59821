use vstd::prelude::*;

use crate::qdrant::SearchHit;

verus! {

/// Relies on `String::push`: the character is appended at the end.
#[verifier::external_body]
pub(crate) fn push_char(s: &mut String, c: char)
    ensures
        final(s)@ == old(s)@.push(c),
{
    s.push(c);
}

/// Drops one trailing carriage return.
pub open spec fn strip_cr(line: Seq<char>) -> Seq<char> {
    if line.len() > 0 && line.last() == '\r' {
        line.drop_last()
    } else {
        line
    }
}

/// The lines ended by a newline so far, and the unfinished last line.
pub open spec fn split_acc(s: Seq<char>) -> (Seq<Seq<char>>, Seq<char>)
    decreases s.len(),
{
    if s.len() == 0 {
        (Seq::empty(), Seq::empty())
    } else {
        let (done, cur) = split_acc(s.drop_last());
        if s.last() == '\n' {
            (done.push(strip_cr(cur)), Seq::empty())
        } else {
            (done, cur.push(s.last()))
        }
    }
}

/// The lines of a text: every newline ends a line (a carriage return before
/// it is dropped), and what follows the last newline is a final line, which
/// is empty when the text ends with a newline.
pub open spec fn lines_of(s: Seq<char>) -> Seq<Seq<char>> {
    let (done, cur) = split_acc(s);
    done.push(strip_cr(cur))
}

/// Splits a text into its lines.
pub fn split_lines(text: &str) -> (lines: Vec<String>)
    ensures
        lines@.map_values(|l: String| l@) == lines_of(text@),
{
    broadcast use vstd::string::axiom_spec_iter;
    let mut lines: Vec<String> = Vec::new();
    let mut cur = String::new();
    let mut pending_cr = false;
    let ghost mut raw: Seq<char> = Seq::empty();
    for c in it: text.chars()
        invariant
            it.seq() == text@,
            (lines@.map_values(|l: String| l@), raw) == split_acc(text@.take(it.index() as int)),
            pending_cr == (raw.len() > 0 && raw.last() == '\r'),
            cur@ == strip_cr(raw),
    {
        proof {
            assert(text@.take(it.index() + 1).drop_last() == text@.take(it.index() as int));
        }
        if c == '\n' {
            let ghost old_lines = lines@.map_values(|l: String| l@);
            lines.push(cur);
            cur = String::new();
            pending_cr = false;
            proof {
                raw = Seq::empty();
                assert(lines@.map_values(|l: String| l@) == old_lines.push(strip_cr(
                    split_acc(text@.take(it.index() as int)).1,
                )));
            }
        } else {
            if pending_cr {
                push_char(&mut cur, '\r');
            }
            if c == '\r' {
                pending_cr = true;
            } else {
                push_char(&mut cur, c);
                pending_cr = false;
            }
            proof {
                raw = raw.push(c);
            }
        }
    }
    proof {
        assert(text@.take(text@.len() as int) == text@);
    }
    lines.push(cur);
    lines
}


/// Where the scanner stands between two lines.
#[derive(PartialEq, Eq, Structural, Clone, Copy, Debug)]
pub enum FileState {
    Idle,
    InCodeBlock,
    InProse,
    InCommentBlock,
}

/// `n` copies of `c`.
pub open spec fn repeat(c: char, n: nat) -> Seq<char> {
    Seq::new(n, |_i: int| c)
}

/// The fence that opens and closes a code block.
pub open spec fn fence() -> Seq<char> {
    repeat('`', 3)
}

/// The rule that opens and closes a comment region.
pub open spec fn rule() -> Seq<char> {
    repeat('-', 3)
}

/// The heading marker.
pub open spec fn heading() -> Seq<char> {
    repeat('#', 1)
}

pub open spec fn starts_with(s: Seq<char>, p: Seq<char>) -> bool {
    p.len() <= s.len() && s.take(p.len() as int) == p
}

/// The scanner after some lines: its state, the chunks emitted, the text of
/// the open block, the line that opened it, and for each chunk the run of
/// lines `[start, end)` it was built from.
pub struct Scan {
    pub state: FileState,
    pub chunks: Seq<Seq<char>>,
    pub acc: Seq<char>,
    pub open: int,
    pub spans: Seq<(int, int)>,
}

/// A line as it stands in the text: followed by its newline where the
/// text has one after it.
pub open spec fn line_piece(line: Seq<char>, nl: bool) -> Seq<char> {
    if nl {
        line.push('\n')
    } else {
        line
    }
}

/// One line, the `i`-th, read by the scanner; `nl` tells whether a newline
/// follows it in the text.
pub open spec fn scan_step(sc: Scan, i: int, line: Seq<char>, nl: bool) -> Scan {
    match sc.state {
        FileState::Idle => {
            if starts_with(line, fence()) {
                Scan { state: FileState::InCodeBlock, acc: line_piece(line, nl), open: i, ..sc }
            } else if starts_with(line, rule()) {
                Scan { state: FileState::InCommentBlock, ..sc }
            } else if line.len() > 0 && !starts_with(line, heading()) {
                Scan { state: FileState::InProse, acc: line_piece(line, nl), open: i, ..sc }
            } else {
                sc
            }
        },
        FileState::InCodeBlock => {
            if starts_with(line, fence()) {
                Scan {
                    state: FileState::Idle,
                    chunks: sc.chunks.push(sc.acc + line_piece(line, nl)),
                    acc: Seq::empty(),
                    spans: sc.spans.push((sc.open, i + 1)),
                    ..sc
                }
            } else {
                Scan { acc: sc.acc + line_piece(line, nl), ..sc }
            }
        },
        FileState::InCommentBlock => {
            if starts_with(line, rule()) {
                Scan { state: FileState::Idle, ..sc }
            } else {
                sc
            }
        },
        FileState::InProse => {
            if line.len() == 0 {
                Scan {
                    state: FileState::Idle,
                    chunks: sc.chunks.push(sc.acc),
                    acc: Seq::empty(),
                    spans: sc.spans.push((sc.open, i)),
                    ..sc
                }
            } else {
                Scan { acc: sc.acc + line_piece(line, nl), ..sc }
            }
        },
    }
}

/// The scanner after reading all of `lines`.
pub open spec fn scan(lines: Seq<Seq<char>>) -> Scan
    decreases lines.len(),
{
    if lines.len() == 0 {
        Scan {
            state: FileState::Idle,
            chunks: Seq::empty(),
            acc: Seq::empty(),
            open: 0,
            spans: Seq::empty(),
        }
    } else {
        scan_step(scan(lines.drop_last()), lines.len() - 1, lines.last(), true)
    }
}

/// The scanner after reading a whole text: every line but the last is
/// followed by a newline.
pub open spec fn scan_text(text: Seq<char>) -> Scan {
    let ls = lines_of(text);
    scan_step(scan(ls.drop_last()), ls.len() - 1, ls.last(), false)
}

/// The chunks of a markdown text, in source order.
pub open spec fn segment(text: Seq<char>) -> Seq<Seq<char>> {
    scan_text(text).chunks
}

/// The text of a block of lines: each line followed by a newline.
pub open spec fn lines_text(ls: Seq<Seq<char>>) -> Seq<char>
    decreases ls.len(),
{
    if ls.len() == 0 {
        Seq::empty()
    } else {
        lines_text(ls.drop_last()) + ls.last().push('\n')
    }
}

/// The text of the block made of the lines `[span.0, span.1)`.
pub open spec fn block_text(lines: Seq<Seq<char>>, span: (int, int)) -> Seq<char> {
    lines_text(lines.subrange(span.0, span.1))
}

/// The text of the run of lines `[span.0, span.1)` of a whole text, as it
/// stands there: no newline after the text's last line.
pub open spec fn chunk_text(lines: Seq<Seq<char>>, span: (int, int)) -> Seq<char> {
    if span.1 == lines.len() {
        block_text(lines, span).drop_last()
    } else {
        block_text(lines, span)
    }
}

/// The runs of lines that the chunks of `text` were built from.
pub open spec fn chunk_spans(text: Seq<char>) -> Seq<(int, int)> {
    scan_text(text).spans
}

/// What holds of the scanner after `lines`: each chunk is the text of a run
/// of lines, the runs follow one another, and an open block holds the text
/// of the lines from the one that opened it.
spec fn shape_ok(lines: Seq<Seq<char>>) -> bool {
    let sc = scan(lines);
    &&& sc.spans.len() == sc.chunks.len()
    &&& forall|k: int|
        0 <= k < sc.spans.len() ==> 0 <= #[trigger] sc.spans[k].0 < sc.spans[k].1
            <= lines.len()
    &&& forall|k: int|
        0 <= k < sc.spans.len() - 1 ==> #[trigger] sc.spans[k].1 <= sc.spans[k + 1].0
    &&& forall|k: int|
        0 <= k < sc.chunks.len() ==> #[trigger] sc.chunks[k] == block_text(
            lines,
            sc.spans[k],
        )
    &&& (sc.state == FileState::InCodeBlock || sc.state == FileState::InProse) ==> {
        &&& 0 <= sc.open < lines.len()
        &&& forall|k: int| 0 <= k < sc.spans.len() ==> #[trigger] sc.spans[k].1 <= sc.open
        &&& sc.acc == block_text(lines, (sc.open, lines.len() as int))
        &&& (sc.state == FileState::InCodeBlock <==> starts_with(
            lines[sc.open],
            fence(),
        ))
    }
}

/// Extending the lines keeps the text of every run of earlier lines.
proof fn lemma_block_text_kept(lines: Seq<Seq<char>>)
    requires
        lines.len() > 0,
    ensures
        forall|a: int, b: int|
            0 <= a < b <= lines.len() - 1 ==> #[trigger] block_text(lines, (a, b)) == block_text(
                lines.drop_last(),
                (a, b),
            ),
{
    let prev = lines.drop_last();
    assert forall|a: int, b: int| 0 <= a < b <= prev.len() implies #[trigger] block_text(
        lines,
        (a, b),
    ) == block_text(prev, (a, b)) by {
        assert(lines.subrange(a, b) =~= prev.subrange(a, b));
    }
}

/// The lines after a step that leaves the chunks and the open block as
/// they were, but for the text of an open block growing by the new line.
#[verifier::spinoff_prover]
proof fn lemma_shape_step_no_emit(lines: Seq<Seq<char>>)
    requires
        lines.len() > 0,
        shape_ok(lines.drop_last()),
        scan(lines).chunks == scan(lines.drop_last()).chunks,
        scan(lines).spans == scan(lines.drop_last()).spans,
    ensures
        shape_ok(lines),
{
    let prev = lines.drop_last();
    let i = lines.len() - 1;
    let line = lines.last();
    let p = scan(prev);
    let sc = scan(lines);
    lemma_block_text_kept(lines);
    assert forall|k: int| 0 <= k < sc.chunks.len() implies #[trigger] sc.chunks[k]
        == block_text(lines, sc.spans[k]) by {
        assert(p.chunks[k] == block_text(prev, p.spans[k]));
        assert(p.spans[k].0 < p.spans[k].1 <= prev.len());
    }
    assert forall|k: int| 0 <= k < sc.spans.len() implies 0 <= #[trigger] sc.spans[k].0
        < sc.spans[k].1 <= lines.len() by {
        assert(p.spans[k].0 < p.spans[k].1 <= prev.len());
    }
    if p.state == FileState::InCodeBlock || p.state == FileState::InProse {
        let whole = lines.subrange(p.open, lines.len() as int);
        assert(whole.drop_last() =~= prev.subrange(p.open, prev.len() as int));
        assert(whole.last() == line);
        assert(lines[p.open] == prev[p.open]);
    }
    if p.state == FileState::Idle && sc.state != FileState::Idle && sc.state
        != FileState::InCommentBlock {
        assert forall|k: int| 0 <= k < p.spans.len() implies #[trigger] p.spans[k].1 <= i by {
            assert(p.spans[k].0 < p.spans[k].1 <= prev.len());
        }
        let whole = lines.subrange(i, lines.len() as int);
        assert(whole.drop_last().len() == 0);
        assert(whole =~= seq![line]);
        assert(lines_text(whole) == lines_text(whole.drop_last()) + line.push('\n'));
        assert(lines_text(whole.drop_last()) =~= Seq::<char>::empty());
        assert(lines_text(whole) =~= line.push('\n'));
    }
}

/// The lines after a step that closes the open block into a chunk.
#[verifier::spinoff_prover]
proof fn lemma_shape_step_emit(lines: Seq<Seq<char>>)
    requires
        lines.len() > 0,
        shape_ok(lines.drop_last()),
        scan(lines.drop_last()).state == FileState::InCodeBlock || scan(lines.drop_last()).state
            == FileState::InProse,
        scan(lines).chunks.len() == scan(lines.drop_last()).chunks.len() + 1,
    ensures
        shape_ok(lines),
{
    let prev = lines.drop_last();
    let i = lines.len() - 1;
    let line = lines.last();
    let p = scan(prev);
    let sc = scan(lines);
    lemma_block_text_kept(lines);
    let whole = lines.subrange(p.open, lines.len() as int);
    assert(whole.drop_last() =~= prev.subrange(p.open, prev.len() as int));
    assert(whole.last() == line);
    assert(lines[p.open] == prev[p.open]);
    if p.state == FileState::InProse {
        assert(block_text(lines, (p.open, i)) == block_text(prev, (p.open, prev.len() as int)));
    }
    assert(sc.chunks.last() == block_text(lines, sc.spans.last()));
    assert forall|k: int| 0 <= k < sc.chunks.len() implies #[trigger] sc.chunks[k]
        == block_text(lines, sc.spans[k]) by {
        if k < p.chunks.len() {
            assert(p.chunks[k] == block_text(prev, p.spans[k]));
            assert(p.spans[k].0 < p.spans[k].1 <= prev.len());
        }
    }
    assert forall|k: int| 0 <= k < sc.spans.len() implies 0 <= #[trigger] sc.spans[k].0
        < sc.spans[k].1 <= lines.len() by {
        if k < p.spans.len() {
            assert(p.spans[k].0 < p.spans[k].1 <= prev.len());
        }
    }
    assert forall|k: int| 0 <= k < sc.spans.len() - 1 implies #[trigger] sc.spans[k].1
        <= sc.spans[k + 1].0 by {
        if k + 1 < p.spans.len() {
            assert(p.spans[k].1 <= p.spans[k + 1].0);
        }
    }
}

proof fn lemma_shape_step(lines: Seq<Seq<char>>)
    requires
        lines.len() > 0,
        shape_ok(lines.drop_last()),
    ensures
        shape_ok(lines),
{
    let p = scan(lines.drop_last());
    let sc = scan(lines);
    if sc.chunks.len() == p.chunks.len() + 1 {
        lemma_shape_step_emit(lines);
    } else {
        lemma_shape_step_no_emit(lines);
    }
}

proof fn lemma_scan_shape(lines: Seq<Seq<char>>)
    ensures
        shape_ok(lines),
    decreases lines.len(),
{
    if lines.len() > 0 {
        lemma_scan_shape(lines.drop_last());
        lemma_shape_step(lines);
    }
}

/// The last line of a text, read without a newline after it, keeps the
/// shape of the scan: each chunk is the text of its run of lines as it
/// stands, and an open block emits nothing.
#[verifier::spinoff_prover]
proof fn lemma_text_shape(ls: Seq<Seq<char>>)
    requires
        ls.len() > 0,
    ensures
        ({
            let sc = scan_step(scan(ls.drop_last()), ls.len() - 1, ls.last(), false);
            &&& sc.spans.len() == sc.chunks.len()
            &&& forall|k: int|
                0 <= k < sc.spans.len() ==> 0 <= #[trigger] sc.spans[k].0 < sc.spans[k].1
                    <= ls.len()
            &&& forall|k: int|
                0 <= k < sc.spans.len() - 1 ==> #[trigger] sc.spans[k].1 <= sc.spans[k + 1].0
            &&& forall|k: int|
                0 <= k < sc.chunks.len() ==> #[trigger] sc.chunks[k] == chunk_text(ls, sc.spans[k])
            &&& (sc.state == FileState::InCodeBlock || sc.state == FileState::InProse) ==> forall|
                k: int,
            |
                0 <= k < sc.spans.len() ==> #[trigger] sc.spans[k].1 <= sc.open
        }),
{
    let prev = ls.drop_last();
    let i = ls.len() - 1;
    let line = ls.last();
    lemma_scan_shape(prev);
    lemma_block_text_kept(ls);
    let p = scan(prev);
    let sc = scan_step(p, i, line, false);
    assert forall|k: int| 0 <= k < p.chunks.len() implies #[trigger] p.chunks[k] == chunk_text(
        ls,
        p.spans[k],
    ) by {
        assert(p.spans[k].0 < p.spans[k].1 <= prev.len());
        assert(p.chunks[k] == block_text(prev, p.spans[k]));
    }
    assert forall|k: int| 0 <= k < p.spans.len() implies #[trigger] p.spans[k].1 <= i by {
        assert(p.spans[k].0 < p.spans[k].1 <= prev.len());
    }
    if p.state == FileState::InCodeBlock && starts_with(line, fence()) {
        let whole = ls.subrange(p.open, ls.len() as int);
        assert(whole.drop_last() =~= prev.subrange(p.open, prev.len() as int));
        assert(whole.last() == line);
        assert(lines_text(whole) == lines_text(whole.drop_last()) + line.push('\n'));
        assert((p.acc + line.push('\n')).drop_last() =~= p.acc + line);
        assert(sc.chunks.last() == chunk_text(ls, sc.spans.last()));
    }
    if p.state == FileState::InProse && line.len() == 0 {
        assert(block_text(ls, (p.open, i)) == block_text(prev, (p.open, prev.len() as int)));
        assert(sc.chunks.last() == chunk_text(ls, sc.spans.last()));
    }
    assert forall|k: int| 0 <= k < sc.chunks.len() implies #[trigger] sc.chunks[k] == chunk_text(
        ls,
        sc.spans[k],
    ) by {
        if k < p.chunks.len() {
            assert(p.chunks[k] == chunk_text(ls, p.spans[k]));
        }
    }
    assert forall|k: int| 0 <= k < sc.spans.len() implies 0 <= #[trigger] sc.spans[k].0
        < sc.spans[k].1 <= ls.len() by {
        if k < p.spans.len() {
            assert(p.spans[k].0 < p.spans[k].1 <= prev.len());
        }
    }
    assert forall|k: int| 0 <= k < sc.spans.len() - 1 implies #[trigger] sc.spans[k].1
        <= sc.spans[k + 1].0 by {
        if k + 1 < p.spans.len() {
            assert(p.spans[k].1 <= p.spans[k + 1].0);
        }
    }
}

/// Segmentation keeps source order: every chunk is exactly the text of one
/// run of consecutive source lines as it stands (each line with the newline
/// that follows it in the text), and the runs of successive chunks follow
/// one another without overlap.
pub proof fn lemma_chunks_follow_source_order(text: Seq<char>)
    ensures
        ({
            let ls = lines_of(text);
            let spans = chunk_spans(text);
            &&& spans.len() == segment(text).len()
            &&& forall|k: int|
                0 <= k < spans.len() ==> 0 <= #[trigger] spans[k].0 < spans[k].1 <= ls.len()
            &&& forall|k: int| 0 <= k < spans.len() - 1 ==> #[trigger] spans[k].1 <= spans[k + 1].0
            &&& forall|k: int|
                0 <= k < spans.len() ==> #[trigger] segment(text)[k] == chunk_text(ls, spans[k])
        }),
{
    lemma_text_shape(lines_of(text));
}

proof fn lemma_lines_text_concat(x: Seq<Seq<char>>, y: Seq<Seq<char>>)
    ensures
        lines_text(x + y) == lines_text(x) + lines_text(y),
    decreases y.len(),
{
    if y.len() == 0 {
        assert(x + y =~= x);
        assert(lines_text(x) + lines_text(y) =~= lines_text(x));
    } else {
        lemma_lines_text_concat(x, y.drop_last());
        assert((x + y).drop_last() =~= x + y.drop_last());
        assert(lines_text(x) + (lines_text(y.drop_last()) + y.last().push('\n')) =~= (lines_text(x)
            + lines_text(y.drop_last())) + y.last().push('\n'));
    }
}

/// A text without carriage returns is its lines joined by newlines.
proof fn lemma_text_is_lines(text: Seq<char>)
    requires
        forall|i: int| 0 <= i < text.len() ==> #[trigger] text[i] != '\r',
    ensures
        text == lines_text(split_acc(text).0) + split_acc(text).1,
        forall|i: int| 0 <= i < split_acc(text).1.len() ==> #[trigger] split_acc(text).1[i] != '\r',
    decreases text.len(),
{
    if text.len() > 0 {
        let pre = text.drop_last();
        assert forall|i: int| 0 <= i < pre.len() implies #[trigger] pre[i] != '\r' by {
            assert(pre[i] == text[i]);
        }
        lemma_text_is_lines(pre);
        let (done, cur) = split_acc(pre);
        if text.last() == '\n' {
            if cur.len() > 0 {
                assert(cur.last() != '\r');
            }
            assert(strip_cr(cur) == cur);
            assert(done.push(cur).drop_last() =~= done);
            assert(done.push(cur).last() == cur);
            assert(lines_text(done.push(cur)) == lines_text(done) + cur.push('\n'));
            assert(text =~= pre.push('\n'));
            assert(text =~= lines_text(done) + cur.push('\n') + Seq::<char>::empty());
        } else {
            assert(text =~= pre.push(text.last()));
            assert(text =~= lines_text(done) + cur.push(text.last()));
            assert(text.last() != '\r');
        }
    }
}

/// Every chunk of a text without carriage returns is a piece of that text:
/// the run of characters from the start of its first line through its last
/// line, as they stand.
pub proof fn lemma_chunks_are_substrings(text: Seq<char>)
    requires
        forall|i: int| 0 <= i < text.len() ==> #[trigger] text[i] != '\r',
    ensures
        forall|k: int|
            0 <= k < segment(text).len() ==> exists|a: int, b: int|
                0 <= a <= b <= text.len() && #[trigger] segment(text)[k] == text.subrange(a, b),
{
    let ls = lines_of(text);
    let spans = chunk_spans(text);
    lemma_text_shape(ls);
    lemma_text_is_lines(text);
    let (done, cur) = split_acc(text);
    assert(ls.drop_last() =~= done);
    assert(ls.last() == strip_cr(cur));
    if cur.len() > 0 {
        assert(cur.last() != '\r');
    }
    assert(text == lines_text(ls.drop_last()) + ls.last());
    assert forall|k: int| 0 <= k < segment(text).len() implies exists|a: int, b: int|
        0 <= a <= b <= text.len() && #[trigger] segment(text)[k] == text.subrange(a, b) by {
        let (s, e) = spans[k];
        let head = ls.subrange(0, s);
        let start = lines_text(head).len() as int;
        if e < ls.len() {
            let mid = ls.subrange(s, e);
            let tail = ls.subrange(e, ls.len() - 1);
            assert(ls.drop_last() =~= head + mid + tail);
            lemma_lines_text_concat(head, mid);
            lemma_lines_text_concat(head + mid, tail);
            let block = lines_text(mid);
            assert(text =~= lines_text(head) + block + (lines_text(tail) + ls.last()));
            assert(segment(text)[k] == block);
            assert(text.subrange(start, start + block.len()) =~= block);
        } else {
            let mid = ls.subrange(s, ls.len() - 1);
            assert(ls.drop_last() =~= head + mid);
            lemma_lines_text_concat(head, mid);
            assert(ls.subrange(s, ls.len() as int).drop_last() =~= mid);
            assert(ls.subrange(s, ls.len() as int).last() == ls.last());
            let chunk = lines_text(mid) + ls.last();
            assert((lines_text(mid) + ls.last().push('\n')).drop_last() =~= chunk);
            assert(segment(text)[k] == chunk);
            assert(text =~= lines_text(head) + chunk);
            assert(text.subrange(start, text.len() as int) =~= chunk);
        }
    }
}

/// A code block or a prose block still open at the end of the text yields no
/// chunk: no chunk is drawn from the line that opened it or from any later
/// line.
pub proof fn lemma_unterminated_block_dropped(text: Seq<char>)
    ensures
        ({
            let sc = scan_text(text);
            (sc.state == FileState::InCodeBlock || sc.state == FileState::InProse) ==> forall|
                k: int,
            |
                0 <= k < chunk_spans(text).len() ==> #[trigger] chunk_spans(text)[k].1 <= sc.open
        }),
{
    lemma_text_shape(lines_of(text));
}

/// Splitting a text that ends a line, then more text, splits each part.
proof fn lemma_split_concat(a: Seq<char>, b: Seq<char>)
    requires
        split_acc(a).1.len() == 0,
    ensures
        split_acc(a + b) == (split_acc(a).0 + split_acc(b).0, split_acc(b).1),
    decreases b.len(),
{
    if b.len() == 0 {
        assert(a + b =~= a);
        assert(split_acc(a).0 + split_acc(b).0 =~= split_acc(a).0);
        assert(split_acc(a).1 =~= split_acc(b).1);
    } else {
        lemma_split_concat(a, b.drop_last());
        assert((a + b).drop_last() =~= a + b.drop_last());
        let (d1, c1) = split_acc(b.drop_last());
        assert((split_acc(a).0 + d1).push(strip_cr(c1)) =~= split_acc(a).0 + d1.push(strip_cr(c1)));
    }
}

/// Scanning from where a scan ended in `Idle` goes on as a fresh scan of
/// the further lines, after the chunks already emitted.
proof fn lemma_scan_concat_idle(x: Seq<Seq<char>>, r: Seq<Seq<char>>)
    requires
        scan(x).state == FileState::Idle,
    ensures
        scan(x + r).state == scan(r).state,
        scan(x + r).chunks == scan(x).chunks + scan(r).chunks,
        (scan(r).state == FileState::InCodeBlock || scan(r).state == FileState::InProse) ==> scan(
            x + r,
        ).acc == scan(r).acc,
    decreases r.len(),
{
    if r.len() == 0 {
        assert(x + r =~= x);
        assert(scan(x).chunks + scan(r).chunks =~= scan(x).chunks);
    } else {
        lemma_scan_concat_idle(x, r.drop_last());
        assert((x + r).drop_last() =~= x + r.drop_last());
        assert((x + r).last() == r.last());
        let p = scan(r.drop_last());
        if p.state == FileState::InCodeBlock || p.state == FileState::InProse {
            assert(scan(x + r).chunks =~= scan(x).chunks + scan(r).chunks);
        } else {
            assert(scan(x + r).chunks =~= scan(x).chunks + scan(r).chunks);
        }
    }
}

/// A block that opens with a fence and has no later fence line emits no
/// chunk of its own.
proof fn lemma_open_code_block(b: Seq<Seq<char>>)
    requires
        b.len() > 0,
        starts_with(b[0], fence()),
        forall|k: int| 1 <= k < b.len() ==> !starts_with(#[trigger] b[k], fence()),
    ensures
        scan(b).state == FileState::InCodeBlock,
        scan(b).chunks.len() == 0,
    decreases b.len(),
{
    if b.len() == 1 {
        assert(b.drop_last().len() == 0);
    } else {
        lemma_open_code_block(b.drop_last());
        assert(!starts_with(b[b.len() - 1], fence()));
    }
}

/// A block whose lines are all non-blank, and whose first line opens a
/// paragraph, emits no chunk of its own.
proof fn lemma_open_prose_block(b: Seq<Seq<char>>)
    requires
        b.len() > 0,
        !starts_with(b[0], fence()),
        !starts_with(b[0], rule()),
        !starts_with(b[0], heading()),
        forall|k: int| 0 <= k < b.len() ==> #[trigger] b[k].len() > 0,
    ensures
        scan(b).state == FileState::InProse,
        scan(b).chunks.len() == 0,
    decreases b.len(),
{
    if b.len() == 1 {
        assert(b.drop_last().len() == 0);
    } else {
        lemma_open_prose_block(b.drop_last());
        assert(b[b.len() - 1].len() > 0);
    }
}

/// Lines from one `---` line to the next, with none between, form a
/// comment region: scanning it emits nothing and ends in `Idle`.
proof fn lemma_comment_region(b: Seq<Seq<char>>)
    requires
        b.len() >= 2,
        starts_with(b[0], rule()),
        starts_with(b[b.len() - 1], rule()),
        forall|k: int| 1 <= k < b.len() - 1 ==> !starts_with(#[trigger] b[k], rule()),
    ensures
        scan(b).state == FileState::Idle,
        scan(b).chunks.len() == 0,
{
    let inner = b.drop_last();
    assert forall|m: int| 1 <= m <= inner.len() implies scan(#[trigger] inner.take(m)).state
        == FileState::InCommentBlock && scan(inner.take(m)).chunks.len() == 0 by {
        lemma_comment_prefix(inner, m);
    }
    assert(inner.take(inner.len() as int) =~= inner);
}

proof fn lemma_comment_prefix(inner: Seq<Seq<char>>, m: int)
    requires
        1 <= m <= inner.len(),
        starts_with(inner[0], rule()),
        forall|k: int| 1 <= k < inner.len() ==> !starts_with(#[trigger] inner[k], rule()),
    ensures
        scan(inner.take(m)).state == FileState::InCommentBlock,
        scan(inner.take(m)).chunks.len() == 0,
    decreases m,
{
    if m == 1 {
        assert(inner.take(1).drop_last() =~= Seq::<Seq<char>>::empty());
        assert(inner.take(1).last() == inner[0]);
        assert(scan(inner.take(1)) == scan_step(scan(Seq::<Seq<char>>::empty()), 0, inner[0], true));
        assert(inner[0].take(3)[0] == rule()[0]);
        assert(!starts_with(inner[0], fence())) by {
            if starts_with(inner[0], fence()) {
                assert(inner[0].take(3)[0] == fence()[0]);
            }
        }
    } else {
        lemma_comment_prefix(inner, m - 1);
        assert(inner.take(m).drop_last() =~= inner.take(m - 1));
        assert(inner.take(m).last() == inner[m - 1]);
        assert(!starts_with(inner[m - 1], rule()));
        assert(scan(inner.take(m)) == scan_step(scan(inner.take(m - 1)), m - 1, inner[m - 1], true));
    }
}

/// An unterminated code block at the end of the text yields no chunk: where
/// the lines that `a` ends scan to `Idle`, a code block `b` that opens with
/// a fence and is never closed adds nothing to the chunks of `a`.
pub proof fn lemma_unterminated_code_block(a: Seq<char>, b: Seq<char>)
    requires
        split_acc(a).1.len() == 0,
        scan(split_acc(a).0).state == FileState::Idle,
        starts_with(lines_of(b)[0], fence()),
        forall|k: int| 1 <= k < lines_of(b).len() ==> !starts_with(#[trigger] lines_of(b)[k], fence()),
    ensures
        segment(a + b) == segment(a),
{
    lemma_split_concat(a, b);
    let x = split_acc(a).0;
    let lb = lines_of(b);
    assert(lines_of(a + b) =~= x + lb);
    assert((x + lb).drop_last() =~= x + lb.drop_last());
    lemma_scan_concat_idle(x, lb.drop_last());
    if lb.len() > 1 {
        lemma_open_code_block(lb.drop_last());
        assert(!starts_with(lb[lb.len() - 1], fence()));
    } else {
        assert(lb.drop_last().len() == 0);
    }
    assert(scan(x).chunks + scan(lb.drop_last()).chunks =~= scan(x).chunks);
    assert(lines_of(a) == x.push(Seq::<char>::empty()));
    assert(x.push(Seq::<char>::empty()).drop_last() == x);
}

/// An unterminated paragraph at the end of the text yields no chunk: where
/// the lines that `a` ends scan to `Idle`, a paragraph `b` with no blank
/// line adds nothing to the chunks of `a`.
pub proof fn lemma_unterminated_paragraph(a: Seq<char>, b: Seq<char>)
    requires
        split_acc(a).1.len() == 0,
        scan(split_acc(a).0).state == FileState::Idle,
        !starts_with(lines_of(b)[0], fence()),
        !starts_with(lines_of(b)[0], rule()),
        !starts_with(lines_of(b)[0], heading()),
        forall|k: int| 0 <= k < lines_of(b).len() ==> #[trigger] lines_of(b)[k].len() > 0,
    ensures
        segment(a + b) == segment(a),
{
    lemma_split_concat(a, b);
    let x = split_acc(a).0;
    let lb = lines_of(b);
    assert(lines_of(a + b) =~= x + lb);
    assert((x + lb).drop_last() =~= x + lb.drop_last());
    lemma_scan_concat_idle(x, lb.drop_last());
    if lb.len() > 1 {
        lemma_open_prose_block(lb.drop_last());
        assert(lb[lb.len() - 1].len() > 0);
    } else {
        assert(lb.drop_last().len() == 0);
    }
    assert(scan(x).chunks + scan(lb.drop_last()).chunks =~= scan(x).chunks);
    assert(lines_of(a) == x.push(Seq::<char>::empty()));
    assert(x.push(Seq::<char>::empty()).drop_last() == x);
}

/// A comment region is absent from the output: where lines `l` scan to
/// `Idle` and `b` runs from a `---` line to the next one, the chunks of
/// `l`, `b`, `r` are those of `l` followed by those of `r` alone.
pub proof fn lemma_comment_region_absent(l: Seq<Seq<char>>, b: Seq<Seq<char>>, r: Seq<Seq<char>>)
    requires
        scan(l).state == FileState::Idle,
        b.len() >= 2,
        starts_with(b[0], rule()),
        starts_with(b[b.len() - 1], rule()),
        forall|k: int| 1 <= k < b.len() - 1 ==> !starts_with(#[trigger] b[k], rule()),
    ensures
        scan(l + b + r).chunks == scan(l).chunks + scan(r).chunks,
{
    lemma_comment_region(b);
    lemma_scan_concat_idle(l, b);
    assert(scan(l).chunks + scan(b).chunks =~= scan(l).chunks);
    lemma_scan_concat_idle(l + b, r);
}

/// Whether `line` starts with `n` copies of `marker`.
fn starts_with_run(line: &str, marker: char, n: usize) -> (r: bool)
    ensures
        r == starts_with(line@, repeat(marker, n as nat)),
{
    let len = line.unicode_len();
    if len < n {
        return false;
    }
    let mut j: usize = 0;
    while j < n
        invariant
            j <= n <= len == line@.len(),
            forall|k: int| 0 <= k < j ==> line@[k] == marker,
        decreases n - j,
    {
        if line.get_char(j) != marker {
            assert(line@.take(n as int)[j as int] != repeat(marker, n as nat)[j as int]);
            return false;
        }
        j = j + 1;
    }
    assert(line@.take(n as int) =~= repeat(marker, n as nat));
    true
}

/// A markdown document: its path relative to the tree it came from, its
/// text, and the chunks that segmentation cut from it.
#[derive(Clone, Debug)]
pub struct File {
    pub path: String,
    pub contents: String,
    pub sentences: Vec<String>,
}

impl File {
    /// A document not yet segmented.
    pub fn new(path: String, contents: String) -> (r: File)
        ensures
            r.path == path,
            r.contents == contents,
            r.sentences@.len() == 0,
    {
        File { path, contents, sentences: Vec::new() }
    }

    /// The chunks, as text.
    pub open spec fn chunks(&self) -> Seq<Seq<char>> {
        self.sentences@.map_values(|s: String| s@)
    }

    /// Cuts the text into chunks: fenced code blocks and prose paragraphs,
    /// in source order.
    pub fn parse(&mut self)
        ensures
            final(self).path == old(self).path,
            final(self).contents == old(self).contents,
            final(self).chunks() == segment(old(self).contents@),
    {
        let lines = split_lines(self.contents.as_str());
        let ghost ls = lines_of(self.contents@);
        let mut contents: Vec<String> = Vec::new();
        let mut state = FileState::Idle;
        let mut sentence = String::new();
        let n = lines.len();
        assert(n >= 1) by {
            assert(ls.len() >= 1);
        }
        for i in 0..n - 1
            invariant
                n == lines@.len(),
                n >= 1,
                lines@.map_values(|l: String| l@) == ls,
                ls == lines_of(self.contents@),
                state == scan(ls.take(i as int)).state,
                contents@.map_values(|s: String| s@) == scan(ls.take(i as int)).chunks,
                sentence@ == scan(ls.take(i as int)).acc,
        {
            let line = lines[i].as_str();
            proof {
                assert(ls.take(i + 1).drop_last() == ls.take(i as int));
                assert(ls.take(i + 1).last() == line@);
            }
            scan_line(
                &mut state,
                &mut contents,
                &mut sentence,
                line,
                true,
                Ghost(scan(ls.take(i as int))),
                Ghost(i as int),
            );
        }
        proof {
            assert(ls.take(n - 1) == ls.drop_last());
        }
        scan_line(
            &mut state,
            &mut contents,
            &mut sentence,
            lines[n - 1].as_str(),
            false,
            Ghost(scan(ls.drop_last())),
            Ghost(n - 1),
        );
        self.sentences = contents;
    }
}

/// Reads one line into the scanner's state, emitted chunks and open block,
/// as [`scan_step`] does; `nl` tells whether a newline follows the line.
fn scan_line(
    state: &mut FileState,
    contents: &mut Vec<String>,
    sentence: &mut String,
    line: &str,
    nl: bool,
    sc: Ghost<Scan>,
    i: Ghost<int>,
)
    requires
        sc@.state == *old(state),
        sc@.chunks == old(contents)@.map_values(|s: String| s@),
        sc@.acc == old(sentence)@,
    ensures
        *final(state) == scan_step(sc@, i@, line@, nl).state,
        final(contents)@.map_values(|s: String| s@) == scan_step(sc@, i@, line@, nl).chunks,
        final(sentence)@ == scan_step(sc@, i@, line@, nl).acc,
{
    let ghost old_contents = contents@.map_values(|s: String| s@);
    let ghost next = scan_step(sc@, i@, line@, nl);
    match *state {
        FileState::Idle => {
            if starts_with_run(line, '`', 3) {
                *state = FileState::InCodeBlock;
                *sentence = String::new();
                sentence.append(line);
                if nl {
                    push_char(sentence, '\n');
                }
            } else if starts_with_run(line, '-', 3) {
                *state = FileState::InCommentBlock;
            } else if !starts_with_run(line, '#', 1) && !line.is_empty() {
                *state = FileState::InProse;
                *sentence = String::new();
                sentence.append(line);
                if nl {
                    push_char(sentence, '\n');
                }
            }
        },
        FileState::InCodeBlock => {
            sentence.append(line);
            if nl {
                push_char(sentence, '\n');
            }
            if starts_with_run(line, '`', 3) {
                contents.push(sentence.clone());
                *sentence = String::new();
                *state = FileState::Idle;
                proof {
                    assert(contents@.map_values(|s: String| s@) == old_contents.push(next.chunks.last()));
                }
            }
        },
        FileState::InCommentBlock => {
            if starts_with_run(line, '-', 3) {
                *state = FileState::Idle;
            }
        },
        FileState::InProse => {
            if line.is_empty() {
                *state = FileState::Idle;
                contents.push(sentence.clone());
                *sentence = String::new();
                proof {
                    assert(contents@.map_values(|s: String| s@) == old_contents.push(next.chunks.last()));
                }
            } else {
                sentence.append(line);
                if nl {
                    push_char(sentence, '\n');
                }
            }
        },
    }
}

/// The view of an optional string.
pub open spec fn opt_view(o: Option<String>) -> Option<Seq<char>> {
    match o {
        Some(s) => Some(s@),
        None => None,
    }
}

/// The text of the first document whose path is `key`.
pub open spec fn find_in(files: Seq<File>, key: Seq<char>) -> Option<Seq<char>>
    decreases files.len(),
{
    if files.len() == 0 {
        None
    } else if files[0].path@ == key {
        Some(files[0].contents@)
    } else {
        find_in(files.drop_first(), key)
    }
}

/// The text that a search hit leads to.
pub open spec fn contents_for(files: Seq<File>, hit: SearchHit) -> Option<Seq<char>> {
    match hit.document_id {
        Some(id) => find_in(files, id@),
        None => None,
    }
}

/// Looking up the path of a document finds the first document with that
/// path.
pub proof fn lemma_find_in_hit(files: Seq<File>, d: int)
    requires
        0 <= d < files.len(),
    ensures
        exists|j: int|
            0 <= j <= d && #[trigger] files[j].path@ == files[d].path@ && find_in(
                files,
                files[d].path@,
            ) == Some(files[j].contents@),
    decreases d,
{
    if files[0].path@ == files[d].path@ {
        assert(files[0].path@ == files[d].path@);
    } else {
        let rest = files.drop_first();
        lemma_find_in_hit(rest, d - 1);
        let j = choose|j: int|
            0 <= j <= d - 1 && #[trigger] rest[j].path@ == rest[d - 1].path@ && find_in(
                rest,
                rest[d - 1].path@,
            ) == Some(rest[j].contents@);
        assert(files[j + 1].path@ == files[d].path@);
    }
}

/// Looks documents up by their path.
pub trait Finder {
    fn find(&self, key: &str) -> Option<String>;

    fn get_contents(&self, result: &SearchHit) -> Option<String>;
}

impl Finder for Vec<File> {
    /// The text of the first document whose path is `key`.
    fn find(&self, key: &str) -> (r: Option<String>)
        ensures
            opt_view(r) == find_in(self@, key@),
    {
        let k = key.to_owned();
        let mut i: usize = 0;
        assert(self@.skip(0) =~= self@);
        while i < self.len()
            invariant
                i <= self@.len(),
                k@ == key@,
                find_in(self@, key@) == find_in(self@.skip(i as int), key@),
            decreases self@.len() - i,
        {
            assert(self@.skip(i as int)[0] == self@[i as int]);
            if self[i].path == k {
                return Some(self[i].contents.clone());
            }
            assert(self@.skip(i as int).drop_first() =~= self@.skip(i + 1));
            i = i + 1;
        }
        None
    }

    /// The text of the document that a search hit names.
    fn get_contents(&self, result: &SearchHit) -> (r: Option<String>)
        ensures
            opt_view(r) == contents_for(self@, *result),
    {
        match &result.document_id {
            Some(id) => self.find(id.as_str()),
            None => None,
        }
    }
}

/// The directory name under which documents are templates, not docs.
pub open spec fn templates_dir() -> Seq<char> {
    seq!['t', 'e', 'm', 'p', 'l', 'a', 't', 'e', 's']
}

/// The extension of a markdown file.
pub open spec fn markdown_ext() -> Seq<char> {
    seq!['m', 'd']
}

/// The lower-case form of a text, as `str::to_lowercase` gives it.
pub uninterp spec fn lower_of(s: Seq<char>) -> Seq<char>;

/// Relies on `str::to_lowercase`: the result depends on the text alone.
#[verifier::external_body]
fn to_lowercase(s: &str) -> (r: String)
    ensures
        r@ == lower_of(s@),
{
    s.to_lowercase()
}

/// The segments of a path ended by a `/` so far, and the unfinished last
/// one.
pub open spec fn segments_acc(s: Seq<char>) -> (Seq<Seq<char>>, Seq<char>)
    decreases s.len(),
{
    if s.len() == 0 {
        (Seq::empty(), Seq::empty())
    } else {
        let (done, cur) = segments_acc(s.drop_last());
        if s.last() == '/' {
            (done.push(cur), Seq::empty())
        } else {
            (done, cur.push(s.last()))
        }
    }
}

/// The `/`-separated segments of a path.
pub open spec fn segments_of(s: Seq<char>) -> Seq<Seq<char>> {
    let (done, cur) = segments_acc(s);
    done.push(cur)
}

/// A sequence with one more element holds `t` when the shorter one does or
/// the new element is `t`.
proof fn lemma_contains_push(done: Seq<Seq<char>>, cur: Seq<char>, t: Seq<char>)
    ensures
        done.push(cur).contains(t) == (done.contains(t) || cur == t),
{
    let nd = done.push(cur);
    if nd.contains(t) && !done.contains(t) {
        let k = choose|k: int| 0 <= k < nd.len() && nd[k] == t;
        assert(k == done.len());
    }
    if done.contains(t) {
        let k = choose|k: int| 0 <= k < done.len() && done[k] == t;
        assert(nd[k] == t);
    }
    if cur == t {
        assert(nd[done.len() as int] == t);
    }
}

/// Whether a path, already in lower case, has a segment `templates`.
pub fn has_templates_segment(folded: &str) -> (r: bool)
    ensures
        r == segments_of(folded@).contains(templates_dir()),
{
    broadcast use vstd::string::axiom_spec_iter;
    let t = String::from_str("templates");
    proof {
        reveal_strlit("templates");
        assert(t@ =~= templates_dir());
    }
    let mut found = false;
    let mut cur = String::new();
    for c in it: folded.chars()
        invariant
            it.seq() == folded@,
            t@ == templates_dir(),
            cur@ == segments_acc(folded@.take(it.index() as int)).1,
            found == segments_acc(folded@.take(it.index() as int)).0.contains(templates_dir()),
    {
        let ghost pre = folded@.take(it.index() as int);
        proof {
            assert(folded@.take(it.index() + 1).drop_last() == pre);
        }
        if c == '/' {
            let ghost done = segments_acc(pre).0;
            found = found || cur == t;
            cur = String::new();
            proof {
                lemma_contains_push(done, segments_acc(pre).1, templates_dir());
            }
        } else {
            push_char(&mut cur, c);
        }
    }
    proof {
        assert(folded@.take(folded@.len() as int) == folded@);
        lemma_contains_push(segments_acc(folded@).0, segments_acc(folded@).1, templates_dir());
    }
    found || cur == t
}

/// Whether a file of the tree is indexed: a markdown file whose relative
/// path, in lower case, has no segment `templates`.
pub fn is_documentation_file(relative_path: &str, extension: &str) -> (r: bool)
    ensures
        r == (extension@ == markdown_ext() && !segments_of(lower_of(relative_path@)).contains(
            templates_dir(),
        )),
{
    let is_md = extension.unicode_len() == 2 && extension.get_char(0) == 'm'
        && extension.get_char(1) == 'd';
    assert(is_md <==> extension@ =~= markdown_ext());
    if !is_md {
        return false;
    }
    let folded = to_lowercase(relative_path);
    !has_templates_segment(folded.as_str())
}

/// The document for a file of the tree, segmented, or `None` where the file
/// is not indexed.
pub fn load_file(relative_path: String, extension: &str, contents: String) -> (r: Option<File>)
    ensures
        r is Some <==> (extension@ == markdown_ext() && !segments_of(
            lower_of(relative_path@),
        ).contains(templates_dir())),
        r matches Some(f) ==> f.path == relative_path && f.contents == contents && f.chunks()
            == segment(contents@),
{
    if !is_documentation_file(relative_path.as_str(), extension) {
        return None;
    }
    let mut file = File::new(relative_path, contents);
    file.parse();
    Some(file)
}

} // verus!
