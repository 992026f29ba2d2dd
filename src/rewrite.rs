//! Rewriting a file's lines so that exactly the queued lines lose their
//! trailing spaces and tabs.

use vstd::prelude::*;

verus! {

/// A space (0x20) or a tab (0x09) byte.
pub open spec fn is_blank_byte(b: u8) -> bool {
    b == 0x20 || b == 0x09
}

/// A line as read from a file, without its terminator: a final line feed is
/// dropped, and then a carriage return just before it.
pub open spec fn line_body(raw: Seq<u8>) -> Seq<u8> {
    if raw.len() > 0 && raw.last() == 10 {
        let a = raw.drop_last();
        if a.len() > 0 && a.last() == 13 {
            a.drop_last()
        } else {
            a
        }
    } else {
        raw
    }
}

/// The line with every trailing space and tab removed.
pub open spec fn trim_blanks(s: Seq<u8>) -> Seq<u8>
    decreases s.len(),
{
    if s.len() > 0 && is_blank_byte(s.last()) {
        trim_blanks(s.drop_last())
    } else {
        s
    }
}

/// How many entries of the queue have been taken once `i` lines were read:
/// the head is taken when the line whose 1-based number it holds is read.
pub open spec fn consumed(queue: Seq<u32>, i: nat) -> nat
    decreases i,
{
    if i == 0 {
        0
    } else {
        let c = consumed(queue, (i - 1) as nat);
        if c < queue.len() && queue[c as int] == i {
            c + 1
        } else {
            c
        }
    }
}

/// The line at 0-based index `i` is the head of the queue when it is read.
pub open spec fn trimmed_at(queue: Seq<u32>, i: nat) -> bool {
    let c = consumed(queue, i);
    c < queue.len() && queue[c as int] == i + 1
}

/// What is written for the line at 0-based index `i`: its body, trimmed when
/// it is the queue's head, then the terminator.
pub open spec fn rewritten_line(raw: Seq<u8>, queue: Seq<u32>, i: nat, newline: Seq<u8>) -> Seq<u8> {
    if trimmed_at(queue, i) {
        trim_blanks(line_body(raw)) + newline
    } else {
        line_body(raw) + newline
    }
}

/// The line without its terminator.
pub fn strip_terminator(raw: &[u8]) -> (r: Vec<u8>)
    ensures
        r@ == line_body(raw@),
{
    let n = raw.len();
    let mut end: usize = n;
    if n > 0 && raw[n - 1] == 10u8 {
        end = n - 1;
        if end > 0 && raw[end - 1] == 13u8 {
            end = end - 1;
        }
    }
    let mut r: Vec<u8> = Vec::new();
    let mut i: usize = 0;
    while i < end
        invariant
            end <= raw@.len(),
            i <= end,
            r@ == raw@.subrange(0, i as int),
        decreases end - i,
    {
        r.push(raw[i]);
        i = i + 1;
    }
    proof {
        if n > 0 && raw@.last() == 10 {
            let a = raw@.drop_last();
            assert(a =~= raw@.subrange(0, n - 1));
            if a.len() > 0 && a.last() == 13 {
                assert(a.drop_last() =~= raw@.subrange(0, n - 2));
            }
        }
        assert(r@ =~= line_body(raw@));
    }
    r
}

proof fn lemma_trim_prefix(s: Seq<u8>, k: int)
    requires
        0 <= k <= s.len(),
        forall|j: int| k <= j < s.len() ==> is_blank_byte(#[trigger] s[j]),
    ensures
        trim_blanks(s) == trim_blanks(s.subrange(0, k)),
    decreases s.len() - k,
{
    if k < s.len() {
        assert(s.drop_last() =~= s.subrange(0, s.len() - 1));
        let t = s.drop_last();
        assert(t.subrange(0, k) =~= s.subrange(0, k));
        lemma_trim_prefix(t, k);
    } else {
        assert(s.subrange(0, k) =~= s);
    }
}

/// The line with every trailing space and tab removed.
pub fn trim_line(line: &Vec<u8>) -> (r: Vec<u8>)
    ensures
        r@ == trim_blanks(line@),
{
    let mut end: usize = line.len();
    while end > 0 && (line[end - 1] == 0x20u8 || line[end - 1] == 0x09u8)
        invariant
            end <= line@.len(),
            forall|j: int| end <= j < line@.len() ==> is_blank_byte(#[trigger] line@[j]),
        decreases end,
    {
        end = end - 1;
    }
    proof {
        lemma_trim_prefix(line@, end as int);
        let p = line@.subrange(0, end as int);
        if p.len() > 0 {
            assert(p.last() == line@[end - 1]);
        }
    }
    let mut r: Vec<u8> = Vec::new();
    let mut i: usize = 0;
    while i < end
        invariant
            end <= line@.len(),
            i <= end,
            r@ == line@.subrange(0, i as int),
        decreases end - i,
    {
        r.push(line[i]);
        i = i + 1;
    }
    r
}

/// Rewrites the lines of a file. Each raw line (as read, terminator included)
/// loses its terminator; it is trimmed when its 1-based number is the head of
/// the queue, which is then popped; the terminator `newline` is appended to
/// every line, the last one included.
pub fn rewrite_lines(raw_lines: &Vec<Vec<u8>>, queue: &Vec<u32>, newline: &[u8]) -> (out: Vec<Vec<u8>>)
    ensures
        out@.len() == raw_lines@.len(),
        forall|i: int|
            0 <= i < out@.len() ==> (#[trigger] out@[i])@ == rewritten_line(
                raw_lines@[i]@,
                queue@,
                i as nat,
                newline@,
            ),
{
    let mut out: Vec<Vec<u8>> = Vec::new();
    let mut head: usize = 0;
    let mut i: usize = 0;
    while i < raw_lines.len()
        invariant
            i <= raw_lines@.len(),
            head as nat == consumed(queue@, i as nat),
            head <= queue@.len(),
            out@.len() == i,
            forall|j: int|
                0 <= j < i ==> (#[trigger] out@[j])@ == rewritten_line(
                    raw_lines@[j]@,
                    queue@,
                    j as nat,
                    newline@,
                ),
        decreases raw_lines@.len() - i,
    {
        let body = strip_terminator(raw_lines[i].as_slice());
        let hit = head < queue.len() && queue[head] as usize == i + 1;
        let mut line = if hit {
            trim_line(&body)
        } else {
            body
        };
        let mut k: usize = 0;
        let ghost start = line@;
        while k < newline.len()
            invariant
                k <= newline@.len(),
                line@ == start + newline@.subrange(0, k as int),
            decreases newline@.len() - k,
        {
            line.push(newline[k]);
            k = k + 1;
        }
        assert(newline@.subrange(0, newline@.len() as int) =~= newline@);
        assert(line@ == rewritten_line(raw_lines@[i as int]@, queue@, i as nat, newline@));
        out.push(line);
        if hit {
            head = head + 1;
        }
        assert(consumed(queue@, (i + 1) as nat) == head);
        i = i + 1;
    }
    out
}

/// Line numbers are 1-based and strictly ascending, as a diff emits them.
pub open spec fn ascending_line_numbers(queue: Seq<u32>) -> bool {
    &&& forall|a: int| 0 <= a < queue.len() ==> #[trigger] queue[a] >= 1
    &&& forall|a: int, b: int| 0 <= a < b < queue.len() ==> #[trigger] queue[a] < #[trigger] queue[b]
}

proof fn lemma_consumed_splits(queue: Seq<u32>, i: nat)
    requires
        ascending_line_numbers(queue),
    ensures
        consumed(queue, i) <= queue.len(),
        forall|j: int| 0 <= j < consumed(queue, i) ==> #[trigger] queue[j] <= i,
        consumed(queue, i) < queue.len() ==> queue[consumed(queue, i) as int] > i,
    decreases i,
{
    if i > 0 {
        lemma_consumed_splits(queue, (i - 1) as nat);
    } else {
        if queue.len() > 0 {
            assert(queue[0] >= 1);
        }
    }
    let c = consumed(queue, i);
    if c < queue.len() && c > 0 {
        assert(queue[c - 1] < queue[c as int]);
    }
}

proof fn lemma_trim_shape(s: Seq<u8>)
    ensures
        s.subrange(0, trim_blanks(s).len() as int) == trim_blanks(s),
        trim_blanks(s).len() <= s.len(),
        forall|j: int| trim_blanks(s).len() <= j < s.len() ==> is_blank_byte(#[trigger] s[j]),
        !(trim_blanks(s).len() > 0 && is_blank_byte(trim_blanks(s).last())),
    decreases s.len(),
{
    if s.len() > 0 && is_blank_byte(s.last()) {
        let t = s.drop_last();
        lemma_trim_shape(t);
        assert(s.subrange(0, trim_blanks(s).len() as int) =~= t.subrange(0, trim_blanks(t).len() as int));
        assert forall|j: int| trim_blanks(s).len() <= j < s.len() implies is_blank_byte(#[trigger] s[j]) by {
            if j < t.len() {
                assert(s[j] == t[j]);
            }
        }
    } else {
        assert(s.subrange(0, s.len() as int) =~= s);
    }
}

/// With line numbers ascending, exactly the lines whose numbers are queued
/// are trimmed: such a line is written as the line with all its trailing
/// spaces and tabs removed (what is removed is blanks only, and nothing blank
/// is left at its end), and every other line is written as it was read.
pub proof fn lemma_trims_exactly_queued(raw: Seq<u8>, queue: Seq<u32>, i: nat, newline: Seq<u8>)
    requires
        ascending_line_numbers(queue),
    ensures
        (exists|j: int| 0 <= j < queue.len() && queue[j] == i + 1) ==> rewritten_line(raw, queue, i, newline)
            == trim_blanks(line_body(raw)) + newline,
        !(exists|j: int| 0 <= j < queue.len() && queue[j] == i + 1) ==> rewritten_line(raw, queue, i, newline)
            == line_body(raw) + newline,
        ({
            let b = line_body(raw);
            let t = trim_blanks(b);
            &&& b.subrange(0, t.len() as int) == t
            &&& forall|k: int| t.len() <= k < b.len() ==> is_blank_byte(#[trigger] b[k])
            &&& !(t.len() > 0 && is_blank_byte(t.last()))
        }),
{
    lemma_consumed_splits(queue, i);
    lemma_trim_shape(line_body(raw));
    let c = consumed(queue, i);
    if exists|j: int| 0 <= j < queue.len() && queue[j] == i + 1 {
        let j = choose|j: int| 0 <= j < queue.len() && queue[j] == i + 1;
        if j < c {
            assert(queue[j] <= i);
        } else if j > c {
            assert(queue[c as int] < queue[j]);
        }
        assert(trimmed_at(queue, i));
    } else {
        if c < queue.len() {
            assert(queue[c as int] != i + 1);
        }
    }
}

/// A file with an empty queue has every line written as it was read, only
/// its terminator replaced by `newline`.
pub proof fn lemma_empty_queue_keeps_lines(raw: Seq<u8>, i: nat, newline: Seq<u8>)
    ensures
        rewritten_line(raw, Seq::<u32>::empty(), i, newline) == line_body(raw) + newline,
{
}

/// Rewriting is idempotent: a line written with a native terminator (LF or
/// CRLF), read back and rewritten with an empty queue, since a second scan
/// flags nothing, comes out unchanged. This holds unless what was written
/// before the terminator itself ends in a carriage return.
pub proof fn lemma_second_run_changes_nothing(raw: Seq<u8>, queue: Seq<u32>, i: nat, newline: Seq<u8>)
    requires
        newline == seq![10u8] || newline == seq![13u8, 10u8],
        ({
            let w = if trimmed_at(queue, i) { trim_blanks(line_body(raw)) } else { line_body(raw) };
            !(w.len() > 0 && w.last() == 13)
        }),
    ensures
        rewritten_line(rewritten_line(raw, queue, i, newline), Seq::<u32>::empty(), i, newline)
            == rewritten_line(raw, queue, i, newline),
{
    let w = if trimmed_at(queue, i) { trim_blanks(line_body(raw)) } else { line_body(raw) };
    let out = w + newline;
    assert(out.drop_last() =~= w + newline.drop_last());
    if newline.len() == 2 {
        assert(out.drop_last().drop_last() =~= w);
    } else {
        assert(out.drop_last() =~= w);
    }
    assert(line_body(out) =~= w);
}

} // verus!
