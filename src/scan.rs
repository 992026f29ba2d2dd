//! Grouping the flagged lines of a staged diff by file.

use vstd::prelude::*;
use crate::classify::{is_flagged_line, line_flagged};
use vstd::utf8::valid_utf8;
use crate::rewrite::{
    ascending_line_numbers, lemma_trims_exactly_queued, line_body, rewritten_line, trim_blanks,
};

verus! {

/// One line of a staged diff, as the diff printer emits it: the new-side path
/// of its file, its new-side line number (absent for a deleted line) and its
/// raw content.
pub struct DiffLine {
    pub path: String,
    pub new_lineno: Option<u32>,
    pub content: Vec<u8>,
}

/// The diff line is present in the staged version and ends in trailing
/// whitespace.
pub open spec fn counts(d: DiffLine) -> bool {
    d.new_lineno is Some && line_flagged(d.content@)
}

/// The line numbers of the diff lines of `path` that count, in emission order.
pub open spec fn flagged_in(lines: Seq<DiffLine>, path: Seq<char>) -> Seq<u32>
    decreases lines.len(),
{
    if lines.len() == 0 {
        seq![]
    } else {
        let prev = flagged_in(lines.drop_last(), path);
        let d = lines.last();
        if d.path@ == path && counts(d) {
            prev.push(d.new_lineno->0)
        } else {
            prev
        }
    }
}

/// A file and the queue of its 1-based line numbers to trim.
pub struct FileLines {
    pub path: String,
    pub lines: Vec<u32>,
}

/// For each file with at least one flagged line, the queue of its flagged
/// line numbers.
pub struct TrailingLineMap {
    pub files: Vec<FileLines>,
}

/// Paths are distinct and no queue is empty.
pub open spec fn files_wf(files: Seq<FileLines>) -> bool {
    &&& forall|i: int, j: int|
        0 <= i < j < files.len() ==> (#[trigger] files[i]).path@ != (#[trigger] files[j]).path@
    &&& forall|i: int| 0 <= i < files.len() ==> (#[trigger] files[i]).lines@.len() > 0
}

/// The files hold exactly the flagged lines of the diff: each file's queue is
/// its flagged lines in order, and every file with one is present.
pub open spec fn files_built_from(files: Seq<FileLines>, diff: Seq<DiffLine>) -> bool {
    &&& forall|i: int|
        0 <= i < files.len() ==> (#[trigger] files[i]).lines@ == flagged_in(diff, files[i].path@)
    &&& forall|p: Seq<char>|
        flagged_in(diff, p).len() > 0 ==> exists|i: int|
            0 <= i < files.len() && (#[trigger] files[i]).path@ == p
}

impl TrailingLineMap {
    /// Paths are distinct and no queue is empty.
    pub open spec fn wf(&self) -> bool {
        files_wf(self.files@)
    }

    /// The map holds exactly the flagged lines of the diff.
    pub open spec fn built_from(&self, diff: Seq<DiffLine>) -> bool {
        files_built_from(self.files@, diff)
    }

    /// The paths of the files in the map, in the map's order.
    pub fn paths(&self) -> (r: Vec<String>)
        ensures
            r@.len() == self.files@.len(),
            forall|i: int| 0 <= i < r@.len() ==> (#[trigger] r@[i])@ == self.files@[i].path@,
    {
        let mut r: Vec<String> = Vec::new();
        let mut i: usize = 0;
        while i < self.files.len()
            invariant
                i <= self.files@.len(),
                r@.len() == i,
                forall|j: int| 0 <= j < i ==> (#[trigger] r@[j])@ == self.files@[j].path@,
            decreases self.files@.len() - i,
        {
            r.push(self.files[i].path.clone());
            i = i + 1;
        }
        r
    }

    /// True when no file has a flagged line.
    pub fn is_empty(&self) -> (r: bool)
        ensures
            r == (self.files@.len() == 0),
    {
        self.files.len() == 0
    }
}

/// Finds the position of `path` among the files, if present.
fn find_file(files: &Vec<FileLines>, path: &String) -> (r: Option<usize>)
    ensures
        r matches Some(j) ==> j < files@.len() && files@[j as int].path@ == path@,
        r is None ==> forall|j: int| 0 <= j < files@.len() ==> (#[trigger] files@[j]).path@ != path@,
{
    let mut j: usize = 0;
    while j < files.len()
        invariant
            j <= files@.len(),
            forall|k: int| 0 <= k < j ==> (#[trigger] files@[k]).path@ != path@,
        decreases files@.len() - j,
    {
        if files[j].path == *path {
            return Some(j);
        }
        j = j + 1;
    }
    None
}

/// Collects, per file, the new-side line numbers of the diff lines that are
/// UTF-8 text ending in a space or a tab. Deleted lines (no new-side number)
/// and lines that are not valid UTF-8 are skipped; a file appears only when it
/// has a flagged line.
pub fn collect_trailing_lines(diff: &Vec<DiffLine>) -> (m: TrailingLineMap)
    ensures
        m.wf(),
        m.built_from(diff@),
{
    let mut files: Vec<FileLines> = Vec::new();
    let mut k: usize = 0;
    while k < diff.len()
        invariant
            k <= diff@.len(),
            files_wf(files@),
            files_built_from(files@, diff@.subrange(0, k as int)),
        decreases diff@.len() - k,
    {
        let ghost prev = diff@.subrange(0, k as int);
        let ghost next = diff@.subrange(0, k + 1);
        let ghost old_files = files@;
        let d = &diff[k];
        proof {
            assert(next.drop_last() =~= prev);
            assert(next.last() == *d);
            assert forall|p: Seq<char>|
                #[trigger] flagged_in(next, p) == (if p == d.path@ && counts(*d) {
                    flagged_in(prev, p).push(d.new_lineno->0)
                } else {
                    flagged_in(prev, p)
                }) by {}
        }
        let flagged = match d.new_lineno {
            Some(_) => is_flagged_line(d.content.as_slice()),
            None => false,
        };
        assert(flagged == counts(*d));
        if flagged {
            let n = match d.new_lineno {
                Some(n) => n,
                None => 0,
            };
            match find_file(&files, &d.path) {
                Some(j) => {
                    let mut entry = files.remove(j);
                    entry.lines.push(n);
                    let ghost e_new = entry;
                    files.insert(j, entry);
                    proof {
                        assert(files@ =~= old_files.update(j as int, e_new));
                        assert(e_new.path@ == old_files[j as int].path@);
                        assert forall|a: int, b: int| 0 <= a < b < files@.len() implies
                            (#[trigger] files@[a]).path@ != (#[trigger] files@[b]).path@ by {
                            assert(files@[a].path@ == old_files[a].path@);
                            assert(files@[b].path@ == old_files[b].path@);
                        }
                        assert forall|p: Seq<char>| flagged_in(next, p).len() > 0 implies exists|i: int|
                            0 <= i < files@.len() && (#[trigger] files@[i]).path@ == p by {
                            if flagged_in(prev, p).len() > 0 {
                                let i = choose|i: int|
                                    0 <= i < old_files.len() && (#[trigger] old_files[i]).path@ == p;
                                assert(files@[i].path@ == p);
                            } else {
                                assert(files@[j as int].path@ == p);
                            }
                        }
                    }
                },
                None => {
                    let mut lines: Vec<u32> = Vec::new();
                    lines.push(n);
                    files.push(FileLines { path: d.path.clone(), lines });
                    proof {
                        assert(flagged_in(prev, d.path@).len() == 0);
                        assert forall|a: int, b: int| 0 <= a < b < files@.len() implies
                            (#[trigger] files@[a]).path@ != (#[trigger] files@[b]).path@ by {
                            if b < old_files.len() {
                                assert(files@[a] == old_files[a]);
                                assert(files@[b] == old_files[b]);
                            } else {
                                assert(files@[a] == old_files[a]);
                                assert(files@[b].path@ == d.path@);
                            }
                        }
                        assert(flagged_in(next, d.path@) =~= seq![n]);
                        assert forall|p: Seq<char>| flagged_in(next, p).len() > 0 implies exists|i: int|
                            0 <= i < files@.len() && (#[trigger] files@[i]).path@ == p by {
                            if flagged_in(prev, p).len() > 0 {
                                let i = choose|i: int|
                                    0 <= i < old_files.len() && (#[trigger] old_files[i]).path@ == p;
                                assert(files@[i].path@ == p);
                            } else {
                                assert(files@[old_files.len() as int].path@ == p);
                            }
                        }
                    }
                },
            }
        } else {
            proof {
                assert forall|p: Seq<char>| flagged_in(next, p).len() > 0 implies exists|i: int|
                    0 <= i < files@.len() && (#[trigger] files@[i]).path@ == p by {
                    assert(flagged_in(next, p) == flagged_in(prev, p));
                }
            }
        }
        k = k + 1;
    }
    assert(diff@.subrange(0, diff@.len() as int) =~= diff@);
    TrailingLineMap { files }
}

/// A line number is queued for a file only for a diff line of that file with
/// that new-side number whose content is valid UTF-8 text ending in a space
/// or a tab: binary content and lines that are not UTF-8 are never flagged.
pub proof fn lemma_flagged_lines_are_text(diff: Seq<DiffLine>, path: Seq<char>, j: int)
    requires
        0 <= j < flagged_in(diff, path).len(),
    ensures
        exists|k: int|
            0 <= k < diff.len() && (#[trigger] diff[k]).path@ == path && diff[k].new_lineno
                == Some(flagged_in(diff, path)[j]) && valid_utf8(diff[k].content@) && line_flagged(
                diff[k].content@,
            ),
    decreases diff.len(),
{
    let prev = diff.drop_last();
    let d = diff.last();
    if d.path@ == path && counts(d) && j == flagged_in(prev, path).len() {
        assert(diff[diff.len() - 1] == d);
    } else {
        lemma_flagged_lines_are_text(prev, path, j);
        let k = choose|k: int|
            0 <= k < prev.len() && (#[trigger] prev[k]).path@ == path && prev[k].new_lineno
                == Some(flagged_in(prev, path)[j]) && valid_utf8(prev[k].content@) && line_flagged(
                prev[k].content@,
            );
        assert(diff[k] == prev[k]);
    }
}

proof fn lemma_counted_line_is_queued(diff: Seq<DiffLine>, k: int)
    requires
        0 <= k < diff.len(),
        counts(diff[k]),
    ensures
        exists|j: int|
            0 <= j < flagged_in(diff, diff[k].path@).len() && #[trigger] flagged_in(diff, diff[k].path@)[j]
                == diff[k].new_lineno->0,
    decreases diff.len(),
{
    let prev = diff.drop_last();
    let p = diff[k].path@;
    if k == diff.len() - 1 {
        let j = flagged_in(prev, p).len() as int;
        assert(flagged_in(diff, p)[j] == diff[k].new_lineno->0);
    } else {
        assert(prev[k] == diff[k]);
        lemma_counted_line_is_queued(prev, k);
        let j = choose|j: int|
            0 <= j < flagged_in(prev, p).len() && #[trigger] flagged_in(prev, p)[j] == diff[k].new_lineno->0;
        assert(flagged_in(diff, p)[j] == flagged_in(prev, p)[j]);
    }
}

/// A staged line that is text ending in a space or a tab is trimmed when its
/// file is rewritten with its queue (line numbers ascending, as a diff emits
/// them, and the file unchanged since the diff): the line at its new-side
/// number is written with its trailing blanks removed.
pub proof fn lemma_flagged_line_is_trimmed(diff: Seq<DiffLine>, k: int, raw: Seq<u8>, newline: Seq<u8>)
    requires
        0 <= k < diff.len(),
        diff[k].new_lineno is Some,
        line_flagged(diff[k].content@),
        ascending_line_numbers(flagged_in(diff, diff[k].path@)),
    ensures
        rewritten_line(
            raw,
            flagged_in(diff, diff[k].path@),
            ((diff[k].new_lineno->0) - 1) as nat,
            newline,
        ) == trim_blanks(line_body(raw)) + newline,
{
    let q = flagged_in(diff, diff[k].path@);
    lemma_counted_line_is_queued(diff, k);
    let j = choose|j: int| 0 <= j < q.len() && #[trigger] q[j] == diff[k].new_lineno->0;
    assert(q[j] >= 1);
    lemma_trims_exactly_queued(raw, q, ((diff[k].new_lineno->0) - 1) as nat, newline);
}

} // verus!
