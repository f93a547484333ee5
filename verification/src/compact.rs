//! Compaction of a partition: merging its part files into one.
//!
//! The merge is crash-safe by construction: before the merged file is
//! written, a manifest naming exactly the files it replaces is put in
//! place, and the originals are deleted only after the merged file has been
//! checked (row count and an order-independent row checksum) against them.
//! A manifest left behind by an interrupted run names exactly what the next
//! run must still delete. This module holds the names, the manifest format,
//! the check and the bookkeeping; the file system and the query engine are
//! the caller's.
use vstd::prelude::*;

use crate::error::StorageError;
use crate::exchange::{join, joined};
use crate::paths::{index_text, names_view, part_index_spec};
use crate::text::{chars_of, ends_with, has_suffix, owned, push_char, string_from_chars};

verus! {

/// The suffix of a compaction manifest's name. It never ends a part file's
/// name, so manifests are invisible to part-file listings.
pub const MANIFEST_SUFFIX: &'static str = ".compacted-manifest";

/// Outcome of compacting one partition directory.
#[derive(Debug, Clone, Copy, PartialEq, Eq)]
pub struct CompactionResult {
    pub files_before: usize,
    pub files_after: usize,
    pub rows: usize,
    pub bytes_before: u64,
    pub bytes_after: u64,
}

/// A partition is merged only when it holds more than one part file.
pub fn needs_merge(file_count: usize) -> (r: bool)
    ensures
        r == (file_count > 1),
{
    file_count > 1
}

/// The outcome for a partition left as it is (at most one part file):
/// nothing changes.
pub fn unchanged_result(file_count: usize, rows: usize, bytes: u64) -> (r: CompactionResult)
    requires
        file_count <= 1,
    ensures
        r == (CompactionResult {
            files_before: file_count,
            files_after: file_count,
            rows,
            bytes_before: bytes,
            bytes_after: bytes,
        }),
{
    CompactionResult {
        files_before: file_count,
        files_after: file_count,
        rows,
        bytes_before: bytes,
        bytes_after: bytes,
    }
}

/// The outcome for a partition whose `file_count` part files were merged
/// into one file holding `rows` rows.
pub fn merged_result(file_count: usize, rows: i64, bytes_before: u64, bytes_after: u64) -> (r: CompactionResult)
    requires
        0 <= rows <= usize::MAX,
    ensures
        r == (CompactionResult {
            files_before: file_count,
            files_after: 1,
            rows: rows as usize,
            bytes_before,
            bytes_after,
        }),
{
    CompactionResult {
        files_before: file_count,
        files_after: 1,
        rows: rows as usize,
        bytes_before,
        bytes_after,
    }
}

/// Checks the merged file against the files it replaces: the same number of
/// rows and the same order-independent checksum, else a mismatch error that
/// records both sides.
pub fn check_merge(
    dir: String,
    count_before: i64,
    checksum_before: String,
    count_after: i64,
    checksum_after: String,
) -> (r: Result<(), StorageError>)
    ensures
        r is Ok <==> count_before == count_after && checksum_before@ == checksum_after@,
        r matches Err(e) ==> e == (StorageError::CompactionMismatch {
            path: dir,
            count_before,
            count_after,
            checksum_before,
            checksum_after,
        }),
{
    if count_before != count_after || checksum_before != checksum_after {
        return Err(
            StorageError::CompactionMismatch {
                path: dir,
                count_before,
                count_after,
                checksum_before,
                checksum_after,
            },
        );
    }
    Ok(())
}

/// `part-NNNN.compacted-manifest`.
pub open spec fn manifest_file_name_spec(index: nat) -> Seq<char> {
    "part-"@ + index_text(index) + ".compacted-manifest"@
}

/// The name of the manifest of the compaction that writes part `index`.
pub fn manifest_file_name(index: u32) -> (r: String)
    ensures
        r@ == manifest_file_name_spec(index as nat),
{
    let mut s = owned("part-");
    let digits = crate::paths::part_file_name(index);
    proof {
        reveal_strlit("part-");
        reveal_strlit(".parquet");
    }
    let dc = chars_of(digits.as_str());
    let middle = crate::text::slice_chars(&dc, 5, dc.len() - 8);
    proof {
        assert(dc@.subrange(5, dc@.len() - 8) == index_text(index as nat));
    }
    let m = string_from_chars(middle.as_slice());
    s.append(m.as_str());
    s.append(MANIFEST_SUFFIX);
    s
}

/// The name a manifest has while it is being written.
pub fn tmp_manifest_file_name(index: u32) -> (r: String)
    ensures
        r@ == manifest_file_name_spec(index as nat) + ".tmp"@,
{
    let mut s = manifest_file_name(index);
    s.append(".tmp");
    s
}

/// Whether `name` is that of a compaction manifest.
pub open spec fn is_manifest_spec(name: Seq<char>) -> bool {
    has_suffix(name, ".compacted-manifest"@)
}

/// Whether the file `name` is a compaction manifest.
pub fn is_manifest(name: &str) -> (r: bool)
    ensures
        r == is_manifest_spec(name@),
{
    let chars = chars_of(name);
    ends_with(&chars, MANIFEST_SUFFIX)
}

/// A manifest is never taken for a part file, and is recognised as a
/// manifest.
pub proof fn lemma_manifest_is_no_part_file(index: nat)
    ensures
        part_index_spec(manifest_file_name_spec(index)) is None,
        is_manifest_spec(manifest_file_name_spec(index)),
{
    reveal_strlit(".parquet");
    reveal_strlit(".compacted-manifest");
    reveal_strlit("part-");
    let name = manifest_file_name_spec(index);
    assert(name.subrange(name.len() - 19, name.len() as int) == ".compacted-manifest"@);
    assert(name[name.len() - 2] == 's');
    if has_suffix(name, ".parquet"@) {
        assert(name.subrange(name.len() - 8, name.len() as int)[6] == name[name.len() - 2]);
    }
}

/// The text of a manifest: the names of the replaced files, one per line.
pub fn manifest_text(names: &Vec<String>) -> (r: String)
    ensures
        r@ == joined(names_view(names@), "\n"@),
{
    join(names, "\n")
}

/// Position of the last line break in `s`, or -1.
pub open spec fn last_newline(s: Seq<char>) -> int
    decreases s.len(),
{
    if s.len() == 0 {
        -1
    } else if s.last() == '\n' {
        s.len() - 1
    } else {
        last_newline(s.drop_last())
    }
}

/// A line without the `\r` of a `\r\n` line ending.
pub open spec fn strip_cr(line: Seq<char>) -> Seq<char> {
    if line.len() > 0 && line.last() == '\r' {
        line.drop_last()
    } else {
        line
    }
}

/// The lines of a text whose every line is ended by `\n`.
pub open spec fn terminated_lines(s: Seq<char>) -> Seq<Seq<char>>
    decreases s.len(),
{
    if s.len() == 0 {
        Seq::empty()
    } else {
        let body = s.drop_last();
        let k = last_newline(body);
        proof {
            lemma_last_newline_bounds(body);
        }
        terminated_lines(body.subrange(0, k + 1)).push(strip_cr(body.subrange(k + 1, body.len() as int)))
    }
}

/// The lines of a text as std's `str::lines` gives them: split after each
/// `\n`, each line without its `\n` and then without a `\r` before it; a
/// last line without `\n` is kept as it is.
pub open spec fn lines_spec(s: Seq<char>) -> Seq<Seq<char>> {
    if s.len() == 0 {
        Seq::empty()
    } else if s.last() == '\n' {
        terminated_lines(s)
    } else {
        let k = last_newline(s);
        terminated_lines(s.subrange(0, k + 1)).push(s.subrange(k + 1, s.len() as int))
    }
}

/// Whether a line holds anything.
pub open spec fn non_empty() -> spec_fn(Seq<char>) -> bool {
    |l: Seq<char>| l.len() > 0
}

/// The file names a manifest text lists: its non-empty lines.
pub open spec fn manifest_entries_spec(text: Seq<char>) -> Seq<Seq<char>> {
    lines_spec(text).filter(non_empty())
}

/// Where the last line break of a text is.
pub proof fn lemma_last_newline_bounds(s: Seq<char>)
    ensures
        -1 <= last_newline(s) < s.len(),
        last_newline(s) >= 0 ==> s[last_newline(s)] == '\n',
        forall|j: int| last_newline(s) < j < s.len() ==> s[j] != '\n',
    decreases s.len(),
{
    if s.len() > 0 && s.last() != '\n' {
        lemma_last_newline_bounds(s.drop_last());
        assert forall|j: int| last_newline(s) < j < s.len() implies s[j] != '\n' by {
            if j < s.len() - 1 {
                assert(s.drop_last()[j] == s[j]);
            }
        }
    }
}

/// The lines of `text`, without the empty ones.
pub fn manifest_entries(text: &str) -> (r: Vec<String>)
    ensures
        names_view(r@) == manifest_entries_spec(text@),
{
    let chars = chars_of(text);
    let mut lines: Vec<String> = Vec::new();
    let mut start: usize = 0;
    let mut i: usize = 0;
    while i < chars.len()
        invariant
            chars@ == text@,
            start <= i <= chars@.len(),
            start == last_newline(text@.subrange(0, i as int)) + 1,
            names_view(lines@) == terminated_lines(text@.subrange(0, start as int)),
        decreases chars@.len() - i,
    {
        proof {
            let pre = text@.subrange(0, i + 1);
            assert(pre.drop_last() == text@.subrange(0, i as int));
            assert(pre.last() == chars@[i as int]);
        }
        if chars[i] == '\n' {
            let mut end = i;
            if end > start && chars[end - 1] == '\r' {
                end = end - 1;
            }
            let piece = crate::text::slice_chars(&chars, start, end);
            let line = string_from_chars(piece.as_slice());
            let ghost before = names_view(lines@);
            lines.push(line);
            proof {
                let s = text@.subrange(0, i + 1);
                let body = s.drop_last();
                assert(body == text@.subrange(0, i as int));
                assert(body.subrange(0, start as int) == text@.subrange(0, start as int));
                assert(body.subrange(start as int, body.len() as int) == text@.subrange(start as int, i as int));
                let seg = text@.subrange(start as int, i as int);
                if i > start && chars@[i - 1] == '\r' {
                    assert(seg.last() == '\r');
                    assert(strip_cr(seg) == text@.subrange(start as int, end as int));
                } else {
                    assert(strip_cr(seg) == text@.subrange(start as int, end as int));
                }
                assert(names_view(lines@) == before.push(line@));
                assert(text@.subrange(0, (i + 1) as int).len() > 0);
            }
            start = i + 1;
        }
        i = i + 1;
    }
    let ghost all_lines = lines_spec(text@);
    if start < chars.len() {
        let piece = crate::text::slice_chars(&chars, start, chars.len());
        let line = string_from_chars(piece.as_slice());
        let ghost before = names_view(lines@);
        lines.push(line);
        proof {
            assert(text@.subrange(0, chars@.len() as int) == text@);
            lemma_last_newline_bounds(text@);
            assert(text@.last() != '\n');
            assert(names_view(lines@) == before.push(line@));
        }
    } else {
        proof {
            assert(text@.subrange(0, chars@.len() as int) == text@);
            lemma_last_newline_bounds(text@);
            if text@.len() > 0 {
                assert(text@.last() == '\n');
                assert(text@.subrange(0, start as int) == text@);
            }
        }
    }
    proof {
        assert(names_view(lines@) == all_lines);
    }
    let mut out: Vec<String> = Vec::new();
    for j in 0..lines.len()
        invariant
            names_view(out@) == names_view(lines@).subrange(0, j as int).filter(non_empty()),
    {
        proof {
            let pre = names_view(lines@).subrange(0, j + 1);
            assert(pre == names_view(lines@).subrange(0, j as int).push(lines@[j as int]@));
            names_view(lines@).subrange(0, j as int).lemma_filter_push(lines@[j as int]@, non_empty());
        }
        let cs = chars_of(lines[j].as_str());
        if cs.len() > 0 {
            let ghost before = names_view(out@);
            out.push(lines[j].clone());
            proof {
                assert(names_view(out@) == before.push(lines@[j as int]@));
            }
        }
    }
    proof {
        assert(names_view(lines@).subrange(0, lines@.len() as int) == names_view(lines@));
    }
    out
}

/// A name that can stand on a manifest line: non-empty, without a line
/// break, and not ending in `\r`.
pub open spec fn manifest_safe(name: Seq<char>) -> bool {
    &&& name.len() > 0
    &&& forall|j: int| 0 <= j < name.len() ==> name[j] != '\n'
    &&& name.last() != '\r'
}

proof fn lemma_last_newline_skip(a: Seq<char>, b: Seq<char>)
    requires
        forall|j: int| 0 <= j < b.len() ==> b[j] != '\n',
    ensures
        last_newline(a + b) == last_newline(a),
    decreases b.len(),
{
    if b.len() == 0 {
        assert(a + b == a);
    } else {
        assert((a + b).drop_last() == a + b.drop_last());
        assert((a + b).last() == b.last());
        lemma_last_newline_skip(a, b.drop_last());
    }
}

proof fn lemma_joined_lines(names: Seq<Seq<char>>)
    requires
        names.len() > 0,
        forall|i: int| 0 <= i < names.len() ==> manifest_safe(#[trigger] names[i]),
    ensures
        terminated_lines(joined(names, "\n"@).push('\n')) == names,
        lines_spec(joined(names, "\n"@)) == names,
    decreases names.len(),
{
    reveal_strlit("\n");
    let j = joined(names, "\n"@);
    let last = names.last();
    assert(manifest_safe(names[names.len() - 1]));
    if names.len() == 1 {
        assert(j == names[0]);
        lemma_last_newline_skip(Seq::empty(), j);
        assert(Seq::<char>::empty() + j == j);
        let s = j.push('\n');
        assert(s.drop_last() == j);
        assert(j.subrange(0, 0) =~= Seq::<char>::empty());
        assert(j.subrange(0, j.len() as int) == j);
        assert(terminated_lines(Seq::<char>::empty()) == Seq::<Seq<char>>::empty());
        assert(Seq::<Seq<char>>::empty().push(names[0]) =~= names);
        assert(j.last() == last.last());
    } else {
        let prefix = names.drop_last();
        assert forall|i: int| 0 <= i < prefix.len() implies manifest_safe(#[trigger] prefix[i]) by {
            assert(prefix[i] == names[i]);
        }
        lemma_joined_lines(prefix);
        let jp = joined(prefix, "\n"@);
        let head = jp.push('\n');
        assert(j == jp + "\n"@ + last);
        assert(jp + "\n"@ == head);
        lemma_last_newline_skip(head, last);
        assert(head.drop_last() == jp);
        assert(last_newline(head) == jp.len());
        assert(j.subrange(0, jp.len() as int + 1) == head);
        assert(j.subrange(jp.len() as int + 1, j.len() as int) == last);
        assert(j.last() == last.last());
        let s = j.push('\n');
        assert(s.drop_last() == j);
        assert(prefix.push(last) =~= names);
    }
}

proof fn lemma_filter_keeps_all(names: Seq<Seq<char>>)
    requires
        forall|i: int| 0 <= i < names.len() ==> (#[trigger] names[i]).len() > 0,
    ensures
        names.filter(non_empty()) == names,
    decreases names.len(),
{
    reveal(Seq::filter);
    if names.len() > 0 {
        let rest = names.drop_last();
        assert forall|i: int| 0 <= i < rest.len() implies (#[trigger] rest[i]).len() > 0 by {
            assert(rest[i] == names[i]);
        }
        lemma_filter_keeps_all(rest);
        assert(names[names.len() - 1].len() > 0);
        assert(rest.push(names.last()) =~= names);
    } else {
        assert(names =~= Seq::<Seq<char>>::empty());
    }
}

/// Reading back a manifest gives exactly the names written into it, for
/// names that can stand on a line of their own.
pub proof fn lemma_manifest_roundtrip(names: Seq<Seq<char>>)
    requires
        forall|i: int| 0 <= i < names.len() ==> manifest_safe(#[trigger] names[i]),
    ensures
        manifest_entries_spec(joined(names, "\n"@)) == names,
{
    if names.len() == 0 {
        assert(lines_spec(joined(names, "\n"@)) == Seq::<Seq<char>>::empty());
        lemma_filter_keeps_all(names);
    } else {
        lemma_joined_lines(names);
        assert forall|i: int| 0 <= i < names.len() implies (#[trigger] names[i]).len() > 0 by {
            assert(manifest_safe(names[i]));
        }
        lemma_filter_keeps_all(names);
    }
}

/// The part file a compaction's manifest announces: its name with the
/// manifest suffix replaced by `.parquet` (`part-NNNN.compacted-manifest`
/// announces `part-NNNN.parquet`).
pub open spec fn merged_file_of(manifest: Seq<char>) -> Seq<char> {
    manifest.subrange(0, manifest.len() - 19) + ".parquet"@
}

/// The files that the recovery of an interrupted compaction deletes, given
/// its manifest's name, the names in the partition directory and the
/// manifest's text: the files the manifest lists when the merged file it
/// announces is in the directory (the merge was written and verified), and
/// none otherwise, so that the originals stay and only the manifest goes.
pub open spec fn recovery_deletions_spec(manifest: Seq<char>, dir: Seq<Seq<char>>, text: Seq<char>) -> Seq<Seq<char>> {
    if dir.contains(merged_file_of(manifest)) {
        manifest_entries_spec(text)
    } else {
        Seq::empty()
    }
}

/// The files to delete in recovering from the compaction whose manifest is
/// `manifest`, with `names` in its directory and `text` in the manifest
/// (see `recovery_deletions_spec`).
pub fn recovery_deletions(manifest: &str, names: &Vec<String>, text: &str) -> (r: Vec<String>)
    requires
        is_manifest_spec(manifest@),
    ensures
        names_view(r@) == recovery_deletions_spec(manifest@, names_view(names@), text@),
{
    proof {
        reveal_strlit(".compacted-manifest");
    }
    let chars = chars_of(manifest);
    let stem = crate::text::slice_chars(&chars, 0, chars.len() - 19);
    let mut merged = string_from_chars(stem.as_slice());
    merged.append(".parquet");
    let mut found = false;
    for i in 0..names.len()
        invariant
            merged@ == merged_file_of(manifest@),
            found == names_view(names@).subrange(0, i as int).contains(merged@),
    {
        if crate::interval::text_eq(names[i].as_str(), merged.as_str()) {
            found = true;
        }
        proof {
            let pre = names_view(names@).subrange(0, i as int);
            let post = names_view(names@).subrange(0, i + 1);
            assert(post == pre.push(names@[i as int]@));
            if found {
                if names@[i as int]@ == merged@ {
                    assert(post[i as int] == merged@);
                } else {
                    let j = choose|j: int| 0 <= j < pre.len() && pre[j] == merged@;
                    assert(post[j] == merged@);
                }
            } else {
                assert forall|j: int| 0 <= j < post.len() implies post[j] != merged@ by {
                    if j < i {
                        assert(post[j] == pre[j]);
                    }
                }
            }
        }
    }
    proof {
        assert(names_view(names@).subrange(0, names@.len() as int) == names_view(names@));
    }
    if found {
        manifest_entries(text)
    } else {
        Vec::new()
    }
}

/// The steps of merging a partition's part files, in the order they run.
#[derive(Debug, Clone, Copy, PartialEq, Eq, Structural)]
pub enum CompactionStep {
    /// Record, in a manifest, which files the merge replaces.
    WriteManifest,
    /// Write the merged file under its temporary name.
    CopyMerged,
    /// Compare the merged file's row count and checksum with the originals'.
    CheckMerged,
    /// Give the merged file its final name.
    RenameMerged,
    /// Delete the replaced files, then the manifest.
    DeleteOriginals,
    /// The merge is complete.
    Done,
    /// The merge is given up: the temporary merged file and the manifest are
    /// removed and the originals stay.
    Abandon,
}

/// The step after `step`, which succeeded when `ok`: each step leads to the
/// next one on success and to `Abandon` on failure, up to the renaming of
/// the merged file; the deletion of the originals ends the merge either
/// way (what it leaves undone, the manifest's recovery finishes).
#[verifier::opaque]
pub open spec fn next_step_spec(step: CompactionStep, ok: bool) -> CompactionStep {
    match step {
        CompactionStep::WriteManifest => if ok {
            CompactionStep::CopyMerged
        } else {
            CompactionStep::Abandon
        },
        CompactionStep::CopyMerged => if ok {
            CompactionStep::CheckMerged
        } else {
            CompactionStep::Abandon
        },
        CompactionStep::CheckMerged => if ok {
            CompactionStep::RenameMerged
        } else {
            CompactionStep::Abandon
        },
        CompactionStep::RenameMerged => if ok {
            CompactionStep::DeleteOriginals
        } else {
            CompactionStep::Abandon
        },
        CompactionStep::DeleteOriginals => CompactionStep::Done,
        CompactionStep::Done => CompactionStep::Done,
        CompactionStep::Abandon => CompactionStep::Abandon,
    }
}

/// The step after `step` (see `next_step_spec`).
pub fn next_compaction_step(step: CompactionStep, ok: bool) -> (r: CompactionStep)
    ensures
        r == next_step_spec(step, ok),
{
    proof {
        reveal(next_step_spec);
    }
    match step {
        CompactionStep::WriteManifest => if ok {
            CompactionStep::CopyMerged
        } else {
            CompactionStep::Abandon
        },
        CompactionStep::CopyMerged => if ok {
            CompactionStep::CheckMerged
        } else {
            CompactionStep::Abandon
        },
        CompactionStep::CheckMerged => if ok {
            CompactionStep::RenameMerged
        } else {
            CompactionStep::Abandon
        },
        CompactionStep::RenameMerged => if ok {
            CompactionStep::DeleteOriginals
        } else {
            CompactionStep::Abandon
        },
        CompactionStep::DeleteOriginals => CompactionStep::Done,
        CompactionStep::Done => CompactionStep::Done,
        CompactionStep::Abandon => CompactionStep::Abandon,
    }
}

/// The steps a merge runs through when the outcomes of its steps are
/// `oks`, in order, starting from the manifest.
#[verifier::opaque]
pub open spec fn compaction_trace(oks: Seq<bool>) -> Seq<CompactionStep>
    decreases oks.len(),
{
    if oks.len() == 0 {
        seq![CompactionStep::WriteManifest]
    } else {
        let t = compaction_trace(oks.drop_last());
        t.push(next_step_spec(t.last(), oks.last()))
    }
}

/// Each step of a trace follows from the one before it and that step's
/// outcome.
proof fn lemma_trace_steps(oks: Seq<bool>)
    ensures
        compaction_trace(oks).len() == oks.len() + 1,
        compaction_trace(oks)[0] == CompactionStep::WriteManifest,
        forall|j: int|
            0 <= j < oks.len() ==> compaction_trace(oks)[j + 1] == next_step_spec(
                compaction_trace(oks)[j],
                #[trigger] oks[j],
            ),
    decreases oks.len(),
{
    reveal(compaction_trace);
    if oks.len() > 0 {
        let pre = oks.drop_last();
        lemma_trace_steps(pre);
        let t = compaction_trace(pre);
        let full = compaction_trace(oks);
        assert(full == t.push(next_step_spec(t.last(), oks.last())));
        assert forall|j: int| 0 <= j < oks.len() implies full[j + 1] == next_step_spec(full[j], #[trigger] oks[j]) by {
            if j < oks.len() - 1 {
                assert(full[j + 1] == t[j + 1]);
                assert(full[j] == t[j]);
                assert(oks[j] == pre[j]);
            }
        }
    }
}

/// Each step is reached only from the one before it in the order of
/// `CompactionStep`, and only when that step succeeded.
pub proof fn lemma_step_predecessors(step: CompactionStep, ok: bool)
    ensures
        next_step_spec(step, ok) == CompactionStep::DeleteOriginals ==> step == CompactionStep::RenameMerged && ok,
        next_step_spec(step, ok) == CompactionStep::RenameMerged ==> step == CompactionStep::CheckMerged && ok,
        next_step_spec(step, ok) == CompactionStep::CheckMerged ==> step == CompactionStep::CopyMerged && ok,
        next_step_spec(step, ok) == CompactionStep::CopyMerged ==> step == CompactionStep::WriteManifest && ok,
{
    reveal(next_step_spec);
}

/// The step a merge whose steps all succeed is at after `i` steps.
pub open spec fn step_at(i: int) -> CompactionStep {
    if i <= 0 {
        CompactionStep::WriteManifest
    } else if i == 1 {
        CompactionStep::CopyMerged
    } else if i == 2 {
        CompactionStep::CheckMerged
    } else if i == 3 {
        CompactionStep::RenameMerged
    } else if i == 4 {
        CompactionStep::DeleteOriginals
    } else {
        CompactionStep::Done
    }
}

/// After `i` steps a merge is either where it would be had every step
/// succeeded, or abandoned.
proof fn lemma_trace_shape(oks: Seq<bool>)
    ensures
        forall|i: int|
            0 <= i < compaction_trace(oks).len() ==> #[trigger] compaction_trace(oks)[i] == step_at(i)
                || compaction_trace(oks)[i] == CompactionStep::Abandon,
    decreases oks.len(),
{
    reveal(compaction_trace);
    lemma_trace_steps(oks);
    if oks.len() > 0 {
        let pre = oks.drop_last();
        lemma_trace_shape(pre);
        lemma_trace_steps(pre);
        let t = compaction_trace(pre);
        let full = compaction_trace(oks);
        assert(full == t.push(next_step_spec(t.last(), oks.last())));
        let n = t.len() - 1;
        assert(t[n] == step_at(n) || t[n] == CompactionStep::Abandon);
        reveal(next_step_spec);
        assert forall|i: int| 0 <= i < full.len() implies #[trigger] full[i] == step_at(i) || full[i]
            == CompactionStep::Abandon by {
            if i < full.len() - 1 {
                assert(full[i] == t[i]);
            }
        }
    }
}

/// Whatever the steps' outcomes, a merge deletes the original files only
/// as its fifth step, right after the merged file was verified and then
/// renamed into place, the manifest having been written and the merged
/// file copied before.
pub proof fn lemma_originals_deleted_only_after_verified_merge(oks: Seq<bool>)
    ensures
        compaction_trace(oks).len() == oks.len() + 1,
        compaction_trace(oks)[0] == CompactionStep::WriteManifest,
        forall|i: int|
            0 <= i < compaction_trace(oks).len() && #[trigger] compaction_trace(oks)[i]
                == CompactionStep::DeleteOriginals ==> i == 4,
        compaction_trace(oks).len() > 4 && compaction_trace(oks)[4] == CompactionStep::DeleteOriginals ==> {
            &&& compaction_trace(oks)[1] == CompactionStep::CopyMerged && oks[0]
            &&& compaction_trace(oks)[2] == CompactionStep::CheckMerged && oks[1]
            &&& compaction_trace(oks)[3] == CompactionStep::RenameMerged && oks[2] && oks[3]
        },
{
    lemma_trace_steps(oks);
    lemma_trace_shape(oks);
    let t = compaction_trace(oks);
    if t.len() > 4 && t[4] == CompactionStep::DeleteOriginals {
        assert(t[4] == next_step_spec(t[3], oks[3]));
        lemma_step_predecessors(t[3], oks[3]);
        assert(t[3] == next_step_spec(t[2], oks[2]));
        lemma_step_predecessors(t[2], oks[2]);
        assert(t[2] == next_step_spec(t[1], oks[1]));
        lemma_step_predecessors(t[1], oks[1]);
        assert(t[1] == next_step_spec(t[0], oks[0]));
        lemma_step_predecessors(t[0], oks[0]);
    }
}

} // verus!
