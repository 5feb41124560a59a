//! The marker-delimited block patcher. A document is scanned line by line;
//! the first line equal to the start marker is replaced by a freshly
//! rendered managed region (start marker, block, end marker), lines up to
//! the next end marker are discarded as the old region, and every other
//! line outside a region is copied unchanged. When no start marker occurs,
//! a rendered region is appended. A start marker never followed by an end
//! marker leaves the region unterminated: the lines after it are dropped
//! and no region is appended.

use vstd::prelude::*;
use vstd::string::StrSliceExecFns;
use vstd::string::StringSliceAdditionalSpecFns;
use vstd::utf8::is_ascii_chars;

use crate::bytes::bytes_eq;
use crate::lines::join_lines;
use crate::lines::line_views;
use crate::lines::lines_from;
use crate::lines::lines_of;
use crate::lines::no_nl;
use crate::lines::split_lines;
use crate::lines::strip_cr;
use crate::lines::CR;
use crate::lines::NL;

verus! {

/// The sentinel line that opens a managed region.
pub open spec fn start_marker() -> Seq<u8> {
    "## START BRANCHLESS CONFIG".spec_bytes()
}

/// The sentinel line that closes a managed region.
pub open spec fn end_marker() -> Seq<u8> {
    "## END BRANCHLESS CONFIG".spec_bytes()
}

/// The interpreter directive placed at the top of generated scripts.
pub open spec fn shebang() -> Seq<u8> {
    "#!/bin/sh".spec_bytes()
}

pub fn start_marker_bytes() -> (r: Vec<u8>)
    ensures
        r@ == start_marker(),
{
    ("## START BRANCHLESS CONFIG").as_bytes_vec()
}

pub fn end_marker_bytes() -> (r: Vec<u8>)
    ensures
        r@ == end_marker(),
{
    ("## END BRANCHLESS CONFIG").as_bytes_vec()
}

pub fn shebang_bytes() -> (r: Vec<u8>)
    ensures
        r@ == shebang(),
{
    ("#!/bin/sh").as_bytes_vec()
}

/// A usable sentinel line: nonempty, no embedded newline, and no trailing
/// carriage return, so that writing it and reading it back is the identity.
pub open spec fn marker_ok(m: Seq<u8>) -> bool {
    &&& m.len() > 0
    &&& no_nl(m)
    &&& m[m.len() - 1] != CR
}

pub proof fn lemma_markers_ok()
    ensures
        marker_ok(start_marker()),
        marker_ok(end_marker()),
        start_marker() != end_marker(),
{
    reveal_strlit("## START BRANCHLESS CONFIG");
    reveal_strlit("## END BRANCHLESS CONFIG");
    let s = "## START BRANCHLESS CONFIG";
    let e = "## END BRANCHLESS CONFIG";
    assert(is_ascii_chars(s@));
    assert(is_ascii_chars(e@));
    vstd::utf8::is_ascii_chars_encode_utf8(s@);
    vstd::utf8::is_ascii_chars_encode_utf8(e@);
    assert(start_marker() =~= Seq::new(s@.len(), |i: int| s@[i] as u8));
    assert(end_marker() =~= Seq::new(e@.len(), |i: int| e@[i] as u8));
    assert(start_marker().len() == 26);
    assert(end_marker().len() == 24);
}

/// A freshly rendered managed region.
pub open spec fn render_block(start: Seq<u8>, end: Seq<u8>, block: Seq<u8>) -> Seq<u8> {
    start + seq![NL] + block + end + seq![NL]
}

/// The line scan. `ignoring` is true inside an old managed region being
/// discarded; `found` records that a start marker was seen. At the end of
/// the input an unterminated region yields nothing further, and a document
/// without any start marker receives an appended region.
pub open spec fn scan_lines(
    ls: Seq<Seq<u8>>,
    ignoring: bool,
    found: bool,
    start: Seq<u8>,
    end: Seq<u8>,
    block: Seq<u8>,
) -> Seq<u8>
    decreases ls.len(),
{
    if ls.len() == 0 {
        if !ignoring && !found {
            render_block(start, end, block)
        } else {
            Seq::<u8>::empty()
        }
    } else {
        let l = ls[0];
        let rest = ls.drop_first();
        if l == start {
            render_block(start, end, block) + scan_lines(rest, true, true, start, end, block)
        } else if l == end {
            scan_lines(rest, false, found, start, end, block)
        } else if !ignoring {
            l + seq![NL] + scan_lines(rest, ignoring, found, start, end, block)
        } else {
            scan_lines(rest, true, found, start, end, block)
        }
    }
}

/// The block patcher on a whole document.
pub open spec fn apply_block(doc: Seq<u8>, start: Seq<u8>, end: Seq<u8>, block: Seq<u8>) -> Seq<
    u8,
> {
    scan_lines(lines_of(doc), false, false, start, end, block)
}

/// Append a freshly rendered managed region to `out`.
pub fn emit_block(out: &mut Vec<u8>, start: &Vec<u8>, end: &Vec<u8>, block: &Vec<u8>)
    ensures
        final(out)@ == old(out)@ + render_block(start@, end@, block@),
{
    out.extend_from_slice(start.as_slice());
    out.push(NL);
    out.extend_from_slice(block.as_slice());
    out.extend_from_slice(end.as_slice());
    out.push(NL);
    proof {
        assert(out@ =~= old(out)@ + render_block(start@, end@, block@));
    }
}

/// The block patcher, for any marker pair.
pub fn patch_lines(doc: &Vec<u8>, start: &Vec<u8>, end: &Vec<u8>, block: &Vec<u8>) -> (r: Vec<u8>)
    ensures
        r@ == apply_block(doc@, start@, end@, block@),
{
    let ls = split_lines(doc);
    let n: usize = ls.len();
    let mut out: Vec<u8> = Vec::new();
    let mut ignoring: bool = false;
    let mut found: bool = false;
    let mut i: usize = 0;
    let ghost lv = line_views(ls@);
    proof {
        assert(lv.skip(0) =~= lv);
        assert(Seq::<u8>::empty() + scan_lines(lv, false, false, start@, end@, block@)
            =~= scan_lines(lv, false, false, start@, end@, block@));
    }
    while i < n
        invariant
            n == ls@.len(),
            0 <= i <= n,
            lv == line_views(ls@),
            lines_of(doc@) == lv,
            apply_block(doc@, start@, end@, block@) == out@ + scan_lines(
                lv.skip(i as int),
                ignoring,
                found,
                start@,
                end@,
                block@,
            ),
        decreases n - i,
    {
        proof {
            assert(lv.skip(i as int)[0] == lv[i as int]);
            assert(lv[i as int] == ls@[i as int]@);
            assert(lv.skip(i as int).drop_first() =~= lv.skip(i as int + 1));
        }
        let line = &ls[i];
        if bytes_eq(line, start) {
            let ghost out0 = out@;
            emit_block(&mut out, start, end, block);
            ignoring = true;
            found = true;
            proof {
                assert((out0 + render_block(start@, end@, block@)) + scan_lines(
                    lv.skip(i as int + 1),
                    true,
                    true,
                    start@,
                    end@,
                    block@,
                ) =~= out0 + (render_block(start@, end@, block@) + scan_lines(
                    lv.skip(i as int + 1),
                    true,
                    true,
                    start@,
                    end@,
                    block@,
                )));
            }
        } else if bytes_eq(line, end) {
            ignoring = false;
        } else if !ignoring {
            let ghost out0 = out@;
            out.extend_from_slice(line.as_slice());
            out.push(NL);
            proof {
                assert(out@ =~= out0 + (ls@[i as int]@ + seq![NL]));
                assert((out0 + (lv[i as int] + seq![NL])) + scan_lines(
                    lv.skip(i as int + 1),
                    ignoring,
                    found,
                    start@,
                    end@,
                    block@,
                ) =~= out0 + ((lv[i as int] + seq![NL]) + scan_lines(
                    lv.skip(i as int + 1),
                    ignoring,
                    found,
                    start@,
                    end@,
                    block@,
                )));
            }
        }
        i = i + 1;
    }
    proof {
        assert(lv.skip(n as int) =~= Seq::<Seq<u8>>::empty());
    }
    if !ignoring && !found {
        emit_block(&mut out, start, end, block);
    }
    out
}

/// Replace or append the managed region bounded by the branchless markers.
pub fn update_between_lines(lines: &Vec<u8>, updated_lines: &Vec<u8>) -> (r: Vec<u8>)
    ensures
        r@ == apply_block(lines@, start_marker(), end_marker(), updated_lines@),
{
    let start = start_marker_bytes();
    let end = end_marker_bytes();
    patch_lines(lines, &start, &end, updated_lines)
}

/// Append a freshly rendered managed region, in the branchless markers.
pub fn append_hook(new_lines: &mut Vec<u8>, hook_contents: &Vec<u8>)
    ensures
        final(new_lines)@ == old(new_lines)@ + render_block(
            start_marker(),
            end_marker(),
            hook_contents@,
        ),
{
    let start = start_marker_bytes();
    let end = end_marker_bytes();
    emit_block(new_lines, &start, &end, hook_contents)
}

/// Whether the line scan ends while still inside a managed region: a
/// start marker line was seen and no end marker line followed it.
pub open spec fn ends_inside_region(
    ls: Seq<Seq<u8>>,
    ignoring: bool,
    start: Seq<u8>,
    end: Seq<u8>,
) -> bool
    decreases ls.len(),
{
    if ls.len() == 0 {
        ignoring
    } else if ls[0] == start {
        ends_inside_region(ls.drop_first(), true, start, end)
    } else if ls[0] == end {
        ends_inside_region(ls.drop_first(), false, start, end)
    } else {
        ends_inside_region(ls.drop_first(), ignoring, start, end)
    }
}

/// Whether patching this document would find a start marker with no end
/// marker after it. Such a malformed region draws a warning: the lines
/// after the unmatched start marker are dropped from the patched output.
pub fn has_unterminated_region(doc: &Vec<u8>) -> (r: bool)
    ensures
        r == ends_inside_region(lines_of(doc@), false, start_marker(), end_marker()),
{
    let start = start_marker_bytes();
    let end = end_marker_bytes();
    let ls = split_lines(doc);
    let n: usize = ls.len();
    let ghost lv = line_views(ls@);
    let mut ignoring: bool = false;
    let mut i: usize = 0;
    proof {
        assert(lv.skip(0) =~= lv);
    }
    while i < n
        invariant
            n == ls@.len(),
            0 <= i <= n,
            lv == line_views(ls@),
            lines_of(doc@) == lv,
            start@ == start_marker(),
            end@ == end_marker(),
            ends_inside_region(lines_of(doc@), false, start_marker(), end_marker())
                == ends_inside_region(lv.skip(i as int), ignoring, start_marker(), end_marker()),
        decreases n - i,
    {
        proof {
            assert(lv.skip(i as int)[0] == lv[i as int]);
            assert(lv[i as int] == ls@[i as int]@);
            assert(lv.skip(i as int).drop_first() =~= lv.skip(i as int + 1));
        }
        let line = &ls[i];
        if bytes_eq(line, &start) {
            ignoring = true;
        } else if bytes_eq(line, &end) {
            ignoring = false;
        }
        i = i + 1;
    }
    proof {
        assert(lv.skip(n as int) =~= Seq::<Seq<u8>>::empty());
    }
    ignoring
}

/// No line of the sequence equals either marker.
pub open spec fn marker_free(ls: Seq<Seq<u8>>, start: Seq<u8>, end: Seq<u8>) -> bool {
    forall|i: int| 0 <= i < ls.len() ==> (#[trigger] ls[i]) != start && ls[i] != end
}

/// Block content that keeps the patcher stable: closed by a newline when
/// nonempty, and none of its lines collides with a marker.
pub open spec fn block_ok(b: Seq<u8>, start: Seq<u8>, end: Seq<u8>) -> bool {
    &&& b.len() == 0 || b[b.len() - 1] == NL
    &&& marker_free(lines_of(b), start, end)
}

/// Marker-free lines in front of the scan are copied verbatim.
proof fn lemma_scan_copy(
    ls: Seq<Seq<u8>>,
    tail: Seq<Seq<u8>>,
    fd: bool,
    start: Seq<u8>,
    end: Seq<u8>,
    b: Seq<u8>,
)
    requires
        marker_free(ls, start, end),
    ensures
        scan_lines(ls + tail, false, fd, start, end, b) == join_lines(ls) + scan_lines(
            tail,
            false,
            fd,
            start,
            end,
            b,
        ),
    decreases ls.len(),
{
    if ls.len() == 0 {
        assert(ls + tail =~= tail);
        assert(join_lines(ls) + scan_lines(tail, false, fd, start, end, b) =~= scan_lines(
            tail,
            false,
            fd,
            start,
            end,
            b,
        ));
    } else {
        let l = ls[0];
        assert((ls + tail)[0] == l);
        assert((ls + tail).drop_first() =~= ls.drop_first() + tail);
        assert(forall|i: int|
            0 <= i < ls.drop_first().len() ==> (#[trigger] ls.drop_first()[i]) == ls[i + 1]);
        lemma_scan_copy(ls.drop_first(), tail, fd, start, end, b);
        assert((l + seq![NL] + (join_lines(ls.drop_first()) + scan_lines(
            tail,
            false,
            fd,
            start,
            end,
            b,
        ))) =~= (l + seq![NL] + join_lines(ls.drop_first())) + scan_lines(
            tail,
            false,
            fd,
            start,
            end,
            b,
        ));
        assert(join_lines(ls) =~= l + seq![NL] + join_lines(ls.drop_first()));
    }
}

/// Marker-free lines inside an old region are discarded.
proof fn lemma_scan_ignore(
    ls: Seq<Seq<u8>>,
    tail: Seq<Seq<u8>>,
    fd: bool,
    start: Seq<u8>,
    end: Seq<u8>,
    b: Seq<u8>,
)
    requires
        marker_free(ls, start, end),
    ensures
        scan_lines(ls + tail, true, fd, start, end, b) == scan_lines(tail, true, fd, start, end, b),
    decreases ls.len(),
{
    if ls.len() == 0 {
        assert(ls + tail =~= tail);
    } else {
        assert((ls + tail)[0] == ls[0]);
        assert((ls + tail).drop_first() =~= ls.drop_first() + tail);
        assert(forall|i: int|
            0 <= i < ls.drop_first().len() ==> (#[trigger] ls.drop_first()[i]) == ls[i + 1]);
        lemma_scan_ignore(ls.drop_first(), tail, fd, start, end, b);
    }
}

/// A well-formed region in the line stream is replaced by one rendering.
proof fn lemma_scan_region(
    mid: Seq<Seq<u8>>,
    rest: Seq<Seq<u8>>,
    ig: bool,
    fd: bool,
    start: Seq<u8>,
    end: Seq<u8>,
    b: Seq<u8>,
)
    requires
        marker_free(mid, start, end),
        start != end,
    ensures
        scan_lines(seq![start] + mid + seq![end] + rest, ig, fd, start, end, b) == render_block(
            start,
            end,
            b,
        ) + scan_lines(rest, false, true, start, end, b),
{
    let full = seq![start] + mid + seq![end] + rest;
    assert(full[0] == start);
    assert(full.drop_first() =~= mid + (seq![end] + rest));
    lemma_scan_ignore(mid, seq![end] + rest, true, start, end, b);
    assert((seq![end] + rest)[0] == end);
    assert((seq![end] + rest).drop_first() =~= rest);
}

/// Parsing a rendered region followed by anything else.
proof fn lemma_lines_of_render(start: Seq<u8>, end: Seq<u8>, b: Seq<u8>, rest: Seq<u8>)
    requires
        marker_ok(start),
        marker_ok(end),
        b.len() == 0 || b[b.len() - 1] == NL,
    ensures
        lines_of(render_block(start, end, b) + rest) == seq![start] + lines_of(b) + seq![end]
            + lines_from(rest, Seq::<u8>::empty()),
{
    let after = b + (end + seq![NL] + rest);
    assert(render_block(start, end, b) + rest =~= start + seq![NL] + after);
    crate::lines::lemma_lines_of_line(start, after);
    if b.len() == 0 {
        assert(after =~= end + seq![NL] + rest);
        crate::lines::lemma_lines_from_line(end, rest, Seq::<u8>::empty());
        assert(strip_cr(end) == end);
        assert(lines_of(b) =~= Seq::<Seq<u8>>::empty());
        assert(seq![start] + (seq![end] + lines_from(rest, Seq::<u8>::empty())) =~= seq![start]
            + lines_of(b) + seq![end] + lines_from(rest, Seq::<u8>::empty()));
    } else {
        crate::lines::lemma_lines_from_append(b, end + seq![NL] + rest, Seq::<u8>::empty());
        crate::lines::lemma_lines_from_line(end, rest, Seq::<u8>::empty());
        assert(strip_cr(end) == end);
        assert(seq![start] + (lines_of(b) + (seq![end] + lines_from(rest, Seq::<u8>::empty())))
            =~= seq![start] + lines_of(b) + seq![end] + lines_from(rest, Seq::<u8>::empty()));
    }
}

/// A line that writing and reparsing leaves unchanged.
pub open spec fn stable_line(l: Seq<u8>) -> bool {
    strip_cr(l) == l
}

/// Rescanning the output of a scan reproduces it.
proof fn lemma_rescan(
    ls: Seq<Seq<u8>>,
    ig: bool,
    fd: bool,
    start: Seq<u8>,
    end: Seq<u8>,
    b: Seq<u8>,
)
    requires
        marker_ok(start),
        marker_ok(end),
        start != end,
        block_ok(b, start, end),
        ig ==> fd,
        forall|i: int| 0 <= i < ls.len() ==> no_nl(#[trigger] ls[i]) && stable_line(ls[i]),
    ensures
        scan_lines(
            lines_of(scan_lines(ls, ig, fd, start, end, b)),
            false,
            fd,
            start,
            end,
            b,
        ) == scan_lines(ls, ig, fd, start, end, b),
    decreases ls.len(),
{
    let o = scan_lines(ls, ig, fd, start, end, b);
    if ls.len() == 0 {
        if !ig && !fd {
            assert(o == render_block(start, end, b));
            assert(render_block(start, end, b) + Seq::<u8>::empty() =~= render_block(
                start,
                end,
                b,
            ));
            lemma_lines_of_render(start, end, b, Seq::<u8>::empty());
            assert(lines_from(Seq::<u8>::empty(), Seq::<u8>::empty()) =~= Seq::<Seq<u8>>::empty());
            assert(lines_of(o) =~= seq![start] + lines_of(b) + seq![end]
                + Seq::<Seq<u8>>::empty());
            lemma_scan_region(lines_of(b), Seq::<Seq<u8>>::empty(), false, fd, start, end, b);
            assert(render_block(start, end, b) + scan_lines(
                Seq::<Seq<u8>>::empty(),
                false,
                true,
                start,
                end,
                b,
            ) =~= render_block(start, end, b));
        } else {
            assert(o =~= Seq::<u8>::empty());
            assert(lines_of(o) =~= Seq::<Seq<u8>>::empty());
        }
    } else {
        let l = ls[0];
        let rest = ls.drop_first();
        assert(forall|i: int| 0 <= i < rest.len() ==> (#[trigger] rest[i]) == ls[i + 1]);
        if l == start {
            let o2 = scan_lines(rest, true, true, start, end, b);
            lemma_rescan(rest, true, true, start, end, b);
            lemma_lines_of_render(start, end, b, o2);
            assert(lines_of(o) == seq![start] + lines_of(b) + seq![end] + lines_of(o2));
            lemma_scan_region(lines_of(b), lines_of(o2), false, fd, start, end, b);
        } else if l == end {
            lemma_rescan(rest, false, fd, start, end, b);
        } else if !ig {
            let o2 = scan_lines(rest, false, fd, start, end, b);
            lemma_rescan(rest, false, fd, start, end, b);
            crate::lines::lemma_lines_of_line(l, o2);
            assert(lines_of(o) == seq![l] + lines_from(o2, Seq::<u8>::empty()));
            let lo = seq![l] + lines_of(o2);
            assert(lo[0] == l);
            assert(lo.drop_first() =~= lines_of(o2));
        } else {
            lemma_rescan(rest, true, fd, start, end, b);
        }
    }
}

/// Lines that the patcher writes back without change.
pub open spec fn stable_lines(doc: Seq<u8>) -> bool {
    forall|i: int| 0 <= i < lines_of(doc).len() ==> stable_line(#[trigger] lines_of(doc)[i])
}

/// Idempotence: applying the same block twice is the same as applying it
/// once, for any document whose lines carry no bare trailing carriage
/// return, any distinct well-formed marker pair, and any block whose own
/// lines avoid the markers.
pub proof fn lemma_apply_block_idempotent(doc: Seq<u8>, start: Seq<u8>, end: Seq<u8>, b: Seq<u8>)
    requires
        marker_ok(start),
        marker_ok(end),
        start != end,
        block_ok(b, start, end),
        stable_lines(doc),
    ensures
        apply_block(apply_block(doc, start, end, b), start, end, b) == apply_block(
            doc,
            start,
            end,
            b,
        ),
{
    crate::lines::lemma_lines_of_no_nl(doc);
    lemma_rescan(lines_of(doc), false, false, start, end, b);
}

/// Idempotence of `update_between_lines` itself, with the branchless
/// markers: applying the same block twice equals applying it once, for
/// any document whose lines carry no bare trailing carriage return and
/// any block that is empty or newline-closed and whose lines are not
/// marker lines.
pub proof fn lemma_update_between_lines_idempotent(doc: Seq<u8>, b: Seq<u8>)
    requires
        block_ok(b, start_marker(), end_marker()),
        stable_lines(doc),
    ensures
        apply_block(
            apply_block(doc, start_marker(), end_marker(), b),
            start_marker(),
            end_marker(),
            b,
        ) == apply_block(doc, start_marker(), end_marker(), b),
{
    lemma_markers_ok();
    lemma_apply_block_idempotent(doc, start_marker(), end_marker(), b);
}

/// Region preservation: in a well-formed document the lines before the
/// start marker and after the end marker appear in the output verbatim and
/// in order; only the region between the markers is replaced.
pub proof fn lemma_apply_block_preserves_context(
    pre: Seq<Seq<u8>>,
    mid: Seq<Seq<u8>>,
    post: Seq<Seq<u8>>,
    start: Seq<u8>,
    end: Seq<u8>,
    b: Seq<u8>,
)
    requires
        marker_free(pre, start, end),
        marker_free(mid, start, end),
        marker_free(post, start, end),
        start != end,
    ensures
        scan_lines(
            pre + seq![start] + mid + seq![end] + post,
            false,
            false,
            start,
            end,
            b,
        ) == join_lines(pre) + render_block(start, end, b) + join_lines(post),
{
    let region = seq![start] + mid + seq![end] + post;
    assert(pre + seq![start] + mid + seq![end] + post =~= pre + region);
    lemma_scan_copy(pre, region, false, start, end, b);
    lemma_scan_region(mid, post, false, false, start, end, b);
    lemma_scan_copy(post, Seq::<Seq<u8>>::empty(), true, start, end, b);
    assert(post + Seq::<Seq<u8>>::empty() =~= post);
    assert(scan_lines(Seq::<Seq<u8>>::empty(), false, true, start, end, b) =~= Seq::<u8>::empty());
    assert(join_lines(post) + Seq::<u8>::empty() =~= join_lines(post));
    assert(join_lines(pre) + (render_block(start, end, b) + join_lines(post)) =~= join_lines(pre)
        + render_block(start, end, b) + join_lines(post));
}

/// Append when absent: a document none of whose lines is a marker comes
/// back as its own lines, in order, followed by one freshly rendered
/// region.
pub proof fn lemma_apply_block_appends_when_absent(
    doc: Seq<u8>,
    start: Seq<u8>,
    end: Seq<u8>,
    b: Seq<u8>,
)
    requires
        marker_free(lines_of(doc), start, end),
    ensures
        apply_block(doc, start, end, b) == join_lines(lines_of(doc)) + render_block(start, end, b),
{
    lemma_scan_copy(lines_of(doc), Seq::<Seq<u8>>::empty(), false, start, end, b);
    assert(lines_of(doc) + Seq::<Seq<u8>>::empty() =~= lines_of(doc));
}

} // verus!
