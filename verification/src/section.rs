//! The section patcher: a whole-document analog of the block patcher. A
//! section is the first span `header ... footer` in the text, located by
//! index-based scanning with first-match semantics: the earliest header
//! occurrence, then the earliest footer occurrence after it. The span is
//! replaced by `header + body + footer`; when there is no such span the
//! fresh section is prepended and the rest of the text is untouched.

use vstd::prelude::*;
use vstd::string::StrSliceExecFns;
use vstd::string::StringSliceAdditionalSpecFns;
use vstd::utf8::is_ascii_chars;

use crate::bytes::find_from;
use crate::bytes::is_match_at;
use crate::bytes::subvec;

verus! {

/// `i` is the first occurrence of `p` in `t` at or after `from`.
pub open spec fn first_match_from(t: Seq<u8>, p: Seq<u8>, from: int, i: int) -> bool {
    &&& from <= i
    &&& is_match_at(t, p, i)
    &&& forall|j: int| from <= j < i ==> !is_match_at(t, p, j)
}

/// The first header occurrence is at `hi` and the first footer occurrence
/// after it is at `fi`: the span `[hi, fi + |footer|)` is the section.
pub open spec fn section_span(t: Seq<u8>, h: Seq<u8>, f: Seq<u8>, hi: int, fi: int) -> bool {
    &&& first_match_from(t, h, 0, hi)
    &&& first_match_from(t, f, hi + h.len(), fi)
}

/// A freshly rendered section.
pub open spec fn rendered_section(h: Seq<u8>, b: Seq<u8>, f: Seq<u8>) -> Seq<u8> {
    h + b + f
}

/// The section patcher: replace the first section span, or prepend.
pub open spec fn section_apply_spec(t: Seq<u8>, h: Seq<u8>, f: Seq<u8>, b: Seq<u8>) -> Seq<u8> {
    if exists|hi: int, fi: int| section_span(t, h, f, hi, fi) {
        let (hi, fi) = choose|hi: int, fi: int| section_span(t, h, f, hi, fi);
        t.subrange(0, hi) + rendered_section(h, b, f) + t.skip(fi + f.len() as int)
    } else {
        rendered_section(h, b, f) + t
    }
}

proof fn lemma_first_match_unique(t: Seq<u8>, p: Seq<u8>, from: int, a: int, b: int)
    requires
        first_match_from(t, p, from, a),
        first_match_from(t, p, from, b),
    ensures
        a == b,
{
    if a < b {
        assert(!is_match_at(t, p, a));
    } else if b < a {
        assert(!is_match_at(t, p, b));
    }
}

proof fn lemma_span_unique(t: Seq<u8>, h: Seq<u8>, f: Seq<u8>, a: int, b: int, c: int, d: int)
    requires
        section_span(t, h, f, a, b),
        section_span(t, h, f, c, d),
    ensures
        a == c,
        b == d,
{
    lemma_first_match_unique(t, h, 0, a, c);
    lemma_first_match_unique(t, f, a + h.len(), b, d);
}

/// Build `header + contents + footer` as one document.
pub fn splice_section(header: &Vec<u8>, contents: &Vec<u8>, footer: &Vec<u8>) -> (r: Vec<u8>)
    ensures
        r@ == rendered_section(header@, contents@, footer@),
{
    let mut r: Vec<u8> = Vec::new();
    r.extend_from_slice(header.as_slice());
    r.extend_from_slice(contents.as_slice());
    r.extend_from_slice(footer.as_slice());
    proof {
        assert(r@ =~= rendered_section(header@, contents@, footer@));
    }
    r
}

/// The section patcher on byte vectors.
pub fn section_apply(text: &Vec<u8>, header: &Vec<u8>, footer: &Vec<u8>, body: &Vec<u8>) -> (r:
    Vec<u8>)
    requires
        header@.len() >= 1,
        footer@.len() >= 1,
    ensures
        r@ == section_apply_spec(text@, header@, footer@, body@),
{
    let ghost t = text@;
    let ghost h = header@;
    let ghost f = footer@;
    let tn: usize = text.len();
    proof {
        assert(tn == t.len());
    }
    match find_from(text, header, 0) {
        None => {
            proof {
                assert forall|hi: int, fi: int| !section_span(t, h, f, hi, fi) by {
                    if section_span(t, h, f, hi, fi) {
                        assert(is_match_at(t, h, hi));
                    }
                }
            }
            let section = splice_section(header, body, footer);
            let mut r = section;
            r.extend_from_slice(text.as_slice());
            proof {
                assert(r@ =~= rendered_section(h, body@, f) + t);
            }
            r
        },
        Some(hi) => {
            let search_from: usize = hi + header.len();
            match find_from(text, footer, search_from) {
                None => {
                    proof {
                        assert forall|a: int, fi: int| !section_span(t, h, f, a, fi) by {
                            if section_span(t, h, f, a, fi) {
                                lemma_first_match_unique(t, h, 0, a, hi as int);
                                assert(is_match_at(t, f, fi) && fi >= hi + h.len());
                            }
                        }
                    }
                    let section = splice_section(header, body, footer);
                    let mut r = section;
                    r.extend_from_slice(text.as_slice());
                    proof {
                        assert(r@ =~= rendered_section(h, body@, f) + t);
                    }
                    r
                },
                Some(fi) => {
                    let mut r = subvec(text, 0, hi);
                    r.extend_from_slice(header.as_slice());
                    r.extend_from_slice(body.as_slice());
                    r.extend_from_slice(footer.as_slice());
                    let tail_start: usize = fi + footer.len();
                    let tail = subvec(text, tail_start, text.len());
                    r.extend_from_slice(tail.as_slice());
                    proof {
                        assert(section_span(t, h, f, hi as int, fi as int));
                        let (chi, cfi) = choose|chi: int, cfi: int|
                            section_span(t, h, f, chi, cfi);
                        lemma_span_unique(t, h, f, chi, cfi, hi as int, fi as int);
                        assert(t.skip(fi + f.len() as int) =~= t.subrange(
                            tail_start as int,
                            t.len() as int,
                        ));
                        assert(r@ =~= t.subrange(0, hi as int) + rendered_section(h, body@, f)
                            + t.skip(fi + f.len() as int));
                    }
                    r
                },
            }
        },
    }
}

/// No proper nonempty prefix of `h` is also a suffix of `h`, so an
/// occurrence of `h` cannot straddle the boundary where `h` was written.
pub open spec fn no_self_overlap(h: Seq<u8>) -> bool {
    forall|k: int|
        0 < k < h.len() ==> h.subrange(0, k) != h.subrange(h.len() - k, h.len() as int)
}

/// Fixed point: applying the section patcher to its own output with the
/// same header, footer and body reproduces that output, provided the
/// footer first occurs in `body + footer` only at the very end and the
/// header does not overlap itself.
pub proof fn lemma_section_apply_fixed_point(t: Seq<u8>, h: Seq<u8>, f: Seq<u8>, b: Seq<u8>)
    requires
        h.len() >= 1,
        f.len() >= 1,
        first_match_from(b + f, f, 0, b.len() as int),
        no_self_overlap(h),
    ensures
        section_apply_spec(section_apply_spec(t, h, f, b), h, f, b) == section_apply_spec(
            t,
            h,
            f,
            b,
        ),
{
    let o = section_apply_spec(t, h, f, b);
    if exists|hi: int, fi: int| section_span(t, h, f, hi, fi) {
        let (hi, fi) = choose|hi: int, fi: int| section_span(t, h, f, hi, fi);
        assert(section_span(t, h, f, hi, fi));
        let pre = t.subrange(0, hi);
        let suf = t.skip(fi + f.len() as int);
        assert(o == pre + rendered_section(h, b, f) + suf);
        let hl = h.len() as int;
        let bl = b.len() as int;
        let fl = f.len() as int;
        let fpos = hi + hl + bl;
        assert(o.subrange(hi, hi + hl) =~= h);
        assert(is_match_at(o, h, hi));
        assert forall|j: int| 0 <= j < hi implies !is_match_at(o, h, j) by {
            if is_match_at(o, h, j) {
                if j + hl <= hi {
                    assert(o.subrange(j, j + hl) =~= t.subrange(j, j + hl));
                    assert(is_match_at(t, h, j));
                } else {
                    let k = j + hl - hi;
                    assert(0 < k < hl);
                    assert(h.subrange(hl - k, hl) =~= o.subrange(hi, hi + k));
                    assert(h.subrange(0, k) =~= o.subrange(hi, hi + k));
                }
            }
        }
        assert(o.subrange(fpos, fpos + fl) =~= f);
        assert(is_match_at(o, f, fpos));
        assert forall|j: int| hi + hl <= j < fpos implies !is_match_at(o, f, j) by {
            if is_match_at(o, f, j) {
                let j2 = j - (hi + hl);
                assert(o.subrange(j, j + fl) =~= (b + f).subrange(j2, j2 + fl));
                assert(is_match_at(b + f, f, j2));
            }
        }
        assert(section_span(o, h, f, hi, fpos));
        let (chi, cfi) = choose|chi: int, cfi: int| section_span(o, h, f, chi, cfi);
        lemma_span_unique(o, h, f, chi, cfi, hi, fpos);
        assert(o.subrange(0, hi) =~= pre);
        assert(o.skip(fpos + fl) =~= suf);
        assert(o.subrange(0, hi) + rendered_section(h, b, f) + o.skip(fpos + fl) =~= o);
    } else {
        assert(o == rendered_section(h, b, f) + t);
        let hl = h.len() as int;
        let bl = b.len() as int;
        let fl = f.len() as int;
        assert(o.subrange(0, hl) =~= h);
        assert(is_match_at(o, h, 0));
        let fpos = hl + bl;
        assert(o.subrange(fpos, fpos + fl) =~= f);
        assert(is_match_at(o, f, fpos));
        assert forall|j: int| hl <= j < fpos implies !is_match_at(o, f, j) by {
            if is_match_at(o, f, j) {
                let j2 = j - hl;
                assert(o.subrange(j, j + fl) =~= (b + f).subrange(j2, j2 + fl));
                assert(is_match_at(b + f, f, j2));
            }
        }
        assert(first_match_from(o, h, 0, 0));
        assert(section_span(o, h, f, 0, fpos));
        let (chi, cfi) = choose|chi: int, cfi: int| section_span(o, h, f, chi, cfi);
        lemma_span_unique(o, h, f, chi, cfi, 0, fpos);
        assert(o.subrange(0, 0) =~= Seq::<u8>::empty());
        assert(o.skip(fpos + fl) =~= t);
        assert(o.subrange(0, 0) + rendered_section(h, b, f) + o.skip(fpos + fl) =~= o);
    }
}

/// The comment line that opens the branchless section.
pub open spec fn section_header() -> Seq<u8> {
    "# git-branchless section start\n".spec_bytes()
}

/// The comment line that closes the branchless section.
pub open spec fn section_footer() -> Seq<u8> {
    "# git-branchless section end\n".spec_bytes()
}

pub fn section_header_bytes() -> (r: Vec<u8>)
    ensures
        r@ == section_header(),
{
    ("# git-branchless section start\n").as_bytes_vec()
}

pub fn section_footer_bytes() -> (r: Vec<u8>)
    ensures
        r@ == section_footer(),
{
    ("# git-branchless section end\n").as_bytes_vec()
}

pub proof fn lemma_section_delims_nonempty()
    ensures
        section_header().len() >= 1,
        section_footer().len() >= 1,
{
    reveal_strlit("# git-branchless section start\n");
    reveal_strlit("# git-branchless section end\n");
    let s = "# git-branchless section start\n";
    let e = "# git-branchless section end\n";
    assert(is_ascii_chars(s@));
    assert(is_ascii_chars(e@));
    vstd::utf8::is_ascii_chars_encode_utf8(s@);
    vstd::utf8::is_ascii_chars_encode_utf8(e@);
}

/// The body of the branchless section: an include of the isolated
/// configuration file and of the personal configuration file.
pub open spec fn include_body(rel: Seq<u8>) -> Seq<u8> {
    "[include]\n\tpath = \"".spec_bytes() + rel + "\"\n\tpath = \"~/.gitconfig\"\n".spec_bytes()
}

pub fn include_body_bytes(config_path_relative: &Vec<u8>) -> (r: Vec<u8>)
    ensures
        r@ == include_body(config_path_relative@),
{
    let mut r = ("[include]\n\tpath = \"").as_bytes_vec();
    r.extend_from_slice(config_path_relative.as_slice());
    let close = ("\"\n\tpath = \"~/.gitconfig\"\n").as_bytes_vec();
    r.extend_from_slice(close.as_slice());
    proof {
        assert(r@ =~= include_body(config_path_relative@));
    }
    r
}

/// A whole branchless section around the given contents.
pub fn section_string(contents: &Vec<u8>) -> (r: Vec<u8>)
    ensures
        r@ == rendered_section(section_header(), contents@, section_footer()),
{
    let header = section_header_bytes();
    let footer = section_footer_bytes();
    splice_section(&header, contents, &footer)
}

/// Install or refresh the branchless section of the repository's primary
/// configuration text, so that the isolated configuration file and the
/// personal configuration file are included from it.
pub fn update_config_text(old_config: &Vec<u8>, config_path_relative: &Vec<u8>) -> (r: Vec<u8>)
    ensures
        r@ == section_apply_spec(
            old_config@,
            section_header(),
            section_footer(),
            include_body(config_path_relative@),
        ),
{
    proof {
        lemma_section_delims_nonempty();
    }
    let header = section_header_bytes();
    let footer = section_footer_bytes();
    let body = include_body_bytes(config_path_relative);
    section_apply(old_config, &header, &footer, &body)
}

} // verus!
