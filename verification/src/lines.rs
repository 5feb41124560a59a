//! The line model of a document: a document is a byte sequence, and its
//! lines are the segments between newline bytes, each stripped of at most
//! one trailing carriage return. A final segment without a newline is still
//! a line; a trailing newline does not produce an empty final line.

use vstd::prelude::*;

verus! {

pub const NL: u8 = 0x0a;

pub const CR: u8 = 0x0d;

/// The line holds no newline byte.
pub open spec fn no_nl(l: Seq<u8>) -> bool {
    forall|k: int| 0 <= k < l.len() ==> l[k] != NL
}

/// A finished line: at most one trailing carriage return is removed.
pub open spec fn strip_cr(l: Seq<u8>) -> Seq<u8> {
    if l.len() > 0 && l[l.len() - 1] == CR {
        l.drop_last()
    } else {
        l
    }
}

/// The lines of `s`, with `cur` the partial line read so far.
pub open spec fn lines_from(s: Seq<u8>, cur: Seq<u8>) -> Seq<Seq<u8>>
    decreases s.len(),
{
    if s.len() == 0 {
        if cur.len() == 0 {
            Seq::<Seq<u8>>::empty()
        } else {
            seq![cur]
        }
    } else if s[0] == NL {
        seq![strip_cr(cur)] + lines_from(s.drop_first(), Seq::<u8>::empty())
    } else {
        lines_from(s.drop_first(), cur.push(s[0]))
    }
}

/// The lines of a document.
pub open spec fn lines_of(s: Seq<u8>) -> Seq<Seq<u8>> {
    lines_from(s, Seq::<u8>::empty())
}

/// Lines joined back into a document, each closed by a newline.
pub open spec fn join_lines(ls: Seq<Seq<u8>>) -> Seq<u8>
    decreases ls.len(),
{
    if ls.len() == 0 {
        Seq::<u8>::empty()
    } else {
        ls[0] + seq![NL] + join_lines(ls.drop_first())
    }
}

/// Every line of a document is free of newline bytes.
pub proof fn lemma_lines_from_no_nl(s: Seq<u8>, cur: Seq<u8>)
    requires
        no_nl(cur),
    ensures
        forall|i: int|
            0 <= i < lines_from(s, cur).len() ==> no_nl(#[trigger] lines_from(s, cur)[i]),
    decreases s.len(),
{
    if s.len() == 0 {
        if cur.len() > 0 {
            assert forall|i: int| 0 <= i < lines_from(s, cur).len() implies no_nl(
                #[trigger] lines_from(s, cur)[i],
            ) by {
                assert(lines_from(s, cur)[i] == cur);
            }
        }
    } else if s[0] == NL {
        assert(no_nl(strip_cr(cur)));
        lemma_lines_from_no_nl(s.drop_first(), Seq::<u8>::empty());
        assert forall|i: int| 0 <= i < lines_from(s, cur).len() implies no_nl(
            #[trigger] lines_from(s, cur)[i],
        ) by {
            if i > 0 {
                assert(lines_from(s, cur)[i] == lines_from(s.drop_first(), Seq::<u8>::empty())[i
                    - 1]);
            } else {
                assert(lines_from(s, cur)[0] == strip_cr(cur));
            }
        }
    } else {
        assert(no_nl(cur.push(s[0])));
        lemma_lines_from_no_nl(s.drop_first(), cur.push(s[0]));
        assert forall|i: int| 0 <= i < lines_from(s, cur).len() implies no_nl(
            #[trigger] lines_from(s, cur)[i],
        ) by {
            assert(lines_from(s, cur)[i] == lines_from(s.drop_first(), cur.push(s[0]))[i]);
        }
    }
}

pub proof fn lemma_lines_of_no_nl(s: Seq<u8>)
    ensures
        forall|i: int| 0 <= i < lines_of(s).len() ==> no_nl(#[trigger] lines_of(s)[i]),
{
    lemma_lines_from_no_nl(s, Seq::<u8>::empty());
}

/// Splitting distributes over concatenation at a closed line boundary.
pub proof fn lemma_lines_from_append(a: Seq<u8>, b: Seq<u8>, cur: Seq<u8>)
    requires
        a.len() > 0,
        a[a.len() - 1] == NL,
    ensures
        lines_from(a + b, cur) == lines_from(a, cur) + lines_from(b, Seq::<u8>::empty()),
    decreases a.len(),
{
    let ab = a + b;
    assert(ab[0] == a[0]);
    if a.len() == 1 {
        assert(a[0] == NL);
        assert(ab.drop_first() =~= b);
        assert(a.drop_first() =~= Seq::<u8>::empty());
        assert(lines_from(Seq::<u8>::empty(), Seq::<u8>::empty()) =~= Seq::<Seq<u8>>::empty());
        assert(lines_from(a, cur) =~= seq![strip_cr(cur)]);
        assert(lines_from(ab, cur) == seq![strip_cr(cur)] + lines_from(b, Seq::<u8>::empty()));
    } else {
        let a2 = a.drop_first();
        assert(a2.len() > 0 && a2[a2.len() - 1] == NL);
        assert(ab.drop_first() =~= a2 + b);
        if a[0] == NL {
            lemma_lines_from_append(a2, b, Seq::<u8>::empty());
            assert(lines_from(a, cur) == seq![strip_cr(cur)] + lines_from(
                a2,
                Seq::<u8>::empty(),
            ));
            assert((seq![strip_cr(cur)] + (lines_from(a2, Seq::<u8>::empty()) + lines_from(
                b,
                Seq::<u8>::empty(),
            ))) =~= (seq![strip_cr(cur)] + lines_from(a2, Seq::<u8>::empty())) + lines_from(
                b,
                Seq::<u8>::empty(),
            ));
        } else {
            lemma_lines_from_append(a2, b, cur.push(a[0]));
        }
    }
}

/// Reading one newline-free line off the front of a document.
pub proof fn lemma_lines_from_line(l: Seq<u8>, rest: Seq<u8>, cur: Seq<u8>)
    requires
        no_nl(l),
    ensures
        lines_from(l + seq![NL] + rest, cur) == seq![strip_cr(cur + l)] + lines_from(
            rest,
            Seq::<u8>::empty(),
        ),
    decreases l.len(),
{
    let s = l + seq![NL] + rest;
    if l.len() == 0 {
        assert(s[0] == NL);
        assert(s.drop_first() =~= rest);
        assert(cur + l =~= cur);
    } else {
        assert(s[0] == l[0]);
        assert(l[0] != NL);
        assert(s.drop_first() =~= l.drop_first() + seq![NL] + rest);
        lemma_lines_from_line(l.drop_first(), rest, cur.push(l[0]));
        assert(cur.push(l[0]) + l.drop_first() =~= cur + l);
    }
}

/// The byte sequences a vector of line buffers stands for.
pub open spec fn line_views(vs: Seq<Vec<u8>>) -> Seq<Seq<u8>> {
    Seq::new(vs.len(), |i: int| vs[i]@)
}

/// Split a document into its lines.
pub fn split_lines(s: &Vec<u8>) -> (r: Vec<Vec<u8>>)
    ensures
        line_views(r@) == lines_of(s@),
{
    let n: usize = s.len();
    let mut acc: Vec<Vec<u8>> = Vec::new();
    let mut cur: Vec<u8> = Vec::new();
    let mut i: usize = 0;
    proof {
        assert(line_views(acc@) =~= Seq::<Seq<u8>>::empty());
        assert(s@.skip(0) =~= s@);
    }
    while i < n
        invariant
            n == s@.len(),
            0 <= i <= n,
            lines_of(s@) == line_views(acc@) + lines_from(s@.skip(i as int), cur@),
        decreases n - i,
    {
        let b = s[i];
        proof {
            assert(s@.skip(i as int)[0] == s@[i as int]);
            assert(s@.skip(i as int).drop_first() =~= s@.skip(i as int + 1));
        }
        if b == NL {
            let ghost cur0 = cur@;
            let mut line = cur;
            cur = Vec::new();
            if line.len() > 0 && line[line.len() - 1] == CR {
                let _ = line.pop();
                proof {
                    assert(line@ =~= strip_cr(cur0));
                }
            }
            assert(line@ == strip_cr(cur0));
            let ghost acc0 = acc@;
            acc.push(line);
            proof {
                assert(line_views(acc@) =~= line_views(acc0).push(strip_cr(cur0)));
                assert((line_views(acc0) + seq![strip_cr(cur0)]) =~= line_views(acc@));
                assert((line_views(acc0) + (seq![strip_cr(cur0)] + lines_from(
                    s@.skip(i as int + 1),
                    Seq::<u8>::empty(),
                ))) =~= line_views(acc@) + lines_from(s@.skip(i as int + 1), Seq::<u8>::empty()));
            }
        } else {
            cur.push(b);
        }
        i = i + 1;
    }
    proof {
        assert(s@.skip(n as int) =~= Seq::<u8>::empty());
    }
    if cur.len() > 0 {
        let ghost acc0 = acc@;
        let ghost cur0 = cur@;
        acc.push(cur);
        proof {
            assert(lines_from(Seq::<u8>::empty(), cur0) =~= seq![cur0]);
            assert(line_views(acc@) =~= line_views(acc0) + seq![cur0]);
        }
    } else {
        proof {
            assert(lines_from(Seq::<u8>::empty(), cur@) =~= Seq::<Seq<u8>>::empty());
            assert(line_views(acc@) + Seq::<Seq<u8>>::empty() =~= line_views(acc@));
        }
    }
    acc
}

/// A closed, newline-free, carriage-return-free line parses back to itself.
pub proof fn lemma_lines_of_line(l: Seq<u8>, rest: Seq<u8>)
    requires
        no_nl(l),
        l.len() == 0 || l[l.len() - 1] != CR,
    ensures
        lines_of(l + seq![NL] + rest) == seq![l] + lines_from(rest, Seq::<u8>::empty()),
{
    lemma_lines_from_line(l, rest, Seq::<u8>::empty());
    assert(Seq::<u8>::empty() + l =~= l);
    assert(strip_cr(l) == l);
}

} // verus!
