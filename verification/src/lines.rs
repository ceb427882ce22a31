//! Splitting text into content lines and joining them back.
//!
//! The preview surface always replaces its whole content: the supplied
//! text is split on line breaks exactly as the host's own line iterator
//! does (a line ends at `\n`, a `\r` immediately before it is dropped, and
//! a final piece without a terminator still counts), so empty input yields
//! no lines at all.

use vstd::prelude::*;

verus! {

/// Byte value of the line feed.
pub const NL_BYTE: u8 = 10;

/// Byte value of the carriage return.
pub const CR_BYTE: u8 = 13;

/// Drops a single trailing carriage return, as line splitting does for a
/// line terminated by `\r\n`.
pub open spec fn strip_cr(line: Seq<u8>) -> Seq<u8> {
    if line.len() > 0 && line[line.len() - 1] == CR_BYTE {
        line.drop_last()
    } else {
        line
    }
}

/// Line splitting with `cur` the part of the current line read so far.
pub open spec fn split_rec(t: Seq<u8>, cur: Seq<u8>) -> Seq<Seq<u8>>
    decreases t.len(),
{
    if t.len() == 0 {
        if cur.len() == 0 {
            Seq::empty()
        } else {
            seq![cur]
        }
    } else if t[0] == NL_BYTE {
        seq![strip_cr(cur)] + split_rec(t.drop_first(), Seq::empty())
    } else {
        split_rec(t.drop_first(), cur.push(t[0]))
    }
}

/// The lines of `t`: what the host's line iterator yields for it.
pub open spec fn spec_split_lines(t: Seq<u8>) -> Seq<Seq<u8>> {
    split_rec(t, Seq::empty())
}

/// Joining content lines with a line feed between them, no terminator.
pub open spec fn spec_join_lines(lines: Seq<Seq<u8>>) -> Seq<u8>
    decreases lines.len(),
{
    if lines.len() == 0 {
        Seq::empty()
    } else if lines.len() == 1 {
        lines[0]
    } else {
        lines[0] + seq![NL_BYTE] + spec_join_lines(lines.drop_first())
    }
}

/// Empty input splits into no lines at all.
pub proof fn lemma_split_lines_empty()
    ensures
        spec_split_lines(Seq::<u8>::empty()).len() == 0,
{
}

/// Splits `text` into its lines. The executable twin of
/// `spec_split_lines`.
pub fn split_lines(text: &Vec<u8>) -> (r: Vec<Vec<u8>>)
    ensures
        r.deep_view() == spec_split_lines(text@),
{
    let mut r: Vec<Vec<u8>> = Vec::new();
    let mut cur: Vec<u8> = Vec::new();
    let n = text.len();
    proof {
        assert(text@.skip(0) =~= text@);
        assert(r.deep_view() =~= Seq::<Seq<u8>>::empty());
        assert(cur.deep_view() =~= Seq::<u8>::empty());
    }
    for i in 0..n
        invariant
            n == text.len(),
            spec_split_lines(text@) == r.deep_view() + split_rec(text@.skip(i as int), cur@),
    {
        let ghost r0 = r.deep_view();
        let ghost cur0 = cur@;
        let b = text[i];
        assert(text@.skip(i as int)[0] == b);
        assert(text@.skip(i as int).drop_first() =~= text@.skip(i + 1));
        if b == NL_BYTE {
            if cur.len() > 0 && cur[cur.len() - 1] == CR_BYTE {
                cur.pop();
            }
            assert(cur@ =~= strip_cr(cur0));
            r.push(cur);
            cur = Vec::new();
            proof {
                assert(r.deep_view() =~~= r0.push(strip_cr(cur0)));
                assert(cur@ =~= Seq::<u8>::empty());
                assert(r0 + (seq![strip_cr(cur0)] + split_rec(text@.skip(i + 1), cur@)) =~= r
                    .deep_view() + split_rec(text@.skip(i + 1), cur@));
            }
        } else {
            cur.push(b);
            assert(cur@ =~= cur0.push(b));
        }
    }
    proof {
        assert(text@.skip(n as int) =~= Seq::<u8>::empty());
    }
    if cur.len() > 0 {
        let ghost r0 = r.deep_view();
        let ghost cur0 = cur@;
        r.push(cur);
        proof {
            assert(r.deep_view() =~~= r0.push(cur0));
            assert(r0 + seq![cur0] =~= r0.push(cur0));
        }
    } else {
        assert(r.deep_view() + Seq::<Seq<u8>>::empty() =~= r.deep_view());
    }
    r
}

/// Joins content lines with a line feed between them. The executable twin
/// of `spec_join_lines`.
pub fn join_lines(lines: &Vec<Vec<u8>>) -> (r: Vec<u8>)
    ensures
        r@ == spec_join_lines(lines.deep_view()),
{
    let mut r: Vec<u8> = Vec::new();
    let n = lines.len();
    proof {
        assert(lines.deep_view().skip(0) =~= lines.deep_view());
        assert(r@ =~= Seq::<u8>::empty());
    }
    for i in 0..n
        invariant
            n == lines.len(),
            spec_join_lines(lines.deep_view()) == r@ + spec_join_lines(
                lines.deep_view().skip(i as int),
            ),
    {
        let ghost rest = lines.deep_view().skip(i as int);
        assert(rest[0] == lines.deep_view()[i as int]);
        assert(rest.drop_first() =~= lines.deep_view().skip(i + 1));
        let ghost r0 = r@;
        let line = &lines[i];
        assert(line.deep_view() == lines.deep_view()[i as int]);
        for j in 0..line.len()
            invariant
                j <= line.len(),
                r@ == r0 + line@.take(j as int),
        {
            let ghost r1 = r@;
            r.push(line[j]);
            assert(r@ =~= r0 + line@.take(j + 1));
        }
        assert(line@.take(line.len() as int) =~= line@);
        assert(line@ =~= line.deep_view());
        if i + 1 < n {
            r.push(NL_BYTE);
            proof {
                assert(rest.len() >= 2);
                assert(r@ =~= r0 + (rest[0] + seq![NL_BYTE]));
                assert(r0 + (rest[0] + seq![NL_BYTE] + spec_join_lines(rest.drop_first())) =~= r@
                    + spec_join_lines(lines.deep_view().skip(i + 1)));
            }
        } else {
            proof {
                assert(rest.len() == 1);
                assert(spec_join_lines(rest) == rest[0]);
                assert(r@ =~= r0 + rest[0]);
                assert(lines.deep_view().skip(i + 1) =~= Seq::<Seq<u8>>::empty());
                assert(r@ + spec_join_lines(lines.deep_view().skip(i + 1)) =~= r@);
            }
        }
    }
    proof {
        if n == 0 {
        } else {
            assert(lines.deep_view().skip(n as int) =~= Seq::<Seq<u8>>::empty());
        }
        assert(r@ + spec_join_lines(Seq::<Seq<u8>>::empty()) =~= r@);
    }
    r
}

} // verus!
