//! Line structure of a decompressed archive listing: a byte stream split at
//! line feeds, one carriage return stripped from the end of each line-feed
//! terminated line, and a final empty segment after a trailing line feed
//! not counted as a line. A final segment with no line feed is kept as it
//! stands.

use vstd::prelude::*;

verus! {

/// The index of the first line-feed byte of `b`, or `b.len()` when none
/// occurs.
pub open spec fn first_newline(b: Seq<u8>) -> int
    decreases b.len(),
{
    if b.len() == 0 {
        0
    } else if b.first() == 10u8 {
        0
    } else {
        1 + first_newline(b.drop_first())
    }
}

/// `first_newline` is in bounds, hits a line feed when it is not at the end,
/// and nothing before it is a line feed.
pub proof fn lemma_first_newline(b: Seq<u8>)
    ensures
        0 <= first_newline(b) <= b.len(),
        first_newline(b) < b.len() ==> b[first_newline(b)] == 10u8,
        forall|j: int| 0 <= j < first_newline(b) ==> b[j] != 10u8,
    decreases b.len(),
{
    if b.len() > 0 && b.first() != 10u8 {
        lemma_first_newline(b.drop_first());
        assert forall|j: int| 0 <= j < first_newline(b) implies b[j] != 10u8 by {
            if j > 0 {
                assert(b.drop_first()[j - 1] == b[j]);
            }
        }
    }
}

/// Any index with `first_newline`'s characteristic properties is
/// `first_newline`.
pub proof fn lemma_first_newline_unique(b: Seq<u8>, i: int)
    requires
        0 <= i <= b.len(),
        forall|j: int| 0 <= j < i ==> b[j] != 10u8,
        i < b.len() ==> b[i] == 10u8,
    ensures
        first_newline(b) == i,
    decreases b.len(),
{
    if b.len() > 0 && b.first() != 10u8 {
        assert(i > 0);
        lemma_first_newline_unique(b.drop_first(), i - 1);
    }
}

/// A line with one trailing carriage return removed.
pub open spec fn strip_cr(l: Seq<u8>) -> Seq<u8> {
    if l.len() > 0 && l.last() == 13u8 {
        l.drop_last()
    } else {
        l
    }
}

/// The lines of a byte stream: the segments between line feeds, each with
/// a trailing carriage return stripped; a trailing line feed produces no
/// empty final line, and a final segment not terminated by a line feed is
/// kept byte for byte.
pub open spec fn lines_of(b: Seq<u8>) -> Seq<Seq<u8>>
    decreases b.len(),
    via lines_of_decreases
{
    if b.len() == 0 {
        Seq::empty()
    } else {
        let i = first_newline(b);
        if i == b.len() {
            seq![b]
        } else {
            seq![strip_cr(b.subrange(0, i))] + lines_of(b.subrange(i + 1, b.len() as int))
        }
    }
}

#[via_fn]
proof fn lines_of_decreases(b: Seq<u8>) {
    lemma_first_newline(b);
}

/// The views of a vector of byte lines.
pub open spec fn byte_lines_of(s: Seq<Vec<u8>>) -> Seq<Seq<u8>> {
    Seq::new(s.len(), |i: int| s[i]@)
}

/// The bytes of `b` from `from` (inclusive) to `to` (exclusive), as a fresh
/// vector.
pub fn copy_range(b: &Vec<u8>, from: usize, to: usize) -> (r: Vec<u8>)
    requires
        from <= to <= b@.len(),
    ensures
        r@ == b@.subrange(from as int, to as int),
{
    let mut r: Vec<u8> = Vec::new();
    let mut i: usize = from;
    while i < to
        invariant
            from <= i <= to <= b@.len(),
            r@.len() == i - from,
            forall|j: int| 0 <= j < r@.len() ==> r@[j] == b@[from + j],
        decreases to - i,
    {
        r.push(b[i]);
        i = i + 1;
    }
    proof {
        assert(r@ =~= b@.subrange(from as int, to as int));
    }
    r
}

/// The index of the first line feed at or after `from`, or the length when
/// none follows.
fn find_newline(b: &Vec<u8>, from: usize) -> (i: usize)
    requires
        from <= b@.len(),
    ensures
        from <= i <= b@.len(),
        i < b@.len() ==> b@[i as int] == 10u8,
        forall|j: int| from <= j < i ==> b@[j] != 10u8,
        first_newline(b@.subrange(from as int, b@.len() as int)) == i - from,
{
    let mut i: usize = from;
    while i < b.len()
        invariant
            from <= i <= b@.len(),
            forall|j: int| from <= j < i ==> b@[j] != 10u8,
        decreases b@.len() - i,
    {
        if b[i] == 10u8 {
            proof {
                let rest = b@.subrange(from as int, b@.len() as int);
                lemma_first_newline_unique(rest, i - from);
            }
            return i;
        }
        i = i + 1;
    }
    proof {
        let rest = b@.subrange(from as int, b@.len() as int);
        lemma_first_newline_unique(rest, i - from);
    }
    i
}

/// One line, stripped of a trailing carriage return.
fn strip_line(line: Vec<u8>) -> (r: Vec<u8>)
    ensures
        r@ == strip_cr(line@),
{
    let ghost l0 = line@;
    let mut line = line;
    if line.len() > 0 && line[line.len() - 1] == 13u8 {
        let _ = line.pop();
        proof {
            assert(line@ =~= strip_cr(l0));
        }
    }
    line
}

/// Split a byte stream into its lines.
pub fn split_lines(b: &Vec<u8>) -> (r: Vec<Vec<u8>>)
    ensures
        byte_lines_of(r@) == lines_of(b@),
{
    let mut out: Vec<Vec<u8>> = Vec::new();
    let mut pos: usize = 0;
    proof {
        assert(b@.subrange(0, b@.len() as int) =~= b@);
        assert(byte_lines_of(Seq::<Vec<u8>>::empty()) =~= Seq::<Seq<u8>>::empty());
    }
    while pos < b.len()
        invariant
            pos <= b@.len(),
            lines_of(b@) =~= byte_lines_of(out@) + lines_of(
                b@.subrange(pos as int, b@.len() as int),
            ),
        decreases b@.len() - pos,
    {
        let ghost rest = b@.subrange(pos as int, b@.len() as int);
        let i = find_newline(b, pos);
        if i == b.len() {
            let line = copy_range(b, pos, i);
            proof {
                assert(rest.len() > 0);
                assert(first_newline(rest) == rest.len());
                assert(lines_of(rest) == seq![rest]);
                assert(rest =~= b@.subrange(pos as int, i as int));
                assert(byte_lines_of(out@.push(line)) =~= byte_lines_of(out@).push(line@));
                assert(lines_of(b@.subrange(i as int, b@.len() as int)) =~= Seq::<
                    Seq<u8>,
                >::empty());
            }
            out.push(line);
            pos = i;
            proof {
                assert(lines_of(b@) =~= byte_lines_of(out@) + lines_of(
                    b@.subrange(pos as int, b@.len() as int),
                ));
            }
        } else {
            let line = strip_line(copy_range(b, pos, i));
            proof {
                assert(rest.len() > 0);
                assert(first_newline(rest) == i - pos);
                assert(rest.subrange(0, i - pos) =~= b@.subrange(pos as int, i as int));
                assert(rest.subrange(i - pos + 1, rest.len() as int) =~= b@.subrange(
                    i as int + 1,
                    b@.len() as int,
                ));
                assert(lines_of(rest) == seq![strip_cr(b@.subrange(pos as int, i as int))]
                    + lines_of(b@.subrange(i as int + 1, b@.len() as int)));
                assert(byte_lines_of(out@.push(line)) =~= byte_lines_of(out@).push(line@));
            }
            out.push(line);
            pos = i + 1;
            proof {
                assert(lines_of(b@) =~= byte_lines_of(out@) + lines_of(
                    b@.subrange(pos as int, b@.len() as int),
                ));
            }
        }
    }
    proof {
        assert(lines_of(b@.subrange(pos as int, b@.len() as int)) =~= Seq::<Seq<u8>>::empty());
        assert(byte_lines_of(out@) =~= lines_of(b@));
    }
    out
}

} // verus!
