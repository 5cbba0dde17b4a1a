//! Splitting a byte stream into lines, and emitting lines as bytes.

use vstd::prelude::*;

verus! {

/// The line terminator.
pub const NEWLINE: u8 = 10;

/// The carriage return that may precede a terminator.
pub const CARRIAGE_RETURN: u8 = 13;

/// A line read up to a terminator loses one carriage return at its end.
pub open spec fn strip_cr(l: Seq<u8>) -> Seq<u8> {
    if l.len() > 0 && l.last() == CARRIAGE_RETURN {
        l.drop_last()
    } else {
        l
    }
}

/// The lines of `rest`, where `cur` holds the bytes read so far of a line that
/// has not ended yet. A line ends at a newline; the final line needs none, and
/// an empty final line is no line.
pub open spec fn lines_from(cur: Seq<u8>, rest: Seq<u8>) -> Seq<Seq<u8>>
    decreases rest.len(),
{
    if rest.len() == 0 {
        if cur.len() == 0 {
            seq![]
        } else {
            seq![cur]
        }
    } else if rest[0] == NEWLINE {
        seq![strip_cr(cur)] + lines_from(seq![], rest.drop_first())
    } else {
        lines_from(cur.push(rest[0]), rest.drop_first())
    }
}

/// The lines of a byte stream, without their terminators.
pub open spec fn lines_of(s: Seq<u8>) -> Seq<Seq<u8>> {
    lines_from(seq![], s)
}

/// The contents of a sequence of byte vectors.
pub open spec fn contents(v: Seq<Vec<u8>>) -> Seq<Seq<u8>> {
    v.map_values(|l: Vec<u8>| l@)
}

/// Each line followed by one newline, in order.
pub open spec fn joined(lines: Seq<Seq<u8>>) -> Seq<u8>
    decreases lines.len(),
{
    if lines.len() == 0 {
        seq![]
    } else {
        joined(lines.drop_last()) + lines.last() + seq![NEWLINE]
    }
}

/// Splits `input` into its lines, as `lines_of` describes them.
pub fn split_lines(input: &[u8]) -> (r: Vec<Vec<u8>>)
    ensures
        contents(r@) == lines_of(input@),
{
    let mut out: Vec<Vec<u8>> = Vec::new();
    let mut cur: Vec<u8> = Vec::new();
    let mut i: usize = 0;
    assert(input@.subrange(0, input@.len() as int) =~= input@);
    assert(contents(out@) + lines_of(input@) =~= lines_of(input@));
    while i < input.len()
        invariant
            0 <= i <= input@.len(),
            contents(out@) + lines_from(cur@, input@.subrange(i as int, input@.len() as int))
                == lines_of(input@),
        decreases input@.len() - i,
    {
        let ghost rest = input@.subrange(i as int, input@.len() as int);
        assert(rest.drop_first() =~= input@.subrange(i + 1, input@.len() as int));
        let b = input[i];
        if b == NEWLINE {
            let ghost before = cur@;
            let ghost prev = out@;
            if cur.len() > 0 && cur[cur.len() - 1] == CARRIAGE_RETURN {
                cur.pop();
            }
            assert(cur@ =~= strip_cr(before));
            out.push(cur);
            cur = Vec::new();
            assert(contents(out@) =~= contents(prev) + seq![strip_cr(before)]);
        } else {
            cur.push(b);
        }
        i = i + 1;
    }
    assert(input@.subrange(i as int, input@.len() as int) =~= Seq::<u8>::empty());
    if cur.len() > 0 {
        let ghost prev = out@;
        let ghost last = cur@;
        out.push(cur);
        assert(contents(out@) =~= contents(prev) + seq![last]);
    } else {
        assert(contents(out@) =~= contents(out@) + Seq::<Seq<u8>>::empty());
    }
    out
}

} // verus!
