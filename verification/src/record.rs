//! The `f(<x>) = <value>` record line format.
//!
//! Every result record is written as one line of bytes: the fixed prefix
//! `f(`, the abscissa text, the fixed infix `) = `, and the value text.
//! Plot consumers read records back from those lines, so the format is a
//! contract in both directions: [`format_record`] produces exactly this
//! shape, and [`parse_record`] recovers the two parts, and fails exactly
//! on the lines of no such shape. The abscissa text of a well-formed line
//! never holds a closing parenthesis (decimal float text never does), so
//! the first `)` of the line ends the abscissa and the split is unique.

use vstd::prelude::*;

verus! {

/// The bytes of the fixed prefix `f(` of a record line.
pub open spec fn record_prefix() -> Seq<u8> {
    seq![102u8, 40u8]
}

/// The bytes of the fixed infix `) = ` between the abscissa and the value.
pub open spec fn record_infix() -> Seq<u8> {
    seq![41u8, 32u8, 61u8, 32u8]
}

/// `line` is the record line with abscissa text `x` and value text `y`:
/// the prefix, `x`, the infix, then `y`, where `x` holds no closing
/// parenthesis.
pub open spec fn is_record_line(line: Seq<u8>, x: Seq<u8>, y: Seq<u8>) -> bool {
    &&& line == record_prefix() + x + record_infix() + y
    &&& forall|i: int| 0 <= i < x.len() ==> x[i] != 41u8
}

/// What a record line looks like from the outside in: its length, its
/// fixed bytes, where its parts sit, and that no closing parenthesis
/// comes before the one that ends the abscissa.
pub proof fn lemma_record_line_parts(line: Seq<u8>, x: Seq<u8>, y: Seq<u8>)
    requires
        is_record_line(line, x, y),
    ensures
        line.len() == 6 + x.len() + y.len(),
        line[0] == 102u8,
        line[1] == 40u8,
        forall|j: int| 2 <= j < 2 + x.len() ==> line[j] != 41u8,
        line[2 + x.len() as int] == 41u8,
        line[3 + x.len() as int] == 32u8,
        line[4 + x.len() as int] == 61u8,
        line[5 + x.len() as int] == 32u8,
        x == line.subrange(2, 2 + x.len() as int),
        y == line.subrange(6 + x.len() as int, line.len() as int),
{
    let n = x.len() as int;
    assert forall|j: int| 2 <= j < 2 + n implies line[j] != 41u8 by {
        assert(line[j] == x[j - 2]);
    }
    assert(line[2 + n] == 41u8);
    assert(line[3 + n] == 32u8);
    assert(line[4 + n] == 61u8);
    assert(line[5 + n] == 32u8);
    assert(x =~= line.subrange(2, 2 + n));
    assert(y =~= line.subrange(6 + n, line.len() as int));
}

/// A record line splits only one way: the abscissa ends at the line's
/// first closing parenthesis, so two readings of one line agree on both
/// parts.
pub proof fn lemma_record_line_unique(
    line: Seq<u8>,
    x1: Seq<u8>,
    y1: Seq<u8>,
    x2: Seq<u8>,
    y2: Seq<u8>,
)
    requires
        is_record_line(line, x1, y1),
        is_record_line(line, x2, y2),
    ensures
        x1 == x2,
        y1 == y2,
{
    lemma_record_line_parts(line, x1, y1);
    lemma_record_line_parts(line, x2, y2);
    if x1.len() < x2.len() {
        assert(line[2 + x1.len() as int] == 41u8);
        assert(false);
    }
    if x2.len() < x1.len() {
        assert(line[2 + x2.len() as int] == 41u8);
        assert(false);
    }
}

/// Appends every byte of `src` to `dst`, in order.
fn push_all(dst: &mut Vec<u8>, src: &Vec<u8>)
    ensures
        final(dst)@ == old(dst)@ + src@,
{
    let mut i: usize = 0;
    while i < src.len()
        invariant
            i <= src@.len(),
            dst@ == old(dst)@ + src@.take(i as int),
        decreases src@.len() - i,
    {
        let b = src[i];
        dst.push(b);
        proof {
            assert(src@.take(i + 1) =~= src@.take(i as int) + seq![src@[i as int]]);
            assert(old(dst)@ + src@.take(i + 1) =~= (old(dst)@ + src@.take(i as int)) + seq![
                src@[i as int],
            ]);
        }
        i = i + 1;
    }
    proof {
        assert(src@.take(src@.len() as int) =~= src@);
    }
}

/// Builds the record line for the abscissa text `x` and the value text
/// `value`: the prefix `f(`, then `x`, then `) = `, then `value`.
pub fn format_record(x: &Vec<u8>, value: &Vec<u8>) -> (line: Vec<u8>)
    ensures
        line@ == record_prefix() + x@ + record_infix() + value@,
{
    let mut line: Vec<u8> = Vec::new();
    line.push(102);
    line.push(40);
    proof {
        assert(line@ =~= record_prefix());
    }
    push_all(&mut line, x);
    line.push(41);
    line.push(32);
    line.push(61);
    line.push(32);
    proof {
        assert(line@ =~= record_prefix() + x@ + record_infix());
    }
    push_all(&mut line, value);
    proof {
        assert(line@ =~= record_prefix() + x@ + record_infix() + value@);
    }
    line
}

/// Copies `src[from .. to]` into a fresh vector.
fn copy_range(src: &Vec<u8>, from: usize, to: usize) -> (part: Vec<u8>)
    requires
        from <= to <= src@.len(),
    ensures
        part@ == src@.subrange(from as int, to as int),
{
    let mut part: Vec<u8> = Vec::new();
    let mut i: usize = from;
    while i < to
        invariant
            from <= i <= to <= src@.len(),
            part@ == src@.subrange(from as int, i as int),
        decreases to - i,
    {
        let b = src[i];
        part.push(b);
        proof {
            assert(src@.subrange(from as int, i + 1) =~= src@.subrange(from as int, i as int)
                + seq![src@[i as int]]);
        }
        i = i + 1;
    }
    part
}

/// Reads a record line back into its abscissa text and value text.
/// Returns the two parts exactly when the line has the record shape:
/// the prefix `f(`, an abscissa free of closing parentheses, the infix
/// `) = `, and the value text. On every other byte sequence it returns
/// nothing.
pub fn parse_record(line: &Vec<u8>) -> (r: Option<(Vec<u8>, Vec<u8>)>)
    ensures
        match r {
            Some(xy) => is_record_line(line@, xy.0@, xy.1@),
            None => forall|x: Seq<u8>, y: Seq<u8>| !is_record_line(line@, x, y),
        },
{
    if line.len() < 2 || line[0] != 102 || line[1] != 40 {
        proof {
            assert forall|x: Seq<u8>, y: Seq<u8>| !is_record_line(line@, x, y) by {
                if is_record_line(line@, x, y) {
                    lemma_record_line_parts(line@, x, y);
                }
            }
        }
        return None;
    }
    let mut p: usize = 2;
    while p < line.len() && line[p] != 41
        invariant
            2 <= p <= line@.len(),
            forall|j: int| 2 <= j < p ==> line@[j] != 41u8,
        decreases line@.len() - p,
    {
        p = p + 1;
    }
    if p == line.len() {
        proof {
            assert forall|x: Seq<u8>, y: Seq<u8>| !is_record_line(line@, x, y) by {
                if is_record_line(line@, x, y) {
                    lemma_record_line_parts(line@, x, y);
                    assert(line@[2 + x.len() as int] == 41u8);
                }
            }
        }
        return None;
    }
    if line.len() - p < 4 || line[p + 1] != 32 || line[p + 2] != 61 || line[p
        + 3] != 32 {
        proof {
            assert forall|x: Seq<u8>, y: Seq<u8>| !is_record_line(line@, x, y) by {
                if is_record_line(line@, x, y) {
                    lemma_record_line_parts(line@, x, y);
                    if 2 + x.len() < p {
                        assert(line@[2 + x.len() as int] == 41u8);
                    }
                    if 2 + x.len() > p {
                        assert(x[p - 2] != 41u8);
                        assert(line@[p as int] == x[p - 2]);
                    }
                    assert(2 + x.len() == p);
                }
            }
        }
        return None;
    }
    let x = copy_range(line, 2, p);
    let y = copy_range(line, p + 4, line.len());
    proof {
        assert(line@ =~= record_prefix() + x@ + record_infix() + y@);
        assert forall|i: int| 0 <= i < x@.len() implies x@[i] != 41u8 by {
            assert(x@[i] == line@[2 + i]);
        }
    }
    Some((x, y))
}

} // verus!
