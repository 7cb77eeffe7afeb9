//! Byte-level text editing: splicing a replacement into a buffer at a fixed
//! span of the original text. This is the primitive the fix applicator is
//! built from.

use vstd::prelude::*;
use crate::span::TextSpan;

verus! {

/// The buffer `s` with the bytes of `[at.start, at.end)` replaced by `fix`.
pub open spec fn splice(s: Seq<u8>, at: TextSpan, fix: Seq<u8>) -> Seq<u8> {
    s.take(at.start as int) + fix + s.skip(at.end as int)
}

/// Splicing leaves every byte before the spliced span unchanged, and the
/// result's length shifts by the difference between fix and span length.
pub proof fn lemma_splice_prefix(s: Seq<u8>, at: TextSpan, fix: Seq<u8>)
    requires
        at.in_bounds(s.len()),
    ensures
        splice(s, at, fix).len() == s.len() - (at.end - at.start) + fix.len(),
        splice(s, at, fix).take(at.start as int) == s.take(at.start as int),
{
    assert(splice(s, at, fix).take(at.start as int) =~= s.take(at.start as int));
}

/// Append `src[from..to]` to `out`.
pub fn extend_with_range(out: &mut Vec<u8>, src: &Vec<u8>, from: usize, to: usize)
    requires
        from <= to <= src@.len(),
    ensures
        final(out)@ == old(out)@ + src@.subrange(from as int, to as int),
{
    let mut i: usize = from;
    while i < to
        invariant
            from <= i <= to <= src@.len(),
            out@ == old(out)@ + src@.subrange(from as int, i as int),
        decreases to - i,
    {
        out.push(src[i]);
        proof {
            assert(src@.subrange(from as int, i as int + 1) =~= src@.subrange(
                from as int,
                i as int,
            ).push(src@[i as int]));
        }
        i = i + 1;
    }
}

/// Replace the bytes of `at` inside `src` by `fix`.
pub fn splice_bytes(src: &mut Vec<u8>, at: TextSpan, fix: &Vec<u8>)
    requires
        at.in_bounds(old(src)@.len()),
    ensures
        final(src)@ == splice(old(src)@, at, fix@),
{
    let mut out: Vec<u8> = Vec::new();
    let end_of_buf: usize = src.len();
    extend_with_range(&mut out, &*src, 0, at.start);
    proof {
        assert(old(src)@.subrange(0, at.start as int) =~= old(src)@.take(at.start as int));
        assert(Seq::<u8>::empty() + old(src)@.take(at.start as int) =~= old(src)@.take(
            at.start as int,
        ));
        assert(out@ =~= old(src)@.take(at.start as int) + fix@.take(0));
    }
    let mut j: usize = 0;
    while j < fix.len()
        invariant
            j <= fix@.len(),
            out@ == old(src)@.take(at.start as int) + fix@.take(j as int),
            at.in_bounds(old(src)@.len()),
            src@ == old(src)@,
        decreases fix@.len() - j,
    {
        out.push(fix[j]);
        proof {
            assert(fix@.take(j as int + 1) =~= fix@.take(j as int).push(fix@[j as int]));
            assert(old(src)@.take(at.start as int) + fix@.take(j as int + 1) =~= (old(
                src,
            )@.take(at.start as int) + fix@.take(j as int)).push(fix@[j as int]));
        }
        j = j + 1;
    }
    extend_with_range(&mut out, &*src, at.end, end_of_buf);
    proof {
        assert(fix@.take(fix@.len() as int) =~= fix@);
        assert(old(src)@.subrange(0, at.start as int) =~= old(src)@.take(at.start as int));
        assert(old(src)@.subrange(at.end as int, old(src)@.len() as int) =~= old(src)@.skip(
            at.end as int,
        ));
        assert((old(src)@.take(at.start as int) + fix@) + old(src)@.skip(at.end as int) =~= splice(
            old(src)@,
            at,
            fix@,
        ));
    }
    *src = out;
}

} // verus!
