//! Applying recorded edits to the original text.
//!
//! Edits carry byte offsets into the untouched original text, never into the
//! partially rewritten output, so they must be applied in ascending,
//! non-overlapping span order: verbatim source is copied up to each edit's
//! start, the replacement is appended, and the tail after the last edit is
//! copied verbatim.

use vstd::prelude::*;

use crate::types::{edit_models, Edit, EditModel};

verus! {

/// The edits are applicable to a text of `len` bytes, starting at cursor
/// `from`: ascending, non-overlapping, within bounds.
pub open spec fn edits_wf(edits: Seq<EditModel>, from: nat, len: nat) -> bool
    decreases edits.len(),
{
    if edits.len() == 0 {
        true
    } else {
        &&& from <= edits[0].start
        &&& edits[0].start <= edits[0].end
        &&& edits[0].end <= len
        &&& edits_wf(edits.subrange(1, edits.len() as int), edits[0].end, len)
    }
}

/// The rewritten text from cursor `from` on: for each edit in order, the
/// verbatim source up to its start and then its replacement; after the last
/// edit the verbatim tail.  Every byte outside the rewritten spans is kept.
pub open spec fn spec_apply(src: Seq<u8>, edits: Seq<EditModel>, from: nat) -> Seq<u8>
    recommends
        from <= src.len(),
        edits_wf(edits, from, src.len()),
    decreases edits.len(),
{
    if edits.len() == 0 {
        src.subrange(from as int, src.len() as int)
    } else {
        src.subrange(from as int, edits[0].start as int) + edits[0].text + spec_apply(
            src,
            edits.subrange(1, edits.len() as int),
            edits[0].end,
        )
    }
}

/// Applying no edits reproduces the original text.
pub proof fn lemma_apply_empty(src: Seq<u8>)
    ensures
        spec_apply(src, Seq::empty(), 0) == src,
{
    assert(spec_apply(src, Seq::empty(), 0) =~= src);
}

/// Append `src[from..to)` to `dst`.
fn append_range(dst: &mut Vec<u8>, src: &Vec<u8>, from: usize, to: usize)
    requires
        from <= to <= src@.len(),
    ensures
        final(dst)@ == old(dst)@ + src@.subrange(from as int, to as int),
{
    let ghost d0 = dst@;
    let mut k: usize = from;
    while k < to
        invariant
            from <= k <= to <= src@.len(),
            dst@ == d0 + src@.subrange(from as int, k as int),
        decreases to - k,
    {
        dst.push(src[k]);
        proof {
            assert(dst@ =~= d0 + src@.subrange(from as int, k + 1));
        }
        k = k + 1;
    }
    proof {
        if from == to {
            assert(dst@ =~= d0 + src@.subrange(from as int, to as int));
        }
    }
}

/// Append all of `bytes` to `dst`.
fn append_bytes(dst: &mut Vec<u8>, bytes: &Vec<u8>)
    ensures
        final(dst)@ == old(dst)@ + bytes@,
{
    let ghost d0 = dst@;
    let mut k: usize = 0;
    while k < bytes.len()
        invariant
            0 <= k <= bytes@.len(),
            dst@ == d0 + bytes@.subrange(0, k as int),
        decreases bytes@.len() - k,
    {
        dst.push(bytes[k]);
        proof {
            assert(dst@ =~= d0 + bytes@.subrange(0, k + 1));
        }
        k = k + 1;
    }
    proof {
        assert(d0 + bytes@.subrange(0, bytes@.len() as int) =~= d0 + bytes@);
    }
}

/// Apply the edits to the original text.  Succeeds exactly when the edits
/// are in ascending, non-overlapping order and within bounds; the result
/// then interleaves verbatim source with the replacements, byte-exact
/// outside the rewritten spans.
pub fn apply_changes(source_text: &Vec<u8>, changes: &Vec<Edit>) -> (r: Option<Vec<u8>>)
    ensures
        r is Some <==> edits_wf(edit_models(changes@), 0, source_text@.len()),
        r matches Some(out) ==> out@ == spec_apply(source_text@, edit_models(changes@), 0),
{
    let ghost em = edit_models(changes@);
    let ghost src = source_text@;
    let mut result: Vec<u8> = Vec::new();
    let mut last_end: usize = 0;
    proof {
        assert(em.subrange(0, em.len() as int) =~= em);
    }
    let mut i: usize = 0;
    while i < changes.len()
        invariant
            0 <= i <= changes@.len(),
            em == edit_models(changes@),
            src == source_text@,
            last_end <= src.len(),
            edits_wf(em, 0, src.len()) <==> edits_wf(
                em.subrange(i as int, em.len() as int),
                last_end as nat,
                src.len(),
            ),
            edits_wf(em.subrange(i as int, em.len() as int), last_end as nat, src.len())
                ==> spec_apply(src, em, 0) == result@ + spec_apply(
                src,
                em.subrange(i as int, em.len() as int),
                last_end as nat,
            ),
        decreases changes@.len() - i,
    {
        let ghost rest = em.subrange(i as int, em.len() as int);
        proof {
            assert(rest[0] == em[i as int]);
            assert(em[i as int] == changes@[i as int]@);
            assert(rest.subrange(1, rest.len() as int) =~= em.subrange(i + 1, em.len() as int));
        }
        let start = changes[i].start;
        let end = changes[i].end;
        if start < last_end || end < start || source_text.len() < end {
            return None;
        }
        let ghost r0 = result@;
        append_range(&mut result, source_text, last_end, start);
        append_bytes(&mut result, &changes[i].text);
        proof {
            assert(result@ =~= r0 + (src.subrange(last_end as int, start as int)
                + changes@[i as int].text@));
        }
        last_end = end;
        i = i + 1;
    }
    proof {
        assert(em.subrange(em.len() as int, em.len() as int) =~= Seq::<EditModel>::empty());
    }
    let ghost r0 = result@;
    append_range(&mut result, source_text, last_end, source_text.len());
    proof {
        assert(edits_wf(em, 0, src.len()));
        assert(result@ == r0 + spec_apply(src, em.subrange(em.len() as int, em.len() as int), last_end as nat));
    }
    Some(result)
}

} // verus!
