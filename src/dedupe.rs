use crate::key::{key_of, key_spec, same_text};
use vstd::prelude::*;

verus! {

/// Adjacent deduplication, read left to right: a line is kept when nothing is
/// kept yet or when its key differs from that of the last line kept.
pub open spec fn deduped(s: Seq<&str>) -> Seq<&str>
    decreases s.len(),
{
    if s.len() == 0 {
        s
    } else {
        let p = deduped(s.drop_last());
        if p.len() > 0 && key_spec(p.last()@) == key_spec(s.last()@) {
            p
        } else {
            p.push(s.last())
        }
    }
}

/// No two neighbouring lines of `s` share a key.
pub open spec fn no_adjacent_duplicates(s: Seq<&str>) -> bool {
    forall|i: int| 0 < i < s.len() ==> key_spec(#[trigger] s[i - 1]@) != key_spec(s[i]@)
}

/// Drops each line whose key equals that of the last line kept before it:
/// runs of neighbouring lines with one key shrink to their first line, while
/// equal keys apart from each other all stay.
pub fn dedupe<'a>(lines: &Vec<&'a str>) -> (r: Vec<&'a str>)
    ensures
        r@ == deduped(lines@),
        no_adjacent_duplicates(r@),
        r@.len() <= lines@.len(),
{
    let mut out: Vec<&'a str> = Vec::new();
    let mut last_key: &'a str = "";
    let mut i: usize = 0;
    assert(lines@.take(0) =~= Seq::<&str>::empty());
    while i < lines.len()
        invariant
            i <= lines@.len(),
            out@ == deduped(lines@.take(i as int)),
            out@.len() > 0 ==> last_key@ == key_spec(out@.last()@),
        decreases lines@.len() - i,
    {
        let line = lines[i];
        let k = key_of(line);
        assert(lines@.take(i + 1).drop_last() =~= lines@.take(i as int));
        if out.len() == 0 || !same_text(k, last_key) {
            out.push(line);
            last_key = k;
        }
        i = i + 1;
    }
    assert(lines@.take(i as int) =~= lines@);
    proof {
        lemma_deduped_no_adjacent_duplicates(lines@);
    }
    out
}

/// Deduplication leaves no two neighbouring lines with one key, and never
/// lengthens the sequence.
pub proof fn lemma_deduped_no_adjacent_duplicates(s: Seq<&str>)
    ensures
        no_adjacent_duplicates(deduped(s)),
        deduped(s).len() <= s.len(),
    decreases s.len(),
{
    if s.len() > 0 {
        lemma_deduped_no_adjacent_duplicates(s.drop_last());
    }
}

/// A sequence with no two neighbouring lines of one key is its own
/// deduplication.
pub proof fn lemma_dedupe_keeps_distinct_neighbours(s: Seq<&str>)
    requires
        no_adjacent_duplicates(s),
    ensures
        deduped(s) == s,
    decreases s.len(),
{
    if s.len() > 0 {
        let t = s.drop_last();
        assert forall|i: int| 0 < i < t.len() implies key_spec(#[trigger] t[i - 1]@) != key_spec(
            t[i]@,
        ) by {
            assert(s[i - 1] == t[i - 1]);
        }
        lemma_dedupe_keeps_distinct_neighbours(t);
        if t.len() > 0 {
            assert(s[s.len() - 1 - 1] == t.last());
        }
        assert(t.push(s.last()) =~= s);
    }
}

/// Deduplicating twice gives what deduplicating once gives.
pub proof fn lemma_dedupe_idempotent(s: Seq<&str>)
    ensures
        deduped(deduped(s)) == deduped(s),
{
    lemma_deduped_no_adjacent_duplicates(s);
    lemma_dedupe_keeps_distinct_neighbours(deduped(s));
}

} // verus!
