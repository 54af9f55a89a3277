use vstd::prelude::*;
use vstd::std_specs::iter::IteratorSpec;

verus! {

/// The identity key of a line: the line from its first comma on, or nothing
/// when it has no comma. Dropping the first field and joining the others,
/// each behind its comma, gives exactly this text.
pub open spec fn key_spec(line: Seq<char>) -> Seq<char>
    decreases line.len(),
{
    if line.len() == 0 {
        line
    } else if line[0] == ',' {
        line
    } else {
        key_spec(line.drop_first())
    }
}

proof fn lemma_key_skip(line: Seq<char>, i: int)
    requires
        0 <= i < line.len(),
        line[i] != ',',
    ensures
        key_spec(line.subrange(i, line.len() as int)) == key_spec(
            line.subrange(i + 1, line.len() as int),
        ),
{
    let s = line.subrange(i, line.len() as int);
    assert(s.drop_first() =~= line.subrange(i + 1, line.len() as int));
}

/// The identity key of `line`: everything from its first comma on (the first
/// field is never part of it), empty when the line has no comma.
pub fn key_of<'a>(line: &'a str) -> (r: &'a str)
    ensures
        r@ == key_spec(line@),
{
    let n = line.unicode_len();
    let mut it = line.chars();
    let mut i: usize = 0;
    assert(line@.subrange(0, n as int) =~= line@);
    while i < n
        invariant
            n == line@.len(),
            i <= n,
            it.remaining() == line@.subrange(i as int, n as int),
            key_spec(line@) == key_spec(line@.subrange(i as int, n as int)),
        decreases n - i,
    {
        match it.next() {
            Some(c) => {
                if c == ',' {
                    return line.substring_char(i, n);
                }
                proof {
                    lemma_key_skip(line@, i as int);
                }
                i = i + 1;
            },
            None => {
                return line.substring_char(n, n);
            },
        }
    }
    line.substring_char(n, n)
}

/// The key of a line whose first field holds no comma is the comma behind that
/// field and all that follows it; so the first field never changes the key.
pub proof fn lemma_key_ignores_first_field(first: Seq<char>, rest: Seq<char>)
    requires
        !first.contains(','),
    ensures
        key_spec(first + seq![','] + rest) == seq![','] + rest,
    decreases first.len(),
{
    let line = first + seq![','] + rest;
    if first.len() == 0 {
        assert(line =~= seq![','] + rest);
    } else {
        assert(line[0] == first[0]);
        assert(!first.drop_first().contains(',')) by {
            if first.drop_first().contains(',') {
                let j = choose|j: int| 0 <= j < first.drop_first().len() && first.drop_first()[j] == ',';
                assert(first[j + 1] == ',');
            }
        }
        assert(line.drop_first() =~= first.drop_first() + seq![','] + rest);
        lemma_key_ignores_first_field(first.drop_first(), rest);
    }
}

/// A line without a comma, the empty line among them, has the empty key.
pub proof fn lemma_key_of_single_field(line: Seq<char>)
    requires
        !line.contains(','),
    ensures
        key_spec(line) == Seq::<char>::empty(),
    decreases line.len(),
{
    if line.len() > 0 {
        assert(line[0] != ',');
        assert(!line.drop_first().contains(',')) by {
            if line.drop_first().contains(',') {
                let j = choose|j: int| 0 <= j < line.drop_first().len() && line.drop_first()[j] == ',';
                assert(line[j + 1] == ',');
            }
        }
        lemma_key_of_single_field(line.drop_first());
    }
}

/// Whether two texts hold the same characters.
pub(crate) fn same_text(a: &str, b: &str) -> (r: bool)
    ensures
        r == (a@ == b@),
{
    let n = a.unicode_len();
    let m = b.unicode_len();
    if n != m {
        return false;
    }
    let mut ia = a.chars();
    let mut ib = b.chars();
    let mut i: usize = 0;
    assert(a@.subrange(0, n as int) =~= a@);
    assert(b@.subrange(0, n as int) =~= b@);
    while i < n
        invariant
            n == a@.len(),
            n == b@.len(),
            i <= n,
            ia.remaining() == a@.subrange(i as int, n as int),
            ib.remaining() == b@.subrange(i as int, n as int),
            forall|k: int| 0 <= k < i ==> a@[k] == b@[k],
        decreases n - i,
    {
        let ca = ia.next();
        let cb = ib.next();
        match (ca, cb) {
            (Some(x), Some(y)) => {
                if x != y {
                    return false;
                }
            },
            _ => {
                return false;
            },
        }
        i = i + 1;
    }
    assert(a@ =~= b@);
    true
}

} // verus!
