use vstd::prelude::*;
use vstd::std_specs::iter::IteratorSpec;

verus! {

/// The pieces of `t` between line feeds, in order, empty pieces included; a
/// text without a line feed is one piece.
pub open spec fn split_pieces(t: Seq<char>) -> Seq<Seq<char>>
    decreases t.len(),
{
    if t.len() == 0 {
        seq![Seq::empty()]
    } else {
        let p = split_pieces(t.drop_last());
        if t.last() == '\n' {
            p.push(Seq::empty())
        } else {
            p.update(p.len() - 1, p.last().push(t.last()))
        }
    }
}

/// Relies on str::split with the pattern '\n': the substrings of `text`
/// between line feeds, in order, empty ones included.
#[verifier::external_body]
fn split_on_newline<'a>(text: &'a str) -> (r: Vec<&'a str>)
    ensures
        r@.map_values(|p: &'a str| p@) == split_pieces(text@),
{
    text.split('\n').collect()
}

/// Whether `c` has Unicode's White_Space property, as `char::is_whitespace`
/// tells it.
pub uninterp spec fn white_space(c: char) -> bool;

/// Relies on char::is_whitespace: whether `c` has Unicode's White_Space
/// property, which depends on `c` alone.
#[verifier::external_body]
fn is_white(c: char) -> (r: bool)
    ensures
        r == white_space(c),
{
    c.is_whitespace()
}

pub open spec fn trim_start(s: Seq<char>) -> Seq<char>
    decreases s.len(),
{
    if s.len() > 0 && white_space(s[0]) {
        trim_start(s.drop_first())
    } else {
        s
    }
}

pub open spec fn trim_end(s: Seq<char>) -> Seq<char>
    decreases s.len(),
{
    if s.len() > 0 && white_space(s.last()) {
        trim_end(s.drop_last())
    } else {
        s
    }
}

/// `s` without its leading and trailing white space.
pub open spec fn trimmed(s: Seq<char>) -> Seq<char> {
    trim_end(trim_start(s))
}

proof fn lemma_trim_start_at(s: Seq<char>, a: int)
    requires
        0 <= a <= s.len(),
        forall|k: int| 0 <= k < a ==> white_space(#[trigger] s[k]),
        a == s.len() || !white_space(s[a]),
    ensures
        trim_start(s) == s.subrange(a, s.len() as int),
    decreases a,
{
    if a == 0 {
        assert(s.subrange(0, s.len() as int) =~= s);
    } else {
        let t = s.drop_first();
        assert forall|k: int| 0 <= k < a - 1 implies white_space(#[trigger] t[k]) by {
            assert(t[k] == s[k + 1]);
        }
        lemma_trim_start_at(t, a - 1);
        assert(t.subrange(a - 1, t.len() as int) =~= s.subrange(a, s.len() as int));
    }
}

proof fn lemma_trim_end_at(s: Seq<char>, b: int)
    requires
        0 <= b <= s.len(),
        forall|k: int| b <= k < s.len() ==> white_space(#[trigger] s[k]),
        b == 0 || !white_space(s[b - 1]),
    ensures
        trim_end(s) == s.subrange(0, b),
    decreases s.len() - b,
{
    if b == s.len() {
        assert(s.subrange(0, b) =~= s);
    } else {
        let t = s.drop_last();
        assert forall|k: int| b <= k < t.len() implies white_space(#[trigger] t[k]) by {
            assert(t[k] == s[k]);
        }
        lemma_trim_end_at(t, b);
        assert(t.subrange(0, b) =~= s.subrange(0, b));
    }
}

/// `line` without its leading and trailing white space.
pub fn trim_line<'a>(line: &'a str) -> (r: &'a str)
    ensures
        r@ == trimmed(line@),
{
    let n = line.unicode_len();
    let mut it = line.chars();
    let mut i: usize = 0;
    let mut seen = false;
    let mut a: usize = 0;
    let mut b: usize = 0;
    assert(line@.subrange(0, n as int) =~= line@);
    while i < n
        invariant
            n == line@.len(),
            i <= n,
            it.remaining() == line@.subrange(i as int, n as int),
            !seen ==> forall|k: int| 0 <= k < i ==> white_space(#[trigger] line@[k]),
            seen ==> a < b <= i,
            seen ==> !white_space(line@[a as int]) && !white_space(line@[b - 1]),
            seen ==> forall|k: int| 0 <= k < a ==> white_space(#[trigger] line@[k]),
            seen ==> forall|k: int| b <= k < i ==> white_space(#[trigger] line@[k]),
        decreases n - i,
    {
        let c = match it.next() {
            Some(c) => c,
            None => {
                return line.substring_char(n, n);
            },
        };
        assert(c == line@[i as int]);
        if !is_white(c) {
            if !seen {
                seen = true;
                a = i;
            }
            b = i + 1;
        }
        i = i + 1;
    }
    if !seen {
        proof {
            lemma_trim_start_at(line@, n as int);
            assert(line@.subrange(n as int, n as int) =~= Seq::<char>::empty());
        }
        return line.substring_char(n, n);
    }
    proof {
        lemma_trim_start_at(line@, a as int);
        let u = line@.subrange(a as int, n as int);
        assert forall|k: int| b - a <= k < u.len() implies white_space(#[trigger] u[k]) by {
            assert(u[k] == line@[k + a]);
        }
        assert(u[b - a - 1] == line@[b - 1]);
        lemma_trim_end_at(u, b - a);
        assert(u.subrange(0, b - a) =~= line@.subrange(a as int, b as int));
    }
    line.substring_char(a, b)
}

/// The trimmed pieces, in order, without those that trimming left empty.
pub open spec fn kept_lines(pieces: Seq<Seq<char>>) -> Seq<Seq<char>>
    decreases pieces.len(),
{
    if pieces.len() == 0 {
        pieces
    } else {
        let p = kept_lines(pieces.drop_last());
        let t = trimmed(pieces.last());
        if t.len() == 0 {
            p
        } else {
            p.push(t)
        }
    }
}

/// The lines of `text`: its pieces between line feeds, or, when
/// `trim_blank`, those pieces trimmed and without the blank ones.
pub open spec fn lines_spec(text: Seq<char>, trim_blank: bool) -> Seq<Seq<char>> {
    if trim_blank {
        kept_lines(split_pieces(text))
    } else {
        split_pieces(text)
    }
}

/// Splits `text` into lines at each line feed. With `trim_blank`, each line
/// loses its leading and trailing white space and the lines left empty are
/// dropped; without it the pieces stay as they are, empty ones included.
pub fn split_lines<'a>(text: &'a str, trim_blank: bool) -> (r: Vec<&'a str>)
    ensures
        r@.map_values(|l: &'a str| l@) == lines_spec(text@, trim_blank),
{
    let pieces = split_on_newline(text);
    if !trim_blank {
        return pieces;
    }
    let ghost views = pieces@.map_values(|p: &'a str| p@);
    let mut out: Vec<&'a str> = Vec::new();
    let mut i: usize = 0;
    assert(views.take(0) =~= Seq::<Seq<char>>::empty());
    assert(out@.map_values(|l: &'a str| l@) =~= Seq::<Seq<char>>::empty());
    while i < pieces.len()
        invariant
            i <= pieces@.len(),
            views == pieces@.map_values(|p: &'a str| p@),
            out@.map_values(|l: &'a str| l@) == kept_lines(views.take(i as int)),
        decreases pieces@.len() - i,
    {
        let t = trim_line(pieces[i]);
        assert(views.take(i + 1).drop_last() =~= views.take(i as int));
        assert(views.take(i + 1).last() == pieces@[i as int]@);
        if !t.is_empty() {
            let ghost before = out@;
            out.push(t);
            assert(out@.map_values(|l: &'a str| l@) =~= before.map_values(|l: &'a str| l@).push(
                t@,
            ));
        }
        i = i + 1;
    }
    assert(views.take(i as int) =~= views);
    out
}

} // verus!
