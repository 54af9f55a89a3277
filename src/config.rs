use crate::key::same_text;
use crate::lines::{trim_line, trimmed};
use vstd::prelude::*;
use vstd::std_specs::iter::IteratorSpec;

verus! {

/// Which stages run, and in what order.
#[derive(PartialEq, Eq, Structural, Clone, Copy, Debug)]
pub enum ProgramDirection {
    /// Decimation alone.
    Mod,
    /// Deduplication alone; the modulo is not used.
    Dedupe,
    /// Decimation, whose output is then deduplicated.
    ModDedupe,
    /// Deduplication, whose output is then decimated.
    DedupeMod,
}

/// The direction that a command-line flag selects: `-m`, `-d`, `-md` or `-dm`.
pub open spec fn direction_spec(flag: Seq<char>) -> Option<ProgramDirection> {
    if flag == seq!['-', 'm'] {
        Some(ProgramDirection::Mod)
    } else if flag == seq!['-', 'd'] {
        Some(ProgramDirection::Dedupe)
    } else if flag == seq!['-', 'm', 'd'] {
        Some(ProgramDirection::ModDedupe)
    } else if flag == seq!['-', 'd', 'm'] {
        Some(ProgramDirection::DedupeMod)
    } else {
        None
    }
}

/// Reads a direction flag; any text but the four flags is refused with
/// "bad argument".
pub fn direction_from_string(input: &String) -> (r: Result<ProgramDirection, String>)
    ensures
        match r {
            Ok(d) => direction_spec(input@) == Some(d),
            Err(e) => direction_spec(input@) is None && e@ == "bad argument"@,
        },
{
    let s = input.as_str();
    proof {
        reveal_strlit("-m");
        reveal_strlit("-d");
        reveal_strlit("-md");
        reveal_strlit("-dm");
        assert("-m"@ =~= seq!['-', 'm']);
        assert("-d"@ =~= seq!['-', 'd']);
        assert("-md"@ =~= seq!['-', 'm', 'd']);
        assert("-dm"@ =~= seq!['-', 'd', 'm']);
    }
    if same_text(s, "-m") {
        Ok(ProgramDirection::Mod)
    } else if same_text(s, "-d") {
        Ok(ProgramDirection::Dedupe)
    } else if same_text(s, "-md") {
        Ok(ProgramDirection::ModDedupe)
    } else if same_text(s, "-dm") {
        Ok(ProgramDirection::DedupeMod)
    } else {
        Err(String::from_str("bad argument"))
    }
}

/// A resolved configuration: a direction and a modulo of at least one.
pub struct PipelineConfig {
    pub direction: ProgramDirection,
    pub modulo: usize,
}

impl PipelineConfig {
    pub open spec fn wf(&self) -> bool {
        self.modulo >= 1
    }

    /// Builds a configuration; a modulo of zero, which would select nothing
    /// by position, becomes one.
    pub fn new(direction: ProgramDirection, modulo: usize) -> (r: PipelineConfig)
        ensures
            r.wf(),
            r.direction == direction,
            r.modulo == if modulo == 0 {
                1
            } else {
                modulo
            },
    {
        PipelineConfig { direction, modulo: if modulo == 0 { 1 } else { modulo } }
    }
}

/// The name prefix of the file that a run in `direction` writes.
pub open spec fn prefix_spec(direction: ProgramDirection) -> Seq<char> {
    match direction {
        ProgramDirection::Mod => "decimated_"@,
        ProgramDirection::Dedupe => "deduplicated_"@,
        ProgramDirection::ModDedupe => "decimated_deduplicated_"@,
        ProgramDirection::DedupeMod => "deduplicated_decimated_"@,
    }
}

impl ProgramDirection {
    /// The prefix put before the input file's name to name the output file.
    pub fn output_prefix(&self) -> (r: &'static str)
        ensures
            r@ == prefix_spec(*self),
    {
        match self {
            ProgramDirection::Mod => "decimated_",
            ProgramDirection::Dedupe => "deduplicated_",
            ProgramDirection::ModDedupe => "decimated_deduplicated_",
            ProgramDirection::DedupeMod => "deduplicated_decimated_",
        }
    }
}

pub open spec fn is_digit(c: char) -> bool {
    '0' <= c <= '9'
}

/// The number that a sequence of decimal digits writes.
pub open spec fn decimal_value(s: Seq<char>) -> nat
    decreases s.len(),
{
    if s.len() == 0 {
        0
    } else {
        decimal_value(s.drop_last()) * 10 + (s.last() as nat - '0' as nat) as nat
    }
}

/// The modulo that `text` writes: after trimming, one or more decimal digits
/// whose value fits in a `usize`.
pub open spec fn modulo_spec(text: Seq<char>) -> Option<usize> {
    let t = trimmed(text);
    if t.len() > 0 && (forall|i: int| 0 <= i < t.len() ==> is_digit(#[trigger] t[i]))
        && decimal_value(t) <= usize::MAX {
        Some(decimal_value(t) as usize)
    } else {
        None
    }
}

proof fn lemma_decimal_value_grows(s: Seq<char>, j: int, k: int)
    requires
        0 <= j <= k <= s.len(),
        forall|i: int| 0 <= i < s.len() ==> is_digit(#[trigger] s[i]),
    ensures
        decimal_value(s.take(j)) <= decimal_value(s.take(k)),
    decreases k - j,
{
    if j < k {
        lemma_decimal_value_grows(s, j, k - 1);
        assert(s.take(k).drop_last() =~= s.take(k - 1));
    }
}

/// Reads a modulo from `text`: surrounding white space is ignored, and what
/// is left must be decimal digits whose value fits in a `usize`.
pub fn parse_modulo(text: &str) -> (r: Option<usize>)
    ensures
        r == modulo_spec(text@),
{
    let t = trim_line(text);
    let n = t.unicode_len();
    if n == 0 {
        return None;
    }
    let mut it = t.chars();
    let mut i: usize = 0;
    let mut value: usize = 0;
    assert(t@.subrange(0, n as int) =~= t@);
    assert(t@.take(0) =~= Seq::<char>::empty());
    while i < n
        invariant
            t@ == trimmed(text@),
            n == t@.len(),
            i <= n,
            it.remaining() == t@.subrange(i as int, n as int),
            forall|k: int| 0 <= k < i ==> is_digit(#[trigger] t@[k]),
            value == decimal_value(t@.take(i as int)),
        decreases n - i,
    {
        let c = match it.next() {
            Some(c) => c,
            None => {
                return None;
            },
        };
        assert(c == t@[i as int]);
        if !('0' <= c && c <= '9') {
            assert(!is_digit(t@[i as int]));
            return None;
        }
        assert(t@.take(i + 1).drop_last() =~= t@.take(i as int));
        let next: u128 = value as u128 * 10 + (c as u32 - '0' as u32) as u128;
        assert(t@.take(i + 1).last() == c);
        assert(decimal_value(t@.take(i + 1)) == next);
        if next > usize::MAX as u128 {
            proof {
                if forall|k: int| 0 <= k < n ==> is_digit(#[trigger] t@[k]) {
                    lemma_decimal_value_grows(t@, i + 1, n as int);
                    assert(t@.take(n as int) =~= t@);
                }
            }
            return None;
        }
        value = next as usize;
        i = i + 1;
    }
    assert(t@.take(n as int) =~= t@);
    Some(value)
}

} // verus!
