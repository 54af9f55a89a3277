use crate::decimate::{decimate, decimated, lemma_decimated_len};
use crate::dedupe::{dedupe, deduped};
use crate::config::{PipelineConfig, ProgramDirection};
use vstd::prelude::*;

verus! {

/// What the stages that `direction` selects make of `s`, each stage working on
/// the output of the one before.
pub open spec fn piped(s: Seq<&str>, direction: ProgramDirection, m: nat) -> Seq<&str> {
    match direction {
        ProgramDirection::Mod => decimated(s, m),
        ProgramDirection::Dedupe => deduped(s),
        ProgramDirection::ModDedupe => deduped(decimated(s, m)),
        ProgramDirection::DedupeMod => decimated(deduped(s), m),
    }
}

/// Line counts before and after a run.
#[derive(PartialEq, Eq, Structural, Clone, Copy, Debug)]
pub struct Stats {
    pub original_count: usize,
    pub final_count: usize,
    /// `original_count - final_count`.
    pub absolute_change: usize,
    /// `final_count / original_count * 100`, in hundredths of a percent,
    /// rounded to nearest with halves up; `None` for an empty input.
    pub percent_change: Option<u64>,
}

/// `fin / orig * 100` in hundredths, rounded to nearest with halves up.
pub open spec fn percent_hundredths(orig: nat, fin: nat) -> nat
    recommends
        orig > 0,
{
    (fin * 20000 + orig) / (2 * orig)
}

pub open spec fn stats_spec(orig: nat, fin: nat) -> Stats
    recommends
        fin <= orig,
{
    Stats {
        original_count: orig as usize,
        final_count: fin as usize,
        absolute_change: (orig - fin) as usize,
        percent_change: if orig == 0 {
            None
        } else {
            Some(percent_hundredths(orig, fin) as u64)
        },
    }
}

impl Stats {
    /// The statistics of a run that turned `original_count` lines into
    /// `final_count`.
    pub fn from_counts(original_count: usize, final_count: usize) -> (r: Stats)
        requires
            final_count <= original_count,
        ensures
            r == stats_spec(original_count as nat, final_count as nat),
            r.percent_change matches Some(p) ==> p <= 10000,
    {
        let percent_change = if original_count == 0 {
            None
        } else {
            let num: u128 = final_count as u128 * 20000 + original_count as u128;
            let den: u128 = 2 * original_count as u128;
            let p: u128 = num / den;
            assert(p <= 10000) by (nonlinear_arith)
                requires
                    p == num / den,
                    num == final_count * 20000 + original_count,
                    den == 2 * original_count,
                    final_count <= original_count,
                    original_count > 0,
            ;
            Some(p as u64)
        };
        Stats {
            original_count,
            final_count,
            absolute_change: original_count - final_count,
            percent_change,
        }
    }
}

/// Runs the stages that `config` selects over `lines`, feeding each stage the
/// output of the one before, and counts the lines before and after.
pub fn run<'a>(lines: &Vec<&'a str>, config: &PipelineConfig) -> (r: (Vec<&'a str>, Stats))
    requires
        config.wf(),
    ensures
        r.0@ == piped(lines@, config.direction, config.modulo as nat),
        r.0@.len() <= lines@.len(),
        r.1 == stats_spec(lines@.len(), r.0@.len()),
{
    let out = match config.direction {
        ProgramDirection::Mod => decimate(lines, config.modulo),
        ProgramDirection::Dedupe => dedupe(lines),
        ProgramDirection::ModDedupe => {
            let thinned = decimate(lines, config.modulo);
            proof {
                lemma_decimated_len(lines@, config.modulo as nat);
            }
            dedupe(&thinned)
        },
        ProgramDirection::DedupeMod => {
            let unique = dedupe(lines);
            proof {
                lemma_decimated_len(unique@, config.modulo as nat);
            }
            decimate(&unique, config.modulo)
        },
    };
    proof {
        lemma_decimated_len(lines@, config.modulo as nat);
    }
    let stats = Stats::from_counts(lines.len(), out.len());
    (out, stats)
}

} // verus!
