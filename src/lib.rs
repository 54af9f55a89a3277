//! Thinning of comma-delimited, line-oriented text: keeping every n-th line,
//! collapsing runs of lines that share an identity key, or both in either order.
mod config;
mod decimate;
mod dedupe;
mod key;
mod lines;
mod pipeline;

pub use config::{
    decimal_value, direction_from_string, direction_spec, is_digit, modulo_spec, parse_modulo,
    prefix_spec, PipelineConfig, ProgramDirection,
};
pub use decimate::{
    ceil_div, decimate, decimated, lemma_decimate_by_one_is_identity, lemma_decimated_len,
};
pub use dedupe::{
    dedupe, deduped, lemma_dedupe_idempotent, lemma_dedupe_keeps_distinct_neighbours,
    lemma_deduped_no_adjacent_duplicates, no_adjacent_duplicates,
};
pub use key::{key_of, key_spec, lemma_key_ignores_first_field, lemma_key_of_single_field};
pub use lines::{
    kept_lines, lines_spec, split_lines, split_pieces, trim_end, trim_line, trim_start, trimmed,
    white_space,
};
pub use pipeline::{percent_hundredths, piped, run, stats_spec, Stats};
