use csv_thinner::{run, PipelineConfig, ProgramDirection, Stats};

#[test]
fn dedupe_only_scenario() {
    let lines = vec!["1,a,b", "2,a,b", "3,c,d", "4,c,d", "5,a,b"];
    let config = PipelineConfig::new(ProgramDirection::Dedupe, 7);
    let (out, stats) = run(&lines, &config);
    assert_eq!(out, vec!["1,a,b", "3,c,d", "5,a,b"]);
    assert_eq!(stats.original_count, 5);
    assert_eq!(stats.final_count, 3);
    assert_eq!(stats.absolute_change, 2);
    assert_eq!(stats.percent_change, Some(6000));
}

#[test]
fn modulo_only_scenario() {
    let lines = vec!["l0", "l1", "l2", "l3", "l4", "l5", "l6", "l7", "l8", "l9"];
    let config = PipelineConfig::new(ProgramDirection::Mod, 3);
    let (out, stats) = run(&lines, &config);
    assert_eq!(out, vec!["l0", "l3", "l6", "l9"]);
    assert_eq!(stats, Stats::from_counts(10, 4));
}

#[test]
fn modulo_then_dedupe_scenario() {
    let lines = vec!["1,a", "2,a", "3,a", "4,a"];
    let config = PipelineConfig::new(ProgramDirection::ModDedupe, 2);
    let (out, stats) = run(&lines, &config);
    assert_eq!(out, vec!["1,a"]);
    assert_eq!(stats.final_count, 1);
    assert_eq!(stats.absolute_change, 3);
    assert_eq!(stats.percent_change, Some(2500));
}

#[test]
fn chaining_order_changes_the_output() {
    let lines = vec!["1,a", "2,a", "3,b", "4,b"];
    let (mod_first, _) = run(&lines, &PipelineConfig::new(ProgramDirection::ModDedupe, 2));
    let (dedupe_first, _) = run(&lines, &PipelineConfig::new(ProgramDirection::DedupeMod, 2));
    assert_eq!(mod_first, vec!["1,a", "3,b"]);
    assert_eq!(dedupe_first, vec!["1,a"]);
    assert_ne!(mod_first, dedupe_first);
}

#[test]
fn chained_stages_feed_each_other() {
    let lines = vec!["1,a", "2,b", "3,a", "4,c", "5,c", "6,d"];
    let (out, _) = run(&lines, &PipelineConfig::new(ProgramDirection::DedupeMod, 2));
    // deduplication gives 1,a 2,b 3,a 4,c 6,d; every other line of that remains
    assert_eq!(out, vec!["1,a", "3,a", "6,d"]);
}

#[test]
fn stats_of_ten_to_four() {
    let stats = Stats::from_counts(10, 4);
    assert_eq!(stats.original_count, 10);
    assert_eq!(stats.final_count, 4);
    assert_eq!(stats.absolute_change, 6);
    assert_eq!(stats.percent_change, Some(4000));
}

#[test]
fn stats_round_to_hundredths() {
    assert_eq!(Stats::from_counts(3, 1).percent_change, Some(3333));
    assert_eq!(Stats::from_counts(3, 2).percent_change, Some(6667));
    assert_eq!(Stats::from_counts(5, 5).percent_change, Some(10000));
    assert_eq!(Stats::from_counts(7, 0).percent_change, Some(0));
    assert_eq!(Stats::from_counts(usize::MAX, usize::MAX).percent_change, Some(10000));
}

#[test]
fn stats_of_empty_input_have_no_percentage() {
    let stats = Stats::from_counts(0, 0);
    assert_eq!(stats.absolute_change, 0);
    assert_eq!(stats.percent_change, None);
    let empty: Vec<&str> = Vec::new();
    let (out, stats) = run(&empty, &PipelineConfig::new(ProgramDirection::ModDedupe, 4));
    assert!(out.is_empty());
    assert_eq!(stats.percent_change, None);
}

#[test]
fn zero_modulo_becomes_one() {
    let config = PipelineConfig::new(ProgramDirection::Mod, 0);
    assert_eq!(config.modulo, 1);
    let lines = vec!["1,a", "2,a"];
    assert_eq!(run(&lines, &config).0, lines);
    assert_eq!(PipelineConfig::new(ProgramDirection::Mod, 5).modulo, 5);
}
