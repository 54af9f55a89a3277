use csv_thinner::{decimate, dedupe, key_of};

fn ten_lines() -> Vec<&'static str> {
    vec!["0,a", "1,b", "2,c", "3,d", "4,e", "5,f", "6,g", "7,h", "8,i", "9,j"]
}

#[test]
fn key_ignores_first_field() {
    assert_eq!(key_of("a,b,c"), key_of("x,b,c"));
    assert_eq!(key_of("a,b,c"), ",b,c");
}

#[test]
fn key_of_single_field_is_empty() {
    assert_eq!(key_of("a"), key_of("z"));
    assert_eq!(key_of("a"), "");
    assert_eq!(key_of(""), "");
}

#[test]
fn key_keeps_empty_fields_and_other_scripts() {
    assert_eq!(key_of("ts,,x"), ",,x");
    assert_eq!(key_of("é,ü,ß"), ",ü,ß");
    assert_eq!(key_of(",tail"), ",tail");
}

#[test]
fn decimate_by_one_keeps_everything() {
    let lines = ten_lines();
    assert_eq!(decimate(&lines, 1), lines);
    let empty: Vec<&str> = Vec::new();
    assert_eq!(decimate(&empty, 1), empty);
}

#[test]
fn decimate_length_is_rounded_up() {
    let lines = ten_lines();
    assert_eq!(decimate(&lines, 3).len(), 4);
    assert_eq!(decimate(&lines, 2).len(), 5);
    assert_eq!(decimate(&lines, 4).len(), 3);
    assert_eq!(decimate(&lines[..9].to_vec(), 3).len(), 3);
    assert_eq!(decimate(&lines, 100), vec!["0,a"]);
    assert_eq!(decimate(&lines, usize::MAX), vec!["0,a"]);
    let empty: Vec<&str> = Vec::new();
    assert!(decimate(&empty, 5).is_empty());
}

#[test]
fn decimate_keeps_multiples_of_the_modulo() {
    let lines = ten_lines();
    assert_eq!(decimate(&lines, 3), vec!["0,a", "3,d", "6,g", "9,j"]);
    assert_eq!(decimate(&lines, 4), vec!["0,a", "4,e", "8,i"]);
}

#[test]
fn dedupe_keeps_separated_runs() {
    let lines = vec!["1,a,b", "2,a,b", "3,c,d", "4,c,d", "5,a,b"];
    assert_eq!(dedupe(&lines), vec!["1,a,b", "3,c,d", "5,a,b"]);
}

#[test]
fn dedupe_leaves_no_equal_neighbours() {
    let lines = vec!["1,x", "2,x", "3,x", "4,y", "5,x", "6,y", "7,y", "8"];
    let out = dedupe(&lines);
    assert_eq!(out, vec!["1,x", "4,y", "5,x", "6,y", "8"]);
    assert!(out.len() <= lines.len());
    for pair in out.windows(2) {
        assert_ne!(key_of(pair[0]), key_of(pair[1]));
    }
}

#[test]
fn dedupe_twice_is_dedupe_once() {
    let lines = vec!["1,p", "2,p", "3,q", "4,p", "5,p", "6,q", "7,q"];
    let once = dedupe(&lines);
    assert_eq!(dedupe(&once), once);
}

#[test]
fn dedupe_collapses_lines_without_key() {
    assert_eq!(dedupe(&vec!["", ""]), vec![""]);
    assert_eq!(dedupe(&vec!["a", "b", "c,d"]), vec!["a", "c,d"]);
    let empty: Vec<&str> = Vec::new();
    assert!(dedupe(&empty).is_empty());
}
