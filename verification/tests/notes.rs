use lattice::notes::{contains, physics_notes, physics_notes_given};

fn some(s: &str) -> Option<String> {
    Some(s.to_string())
}

#[test]
fn no_note_below_the_threshold() {
    let notes = physics_notes(&some("US-East"), &some("US-East"), Some(20_000_000), 50_000_000);
    assert!(notes.is_empty());
    let at = physics_notes(&some("US-East"), &some("US-East"), Some(50_000_000), 50_000_000);
    assert!(at.is_empty());
}

#[test]
fn one_note_above_the_threshold() {
    let notes = physics_notes(&some("US-East"), &some("US-East"), Some(120_000_000), 50_000_000);
    assert_eq!(
        notes,
        vec![
            "physics_mismatch: claimed=US-East endpoint=US-East min_rtt_ms=120.0 threshold_ms=50.0"
                .to_string()
        ]
    );
}

#[test]
fn regions_are_compared_without_case_and_by_containment() {
    let hint = some("us-east-1 (Virginia)");
    let claimed = some("US-EAST");
    let notes = physics_notes(&hint, &claimed, Some(60_000_000), 50_000_000);
    assert_eq!(notes.len(), 1);
    assert_eq!(
        notes[0],
        "physics_mismatch: claimed=US-EAST endpoint=us-east-1 (Virginia) min_rtt_ms=60.0 threshold_ms=50.0"
    );
    let other = physics_notes(&some("eu-west"), &claimed, Some(60_000_000), 50_000_000);
    assert!(other.is_empty());
    // Lower case is Unicode's, not only ASCII's.
    let accented = physics_notes(&some("\u{c9}COLE"), &some("\u{e9}cole"), Some(2), 1);
    assert_eq!(accented.len(), 1);
}

#[test]
fn no_note_without_both_regions_or_without_samples() {
    assert!(physics_notes(&None, &some("x"), Some(9), 1).is_empty());
    assert!(physics_notes(&some("x"), &None, Some(9), 1).is_empty());
    assert!(physics_notes(&some("x"), &some("x"), None, 1).is_empty());
}

#[test]
fn note_spells_milliseconds_with_one_decimal() {
    let n = physics_notes(&some("a"), &some("a"), Some(20_049_999), -1_250_000);
    assert_eq!(n, vec!["physics_mismatch: claimed=a endpoint=a min_rtt_ms=20.0 threshold_ms=-1.2"]);
    let m = physics_notes(&some("a"), &some("a"), Some(20_050_001), 350_000);
    assert_eq!(m, vec!["physics_mismatch: claimed=a endpoint=a min_rtt_ms=20.1 threshold_ms=0.4"]);
    let z = physics_notes(&some("a"), &some("a"), Some(1), 0);
    assert_eq!(z, vec!["physics_mismatch: claimed=a endpoint=a min_rtt_ms=0.0 threshold_ms=0.0"]);
}

#[test]
fn notes_for_given_lower_case_forms() {
    let hint = some("Tokyo");
    let claimed = some("JP / TOKYO");
    let some_note = physics_notes_given(&hint, &claimed, "tokyo", "jp / tokyo", Some(9), 5);
    assert_eq!(some_note.len(), 1);
    let none = physics_notes_given(&hint, &claimed, "tokyo", "jp / osaka", Some(9), 5);
    assert!(none.is_empty());
}

#[test]
fn containment_of_runs_of_characters() {
    let hay: Vec<char> = "hello world".chars().collect();
    let yes: Vec<char> = "o w".chars().collect();
    let no: Vec<char> = "ow".chars().collect();
    let empty: Vec<char> = Vec::new();
    assert!(contains(&hay, &yes));
    assert!(!contains(&hay, &no));
    assert!(contains(&hay, &empty));
    assert!(contains(&hay, &hay));
    assert!(!contains(&yes, &hay));
}
