use dendrite_core::languages::{name_precedes, LanguageTimes};

fn table(rows: &[(&str, u64)]) -> LanguageTimes {
    let mut times = LanguageTimes::new();
    for (name, ms) in rows {
        times.credit(name.to_string(), *ms);
    }
    times
}

#[test]
fn new_table_is_empty() {
    let times = LanguageTimes::new();
    assert!(times.entries.is_empty());
    assert!(times.is_wf());
    assert_eq!(times.primary(), None);
    assert_eq!(times.get(&"rust".to_string()), None);
}

#[test]
fn credit_adds_to_an_existing_language() {
    let mut times = LanguageTimes::new();
    times.credit("rust".to_string(), 1000);
    times.credit("go".to_string(), 250);
    times.credit("rust".to_string(), 500);
    assert_eq!(times.get(&"rust".to_string()), Some(1500));
    assert_eq!(times.get(&"go".to_string()), Some(250));
    assert_eq!(times.get(&"python".to_string()), None);
    assert_eq!(times.entries.len(), 2);
    assert!(times.is_wf());
}

#[test]
fn merge_adds_name_by_name() {
    let mut left = table(&[("rust", 1000), ("go", 10)]);
    let right = table(&[("go", 5), ("python", 7)]);
    left.merge(&right);
    assert_eq!(left.get(&"rust".to_string()), Some(1000));
    assert_eq!(left.get(&"go".to_string()), Some(15));
    assert_eq!(left.get(&"python".to_string()), Some(7));
    assert_eq!(left.entries.len(), 3);
    assert!(left.is_wf());
}

#[test]
fn merge_with_empty_changes_nothing() {
    let mut left = table(&[("rust", 1000)]);
    left.merge(&LanguageTimes::new());
    assert_eq!(left.get(&"rust".to_string()), Some(1000));
    assert_eq!(left.entries.len(), 1);
}

#[test]
fn primary_is_the_language_with_most_time() {
    let times = table(&[("go", 10), ("rust", 2000), ("typescript", 1000)]);
    assert_eq!(times.primary(), Some("rust".to_string()));
}

#[test]
fn primary_breaks_ties_by_name_whatever_the_order() {
    let one = table(&[("rust", 1000), ("go", 1000), ("python", 1000)]);
    let other = table(&[("python", 1000), ("rust", 1000), ("go", 1000)]);
    assert_eq!(one.primary(), Some("go".to_string()));
    assert_eq!(other.primary(), Some("go".to_string()));
}

#[test]
fn name_order_is_by_character_then_length() {
    assert!(name_precedes("", ""));
    assert!(name_precedes("", "a"));
    assert!(!name_precedes("a", ""));
    assert!(name_precedes("go", "go"));
    assert!(name_precedes("go", "gopher"));
    assert!(!name_precedes("gopher", "go"));
    assert!(name_precedes("c", "rust"));
    assert!(!name_precedes("rust", "c"));
    assert!(name_precedes("Rust", "rust"));
    assert!(name_precedes("rust", "r\u{00fc}st"));
}

#[test]
fn name_order_agrees_with_string_order() {
    let names = ["", "a", "ab", "b", "C", "c#", "c++", "go", "rust", "\u{00e9}", "\u{4e2d}"];
    for a in names {
        for b in names {
            assert_eq!(name_precedes(a, b), a <= b, "{a:?} {b:?}");
        }
    }
}

#[test]
fn duplicate_names_are_not_well_formed() {
    let mut times = table(&[("rust", 1), ("go", 2)]);
    let copy = times.entries[0].clone();
    times.entries.push(copy);
    assert!(!times.is_wf());
}

#[test]
fn clone_keeps_every_entry() {
    let times = table(&[("rust", 1), ("go", 2)]);
    let copy = times.clone();
    assert_eq!(copy.entries.len(), 2);
    assert_eq!(copy.get(&"rust".to_string()), Some(1));
    assert_eq!(copy.get(&"go".to_string()), Some(2));
}

#[test]
fn fits_sum_looks_at_every_shared_name() {
    let left = table(&[("rust", u64::MAX - 5), ("go", 1)]);
    assert!(left.fits_sum(&table(&[("rust", 5), ("go", u64::MAX - 1), ("zig", u64::MAX)])));
    assert!(!left.fits_sum(&table(&[("rust", 6)])));
    assert!(!left.fits_sum(&table(&[("zig", 0), ("go", u64::MAX)])));
    assert!(left.fits_sum(&LanguageTimes::new()));
    assert!(LanguageTimes::new().fits_sum(&left));
}
