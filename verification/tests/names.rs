use gptcore::names::{next_name, sequence_of};

#[test]
fn a_name_in_the_scheme_yields_its_number() {
    assert_eq!(sequence_of("gpt-001.bkp", "gpt-", ".bkp"), Some(1));
    assert_eq!(sequence_of("gpt-999.bkp", "gpt-", ".bkp"), Some(999));
    assert_eq!(sequence_of("GPT-042.BKP", "gpt-", ".bkp"), Some(42));
    assert_eq!(sequence_of("diag-007.txt", "diag-", ".txt"), Some(7));
}

#[test]
fn anything_else_is_simply_not_one() {
    for name in ["gpt-1.bkp", "gpt-0001.bkp", "gpt-abc.bkp", "gpt-001.txt", "gpt-001", ""] {
        assert_eq!(sequence_of(name, "gpt-", ".bkp"), None, "{name}");
    }
}

/// A directory listing is not a list of names this tool wrote. FAT
/// long names carry any of these, and a byte length that matches while
/// the split index lands inside a character is what used to abort the
/// tool the moment a restore screen was opened — or a repair tried to
/// save its snapshot.
#[test]
fn a_name_that_is_not_ascii_is_refused_rather_than_panicked_on() {
    for name in ["gpté11.bkp", "写真1.bkp", "gp写11.bkp"] {
        assert_eq!(sequence_of(name, "gpt-", ".bkp"), None, "{name}");
    }
    for name in ["booté11.bkp", "boot写1.bkp"] {
        assert_eq!(sequence_of(name, "boot-", ".bkp"), None, "{name}");
    }
    assert_eq!(sequence_of("Größe1.txt", "diag-", ".txt"), None);
}

#[test]
fn a_name_nobody_can_parse_does_not_stop_the_numbering() {
    let taken = vec![String::from("gpté11.bkp"), String::from("gpt-004.bkp")];
    assert_eq!(next_name(&taken, "gpt-", ".bkp", 999).as_deref(), Some("gpt-005.bkp"));
}
