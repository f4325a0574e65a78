use gptcore::report::{human_size, verdict_line, verdict_style};
use gptcore::style::Style;
use gptcore::Verdict;

#[test]
fn sizes_use_integer_arithmetic() {
    assert_eq!(human_size(0), "0 B");
    assert_eq!(human_size(1023), "1023 B");
    assert_eq!(human_size(1024), "1.0 KiB");
    assert_eq!(human_size(64 * 1024 * 1024), "64.0 MiB");
    assert_eq!(human_size(1_953_525_168 * 512), "931.5 GiB");
}

#[test]
fn every_verdict_has_a_line() {
    for v in [
        Verdict::Healthy,
        Verdict::MbrOnly,
        Verdict::MainRepairable,
        Verdict::SecondaryDegraded,
        Verdict::Unrecoverable,
        Verdict::RefusedHybridMbr,
        Verdict::RefusedImplausibleSecondary,
    ] {
        assert!(!verdict_line(v).is_empty());
    }
}

#[test]
fn only_hopeless_verdicts_are_styled_as_damage() {
    assert_eq!(verdict_style(Verdict::Healthy), Style::Good);
    // The case the tool exists for: damaged, but fixable from a
    // known-good source.
    assert_eq!(verdict_style(Verdict::MainRepairable), Style::Warn);
    assert_eq!(verdict_style(Verdict::Unrecoverable), Style::Bad);
    assert_eq!(verdict_style(Verdict::RefusedHybridMbr), Style::Bad);
}
