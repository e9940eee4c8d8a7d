use chapter_visits::timeframe::TimeFrame;

#[test]
fn window_lengths_are_fixed() {
    assert_eq!(TimeFrame::HOUR.get_milliseconds(), 3_600_000);
    assert_eq!(TimeFrame::DAY.get_milliseconds(), 86_400_000);
    assert_eq!(TimeFrame::WEEK.get_milliseconds(), 604_800_000);
    // 30-day approximation
    assert_eq!(TimeFrame::MONTH.get_milliseconds(), 2_592_000_000);
    // 365-day approximation
    assert_eq!(TimeFrame::YEAR.get_milliseconds(), 31_536_000_000);
}

#[test]
fn labels_parse_exactly() {
    assert_eq!(TimeFrame::from_label("HOUR"), Some(TimeFrame::HOUR));
    assert_eq!(TimeFrame::from_label("DAY"), Some(TimeFrame::DAY));
    assert_eq!(TimeFrame::from_label("WEEK"), Some(TimeFrame::WEEK));
    assert_eq!(TimeFrame::from_label("MONTH"), Some(TimeFrame::MONTH));
    assert_eq!(TimeFrame::from_label("YEAR"), Some(TimeFrame::YEAR));
}

#[test]
fn other_labels_are_rejected() {
    assert_eq!(TimeFrame::from_label(""), None);
    assert_eq!(TimeFrame::from_label("hour"), None);
    assert_eq!(TimeFrame::from_label("Hour"), None);
    assert_eq!(TimeFrame::from_label("HOURS"), None);
    assert_eq!(TimeFrame::from_label("H"), None);
    assert_eq!(TimeFrame::from_label("MINUTE"), None);
}
