use blibs::engine::kobv::parse::marc::clean;

#[test]
fn a_cleaned_value_cleans_to_itself_and_keeps_its_direction_marks() {
    let raw = "\u{98}Der\u{9c} Pro\u{ad}zess\n\n  \t Roman \u{200e}";
    let once = clean(raw);
    assert_eq!(once, "Der Prozess Roman \u{200e}");
    assert_eq!(clean(&once), once);
    assert!(once.contains('\u{200e}'));
}
