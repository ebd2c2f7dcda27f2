use hibiscus::picker::Picker;


#[test]
fn selection_follows_arrows_and_keeps_five_visible() {
    let mut picker = Picker::new(
        "Models".into(),
        (0..12).map(|n| n.to_string()).collect(),
        Some(7),
        5,
    );
    assert_eq!(
        (picker.selected, picker.first, picker.visible(5)),
        (7, 3, 5)
    );
    picker.move_by(1, 5);
    assert_eq!((picker.selected, picker.first), (8, 4));
    picker.page(1, 5);
    assert_eq!((picker.selected, picker.first, picker.thumb(5)), (11, 7, 4));
    picker.move_by(-30, 5);
    assert_eq!((picker.selected, picker.first), (0, 0));
}

#[test]
fn empty_or_short_list_cannot_overflow() {
    let mut picker = Picker::new("empty".into(), vec![], Some(12), 5);
    picker.move_by(1, 5);
    assert_eq!(picker.visible(5), 0);
    let mut picker = Picker::new("one".into(), vec!["a".into()], Some(99), 5);
    picker.move_by(1, 5);
    assert_eq!((picker.selected, picker.first, picker.thumb(5)), (0, 0, 0));
}
