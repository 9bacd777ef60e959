use goosy::highlight::find_word_utf16_range;

#[test]
fn maps_cjk_and_emoji_to_utf16_offsets() {
    let text = "你 😀 hi";
    assert_eq!(find_word_utf16_range(text, "😀", 0), Some((2, 4, 8)));
    assert_eq!(
        find_word_utf16_range(text, "hi", 8),
        Some((5, 7, text.len()))
    );
}

#[test]
fn skips_untimed_separators_between_words() {
    let text = "foo bar";
    assert_eq!(find_word_utf16_range(text, "foo", 0), Some((0, 3, 3)));
    assert_eq!(find_word_utf16_range(text, "bar", 3), Some((4, 7, 7)));
}

#[test]
fn empty_words_and_offsets_inside_a_character_find_nothing() {
    let text = "你好";
    assert_eq!(find_word_utf16_range(text, "", 0), None);
    assert_eq!(find_word_utf16_range(text, "好", 1), None);
    assert_eq!(find_word_utf16_range(text, "好", 3), Some((1, 2, 6)));
    assert_eq!(find_word_utf16_range(text, "好", 7), None);
}

#[test]
fn searching_moves_past_earlier_occurrences() {
    let text = "la la la";
    assert_eq!(find_word_utf16_range(text, "la", 0), Some((0, 2, 2)));
    assert_eq!(find_word_utf16_range(text, "la", 2), Some((3, 5, 5)));
    assert_eq!(find_word_utf16_range(text, "la", 6), Some((6, 8, 8)));
    assert_eq!(find_word_utf16_range(text, "la", 8), None);
}
