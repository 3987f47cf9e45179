use study_bible::abbreviation::extract_abbreviation;

#[test]
fn well_known_names_have_fixed_abbreviations() {
    assert_eq!(extract_abbreviation("King James Version"), "KJV");
    assert_eq!(extract_abbreviation("The New International Version"), "NIV");
    assert_eq!(extract_abbreviation("English Standard Version"), "ESV");
    assert_eq!(extract_abbreviation("New American Standard Bible"), "NASB");
    assert_eq!(extract_abbreviation("Revised Standard Version"), "RSV");
    assert_eq!(extract_abbreviation("American Standard Version"), "ASV");
    assert_eq!(extract_abbreviation("New Living Translation"), "NLT");
}

#[test]
fn the_table_is_read_from_the_top() {
    assert_eq!(extract_abbreviation("New King James Version"), "KJV");
    assert_eq!(extract_abbreviation("New American Standard / American Standard"), "NASB");
    assert_eq!(extract_abbreviation("the king james"), "TKJ");
}

#[test]
fn other_names_are_abbreviated_by_first_letters() {
    assert_eq!(extract_abbreviation("Some Obscure Work"), "SOW");
    assert_eq!(extract_abbreviation("World English Bible"), "WE");
    assert_eq!(extract_abbreviation("The Message of the Bible and more words"), "MTM");
    assert_eq!(extract_abbreviation("  tamil   bible  2017 edition "), "TB2");
    assert_eq!(extract_abbreviation("Luther"), "L");
    assert_eq!(extract_abbreviation("a b c d e"), "ABC");
    assert_eq!(extract_abbreviation("élan vital"), "éV");
}

#[test]
fn names_without_a_significant_word_give_their_first_three_characters() {
    assert_eq!(extract_abbreviation(""), "");
    assert_eq!(extract_abbreviation("Bible"), "BIB");
    assert_eq!(extract_abbreviation("The Bible"), "THE");
    assert_eq!(extract_abbreviation("of and"), "OF ");
    assert_eq!(extract_abbreviation(" of"), " OF");
    assert_eq!(extract_abbreviation("  "), "  ");
}
