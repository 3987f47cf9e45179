use study_bible::data::{
    make_chapter_key, remove_with_id, verses_of_chapter, BibleDataManager, DataError,
};
use study_bible::catalog::standard_books;
use study_bible::types::{
    BibleReference, Bookmark, HighlightColor, HighlightColorOption, ReadingProgress, SearchResult,
    TextHighlight, Translation, TranslationStatus, Verse, VerseDisplayMode, VerseWithBook,
};

fn bookmark(id: &str, verse: u32) -> Bookmark {
    Bookmark {
        id: id.to_string(),
        user_id: None,
        translation_id: "kjv".to_string(),
        book_id: 1,
        chapter: 1,
        verse,
        note: Some("note".to_string()),
        created_at: "2024-01-01".to_string(),
        updated_at: None,
    }
}

fn highlight(id: &str, translation: &str, book: u32, chapter: u32, verse: u32) -> TextHighlight {
    TextHighlight {
        id: id.to_string(),
        user_id: None,
        translation_id: translation.to_string(),
        book_id: book,
        chapter,
        verse,
        text: "light".to_string(),
        color: HighlightColor::Yellow,
        start_index: 0,
        end_index: 5,
        created_at: "2024-01-01".to_string(),
    }
}

fn verse(book: u32, chapter: u32, number: u32) -> Verse {
    Verse {
        id: format!("kjv:{}:{}:{}", book, chapter, number),
        translation_id: "kjv".to_string(),
        book_id: book,
        chapter,
        verse: number,
        text: format!("text {}", number),
    }
}

#[test]
fn a_new_manager_holds_nothing() {
    let manager = BibleDataManager::new();
    assert!(manager.get_translations().is_empty());
    assert!(manager.get_bookmarks().is_empty());
    assert!(manager.get_books("kjv").is_none());
    assert!(manager.get_verse_highlights("kjv", 1, 1, 1).is_empty());
}

#[test]
fn translations_are_taken_as_they_come() {
    let translation = Translation {
        id: "kjv".to_string(),
        name: "King James Version".to_string(),
        abbreviation: "KJV".to_string(),
        language: "en".to_string(),
        language_name: Some("English".to_string()),
        description: "d".to_string(),
        bundled: true,
        priority: 1,
    };
    let mut manager = BibleDataManager::new();
    manager.load_translations(vec![translation.clone()]);
    assert_eq!(manager.get_translations(), &vec![translation]);
    manager.load_translations(vec![]);
    assert!(manager.get_translations().is_empty());
}

#[test]
fn bundled_books_exist_for_two_translations() {
    let mut manager = BibleDataManager::new();
    assert_eq!(manager.load_books("niv", Some(standard_books())), Err(DataError::TranslationNotFound));
    assert_eq!(manager.load_books("", None), Err(DataError::TranslationNotFound));
    assert_eq!(manager.load_books("kjv", None), Err(DataError::Unreadable));
    assert!(manager.get_books("kjv").is_none());
    assert_eq!(manager.load_books("kjv", Some(standard_books())), Ok(standard_books()));
    assert_eq!(manager.get_books("kjv"), Some(&standard_books()));
    assert_eq!(manager.load_books("tamil", Some(vec![])), Ok(vec![]));
    assert_eq!(manager.get_books("tamil"), Some(&vec![]));
    assert_eq!(manager.load_books("kjv", Some(vec![])), Ok(vec![]));
    assert_eq!(manager.get_books("kjv"), Some(&vec![]));
    assert!(manager.get_books("niv").is_none());
}

#[test]
fn bundled_verses_are_picked_by_chapter_and_kept() {
    let all = || vec![verse(1, 1, 1), verse(1, 2, 1), verse(1, 1, 2), verse(2, 1, 1)];
    let mut manager = BibleDataManager::new();
    assert_eq!(manager.load_verses("esv", 1, 1, Some(all())), Err(DataError::TranslationNotFound));
    assert_eq!(manager.load_verses("nkjv", 1, 1, None), Err(DataError::Unreadable));
    assert_eq!(manager.load_verses("kjv", 1, 1, Some(all())), Ok(vec![verse(1, 1, 1), verse(1, 1, 2)]));
    assert_eq!(manager.load_verses("kjv", 1, 1, None), Ok(vec![verse(1, 1, 1), verse(1, 1, 2)]));
    assert_eq!(manager.load_verses("kjv", 1, 1, Some(vec![])), Ok(vec![verse(1, 1, 1), verse(1, 1, 2)]));
    assert_eq!(manager.load_verses("niv", 3, 1, Some(all())), Ok(vec![]));
    assert_eq!(manager.load_verses("tamil", 2, 1, Some(all())), Ok(vec![verse(2, 1, 1)]));
    assert_eq!(verses_of_chapter(&all(), 1, 2), vec![verse(1, 2, 1)]);
    assert_eq!(make_chapter_key("kjv", 1, 12), "kjv_1_12");
    assert_eq!(make_chapter_key("a_b", 0, 4294967295), "a_b_0_4294967295");
}

#[test]
fn a_search_names_its_query() {
    let manager = BibleDataManager::new();
    assert_eq!(
        manager.search_verses("kjv", "light"),
        SearchResult {
            verses: vec![],
            total_count: 0,
            query: "light".to_string(),
            translation_id: "kjv".to_string(),
        }
    );
}

#[test]
fn bookmarks_are_added_and_removed_by_id() {
    let mut manager = BibleDataManager::new();
    manager.add_bookmark(bookmark("a", 1));
    manager.add_bookmark(bookmark("b", 2));
    manager.add_bookmark(bookmark("a", 3));
    manager.add_bookmark(bookmark("c", 4));
    assert_eq!(manager.get_bookmarks().len(), 4);
    manager.remove_bookmark("zzz");
    assert_eq!(manager.get_bookmarks().len(), 4);
    manager.remove_bookmark("a");
    assert_eq!(manager.get_bookmarks(), &vec![bookmark("b", 2), bookmark("c", 4)]);
    manager.remove_bookmark("c");
    manager.remove_bookmark("b");
    assert!(manager.get_bookmarks().is_empty());
    let mut list = vec![bookmark("x", 1), bookmark("x", 2)];
    remove_with_id(&mut list, "x");
    assert!(list.is_empty());
}

#[test]
fn highlights_are_found_by_verse() {
    let mut manager = BibleDataManager::new();
    manager.add_highlight(highlight("1", "kjv", 1, 1, 1));
    manager.add_highlight(highlight("2", "kjv", 1, 1, 2));
    manager.add_highlight(highlight("3", "web", 1, 1, 1));
    manager.add_highlight(highlight("4", "kjv", 1, 1, 1));
    manager.add_highlight(highlight("5", "kjv", 2, 1, 1));
    manager.add_highlight(highlight("6", "kjv", 1, 2, 1));
    let found = manager.get_verse_highlights("kjv", 1, 1, 1);
    assert_eq!(found, vec![&highlight("1", "kjv", 1, 1, 1), &highlight("4", "kjv", 1, 1, 1)]);
    assert!(manager.get_verse_highlights("kjv", 3, 1, 1).is_empty());
    manager.remove_highlight("1");
    let found = manager.get_verse_highlights("kjv", 1, 1, 1);
    assert_eq!(found, vec![&highlight("4", "kjv", 1, 1, 1)]);
    manager.remove_highlight("4");
    assert!(manager.get_verse_highlights("kjv", 1, 1, 1).is_empty());
    assert_eq!(manager.get_verse_highlights("web", 1, 1, 1).len(), 1);
}

#[test]
fn the_other_types_hold_what_they_are_given() {
    let with_book = VerseWithBook {
        verse: verse(1, 1, 1),
        book_name: "Genesis".to_string(),
        book_abbreviation: "Gen".to_string(),
    };
    assert_eq!(with_book.clone(), with_book);
    let reference = BibleReference { book_id: 1, chapter: 2, verse: Some(3) };
    assert_ne!(reference, BibleReference { book_id: 1, chapter: 2, verse: None });
    let progress = ReadingProgress {
        translation_id: "kjv".to_string(),
        book_id: 1,
        chapter: 1,
        completed_verses: vec![1, 2],
        last_read_at: "now".to_string(),
    };
    assert_eq!(progress.clone().completed_verses, vec![1, 2]);
    let option = HighlightColorOption {
        name: HighlightColor::Pink,
        label: "Pink".to_string(),
        bg: "bg".to_string(),
        border: "b".to_string(),
        hover: "h".to_string(),
    };
    assert_eq!(option.clone().name, HighlightColor::Pink);
    assert_ne!(VerseDisplayMode::Paragraph, VerseDisplayMode::Parallel);
    assert_ne!(TranslationStatus::Core, TranslationStatus::Downloaded);
    assert_ne!(HighlightColor::Green, HighlightColor::Blue);
}
