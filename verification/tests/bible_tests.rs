use meditui::bible::{book_to_filename, books_to_load, verses_from_json, Bible, BookJson, ChapterJson, VerseJson};

fn vj(n: &str, t: &str) -> VerseJson {
    VerseJson { verse: n.to_string(), text: t.to_string() }
}

#[test]
fn file_names_drop_spaces() {
    assert_eq!(book_to_filename("1 Samuel"), "1Samuel");
    assert_eq!(book_to_filename("Song of Solomon"), "SongofSolomon");
    assert_eq!(book_to_filename("Genesis"), "Genesis");
}

#[test]
fn verses_with_bad_numbers_are_skipped() {
    let vs = verses_from_json(&vec![vj("1", "a"), vj("x", "b"), vj("3", "c")]);
    assert_eq!(vs.len(), 2);
    assert_eq!(vs[0].number, 1);
    assert_eq!(vs[1].number, 3);
    assert_eq!(vs[1].text, "c");
}

#[test]
fn books_are_loaded_once_each() {
    let chs = vec![("John".to_string(), 3), ("Acts".to_string(), 1), ("John".to_string(), 4)];
    let b = books_to_load(&chs);
    assert_eq!(b.len(), 2);
    let john = b.iter().find(|(name, _)| name == "John").unwrap();
    let mut chapters = john.1.clone();
    chapters.sort();
    chapters.dedup();
    assert_eq!(chapters, vec![3, 4]);
    assert!(b.iter().any(|(name, cs)| name == "Acts" && cs.contains(&1)));
}

fn john() -> BookJson {
    BookJson {
        book: "John".to_string(),
        chapters: vec![
            ChapterJson { chapter: "3".to_string(), verses: vec![vj("16", "For God so loved the world")] },
            ChapterJson { chapter: "4".to_string(), verses: vec![vj("1", "When therefore")] },
            ChapterJson { chapter: "five".to_string(), verses: vec![vj("1", "After this")] },
        ],
    }
}

#[test]
fn load_keeps_requested_chapters() {
    let chs = vec![("John".to_string(), 3), ("Acts".to_string(), 1)];
    let bible = Bible::load_chapters(&chs, &vec![("John".to_string(), john())]);
    let c3 = bible.get_chapter("John", 3).unwrap();
    assert_eq!(c3.len(), 1);
    assert_eq!(c3[0].number, 16);
    assert!(bible.get_chapter("John", 4).is_none());
    assert!(bible.get_chapter("Acts", 1).is_none());
}

#[test]
fn empty_bible_has_no_chapters() {
    assert!(Bible::new().get_chapter("John", 3).is_none());
}
