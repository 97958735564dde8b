//! Bible text: the chapters of the books that a day's reading needs, built
//! from the parsed book files of a translation.
use std::collections::HashMap;

use vstd::prelude::*;

use crate::assoc::{
    assoc, first_match, has_key, keys_distinct, lemma_assoc_absent, lemma_assoc_at, lemma_assoc_empty,
    lemma_first_match,
    lemma_assoc_push,
};
use crate::text::{chars_of, compare_chars, parse_u16, parse_u16_spec, string_push};

verus! {

broadcast use {
    vstd::std_specs::hash::group_hash_axioms,
    vstd::seq_lib::group_seq_properties,
};

/// One verse: its number and its text.
pub struct Verse {
    pub number: u16,
    pub text: String,
}

impl Clone for Verse {
    fn clone(&self) -> (res: Self)
        ensures
            res == *self,
    {
        Verse { number: self.number, text: self.text.clone() }
    }
}

/// The loaded chapters of one book.
pub struct BookData {
    pub chapters: HashMap<u16, Vec<Verse>>,
}

/// The loaded books, each under its name.
pub struct Bible {
    pub books: Vec<(String, BookData)>,
}

/// A verse as a book file holds it: number and text are strings.
pub struct VerseJson {
    pub verse: String,
    pub text: String,
}

/// A chapter as a book file holds it.
pub struct ChapterJson {
    pub chapter: String,
    pub verses: Vec<VerseJson>,
}

/// A book file.
pub struct BookJson {
    pub book: String,
    pub chapters: Vec<ChapterJson>,
}

// ---------------------------------------------------------------------------
// The model
// ---------------------------------------------------------------------------
impl BookData {
    /// Chapter number to its verses.
    pub open spec fn chapter_map(self) -> Map<u16, Seq<Verse>> {
        verse_map(self.chapters)
    }
}

/// Chapter number to verses, of a map from number to verse list.
pub open spec fn verse_map(m: HashMap<u16, Vec<Verse>>) -> Map<u16, Seq<Verse>> {
    Map::new(|n: u16| m@.contains_key(n), |n: u16| m@[n]@)
}

pub open spec fn book_entries(s: Seq<(String, BookData)>) -> Seq<(Seq<char>, Map<u16, Seq<Verse>>)> {
    s.map_values(|e: (String, BookData)| (e.0@, e.1.chapter_map()))
}

impl Bible {
    /// No book occurs twice.
    pub open spec fn wf(self) -> bool {
        keys_distinct(book_entries(self.books@))
    }

    /// Book name to (chapter number to verses).
    pub open spec fn book_map(self) -> Map<Seq<char>, Map<u16, Seq<Verse>>> {
        assoc(book_entries(self.books@))
    }

    /// The verses of a chapter, if it is loaded.
    pub open spec fn chapter_spec(self, book: Seq<char>, chapter: u16) -> Option<Seq<Verse>> {
        if self.book_map().contains_key(book) && self.book_map()[book].contains_key(chapter) {
            Some(self.book_map()[book][chapter])
        } else {
            None
        }
    }
}

/// The verses of a chapter file whose number parses, in order.
pub open spec fn verses_spec(vs: Seq<VerseJson>) -> Seq<Verse>
    decreases vs.len(),
{
    if vs.len() == 0 {
        Seq::empty()
    } else {
        let rest = verses_spec(vs.drop_last());
        match parse_u16_spec(vs.last().verse@) {
            Some(n) => rest.push(Verse { number: n, text: vs.last().text }),
            None => rest,
        }
    }
}

/// The chapters of a book file among `needed`, by number; a later chapter
/// with the same number replaces an earlier one.
pub open spec fn chapters_spec(cs: Seq<ChapterJson>, needed: Set<u16>) -> Map<u16, Seq<Verse>>
    decreases cs.len(),
{
    if cs.len() == 0 {
        Map::empty()
    } else {
        let rest = chapters_spec(cs.drop_last(), needed);
        match parse_u16_spec(cs.last().chapter@) {
            Some(n) => if needed.contains(n) {
                rest.insert(n, verses_spec(cs.last().verses@))
            } else {
                rest
            },
            None => rest,
        }
    }
}

/// Whether some requested chapter is of book `b`.
pub open spec fn is_requested(chapters: Seq<(String, u16)>, b: Seq<char>) -> bool {
    exists|i: int| 0 <= i < chapters.len() && (#[trigger] chapters[i]).0@ == b
}

/// The requested chapter numbers of book `b`.
pub open spec fn requested(chapters: Seq<(String, u16)>, b: Seq<char>) -> Set<u16> {
    Set::new(
        |n: u16|
            exists|i: int|
                0 <= i < chapters.len() && (#[trigger] chapters[i]).0@ == b && chapters[i].1 == n,
    )
}

/// The position of the first file of book `b` among `files`, or -1.
pub open spec fn first_file(files: Seq<(String, BookJson)>, b: Seq<char>) -> int {
    first_match(files, |f: (String, BookJson)| f.0@ == b)
}

// ---------------------------------------------------------------------------
// Helpers
// ---------------------------------------------------------------------------
/// The file stem of a book: its name without spaces ("1 Samuel" gives
/// "1Samuel").
pub fn book_to_filename(book: &str) -> (res: String)
    ensures
        res@ == book@.filter(|c: char| c != ' '),
{
    let chars = chars_of(book);
    let mut s = String::new();
    let mut i: usize = 0;
    while i < chars.len()
        invariant
            i <= chars.len(),
            chars@ == book@,
            s@ == chars@.take(i as int).filter(|c: char| c != ' '),
        decreases chars.len() - i,
    {
        let c = chars[i];
        proof {
            assert(chars@.take(i + 1).drop_last() =~= chars@.take(i as int));
            reveal_with_fuel(Seq::<_>::filter, 1);
        }
        if c != ' ' {
            string_push(&mut s, c);
        }
        i += 1;
    }
    assert(chars@.take(chars@.len() as int) =~= chars@);
    s
}

/// The verses of a chapter file.
pub fn verses_from_json(vs: &Vec<VerseJson>) -> (res: Vec<Verse>)
    ensures
        res@ == verses_spec(vs@),
{
    let mut out: Vec<Verse> = Vec::new();
    let mut i: usize = 0;
    while i < vs.len()
        invariant
            i <= vs.len(),
            out@ == verses_spec(vs@.take(i as int)),
        decreases vs.len() - i,
    {
        let n = parse_u16(vs[i].verse.as_str());
        proof {
            assert(vs@.take(i + 1).drop_last() =~= vs@.take(i as int));
            assert(vs@.take(i + 1).last() == vs@[i as int]);
        }
        match n {
            Some(number) => {
                out.push(Verse { number, text: vs[i].text.clone() });
            },
            None => {},
        }
        i += 1;
    }
    assert(vs@.take(vs@.len() as int) =~= vs@);
    out
}

/// The chapters of a book file whose number is in `needed`.
pub fn book_from_json(book: &BookJson, needed: &Vec<u16>) -> (res: BookData)
    ensures
        res.chapter_map() == chapters_spec(book.chapters@, needed@.to_set()),
{
    let mut map: HashMap<u16, Vec<Verse>> = HashMap::new();
    let cs = &book.chapters;
    let ghost set = needed@.to_set();
    let mut i: usize = 0;
    proof {
        assert(chapters_spec(cs@.take(0), set) =~= Map::empty());
        assert(verse_map(map) =~= Map::empty());
    }
    while i < cs.len()
        invariant
            i <= cs.len(),
            set == needed@.to_set(),
            verse_map(map) == chapters_spec(cs@.take(i as int), set),
        decreases cs.len() - i,
    {
        let ghost before = verse_map(map);
        let n = parse_u16(cs[i].chapter.as_str());
        proof {
            assert(cs@.take(i + 1).drop_last() =~= cs@.take(i as int));
            assert(cs@.take(i + 1).last() == cs@[i as int]);
        }
        match n {
            Some(num) => {
                if crate::highlight::vec_contains(needed.as_slice(), num) {
                    let verses = verses_from_json(&cs[i].verses);
                    map.insert(num, verses);
                    proof {
                        assert(verse_map(map) =~= before.insert(num, verses@));
                    }
                }
            },
            None => {},
        }
        i += 1;
    }
    assert(cs@.take(cs@.len() as int) =~= cs@);
    BookData { chapters: map }
}

/// The position of the entry for book `name` in a list of (book, chapters)
/// pairs, if any.
fn find_needed(s: &Vec<(String, Vec<u16>)>, name: &Vec<char>) -> (res: Option<usize>)
    ensures
        match res {
            Some(i) => i < s@.len() && s@[i as int].0@ == name@,
            None => forall|j: int| 0 <= j < s@.len() ==> s@[j].0@ != name@,
        },
{
    let mut i: usize = 0;
    while i < s.len()
        invariant
            i <= s.len(),
            forall|j: int| 0 <= j < i ==> s@[j].0@ != name@,
        decreases s.len() - i,
    {
        let k = chars_of(s[i].0.as_str());
        if compare_chars(&k, name) == 0 {
            return Some(i);
        }
        i += 1;
    }
    None
}

/// No book name occurs twice.
pub open spec fn names_distinct(s: Seq<(String, Vec<u16>)>) -> bool {
    forall|a: int, b: int| 0 <= a < b < s.len() ==> (#[trigger] s[a]).0@ != (#[trigger] s[b]).0@
}

/// Whether `b` is the name of some entry of `s`.
pub open spec fn has_name(s: Seq<(String, Vec<u16>)>, b: Seq<char>) -> bool {
    exists|j: int| 0 <= j < s.len() && (#[trigger] s[j]).0@ == b
}

proof fn lemma_request_step(pre: Seq<(String, u16)>, x: (String, u16))
    ensures
        forall|b: Seq<char>| #[trigger] is_requested(pre.push(x), b) <==> is_requested(pre, b) || b == x.0@,
        forall|b: Seq<char>| #[trigger] requested(pre.push(x), b) == if b == x.0@ {
            requested(pre, b).insert(x.1)
        } else {
            requested(pre, b)
        },
{
    let post = pre.push(x);
    assert forall|b: Seq<char>| #[trigger] is_requested(post, b) <==> is_requested(pre, b) || b == x.0@ by {
        if is_requested(post, b) {
            let j = choose|j: int| 0 <= j < post.len() && (#[trigger] post[j]).0@ == b;
            if j < pre.len() {
                assert(pre[j] == post[j]);
            }
        }
        if is_requested(pre, b) {
            let j = choose|j: int| 0 <= j < pre.len() && (#[trigger] pre[j]).0@ == b;
            assert(pre[j] == post[j]);
        }
        if b == x.0@ {
            assert(post[pre.len() as int] == x);
        }
    }
    assert forall|b: Seq<char>| #[trigger] requested(post, b) == if b == x.0@ {
        requested(pre, b).insert(x.1)
    } else {
        requested(pre, b)
    } by {
        let r = if b == x.0@ {
            requested(pre, b).insert(x.1)
        } else {
            requested(pre, b)
        };
        assert forall|n: u16| requested(post, b).contains(n) <==> r.contains(n) by {
            if requested(post, b).contains(n) {
                let j = choose|j: int| 0 <= j < post.len() && (#[trigger] post[j]).0@ == b && post[j].1 == n;
                if j < pre.len() {
                    assert(pre[j] == post[j]);
                }
            }
            if requested(pre, b).contains(n) {
                let j = choose|j: int| 0 <= j < pre.len() && (#[trigger] pre[j]).0@ == b && pre[j].1 == n;
                assert(pre[j] == post[j]);
            }
            if b == x.0@ && n == x.1 {
                assert(post[pre.len() as int] == x);
            }
        }
        assert(requested(post, b) =~= r);
    }
}

/// The books that the requested chapters come from, each once, with the
/// chapters requested of it.
pub fn books_to_load(chapters: &[(String, u16)]) -> (res: Vec<(String, Vec<u16>)>)
    ensures
        names_distinct(res@),
        forall|b: Seq<char>| #[trigger] has_name(res@, b) <==> is_requested(chapters@, b),
        forall|j: int|
            0 <= j < res@.len() ==> (#[trigger] res@[j]).1@.to_set() == requested(chapters@, res@[j].0@),
{
    let mut out: Vec<(String, Vec<u16>)> = Vec::new();
    let mut i: usize = 0;
    while i < chapters.len()
        invariant
            i <= chapters.len(),
            names_distinct(out@),
            forall|b: Seq<char>| #[trigger] has_name(out@, b) <==> is_requested(chapters@.take(i as int), b),
            forall|j: int|
                0 <= j < out@.len() ==> (#[trigger] out@[j]).1@.to_set() == requested(chapters@.take(i as int), out@[j].0@),
        decreases chapters.len() - i,
    {
        let name = chars_of(chapters[i].0.as_str());
        let ch = chapters[i].1;
        let ghost old_out = out@;
        let ghost pre = chapters@.take(i as int);
        let ghost post = chapters@.take(i + 1);
        proof {
            assert(post =~= pre.push(chapters@[i as int]));
            lemma_request_step(pre, chapters@[i as int]);
        }
        match find_needed(&out, &name) {
            Some(j) => {
                let (bname, mut list) = out.remove(j);
                list.push(ch);
                out.insert(j, (bname, list));
                proof {
                    assert(out@ =~= old_out.update(j as int, (bname, list)));
                    assert(list@.to_set() =~= old_out[j as int].1@.to_set().insert(ch)) by {
                        assert forall|x: u16| list@.contains(x) <==> old_out[j as int].1@.contains(x) || x == ch by {
                            if list@.contains(x) {
                                let k = choose|k: int| 0 <= k < list@.len() && #[trigger] list@[k] == x;
                                if k < list@.len() - 1 {
                                    assert(old_out[j as int].1@[k] == x);
                                }
                            }
                            if old_out[j as int].1@.contains(x) {
                                let k = choose|k: int| 0 <= k < old_out[j as int].1@.len() && #[trigger] old_out[j as int].1@[k] == x;
                                assert(list@[k] == x);
                            }
                            if x == ch {
                                assert(list@[list@.len() - 1] == ch);
                            }
                        }
                    }
                    assert forall|a: int, b: int| 0 <= a < b < out@.len() implies (#[trigger] out@[a]).0@ != (#[trigger] out@[b]).0@ by {
                        assert(old_out[a].0@ != old_out[b].0@);
                    }
                    assert forall|b: Seq<char>| #[trigger] has_name(out@, b) <==> is_requested(post, b) by {
                        if has_name(out@, b) {
                            let k = choose|k: int| 0 <= k < out@.len() && (#[trigger] out@[k]).0@ == b;
                            assert(old_out[k].0@ == b);
                        }
                        if has_name(old_out, b) {
                            let k = choose|k: int| 0 <= k < old_out.len() && (#[trigger] old_out[k]).0@ == b;
                            assert(out@[k].0@ == b);
                        }
                        if b == name@ {
                            assert(out@[j as int].0@ == b);
                        }
                    }
                    assert forall|k: int| 0 <= k < out@.len() implies (#[trigger] out@[k]).1@.to_set() == requested(post, out@[k].0@) by {
                        if k != j {
                            assert(out@[k] == old_out[k]);
                            assert(old_out[k].0@ != old_out[j as int].0@) by {
                                if k < j {
                                } else {
                                }
                            }
                        }
                    }
                }
            },
            None => {
                let mut list: Vec<u16> = Vec::new();
                list.push(ch);
                let bname = chapters[i].0.clone();
                out.push((bname, list));
                proof {
                    assert(out@ =~= old_out.push((bname, list)));
                    assert(!has_name(old_out, name@));
                    assert(!is_requested(pre, name@));
                    assert(requested(pre, name@) =~= Set::<u16>::empty());
                    assert(list@.to_set() =~= set![ch]) by {
                        assert(list@[0] == ch);
                    }
                    assert forall|a: int, b: int| 0 <= a < b < out@.len() implies (#[trigger] out@[a]).0@ != (#[trigger] out@[b]).0@ by {
                        if b == old_out.len() {
                            assert(out@[a] == old_out[a]);
                            if old_out[a].0@ == name@ {
                                assert(has_name(old_out, name@));
                            }
                        } else {
                            assert(out@[a] == old_out[a] && out@[b] == old_out[b]);
                        }
                    }
                    assert forall|b: Seq<char>| #[trigger] has_name(out@, b) <==> is_requested(post, b) by {
                        if has_name(out@, b) {
                            let k = choose|k: int| 0 <= k < out@.len() && (#[trigger] out@[k]).0@ == b;
                            if k < old_out.len() {
                                assert(old_out[k].0@ == b);
                            }
                        }
                        if has_name(old_out, b) {
                            let k = choose|k: int| 0 <= k < old_out.len() && (#[trigger] old_out[k]).0@ == b;
                            assert(out@[k].0@ == b);
                        }
                        if b == name@ {
                            assert(out@[old_out.len() as int].0@ == b);
                        }
                    }
                    assert forall|k: int| 0 <= k < out@.len() implies (#[trigger] out@[k]).1@.to_set() == requested(post, out@[k].0@) by {
                        if k < old_out.len() {
                            assert(out@[k] == old_out[k]);
                            if old_out[k].0@ == name@ {
                                assert(has_name(old_out, name@));
                            }
                        }
                    }
                }
            },
        }
        i += 1;
    }
    proof {
        assert(chapters@.take(chapters@.len() as int) =~= chapters@);
    }
    out
}

/// The position of the first file of book `name`, if any.
fn find_file(files: &Vec<(String, BookJson)>, name: &Vec<char>) -> (res: Option<usize>)
    ensures
        match res {
            Some(i) => i as int == first_file(files@, name@) && i < files@.len() && files@[i as int].0@ == name@,
            None => first_file(files@, name@) == -1,
        },
{
    proof {
        lemma_first_match(files@, |f: (String, BookJson)| f.0@ == name@);
    }
    let mut i: usize = 0;
    while i < files.len()
        invariant
            i <= files.len(),
            forall|j: int| 0 <= j < i ==> files@[j].0@ != name@,
            first_file(files@, name@) == -1 <==> forall|j: int| 0 <= j < files@.len() ==> files@[j].0@ != name@,
            first_file(files@, name@) != -1 ==> {
                let j = first_file(files@, name@);
                &&& 0 <= j < files@.len()
                &&& files@[j].0@ == name@
                &&& forall|k: int| 0 <= k < j ==> files@[k].0@ != name@
            },
        decreases files.len() - i,
    {
        let k = chars_of(files[i].0.as_str());
        if compare_chars(&k, name) == 0 {
            return Some(i);
        }
        i += 1;
    }
    None
}

impl Bible {
    /// No books.
    pub fn new() -> (res: Bible)
        ensures
            res.wf(),
            res.book_map() == Map::<Seq<char>, Map<u16, Seq<Verse>>>::empty(),
    {
        let res = Bible { books: Vec::new() };
        proof {
            assert(book_entries(res.books@) =~= Seq::empty());
            lemma_assoc_empty(book_entries(res.books@));
        }
        res
    }

    /// Builds the bible for the requested chapters from the parsed book
    /// files, each under its book's name. A requested book with no file is
    /// left out; of a book's file, the requested chapters are kept.
    pub fn load_chapters(chapters: &[(String, u16)], files: &Vec<(String, BookJson)>) -> (res: Bible)
        ensures
            res.wf(),
            forall|b: Seq<char>| #[trigger] res.book_map().contains_key(b) <==> (is_requested(chapters@, b) && first_file(files@, b) >= 0),
            forall|b: Seq<char>| #[trigger] res.book_map().contains_key(b) ==> res.book_map()[b] == chapters_spec(
                files@[first_file(files@, b)].1.chapters@,
                requested(chapters@, b),
            ),
    {
        let needed = books_to_load(chapters);
        let mut books: Vec<(String, BookData)> = Vec::new();
        let mut i: usize = 0;
        proof {
            assert(book_entries(books@) =~= Seq::empty());
            lemma_assoc_empty(book_entries(books@));
        }
        while i < needed.len()
            invariant
                i <= needed.len(),
                names_distinct(needed@),
                forall|b: Seq<char>| #[trigger] has_name(needed@, b) <==> is_requested(chapters@, b),
                forall|j: int| 0 <= j < needed@.len() ==> (#[trigger] needed@[j]).1@.to_set() == requested(chapters@, needed@[j].0@),
                keys_distinct(book_entries(books@)),
                forall|b: Seq<char>| #[trigger] assoc(book_entries(books@)).contains_key(b) <==> (has_name(needed@.take(i as int), b) && first_file(files@, b) >= 0),
                forall|b: Seq<char>| #[trigger] assoc(book_entries(books@)).contains_key(b) ==> assoc(book_entries(books@))[b] == chapters_spec(
                    files@[first_file(files@, b)].1.chapters@,
                    requested(chapters@, b),
                ),
            decreases needed.len() - i,
        {
            let name = chars_of(needed[i].0.as_str());
            let ghost pre = needed@.take(i as int);
            let ghost post = needed@.take(i + 1);
            proof {
                assert(post =~= pre.push(needed@[i as int]));
                assert forall|b: Seq<char>| #[trigger] has_name(post, b) <==> has_name(pre, b) || b == name@ by {
                    if has_name(post, b) {
                        let j = choose|j: int| 0 <= j < post.len() && (#[trigger] post[j]).0@ == b;
                        if j < i {
                            assert(pre[j] == post[j]);
                        }
                    }
                    if has_name(pre, b) {
                        let j = choose|j: int| 0 <= j < pre.len() && (#[trigger] pre[j]).0@ == b;
                        assert(pre[j] == post[j]);
                    }
                    if b == name@ {
                        assert(post[i as int].0@ == b);
                    }
                }
                assert(!has_name(pre, name@)) by {
                    if has_name(pre, name@) {
                        let j = choose|j: int| 0 <= j < pre.len() && (#[trigger] pre[j]).0@ == name@;
                        assert(pre[j] == needed@[j]);
                        assert(needed@[j].0@ != needed@[i as int].0@);
                    }
                }
                assert(has_name(needed@, name@)) by {
                    assert(needed@[i as int].0@ == name@);
                }
            }
            match find_file(files, &name) {
                Some(f) => {
                    let data = book_from_json(&files[f].1, &needed[i].1);
                    let bname = needed[i].0.clone();
                    let ghost old_books = books@;
                    proof {
                        assert(!has_key(book_entries(old_books), name@)) by {
                            if has_key(book_entries(old_books), name@) {
                                assert(assoc(book_entries(old_books)).contains_key(name@));
                            }
                        }
                    }
                    books.push((bname, data));
                    proof {
                        assert(book_entries(books@) =~= book_entries(old_books).push((name@, data.chapter_map())));
                        lemma_assoc_push(book_entries(old_books), name@, data.chapter_map());
                        assert(needed@[i as int].1@.to_set() == requested(chapters@, name@));
                    }
                },
                None => {},
            }
            i += 1;
        }
        proof {
            assert(needed@.take(needed@.len() as int) =~= needed@);
        }
        Bible { books }
    }

    /// The verses of a chapter, if it is loaded.
    pub fn get_chapter(&self, book: &str, chapter: u16) -> (res: Option<&Vec<Verse>>)
        requires
            self.wf(),
        ensures
            match res {
                Some(vs) => self.chapter_spec(book@, chapter) == Some(vs@),
                None => self.chapter_spec(book@, chapter) is None,
            },
    {
        let name = chars_of(book);
        let mut i: usize = 0;
        while i < self.books.len()
            invariant
                i <= self.books.len(),
                name@ == book@,
                forall|j: int| 0 <= j < i ==> self.books@[j].0@ != book@,
                self.wf(),
            decreases self.books.len() - i,
        {
            let k = chars_of(self.books[i].0.as_str());
            if compare_chars(&k, &name) == 0 {
                proof {
                    assert(book_entries(self.books@)[i as int] == (self.books@[i as int].0@, self.books@[i as int].1.chapter_map()));
                    lemma_assoc_at(book_entries(self.books@), i as int);
                }
                return self.books[i].1.chapters.get(&chapter);
            }
            i += 1;
        }
        proof {
            assert forall|j: int| 0 <= j < book_entries(self.books@).len() implies (#[trigger] book_entries(self.books@)[j]).0 != book@ by {
                assert(book_entries(self.books@)[j].0 == self.books@[j].0@);
            }
            lemma_assoc_absent(book_entries(self.books@), book@);
        }
        None
    }
}

} // verus!
