//! Scripture modules: the verse records of a data file, checked in one forward pass
//! to form books of consecutively numbered chapters and verses.

use vstd::prelude::*;
use crate::ref_id::{AtomView, RefId, RefIdView};

verus! {

/// The configuration of a scripture module. `books` pairs each book code with its
/// full name.
#[derive(Debug)]
pub struct BibleConfig {
    pub name: String,
    pub description: String,
    pub language: String,
    pub pub_year: Option<u32>,
    pub data_source: Option<String>,
    pub books: Vec<(String, String)>,
}

#[derive(Debug)]
pub struct BibleModule {
    pub name: String,
    pub description: String,
    pub language: String,
    pub pub_year: Option<u32>,
    pub source: BibleSource,
}

impl BibleModule {
    /// Builds a scripture module from its configuration and the verse records of its
    /// data file (see `BibleSource::from_file`).
    pub fn load(config: BibleConfig, verses: Vec<Verse>, lines: &Vec<usize>) -> (r: Result<
        BibleModule,
        SourceError,
    >)
        requires
            lines@.len() == verses@.len(),
            verses@.len() < u32::MAX,
            forall|i: int| 0 <= i < lines@.len() ==> lines@[i] < usize::MAX,
        ensures
            match books_spec(verses@, lines@, config.books@) {
                Ok(infos) => r is Ok && infos_view(r->Ok_0.source.book_infos@) == infos
                    && r->Ok_0.source.verses@ == verses@ && r->Ok_0.name == config.name
                    && r->Ok_0.description == config.description && r->Ok_0.language
                    == config.language && r->Ok_0.pub_year == config.pub_year,
                Err(e) => r is Err && r->Err_0@ == e,
            },
            r is Ok ==> r->Ok_0.source.wf(),
    {
        let source = match BibleSource::from_file(verses, lines, &config.books) {
            Ok(s) => s,
            Err(e) => {
                return Err(e);
            },
        };
        Ok(
            BibleModule {
                name: config.name,
                description: config.description,
                language: config.language,
                pub_year: config.pub_year,
                source,
            },
        )
    }
}

/// One word of a verse, with its styling.
#[derive(Debug)]
pub struct Word {
    pub red: Option<bool>,
    pub italics: Option<bool>,
    pub begin_punc: Option<String>,
    pub end_punc: Option<String>,
    pub text: String,
}

/// One verse record: its address and its words.
#[derive(Debug)]
pub struct Verse {
    pub id: RefId,
    pub words: Vec<Word>,
}

/// What the validator derives of one book: its full name, its code, its ordinal
/// and the number of verses in each chapter (`chapters[c - 1]` for chapter `c`).
#[derive(Debug)]
pub struct BookInfo {
    pub name: String,
    pub osis_id: String,
    pub index: u32,
    pub chapters: Vec<u32>,
}

pub struct BookInfoView {
    pub name: Seq<char>,
    pub osis_id: Seq<char>,
    pub index: u32,
    pub chapters: Seq<u32>,
}

impl View for BookInfo {
    type V = BookInfoView;

    open spec fn view(&self) -> BookInfoView {
        BookInfoView {
            name: self.name@,
            osis_id: self.osis_id@,
            index: self.index,
            chapters: self.chapters@,
        }
    }
}

/// A structural fault of a verse stream, with the 1-based line it was found on.
#[derive(Debug)]
pub enum SourceError {
    /// The record's address is not of the form `book.chapter.verse`.
    NotVerseForm { line: usize },
    /// A book ended whose code has no full name in the configuration; the line is
    /// that of the book's last record.
    MissingBookName { book: String, line: usize },
    /// A book started again after another book had started.
    BookOutOfOrder { book: String, line: usize },
    /// A chapter number that neither continues nor follows the current chapter.
    ChapterOutOfOrder { line: usize },
    /// A verse number that does not follow the previous verse of its chapter.
    VerseOutOfOrder { line: usize },
}

pub enum SourceErrorView {
    NotVerseForm { line: usize },
    MissingBookName { book: Seq<char>, line: usize },
    BookOutOfOrder { book: Seq<char>, line: usize },
    ChapterOutOfOrder { line: usize },
    VerseOutOfOrder { line: usize },
}

impl View for SourceError {
    type V = SourceErrorView;

    open spec fn view(&self) -> SourceErrorView {
        match self {
            SourceError::NotVerseForm { line } => SourceErrorView::NotVerseForm { line: *line },
            SourceError::MissingBookName { book, line } => SourceErrorView::MissingBookName {
                book: book@,
                line: *line,
            },
            SourceError::BookOutOfOrder { book, line } => SourceErrorView::BookOutOfOrder {
                book: book@,
                line: *line,
            },
            SourceError::ChapterOutOfOrder { line } => SourceErrorView::ChapterOutOfOrder {
                line: *line,
            },
            SourceError::VerseOutOfOrder { line } => SourceErrorView::VerseOutOfOrder {
                line: *line,
            },
        }
    }
}

/// The state of the forward pass: the books closed so far, in order, and the book
/// being read, with its verse tally per chapter.
pub struct ScanState {
    pub closed: Seq<BookInfoView>,
    pub open: Option<(Seq<char>, Seq<u32>)>,
}

pub open spec fn scan_start() -> ScanState {
    ScanState { closed: seq![], open: None }
}

/// Index of the first entry of `books` with code `code`.
pub open spec fn name_index(books: Seq<(String, String)>, code: Seq<char>) -> Option<int>
    decreases books.len(),
{
    if books.len() == 0 {
        None
    } else {
        match name_index(books.drop_last(), code) {
            Some(i) => Some(i),
            None => if books.last().0@ == code {
                Some(books.len() - 1)
            } else {
                None
            },
        }
    }
}

/// Closing the open book, if any: its full name is looked up and its information
/// takes the next ordinal.
pub open spec fn close_spec(st: ScanState, books: Seq<(String, String)>, line: usize) -> Result<
    ScanState,
    SourceErrorView,
> {
    match st.open {
        None => Ok(st),
        Some((code, tally)) => match name_index(books, code) {
            None => Err(SourceErrorView::MissingBookName { book: code, line }),
            Some(i) => Ok(
                ScanState {
                    closed: st.closed.push(
                        BookInfoView {
                            name: books[i].1@,
                            osis_id: code,
                            index: st.closed.len() as u32,
                            chapters: tally,
                        },
                    ),
                    open: None,
                },
            ),
        },
    }
}

/// Opening a book: it must not be among the books already closed.
pub open spec fn open_spec(st: ScanState, code: Seq<char>, line: usize) -> Result<
    ScanState,
    SourceErrorView,
> {
    if exists|j: int| 0 <= j < st.closed.len() && #[trigger] st.closed[j].osis_id == code {
        Err(SourceErrorView::BookOutOfOrder { book: code, line })
    } else {
        Ok(ScanState { closed: st.closed, open: Some((code, seq![0u32])) })
    }
}

/// Continuing the current chapter, or opening the next one once the current one
/// holds a verse.
pub open spec fn chapter_spec(tally: Seq<u32>, chapter: u32, line: usize) -> Result<
    Seq<u32>,
    SourceErrorView,
> {
    if tally.len() > 0 && tally.last() > 0 && chapter == tally.len() + 1 {
        Ok(tally.push(0))
    } else if chapter == tally.len() {
        Ok(tally)
    } else {
        Err(SourceErrorView::ChapterOutOfOrder { line })
    }
}

/// Counting the next verse of the current chapter.
pub open spec fn verse_spec(tally: Seq<u32>, verse: u32, line: usize) -> Result<
    Seq<u32>,
    SourceErrorView,
> {
    if tally.len() > 0 && verse == tally.last() + 1 {
        Ok(tally.update(tally.len() - 1, verse))
    } else {
        Err(SourceErrorView::VerseOutOfOrder { line })
    }
}

/// The state after the record at address `id` on 1-based line `line`; a book that
/// this record ends is closed on `prev_line`, the line of the record before.
pub open spec fn step_spec(
    st: ScanState,
    books: Seq<(String, String)>,
    id: RefIdView,
    line: usize,
    prev_line: usize,
) -> Result<ScanState, SourceErrorView> {
    match id {
        RefIdView::Single(a) if a.1.len() == 2 => {
            let code = a.0;
            let opened = if st.open is Some && (st.open->0).0 == code {
                Ok(st)
            } else {
                match close_spec(st, books, prev_line) {
                    Err(e) => Err(e),
                    Ok(s1) => open_spec(s1, code, line),
                }
            };
            match opened {
                Err(e) => Err(e),
                Ok(s2) => match chapter_spec((s2.open->0).1, a.1[0], line) {
                    Err(e) => Err(e),
                    Ok(t1) => match verse_spec(t1, a.1[1], line) {
                        Err(e) => Err(e),
                        Ok(t2) => Ok(ScanState { closed: s2.closed, open: Some((code, t2)) }),
                    },
                },
            }
        },
        _ => Err(SourceErrorView::NotVerseForm { line }),
    }
}

/// The state after the first `n` records.
pub open spec fn scan_spec(
    verses: Seq<Verse>,
    lines: Seq<usize>,
    books: Seq<(String, String)>,
    n: nat,
) -> Result<ScanState, SourceErrorView>
    decreases n,
{
    if n == 0 {
        Ok(scan_start())
    } else {
        match scan_spec(verses, lines, books, (n - 1) as nat) {
            Err(e) => Err(e),
            Ok(st) => step_spec(
                st,
                books,
                verses[n - 1].id@,
                (lines[n - 1] + 1) as usize,
                if n >= 2 {
                    (lines[n - 2] + 1) as usize
                } else {
                    0
                },
            ),
        }
    }
}

/// The books of a whole stream: every record read, then the last book closed on the
/// line of the last record.
pub open spec fn books_spec(
    verses: Seq<Verse>,
    lines: Seq<usize>,
    books: Seq<(String, String)>,
) -> Result<Seq<BookInfoView>, SourceErrorView> {
    match scan_spec(verses, lines, books, verses.len()) {
        Err(e) => Err(e),
        Ok(st) => match close_spec(
            st,
            books,
            if verses.len() > 0 {
                (lines[verses.len() - 1] + 1) as usize
            } else {
                0
            },
        ) {
            Err(e) => Err(e),
            Ok(fin) => Ok(fin.closed),
        },
    }
}

pub open spec fn infos_view(infos: Seq<BookInfo>) -> Seq<BookInfoView> {
    infos.map_values(|b: BookInfo| b@)
}

/// The accumulator of the forward pass.
pub struct BookScan {
    pub infos: Vec<BookInfo>,
    pub current: Option<String>,
    pub chapters: Vec<u32>,
}

impl View for BookScan {
    type V = ScanState;

    open spec fn view(&self) -> ScanState {
        ScanState {
            closed: infos_view(self.infos@),
            open: match self.current {
                Some(c) => Some((c@, self.chapters@)),
                None => None,
            },
        }
    }
}

fn same_code(a: &String, b: &str) -> (r: bool)
    ensures
        r == (a@ == b@),
{
    let t = String::from_str(b);
    a.eq(&t)
}

/// The full name that `books` gives to `code`, from its first entry with that code.
pub fn find_book_name<'a>(books: &'a Vec<(String, String)>, code: &String) -> (r: Option<&'a String>)
    ensures
        match name_index(books@, code@) {
            None => r is None,
            Some(i) => r is Some && r->0 == books@[i].1,
        },
{
    let mut i: usize = 0;
    while i < books.len()
        invariant
            i <= books@.len(),
            name_index(books@.subrange(0, i as int), code@) is None,
        decreases books@.len() - i,
    {
        assert(books@.subrange(0, i + 1).drop_last() =~= books@.subrange(0, i as int));
        if books[i].0.eq(code) {
            proof {
                lemma_name_index_prefix(books@, i + 1, code@);
            }
            return Some(&books[i].1);
        }
        i = i + 1;
    }
    assert(books@.subrange(0, i as int) =~= books@);
    None
}

proof fn lemma_name_index_prefix(books: Seq<(String, String)>, n: int, code: Seq<char>)
    requires
        0 <= n <= books.len(),
        name_index(books.subrange(0, n), code) is Some,
    ensures
        name_index(books, code) == name_index(books.subrange(0, n), code),
    decreases books.len() - n,
{
    if n == books.len() {
        assert(books.subrange(0, n) =~= books);
    } else {
        assert(books.subrange(0, n + 1).drop_last() =~= books.subrange(0, n));
        lemma_name_index_prefix(books, n + 1, code);
    }
}

impl BookScan {
    pub open spec fn wf(&self) -> bool {
        &&& forall|i: int| 0 <= i < self.infos@.len() ==> #[trigger] self.infos@[i].index == i
        &&& self.current is Some ==> self.chapters@.len() > 0
    }

    pub fn new() -> (r: BookScan)
        ensures
            r@ == scan_start(),
            r.wf(),
            r.infos@.len() == 0,
    {
        let r = BookScan { infos: Vec::new(), current: None, chapters: Vec::new() };
        assert(r@.closed =~= scan_start().closed);
        r
    }

    /// Closes the open book, if any, on the 1-based line `line`.
    pub fn close_book(&mut self, books: &Vec<(String, String)>, line: usize) -> (r: Result<
        (),
        SourceError,
    >)
        requires
            old(self).wf(),
            old(self).infos@.len() < u32::MAX,
        ensures
            final(self).wf(),
            final(self).infos@.len() <= old(self).infos@.len() + 1,
            match close_spec(old(self)@, books@, line) {
                Ok(st) => r is Ok && final(self)@ == st && final(self).current is None,
                Err(e) => r is Err && r->Err_0@ == e,
            },
    {
        let code = match self.current.take() {
            None => {
                return Ok(());
            },
            Some(c) => c,
        };
        let name = match find_book_name(books, &code) {
            None => {
                return Err(SourceError::MissingBookName { book: code, line });
            },
            Some(n) => n.clone(),
        };
        let index = self.infos.len() as u32;
        let mut chapters: Vec<u32> = Vec::new();
        std::mem::swap(&mut chapters, &mut self.chapters);
        let ghost before = self.infos@;
        self.infos.push(BookInfo { name, osis_id: code, index, chapters });
        assert(infos_view(self.infos@) =~= infos_view(before).push(self.infos@.last()@));
        Ok(())
    }

    /// Opens the book `code` on the 1-based line `line`; no book is open.
    pub fn open_book(&mut self, code: &str, line: usize) -> (r: Result<(), SourceError>)
        requires
            old(self).wf(),
            old(self).current is None,
        ensures
            final(self).wf(),
            final(self).infos@ == old(self).infos@,
            match open_spec(old(self)@, code@, line) {
                Ok(st) => r is Ok && final(self)@ == st,
                Err(e) => r is Err && r->Err_0@ == e,
            },
    {
        let mut j: usize = 0;
        while j < self.infos.len()
            invariant
                self.wf(),
                self.current is None,
                self.infos@ == old(self).infos@,
                j <= self.infos@.len(),
                forall|k: int| 0 <= k < j ==> #[trigger] self.infos@[k].osis_id@ != code@,
            decreases self.infos@.len() - j,
        {
            if same_code(&self.infos[j].osis_id, code) {
                assert(infos_view(self.infos@)[j as int].osis_id == code@);
                return Err(SourceError::BookOutOfOrder { book: String::from_str(code), line });
            }
            j = j + 1;
        }
        assert(!exists|k: int|
            0 <= k < self@.closed.len() && #[trigger] self@.closed[k].osis_id == code@) by {
            assert forall|k: int| 0 <= k < self@.closed.len() implies self@.closed[k].osis_id
                != code@ by {
                assert(self@.closed[k] == self.infos@[k]@);
            }
        }
        self.current = Some(String::from_str(code));
        self.chapters = vec![0];
        assert(self.chapters@ =~= seq![0u32]);
        Ok(())
    }

    /// Takes the chapter and verse numbers of the next verse of the open book.
    pub fn advance(&mut self, chapter: u32, verse: u32, line: usize) -> (r: Result<
        (),
        SourceError,
    >)
        requires
            old(self).wf(),
            old(self).current is Some,
        ensures
            final(self).wf(),
            final(self).infos@ == old(self).infos@,
            final(self).current == old(self).current,
            match chapter_spec(old(self).chapters@, chapter, line) {
                Err(e) => r is Err && r->Err_0@ == e,
                Ok(t1) => match verse_spec(t1, verse, line) {
                    Err(e) => r is Err && r->Err_0@ == e,
                    Ok(t2) => r is Ok && final(self).chapters@ == t2,
                },
            },
    {
        let n = self.chapters.len();
        if chapter as usize > n && chapter as usize - 1 == n && self.chapters[n - 1] > 0 {
            self.chapters.push(0);
        } else if chapter as usize != n {
            return Err(SourceError::ChapterOutOfOrder { line });
        }
        let last = self.chapters.len() - 1;
        let tally = self.chapters[last];
        if verse as u64 == tally as u64 + 1 {
            self.chapters.set(last, verse);
            Ok(())
        } else {
            Err(SourceError::VerseOutOfOrder { line })
        }
    }

    /// Takes the record at address `id`, found on the 1-based line `line`; the record
    /// before it is on the 1-based line `prev_line`.
    pub fn step(
        &mut self,
        books: &Vec<(String, String)>,
        id: &RefId,
        line: usize,
        prev_line: usize,
    ) -> (r: Result<(), SourceError>)
        requires
            old(self).wf(),
            old(self).infos@.len() < u32::MAX,
        ensures
            final(self).wf(),
            final(self).infos@.len() <= old(self).infos@.len() + 1,
            match step_spec(old(self)@, books@, id@, line, prev_line) {
                Ok(st) => r is Ok && final(self)@ == st,
                Err(e) => r is Err && r->Err_0@ == e,
            },
    {
        let (book, chapter, verse) = match id.get_verse_components() {
            Some(c) => c,
            None => {
                return Err(SourceError::NotVerseForm { line });
            },
        };
        let continuing = match &self.current {
            Some(c) => same_code(c, book),
            None => false,
        };
        if !continuing {
            match self.close_book(books, prev_line) {
                Err(e) => {
                    return Err(e);
                },
                Ok(()) => {},
            }
            match self.open_book(book, line) {
                Err(e) => {
                    return Err(e);
                },
                Ok(()) => {},
            }
        }
        let ghost mid = self@;
        let r = self.advance(chapter, verse, line);
        proof {
            if r is Ok {
                assert(self@ == ScanState { closed: mid.closed, open: Some((book@, self.chapters@)) });
            }
        }
        r
    }
}

/// The checked text of a scripture module: its books and its verses.
#[derive(Debug)]
pub struct BibleSource {
    pub book_infos: Vec<BookInfo>,
    pub verses: Vec<Verse>,
}

impl BibleSource {
    /// What a checked source keeps: no two verses share an address, each book's
    /// ordinal is its position, and every chapter of every book holds a verse.
    pub open spec fn wf(&self) -> bool {
        &&& forall|i: int, j: int|
            0 <= i < j < self.verses@.len() ==> #[trigger] self.verses@[i].id@
                != #[trigger] self.verses@[j].id@
        &&& forall|i: int|
            0 <= i < self.book_infos@.len() ==> #[trigger] self.book_infos@[i].index == i
        &&& forall|i: int|
            0 <= i < self.book_infos@.len() ==> counts_ok(#[trigger] self.book_infos@[i].chapters@)
    }

    /// Checks the verse records of a data file, given in file order with the 0-based
    /// line each came from, against the book names of the configuration, and indexes
    /// them. The first structural fault ends the check.
    pub fn from_file(verses: Vec<Verse>, lines: &Vec<usize>, books: &Vec<(String, String)>) -> (r:
        Result<BibleSource, SourceError>)
        requires
            lines@.len() == verses@.len(),
            verses@.len() < u32::MAX,
            forall|i: int| 0 <= i < lines@.len() ==> lines@[i] < usize::MAX,
        ensures
            match books_spec(verses@, lines@, books@) {
                Ok(infos) => r is Ok && infos_view(r->Ok_0.book_infos@) == infos
                    && r->Ok_0.verses@ == verses@,
                Err(e) => r is Err && r->Err_0@ == e,
            },
            r is Ok ==> r->Ok_0.wf(),
    {
        let mut scan = BookScan::new();
        let mut i: usize = 0;
        while i < verses.len()
            invariant
                i <= verses@.len(),
                lines@.len() == verses@.len(),
                verses@.len() < u32::MAX,
                forall|k: int| 0 <= k < lines@.len() ==> lines@[k] < usize::MAX,
                scan.wf(),
                scan.infos@.len() <= i,
                scan_spec(verses@, lines@, books@, i as nat) == Ok::<ScanState, SourceErrorView>(
                    scan@,
                ),
            decreases verses@.len() - i,
        {
            let prev_line = if i > 0 {
                lines[i - 1] + 1
            } else {
                0
            };
            match scan.step(books, &verses[i].id, lines[i] + 1, prev_line) {
                Err(e) => {
                    proof {
                        lemma_scan_stops(verses@, lines@, books@, (i + 1) as nat);
                    }
                    return Err(e);
                },
                Ok(()) => {},
            }
            i = i + 1;
        }
        let last_line = if verses.len() > 0 {
            lines[verses.len() - 1] + 1
        } else {
            0
        };
        match scan.close_book(books, last_line) {
            Err(e) => Err(e),
            Ok(()) => {
                let src = BibleSource { book_infos: scan.infos, verses };
                proof {
                    lemma_validated_addresses_distinct(src.verses@, lines@, books@);
                    lemma_validated_counts_positive(src.verses@, lines@, books@);
                    assert forall|i: int| 0 <= i < src.book_infos@.len() implies counts_ok(
                        #[trigger] src.book_infos@[i].chapters@,
                    ) by {
                        let infos = books_spec(src.verses@, lines@, books@)->Ok_0;
                        assert(infos_view(src.book_infos@) == infos);
                        assert(infos_view(src.book_infos@)[i] == src.book_infos@[i]@);
                        assert(counts_ok(infos[i].chapters));
                    }
                }
                Ok(src)
            },
        }
    }

    /// The verse with address `id`, if there is one.
    pub fn get_verse(&self, id: &RefId) -> (r: Option<&Verse>)
        ensures
            match r {
                Some(v) => exists|i: int|
                    0 <= i < self.verses@.len() && self.verses@[i] == v && v.id@ == id@,
                None => forall|i: int|
                    0 <= i < self.verses@.len() ==> #[trigger] self.verses@[i].id@ != id@,
            },
    {
        let mut i: usize = 0;
        while i < self.verses.len()
            invariant
                i <= self.verses@.len(),
                forall|k: int| 0 <= k < i ==> #[trigger] self.verses@[k].id@ != id@,
            decreases self.verses@.len() - i,
        {
            if self.verses[i].id == *id {
                return Some(&self.verses[i]);
            }
            i = i + 1;
        }
        None
    }

    /// Whether some verse has address `id`.
    pub fn contains(&self, id: &RefId) -> (r: bool)
        ensures
            r == exists|i: int| 0 <= i < self.verses@.len() && #[trigger] self.verses@[i].id@ == id@,
    {
        match self.get_verse(id) {
            Some(_) => true,
            None => false,
        }
    }

    /// The information of the book with ordinal `index`.
    pub fn book_info(&self, index: u32) -> (r: Option<&BookInfo>)
        ensures
            match r {
                Some(b) => exists|i: int|
                    0 <= i < self.book_infos@.len() && self.book_infos@[i] == b && b.index == index,
                None => forall|i: int|
                    0 <= i < self.book_infos@.len() ==> #[trigger] self.book_infos@[i].index
                        != index,
            },
    {
        let mut i: usize = 0;
        while i < self.book_infos.len()
            invariant
                i <= self.book_infos@.len(),
                forall|k: int| 0 <= k < i ==> #[trigger] self.book_infos@[k].index != index,
            decreases self.book_infos@.len() - i,
        {
            if self.book_infos[i].index == index {
                return Some(&self.book_infos[i]);
            }
            i = i + 1;
        }
        None
    }
}

proof fn lemma_scan_stops(
    verses: Seq<Verse>,
    lines: Seq<usize>,
    books: Seq<(String, String)>,
    n: nat,
)
    requires
        n <= verses.len(),
        scan_spec(verses, lines, books, n) is Err,
    ensures
        books_spec(verses, lines, books) == Err::<Seq<BookInfoView>, SourceErrorView>(
            scan_spec(verses, lines, books, n)->Err_0,
        ),
    decreases verses.len() - n,
{
    if n < verses.len() {
        lemma_scan_stops(verses, lines, books, n + 1);
    }
}

/// The address of record `k`, read as a verse address.
pub open spec fn verse_address(verses: Seq<Verse>, k: int) -> AtomView {
    verses[k].id@->Single_0
}

/// Where the pass has accounted for a verse address: in a closed book, or in the
/// open book at or before the last verse counted in its chapter.
pub open spec fn placed(st: ScanState, a: AtomView) -> bool {
    ||| exists|j: int| 0 <= j < st.closed.len() && #[trigger] st.closed[j].osis_id == a.0
    ||| {
        &&& st.open is Some
        &&& (st.open->0).0 == a.0
        &&& 1 <= a.1[0] <= (st.open->0).1.len()
        &&& a.1[1] <= (st.open->0).1[a.1[0] - 1]
    }
}

/// A tally of at least one chapter, each holding at least one verse.
pub open spec fn counts_ok(tally: Seq<u32>) -> bool {
    tally.len() > 0 && forall|c: int| 0 <= c < tally.len() ==> #[trigger] tally[c] >= 1
}

pub open spec fn scan_inv(verses: Seq<Verse>, n: int, st: ScanState) -> bool {
    &&& 0 <= n <= verses.len()
    &&& forall|k: int|
        0 <= k < n ==> #[trigger] verses[k].id@ is Single && verse_address(verses, k).1.len() == 2
    &&& forall|k: int| 0 <= k < n ==> placed(st, #[trigger] verse_address(verses, k))
    &&& forall|k1: int, k2: int|
        0 <= k1 < k2 < n ==> #[trigger] verses[k1].id@ != #[trigger] verses[k2].id@
    &&& st.open is Some ==> counts_ok((st.open->0).1) && forall|j: int|
        0 <= j < st.closed.len() ==> #[trigger] st.closed[j].osis_id != (st.open->0).0
    &&& forall|j: int| 0 <= j < st.closed.len() ==> counts_ok(#[trigger] st.closed[j].chapters)
}

proof fn lemma_step_keeps_inv(
    verses: Seq<Verse>,
    books: Seq<(String, String)>,
    n: int,
    st: ScanState,
    line: usize,
    prev_line: usize,
)
    requires
        0 <= n < verses.len(),
        scan_inv(verses, n, st),
        step_spec(st, books, verses[n].id@, line, prev_line) is Ok,
    ensures
        scan_inv(verses, n + 1, step_spec(st, books, verses[n].id@, line, prev_line)->Ok_0),
{
    let a = verse_address(verses, n);
    let code = a.0;
    let c = a.1[0];
    let v = a.1[1];
    let st2 = step_spec(st, books, verses[n].id@, line, prev_line)->Ok_0;
    assert(verses[n].id@ is Single && a.1.len() == 2);
    if st.open is Some && (st.open->0).0 == code {
        let tally = (st.open->0).1;
        let t2 = (st2.open->0).1;
        assert(st2.closed == st.closed);
        assert(t2.len() >= tally.len());
        assert forall|i: int| 0 <= i < tally.len() implies tally[i] <= #[trigger] t2[i] by {}
        assert(c == tally.len() || c == tally.len() + 1);
        assert(t2[c - 1] == v);
        assert forall|i: int| 0 <= i < t2.len() implies #[trigger] t2[i] >= 1 by {
            if i < tally.len() {
                assert(tally[i] >= 1);
            }
        }
        assert forall|k: int| 0 <= k < n + 1 implies placed(st2, #[trigger] verse_address(verses, k)) by {
            if k < n {
                let b = verse_address(verses, k);
                if exists|j: int| 0 <= j < st.closed.len() && #[trigger] st.closed[j].osis_id == b.0 {
                } else {
                    assert(tally[b.1[0] - 1] <= t2[b.1[0] - 1]);
                }
            }
        }
        assert forall|k1: int, k2: int| 0 <= k1 < k2 < n + 1 implies #[trigger] verses[k1].id@
            != #[trigger] verses[k2].id@ by {
            if k2 == n {
                let b = verse_address(verses, k1);
                assert(placed(st, b));
                if exists|j: int| 0 <= j < st.closed.len() && #[trigger] st.closed[j].osis_id == b.0 {
                    let j = choose|j: int| 0 <= j < st.closed.len() && #[trigger] st.closed[j].osis_id == b.0;
                    assert(st.closed[j].osis_id != code);
                    assert(b.0 != a.0);
                } else {
                    assert(b.1[0] < c || b.1[1] < v);
                    assert(b != a);
                }
            }
        }
    } else {
        let s1 = close_spec(st, books, prev_line)->Ok_0;
        assert(close_spec(st, books, prev_line) is Ok);
        assert(open_spec(s1, code, line) is Ok);
        assert(st2.closed == s1.closed);
        assert((st2.open->0).1 =~= seq![1u32]);
        assert forall|j: int| 0 <= j < st2.closed.len() implies counts_ok(
            #[trigger] st2.closed[j].chapters,
        ) by {
            if j < st.closed.len() {
                assert(st2.closed[j] == st.closed[j]);
            }
        }
        assert forall|k: int| 0 <= k < n + 1 implies placed(st2, #[trigger] verse_address(verses, k)) by {
            if k < n {
                let b = verse_address(verses, k);
                assert(placed(st, b));
                if exists|j: int| 0 <= j < st.closed.len() && #[trigger] st.closed[j].osis_id == b.0 {
                    let j = choose|j: int| 0 <= j < st.closed.len() && #[trigger] st.closed[j].osis_id == b.0;
                    assert(st2.closed[j] == st.closed[j]);
                    assert(st2.closed[j].osis_id == b.0);
                } else {
                    assert(st2.closed[st.closed.len() as int].osis_id == b.0);
                }
            }
        }
        assert forall|k1: int, k2: int| 0 <= k1 < k2 < n + 1 implies #[trigger] verses[k1].id@
            != #[trigger] verses[k2].id@ by {
            if k2 == n {
                let b = verse_address(verses, k1);
                assert(placed(st, b));
                let j = if exists|j: int|
                    0 <= j < st.closed.len() && #[trigger] st.closed[j].osis_id == b.0 {
                    choose|j: int| 0 <= j < st.closed.len() && #[trigger] st.closed[j].osis_id == b.0
                } else {
                    st.closed.len() as int
                };
                assert(st2.closed[j].osis_id == b.0);
                assert(!exists|i: int| 0 <= i < s1.closed.len() && #[trigger] s1.closed[i].osis_id == code);
                assert(st2.closed[j].osis_id != code);
                assert(b.0 != a.0);
            }
        }
    }
}

proof fn lemma_scan_inv(verses: Seq<Verse>, lines: Seq<usize>, books: Seq<(String, String)>, n: nat)
    requires
        n <= verses.len(),
        scan_spec(verses, lines, books, n) is Ok,
    ensures
        scan_inv(verses, n as int, scan_spec(verses, lines, books, n)->Ok_0),
    decreases n,
{
    if n > 0 {
        lemma_scan_inv(verses, lines, books, (n - 1) as nat);
        lemma_step_keeps_inv(
            verses,
            books,
            n - 1,
            scan_spec(verses, lines, books, (n - 1) as nat)->Ok_0,
            (lines[n - 1] + 1) as usize,
            if n >= 2 {
                (lines[n - 2] + 1) as usize
            } else {
                0
            },
        );
    }
}

/// A stream that passes the structural check has no two verses with one address,
/// so its verse index maps each address to a single verse.
pub proof fn lemma_validated_addresses_distinct(
    verses: Seq<Verse>,
    lines: Seq<usize>,
    books: Seq<(String, String)>,
)
    requires
        books_spec(verses, lines, books) is Ok,
    ensures
        forall|i: int, j: int|
            0 <= i < j < verses.len() ==> #[trigger] verses[i].id@ != #[trigger] verses[j].id@,
{
    assert(scan_spec(verses, lines, books, verses.len()) is Ok);
    lemma_scan_inv(verses, lines, books, verses.len());
}

/// Every book of a stream that passes the structural check has at least one
/// chapter, and every chapter at least one verse.
pub proof fn lemma_validated_counts_positive(
    verses: Seq<Verse>,
    lines: Seq<usize>,
    books: Seq<(String, String)>,
)
    requires
        books_spec(verses, lines, books) is Ok,
    ensures
        forall|i: int|
            0 <= i < books_spec(verses, lines, books)->Ok_0.len() ==> counts_ok(
                #[trigger] books_spec(verses, lines, books)->Ok_0[i].chapters,
            ),
{
    let st = scan_spec(verses, lines, books, verses.len())->Ok_0;
    lemma_scan_inv(verses, lines, books, verses.len());
    let infos = books_spec(verses, lines, books)->Ok_0;
    assert forall|i: int| 0 <= i < infos.len() implies counts_ok(#[trigger] infos[i].chapters) by {
        if i < st.closed.len() {
            assert(infos[i] == st.closed[i]);
        }
    }
}

} // verus!
