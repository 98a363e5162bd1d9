//! Book records of the reading list, and how they are filled from a book
//! found by a search.
use vstd::prelude::*;

use crate::gbooks::{summary_line, summary_text, GBook};
use crate::markup::{converted, parse_text, FragmentView, ParseError, RichText};
use crate::text::{copy_opt, copy_strings, opt_text, same_text, texts};

verus! {

/// A book record of the reading list.
#[derive(Debug, Clone)]
pub struct NotionBookEntry {
    pub id: Option<String>,
    pub title: String,
    pub owned: bool,
    pub authors: Vec<String>,
    pub publisher: Option<String>,
    pub published_date: Option<String>,
    pub isbn: Option<String>,
    pub cover_url: Option<String>,
    /// The record's identifier of each author, where it has one.
    pub author_ids: Vec<Option<String>>,
    pub publisher_id: Option<String>,
    /// Whether the record had a page body when it was read. Only the one
    /// formatted paragraph that `description` stands for can be written, so a
    /// record that had a body keeps it.
    pub had_original_description: bool,
    pub description: Option<RichText>,
}

impl NotionBookEntry {
    /// The one-line listing of the record, as `summary_text` describes it.
    pub fn summary(&self) -> (r: String)
        ensures
            r@ == summary_text(
                self.title@,
                texts(self.authors@),
                opt_text(self.publisher),
                opt_text(self.published_date),
                opt_text(self.isbn),
            ),
    {
        summary_line(&self.title, &self.authors, &self.publisher, &self.published_date, &self.isbn)
    }
}

/// The fragments of an optional styled text.
pub open spec fn rich_view(d: Option<RichText>) -> Option<Seq<FragmentView>> {
    match d {
        Some(t) => Some(t@),
        None => None,
    }
}

/// The styled description that a book's description text converts to:
/// `Some(None)` where it has none, `None` where the text does not convert.
pub open spec fn description_of(text: Option<String>) -> Option<Option<Seq<FragmentView>>> {
    match text {
        None => Some(None),
        Some(t) => match converted(t@) {
            Some(fs) => Some(Some(fs)),
            None => None,
        },
    }
}

/// `n` authors with no identifier.
pub open spec fn no_ids(n: nat) -> Seq<Option<String>> {
    Seq::new(n, |_i: int| None::<String>)
}

fn make_no_ids(n: usize) -> (r: Vec<Option<String>>)
    ensures
        r@ == no_ids(n as nat),
{
    let mut r: Vec<Option<String>> = Vec::new();
    let mut k: usize = 0;
    while k < n
        invariant
            k <= n,
            r@ == no_ids(k as nat),
        decreases n - k,
    {
        r.push(None);
        k = k + 1;
        assert(r@ =~= no_ids(k as nat));
    }
    r
}

/// The styled description of a book, converted from its description text.
pub fn make_description(gbook: &GBook) -> (r: Result<Option<RichText>, ParseError>)
    ensures
        match r {
            Ok(d) => description_of(gbook.description) == Some(rich_view(d)),
            Err(_) => description_of(gbook.description) is None,
        },
{
    match &gbook.description {
        Some(text) => match parse_text(text.as_str()) {
            Ok(rich) => Ok(Some(rich)),
            Err(e) => Err(e),
        },
        None => Ok(None),
    }
}

/// A new record for a book, marked owned or not.
pub fn create_notion_entry_from_gbook(gbook: &GBook, owned: bool) -> (r: Result<
    NotionBookEntry,
    ParseError,
>)
    ensures
        r is Err <==> description_of(gbook.description) is None,
        r matches Ok(e) ==> {
            &&& e.id is None
            &&& e.owned == owned
            &&& e.title == gbook.title
            &&& e.authors@ == gbook.authors@
            &&& e.author_ids@ == no_ids(gbook.authors@.len())
            &&& e.publisher == gbook.publisher
            &&& e.publisher_id is None
            &&& e.published_date == gbook.published_date
            &&& e.isbn == gbook.isbn
            &&& e.cover_url == gbook.image_link
            &&& description_of(gbook.description) == Some(rich_view(e.description))
            &&& !e.had_original_description
        },
{
    let description = match make_description(gbook) {
        Ok(d) => d,
        Err(e) => return Err(e),
    };
    Ok(
        NotionBookEntry {
            id: None,
            owned,
            title: gbook.title.clone(),
            authors: copy_strings(&gbook.authors),
            author_ids: make_no_ids(gbook.authors.len()),
            publisher: copy_opt(&gbook.publisher),
            publisher_id: None,
            published_date: copy_opt(&gbook.published_date),
            isbn: copy_opt(&gbook.isbn),
            cover_url: copy_opt(&gbook.image_link),
            description,
            had_original_description: false,
        },
    )
}

/// Fills the gaps of a record from a book: authors where it has none (with no
/// author identifiers), publisher (with no publisher identifier), date, ISBN
/// and cover where it lacks them, and the description where the record had no
/// page body. Nothing else changes; where the description does not convert,
/// it stays as it was and the error is returned.
pub fn update_notion_entry_from_gbook(entry: &mut NotionBookEntry, gbook: &GBook) -> (r: Result<
    (),
    ParseError,
>)
    ensures
        final(entry).id == old(entry).id,
        final(entry).title == old(entry).title,
        final(entry).owned == old(entry).owned,
        final(entry).had_original_description == old(entry).had_original_description,
        old(entry).authors@.len() == 0 ==> final(entry).authors@ == gbook.authors@
            && final(entry).author_ids@ == no_ids(gbook.authors@.len()),
        old(entry).authors@.len() != 0 ==> final(entry).authors == old(entry).authors
            && final(entry).author_ids == old(entry).author_ids,
        old(entry).publisher is None ==> final(entry).publisher == gbook.publisher
            && final(entry).publisher_id is None,
        old(entry).publisher is Some ==> final(entry).publisher == old(entry).publisher
            && final(entry).publisher_id == old(entry).publisher_id,
        final(entry).published_date == if old(entry).published_date is None {
            gbook.published_date
        } else {
            old(entry).published_date
        },
        final(entry).isbn == if old(entry).isbn is None {
            gbook.isbn
        } else {
            old(entry).isbn
        },
        final(entry).cover_url == if old(entry).cover_url is None {
            gbook.image_link
        } else {
            old(entry).cover_url
        },
        r is Err <==> !old(entry).had_original_description && description_of(gbook.description) is None,
        r is Ok && !old(entry).had_original_description ==> description_of(gbook.description)
            == Some(rich_view(final(entry).description)),
        r is Err || old(entry).had_original_description ==> rich_view(final(entry).description)
            == rich_view(old(entry).description),
{
    if entry.authors.len() == 0 {
        entry.authors = copy_strings(&gbook.authors);
        entry.author_ids = make_no_ids(entry.authors.len());
    }
    if entry.publisher.is_none() {
        entry.publisher = copy_opt(&gbook.publisher);
        entry.publisher_id = None;
    }
    if entry.published_date.is_none() {
        entry.published_date = copy_opt(&gbook.published_date);
    }
    if entry.isbn.is_none() {
        entry.isbn = copy_opt(&gbook.isbn);
    }
    if entry.cover_url.is_none() {
        entry.cover_url = copy_opt(&gbook.image_link);
    }
    if !entry.had_original_description {
        match make_description(gbook) {
            Ok(d) => entry.description = d,
            Err(e) => return Err(e),
        }
    }
    Ok(())
}

/// What to do with a chosen book, given matching records.
#[derive(Debug, Clone, Copy, PartialEq, Eq, Structural)]
pub enum EntryAction {
    CreateNew,
    /// Update the record at this position of the matches.
    Update(usize),
}

/// The action for a choice among `0` (a new record) and `k + 1` (the match at
/// position `k`).
pub fn action_for_choice(choice: usize) -> (r: EntryAction)
    ensures
        choice == 0 ==> r == EntryAction::CreateNew,
        choice > 0 ==> r == EntryAction::Update((choice - 1) as usize),
{
    if choice == 0 {
        EntryAction::CreateNew
    } else {
        EntryAction::Update(choice - 1)
    }
}

/// Whether an answer confirms creating a record: `Y`, `y`, `Yes` or `yes`.
pub fn confirms(answer: &str) -> (r: bool)
    ensures
        r == (answer@ == "Y"@ || answer@ == "y"@ || answer@ == "Yes"@ || answer@ == "yes"@),
{
    same_text(answer, "Y") || same_text(answer, "y") || same_text(answer, "Yes") || same_text(
        answer,
        "yes",
    )
}

} // verus!
