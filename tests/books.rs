use booksync::entries::{
    action_for_choice, confirms, create_notion_entry_from_gbook, make_description,
    update_notion_entry_from_gbook, EntryAction, NotionBookEntry,
};
use booksync::gbooks::{GBook, ImageLinks, IndustryIdentifier, VolumeInfo};
use booksync::markup::{ParseError, TextFragment, TextStyle};
use booksync::text::remove_commas;

fn s(x: &str) -> String {
    x.to_string()
}

fn identifier(ty: &str, value: &str) -> IndustryIdentifier {
    IndustryIdentifier { ty: s(ty), identifier: s(value) }
}

fn no_links() -> ImageLinks {
    ImageLinks {
        small_thumbnail: None,
        thumbnail: None,
        small: None,
        medium: None,
        large: None,
        extra_large: None,
    }
}

fn volume() -> VolumeInfo {
    VolumeInfo {
        title: s("Dune"),
        authors: Some(vec![s("Frank Herbert")]),
        publisher: Some(s("Chilton")),
        published_date: Some(s("1965")),
        description: Some(s("A <i>desert</i> planet.")),
        industry_identifiers: Some(vec![
            identifier("ISBN_10", "0441172717"),
            identifier("ISBN_13", "9780441172719"),
        ]),
        image_links: Some(ImageLinks {
            thumbnail: Some(s("thumb")),
            medium: Some(s("medium")),
            ..no_links()
        }),
    }
}

fn book() -> GBook {
    GBook::from_volume_info(volume())
}

fn empty_entry() -> NotionBookEntry {
    NotionBookEntry {
        id: Some(s("page-1")),
        title: s("Dune"),
        owned: false,
        authors: vec![],
        publisher: None,
        published_date: None,
        isbn: None,
        cover_url: None,
        author_ids: vec![],
        publisher_id: None,
        had_original_description: false,
        description: None,
    }
}

#[test]
fn isbn_13_is_found() {
    assert_eq!(volume().get_isbn(), Some(s("9780441172719")));
    let mut v = volume();
    v.industry_identifiers = Some(vec![identifier("ISBN_10", "0441172717")]);
    assert_eq!(v.get_isbn(), None);
    v.industry_identifiers = None;
    assert_eq!(v.get_isbn(), None);
    v.industry_identifiers = Some(vec![identifier("ISBN_13", "1"), identifier("ISBN_13", "2")]);
    assert_eq!(v.get_isbn(), Some(s("1")));
}

#[test]
fn largest_image_wins() {
    let links = ImageLinks { thumbnail: Some(s("t")), medium: Some(s("m")), ..no_links() };
    assert_eq!(links.into_largest_image(), Some(s("m")));
    let links = ImageLinks {
        small_thumbnail: Some(s("st")),
        extra_large: Some(s("xl")),
        large: Some(s("l")),
        ..no_links()
    };
    assert_eq!(links.into_largest_image(), Some(s("xl")));
    let links = ImageLinks { small_thumbnail: Some(s("st")), ..no_links() };
    assert_eq!(links.into_largest_image(), Some(s("st")));
    assert_eq!(no_links().into_largest_image(), None);
}

#[test]
fn book_from_volume() {
    let b = book();
    assert_eq!(b.title, "Dune");
    assert_eq!(b.authors, vec![s("Frank Herbert")]);
    assert_eq!(b.isbn, Some(s("9780441172719")));
    assert_eq!(b.image_link, Some(s("medium")));
    let mut v = volume();
    v.authors = None;
    v.image_links = None;
    let b = GBook::from_volume_info(v);
    assert!(b.authors.is_empty());
    assert_eq!(b.image_link, None);
}

#[test]
fn book_summary() {
    let mut b = book();
    b.authors.push(s("Someone Else"));
    assert_eq!(b.summary(), "Dune by Frank Herbert, Someone Else (Chilton, 1965) (9780441172719)");
    b.publisher = None;
    assert_eq!(b.summary(), "Dune by Frank Herbert, Someone Else (1965) (9780441172719)");
    b.published_date = None;
    b.isbn = None;
    assert_eq!(b.summary(), "Dune by Frank Herbert, Someone Else");
    b.publisher = Some(s("Ace"));
    b.authors.clear();
    assert_eq!(b.summary(), "Dune by  (Ace)");
}

#[test]
fn entry_summary() {
    let mut e = empty_entry();
    e.authors = vec![s("A"), s("B")];
    e.isbn = Some(s("123"));
    assert_eq!(e.summary(), "Dune by A, B (123)");
}

#[test]
fn description_is_converted() {
    let d = make_description(&book()).unwrap().unwrap();
    assert_eq!(
        d.fragments,
        vec![
            TextFragment::new("A ", TextStyle::unstyled()),
            TextFragment::new("desert", TextStyle::italic()),
            TextFragment::new(" planet.", TextStyle::unstyled()),
        ]
    );
    let mut b = book();
    b.description = None;
    assert!(make_description(&b).unwrap().is_none());
    b.description = Some(s("bad</i>"));
    assert_eq!(make_description(&b).unwrap_err(), ParseError::UnmatchedClosingTag);
}

#[test]
fn new_entry_from_book() {
    let e = create_notion_entry_from_gbook(&book(), true).unwrap();
    assert_eq!(e.id, None);
    assert!(e.owned);
    assert_eq!(e.title, "Dune");
    assert_eq!(e.authors, vec![s("Frank Herbert")]);
    assert_eq!(e.author_ids, vec![None]);
    assert_eq!(e.publisher, Some(s("Chilton")));
    assert_eq!(e.publisher_id, None);
    assert_eq!(e.published_date, Some(s("1965")));
    assert_eq!(e.isbn, Some(s("9780441172719")));
    assert_eq!(e.cover_url, Some(s("medium")));
    assert_eq!(e.description.unwrap().fragments.len(), 3);
    assert!(!e.had_original_description);
    let mut b = book();
    b.description = Some(s("</b>"));
    assert!(create_notion_entry_from_gbook(&b, false).is_err());
}

#[test]
fn entry_gaps_are_filled() {
    let mut e = empty_entry();
    update_notion_entry_from_gbook(&mut e, &book()).unwrap();
    assert_eq!(e.id, Some(s("page-1")));
    assert_eq!(e.authors, vec![s("Frank Herbert")]);
    assert_eq!(e.author_ids, vec![None]);
    assert_eq!(e.publisher, Some(s("Chilton")));
    assert_eq!(e.published_date, Some(s("1965")));
    assert_eq!(e.isbn, Some(s("9780441172719")));
    assert_eq!(e.cover_url, Some(s("medium")));
    assert!(e.description.is_some());
}

#[test]
fn entry_values_are_kept() {
    let mut e = empty_entry();
    e.authors = vec![s("Herbert")];
    e.author_ids = vec![Some(s("a1"))];
    e.publisher = Some(s("Ace"));
    e.publisher_id = Some(s("p1"));
    e.isbn = Some(s("1"));
    e.had_original_description = true;
    update_notion_entry_from_gbook(&mut e, &book()).unwrap();
    assert_eq!(e.authors, vec![s("Herbert")]);
    assert_eq!(e.author_ids, vec![Some(s("a1"))]);
    assert_eq!(e.publisher, Some(s("Ace")));
    assert_eq!(e.publisher_id, Some(s("p1")));
    assert_eq!(e.isbn, Some(s("1")));
    assert_eq!(e.published_date, Some(s("1965")));
    assert!(e.description.is_none());
}

#[test]
fn entry_update_reports_bad_description() {
    let mut e = empty_entry();
    let mut b = book();
    b.description = Some(s("x</i>"));
    assert_eq!(update_notion_entry_from_gbook(&mut e, &b), Err(ParseError::UnmatchedClosingTag));
    assert!(e.description.is_none());
}

#[test]
fn choices_and_answers() {
    assert_eq!(action_for_choice(0), EntryAction::CreateNew);
    assert_eq!(action_for_choice(3), EntryAction::Update(2));
    assert!(confirms("Y") && confirms("y") && confirms("Yes") && confirms("yes"));
    assert!(!confirms("") && !confirms("no") && !confirms("YES") && !confirms("yes "));
}

#[test]
fn commas_are_removed() {
    assert_eq!(remove_commas("Penguin, Random House, Inc."), "Penguin Random House Inc.");
    assert_eq!(remove_commas(""), "");
    assert_eq!(remove_commas(",,"), "");
}
