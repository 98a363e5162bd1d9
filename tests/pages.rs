use booksync::entries::NotionBookEntry;
use booksync::gbooks::volume_ids;
use booksync::json::Json;
use booksync::markup::{RichText, TextFragment, TextStyle};
use booksync::notion::{
    description_body, entries_from_results, new_page_body, page_update_body,
    properties_from_entry, rich_text_to_block, search_filter, PageError,
};

fn st(s: &str) -> Json {
    Json::Str(s.to_string())
}

fn obj(members: Vec<(&str, Json)>) -> Json {
    Json::Object(members.into_iter().map(|(k, v)| (k.to_string(), v)).collect())
}

fn text_list(t: &str) -> Json {
    Json::Array(vec![obj(vec![("text", obj(vec![("content", st(t))]))])])
}

fn select(name: &str) -> Json {
    obj(vec![("select", obj(vec![("name", st(name))]))])
}

fn runs(t: &str) -> Json {
    Json::Array(vec![obj(vec![("plain_text", st(t))])])
}

fn page() -> Json {
    obj(vec![
        ("id", st("page-1")),
        ("cover", obj(vec![("external", obj(vec![("url", st("http://img"))]))])),
        (
            "properties",
            obj(vec![
                ("Name", obj(vec![("title", runs("Dune"))])),
                (
                    "Authors",
                    obj(vec![(
                        "multi_select",
                        Json::Array(vec![
                            obj(vec![("id", st("a1")), ("name", st("Frank Herbert"))]),
                            obj(vec![("id", st("a2")), ("name", st("Someone"))]),
                        ]),
                    )]),
                ),
                ("Ownership", obj(vec![("select", obj(vec![("name", st("Own"))]))])),
                ("Publisher", obj(vec![("select", obj(vec![("id", st("p1")), ("name", st("Ace"))]))])),
                ("Publish Date", obj(vec![("rich_text", runs("1965"))])),
                ("ISBN", obj(vec![("rich_text", Json::Array(vec![]))])),
            ]),
        ),
    ])
}

fn entry() -> NotionBookEntry {
    NotionBookEntry {
        id: Some("page-1".to_string()),
        title: "Dune".to_string(),
        owned: true,
        authors: vec!["Frank Herbert".to_string(), "Someone".to_string()],
        publisher: Some("Ace, Inc".to_string()),
        published_date: Some("1965".to_string()),
        isbn: None,
        cover_url: Some("http://img".to_string()),
        author_ids: vec![Some("a1".to_string()), None],
        publisher_id: None,
        had_original_description: false,
        description: None,
    }
}

fn members_of(j: &Json) -> &Vec<(String, Json)> {
    match j {
        Json::Object(m) => m,
        _ => panic!("not an object"),
    }
}

#[test]
fn page_is_read() {
    let e = NotionBookEntry::try_from(&page()).unwrap();
    assert_eq!(e.id, Some("page-1".to_string()));
    assert_eq!(e.title, "Dune");
    assert_eq!(e.authors, vec!["Frank Herbert".to_string(), "Someone".to_string()]);
    assert_eq!(e.author_ids, vec![Some("a1".to_string()), Some("a2".to_string())]);
    assert!(e.owned);
    assert_eq!(e.cover_url, Some("http://img".to_string()));
    assert_eq!(e.publisher, Some("Ace".to_string()));
    assert_eq!(e.publisher_id, Some("p1".to_string()));
    assert_eq!(e.published_date, Some("1965".to_string()));
    assert_eq!(e.isbn, None);
    assert!(e.description.is_none());
    assert!(!e.had_original_description);
}

#[test]
fn unset_selects_and_cover_read_as_absent() {
    let mut p = page();
    if let Json::Object(m) = &mut p {
        m.retain(|(k, _)| k != "cover");
        for (k, v) in m.iter_mut() {
            if k == "properties" {
                if let Json::Object(props) = v {
                    for (name, prop) in props.iter_mut() {
                        if name == "Ownership" || name == "Publisher" {
                            *prop = obj(vec![("select", Json::Null)]);
                        }
                    }
                }
            }
        }
    }
    let e = NotionBookEntry::try_from(&p).unwrap();
    assert!(!e.owned);
    assert_eq!(e.cover_url, None);
    assert_eq!(e.publisher, None);
    assert_eq!(e.publisher_id, None);
}

#[test]
fn malformed_pages_are_refused() {
    assert_eq!(NotionBookEntry::try_from(&Json::Null).unwrap_err(), PageError::Unreadable);
    let mut p = page();
    if let Json::Object(m) = &mut p {
        m.retain(|(k, _)| k != "id");
    }
    assert!(NotionBookEntry::try_from(&p).is_err());
    let empty_title = obj(vec![
        ("id", st("x")),
        ("properties", obj(vec![("Name", obj(vec![("title", Json::Array(vec![]))]))])),
    ]);
    assert!(NotionBookEntry::try_from(&empty_title).is_err());
}

#[test]
fn results_are_read_in_order() {
    let response = obj(vec![("results", Json::Array(vec![page(), page()]))]);
    let v = entries_from_results(&response).unwrap();
    assert_eq!(v.len(), 2);
    assert_eq!(v[1].title, "Dune");
    assert!(entries_from_results(&obj(vec![])).is_err());
    let bad = obj(vec![("results", Json::Array(vec![page(), Json::Null]))]);
    assert_eq!(entries_from_results(&bad).unwrap_err(), PageError::Unreadable);
}

#[test]
fn properties_are_written() {
    let props = properties_from_entry(entry());
    let expected = obj(vec![
        ("Type", select("Book")),
        ("Name", obj(vec![("title", text_list("Dune"))])),
        ("Ownership", select("Own")),
        (
            "Authors",
            obj(vec![(
                "multi_select",
                Json::Array(vec![
                    obj(vec![("id", st("a1")), ("name", st("Frank Herbert"))]),
                    obj(vec![("name", st("Someone"))]),
                ]),
            )]),
        ),
        ("Publisher", obj(vec![("select", obj(vec![("name", st("Ace Inc"))]))])),
        ("Publish Date", obj(vec![("rich_text", text_list("1965"))])),
    ]);
    assert_eq!(props, expected);
}

#[test]
fn sparse_properties() {
    let mut e = entry();
    e.owned = false;
    e.authors = vec!["A".to_string()];
    e.author_ids = vec![];
    e.publisher = None;
    e.published_date = None;
    e.isbn = Some("978".to_string());
    let props = properties_from_entry(e);
    let keys: Vec<&str> = members_of(&props).iter().map(|(k, _)| k.as_str()).collect();
    assert_eq!(keys, vec!["Type", "Name", "ISBN"]);
}

#[test]
fn block_has_one_run_per_fragment() {
    let text = RichText {
        fragments: vec![
            TextFragment::new("A ", TextStyle::unstyled()),
            TextFragment::new("b", TextStyle::bold_italic()),
        ],
    };
    let run = |t: &str, b: bool, i: bool| {
        obj(vec![
            ("type", st("text")),
            ("text", obj(vec![("content", st(t))])),
            ("annotations", obj(vec![("bold", Json::Bool(b)), ("italic", Json::Bool(i))])),
        ])
    };
    let block = obj(vec![
        ("object", st("block")),
        ("type", st("paragraph")),
        (
            "paragraph",
            obj(vec![("rich_text", Json::Array(vec![run("A ", false, false), run("b", true, true)]))]),
        ),
    ]);
    assert_eq!(rich_text_to_block(&text), block);
    assert_eq!(description_body(&text), obj(vec![("children", Json::Array(vec![block]))]));
}

#[test]
fn request_bodies() {
    assert_eq!(
        search_filter("Dune"),
        obj(vec![(
            "filter",
            obj(vec![(
                "and",
                Json::Array(vec![obj(vec![
                    ("property", st("title")),
                    ("title", obj(vec![("contains", st("Dune"))])),
                ])])
            )])
        )])
    );
    let body = new_page_body("db", entry());
    let keys: Vec<&str> = members_of(&body).iter().map(|(k, _)| k.as_str()).collect();
    assert_eq!(keys, vec!["parent", "properties", "cover"]);
    assert_eq!(members_of(&body)[0].1, obj(vec![("database_id", st("db"))]));
    assert_eq!(
        members_of(&body)[2].1,
        obj(vec![("external", obj(vec![("url", st("http://img"))]))])
    );
    let mut e = entry();
    e.cover_url = None;
    let body = page_update_body(e);
    let keys: Vec<&str> = members_of(&body).iter().map(|(k, _)| k.as_str()).collect();
    assert_eq!(keys, vec!["properties"]);
}

#[test]
fn page_body_and_description_to_write() {
    let mut e = entry();
    assert!(e.description_to_write().is_none());
    e.description = Some(RichText { fragments: vec![] });
    assert!(e.description_to_write().is_some());
    e.note_page_body(&obj(vec![("results", Json::Array(vec![]))])).unwrap();
    assert!(!e.had_original_description);
    e.note_page_body(&obj(vec![("results", Json::Array(vec![Json::Null]))])).unwrap();
    assert!(e.had_original_description);
    assert!(e.description_to_write().is_none());
    assert!(e.note_page_body(&Json::Null).is_err());
}

#[test]
fn volume_ids_are_read() {
    let response = obj(vec![(
        "items",
        Json::Array(vec![obj(vec![("id", st("v1"))]), obj(vec![("id", st("v2"))])]),
    )]);
    assert_eq!(volume_ids(&response), Some(vec!["v1".to_string(), "v2".to_string()]));
    assert_eq!(volume_ids(&obj(vec![])), None);
    let bad = obj(vec![("items", Json::Array(vec![obj(vec![("id", Json::Number("1".to_string()))])]))]);
    assert_eq!(volume_ids(&bad), None);
}
