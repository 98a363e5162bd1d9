//! The reading list's page format: the properties and description block that
//! a record is written as, and how a record is read back from a page.
use vstd::prelude::*;

use crate::entries::NotionBookEntry;
use crate::json::{
    array_of, get, is_object, jarray, jat, jget, jstr, jtext, jview, jview_items, jview_members,
    lemma_jview_items, opt_string, push_item, push_member, str_of, texts_at, texts_of, Json, JsonV,
};
use crate::markup::{FragmentView, RichText, TextFragment};
use crate::text::{opt_text, remove_commas, same_text, texts, without_commas};

verus! {

/// An object with the single member `key: value`.
pub open spec fn obj1(key: Seq<char>, value: JsonV) -> JsonV {
    JsonV::Object(seq![(key, value)])
}

/// One formatted run of a paragraph: a fragment's text and its emphasis.
pub open spec fn run_view(f: FragmentView) -> JsonV {
    JsonV::Object(
        seq![
            ("type"@, JsonV::Str("text"@)),
            ("text"@, obj1("content"@, JsonV::Str(f.0))),
            (
                "annotations"@,
                JsonV::Object(
                    seq![("bold"@, JsonV::Bool(f.1.bold)), ("italic"@, JsonV::Bool(f.1.italic))],
                ),
            ),
        ],
    )
}

/// A paragraph block made of one run per fragment.
pub open spec fn block_view(frags: Seq<FragmentView>) -> JsonV {
    JsonV::Object(
        seq![
            ("object"@, JsonV::Str("block"@)),
            ("type"@, JsonV::Str("paragraph"@)),
            ("paragraph"@, obj1("rich_text"@, JsonV::Array(frags.map_values(|f| run_view(f))))),
        ],
    )
}

fn single(key: &str, value: Json) -> (r: Json)
    ensures
        jview(r) == obj1(key@, jview(value)),
{
    let mut members: Vec<(String, Json)> = Vec::new();
    push_member(&mut members, key, value);
    let r = Json::Object(members);
    assert(jview(r) =~= obj1(key@, jview(value)));
    r
}

fn run_of(f: &TextFragment) -> (r: Json)
    ensures
        jview(r) == run_view(f@),
{
    let mut annotations: Vec<(String, Json)> = Vec::new();
    assert(jview_members(Seq::<(String, Json)>::empty()) =~= Seq::<(Seq<char>, JsonV)>::empty());
    push_member(&mut annotations, "bold", Json::Bool(f.style.bold));
    push_member(&mut annotations, "italic", Json::Bool(f.style.italic));
    assert(jview_members(annotations@) =~= seq![
        ("bold"@, JsonV::Bool(f.style.bold)),
        ("italic"@, JsonV::Bool(f.style.italic)),
    ]);
    let ann = Json::Object(annotations);
    assert(jview(ann) == JsonV::Object(
        seq![("bold"@, JsonV::Bool(f.style.bold)), ("italic"@, JsonV::Bool(f.style.italic))],
    ));
    let mut members: Vec<(String, Json)> = Vec::new();
    push_member(&mut members, "type", jtext("text"));
    push_member(&mut members, "text", single("content", jtext(f.text.as_str())));
    push_member(&mut members, "annotations", ann);
    assert(jview_members(members@) =~= seq![
        ("type"@, JsonV::Str("text"@)),
        ("text"@, obj1("content"@, JsonV::Str(f@.0))),
        ("annotations"@, jview(ann)),
    ]);
    let r = Json::Object(members);
    assert(jview(r) =~= run_view(f@));
    r
}

/// The paragraph block that shows `text`, one formatted run per fragment.
pub fn rich_text_to_block(text: &RichText) -> (r: Json)
    ensures
        jview(r) == block_view(text@),
{
    let mut runs: Vec<Json> = Vec::new();
    assert(jview_members(Seq::<(String, Json)>::empty()) =~= Seq::<(Seq<char>, JsonV)>::empty());
    assert(jview_items(Seq::<Json>::empty()) =~= Seq::<JsonV>::empty());
    let mut k: usize = 0;
    while k < text.fragments.len()
        invariant
            k <= text.fragments@.len(),
            jview_items(runs@) == text@.take(k as int).map_values(|f| run_view(f)),
        decreases text.fragments@.len() - k,
    {
        push_item(&mut runs, run_of(&text.fragments[k]));
        k = k + 1;
        assert(jview_items(runs@) =~= text@.take(k as int).map_values(|f| run_view(f)));
    }
    assert(text@.take(k as int) =~= text@);
    let mut members: Vec<(String, Json)> = Vec::new();
    push_member(&mut members, "object", jtext("block"));
    push_member(&mut members, "type", jtext("paragraph"));
    let arr = Json::Array(runs);
    assert(jview(arr) == JsonV::Array(text@.map_values(|f| run_view(f))));
    push_member(&mut members, "paragraph", single("rich_text", arr));
    assert(jview_members(members@) =~= seq![
        ("object"@, JsonV::Str("block"@)),
        ("type"@, JsonV::Str("paragraph"@)),
        ("paragraph"@, obj1("rich_text"@, JsonV::Array(text@.map_values(|f| run_view(f))))),
    ]);
    let r = Json::Object(members);
    assert(jview(r) =~= block_view(text@));
    r
}

/// A select property's value: the option named `name`.
pub open spec fn select_view(name: Seq<char>) -> JsonV {
    obj1("select"@, obj1("name"@, JsonV::Str(name)))
}

/// A text property's value: one run holding `t`.
pub open spec fn text_list_view(t: Seq<char>) -> JsonV {
    JsonV::Array(seq![obj1("text"@, obj1("content"@, JsonV::Str(t)))])
}

/// A reference to a select option by name, and by identifier where known.
pub open spec fn named_ref_view(name: Seq<char>, id: Option<Seq<char>>) -> JsonV {
    match id {
        Some(i) => JsonV::Object(seq![("id"@, JsonV::Str(i)), ("name"@, JsonV::Str(name))]),
        None => obj1("name"@, JsonV::Str(name)),
    }
}

/// How many authors a record writes: those that have an identifier slot.
pub open spec fn author_count(e: NotionBookEntry) -> nat {
    if e.authors@.len() <= e.author_ids@.len() {
        e.authors@.len()
    } else {
        e.author_ids@.len()
    }
}

/// The authors of a record, as the multi-select options it writes.
pub open spec fn authors_view(e: NotionBookEntry) -> Seq<JsonV> {
    Seq::new(
        author_count(e),
        |i: int| named_ref_view(e.authors@[i]@, opt_text(e.author_ids@[i])),
    )
}

/// `members`, with `m` appended where `cond` holds.
pub open spec fn push_if(
    members: Seq<(Seq<char>, JsonV)>,
    cond: bool,
    m: (Seq<char>, JsonV),
) -> Seq<(Seq<char>, JsonV)> {
    if cond {
        members.push(m)
    } else {
        members
    }
}

/// The page properties that a record is written as: its type, its title, the
/// ownership where owned, the authors where there are any, and the publisher
/// (without commas, which select options cannot hold), date and ISBN where
/// known.
pub open spec fn properties_view(e: NotionBookEntry) -> JsonV {
    let base = seq![
        ("Type"@, select_view("Book"@)),
        ("Name"@, obj1("title"@, text_list_view(e.title@))),
    ];
    let owned = push_if(base, e.owned, ("Ownership"@, select_view("Own"@)));
    let authors = push_if(
        owned,
        author_count(e) > 0,
        ("Authors"@, obj1("multi_select"@, JsonV::Array(authors_view(e)))),
    );
    let publisher = push_if(
        authors,
        e.publisher is Some,
        (
            "Publisher"@,
            obj1(
                "select"@,
                named_ref_view(without_commas(e.publisher->0@), opt_text(e.publisher_id)),
            ),
        ),
    );
    let date = push_if(
        publisher,
        e.published_date is Some,
        ("Publish Date"@, obj1("rich_text"@, text_list_view(e.published_date->0@))),
    );
    JsonV::Object(
        push_if(
            date,
            e.isbn is Some,
            ("ISBN"@, obj1("rich_text"@, text_list_view(e.isbn->0@))),
        ),
    )
}

fn select_of(name: &str) -> (r: Json)
    ensures
        jview(r) == select_view(name@),
{
    single("select", single("name", jtext(name)))
}

fn text_list(t: &str) -> (r: Json)
    ensures
        jview(r) == text_list_view(t@),
{
    let mut items: Vec<Json> = Vec::new();
    assert(jview_items(Seq::<Json>::empty()) =~= Seq::<JsonV>::empty());
    push_item(&mut items, single("text", single("content", jtext(t))));
    assert(jview_items(items@) =~= seq![obj1("text"@, obj1("content"@, JsonV::Str(t@)))]);
    Json::Array(items)
}

fn named_ref(name: &str, id: &Option<String>) -> (r: Json)
    ensures
        jview(r) == named_ref_view(name@, opt_text(*id)),
{
    match id {
        Some(i) => {
            let mut members: Vec<(String, Json)> = Vec::new();
            assert(jview_members(Seq::<(String, Json)>::empty()) =~= Seq::<
                (Seq<char>, JsonV),
            >::empty());
            push_member(&mut members, "id", jtext(i.as_str()));
            push_member(&mut members, "name", jtext(name));
            assert(jview_members(members@) =~= seq![
                ("id"@, JsonV::Str(i@)),
                ("name"@, JsonV::Str(name@)),
            ]);
            Json::Object(members)
        },
        None => single("name", jtext(name)),
    }
}

fn authors_of(e: &NotionBookEntry) -> (r: Vec<Json>)
    ensures
        jview_items(r@) == authors_view(*e),
{
    let n = if e.authors.len() <= e.author_ids.len() {
        e.authors.len()
    } else {
        e.author_ids.len()
    };
    let mut items: Vec<Json> = Vec::new();
    assert(jview_items(Seq::<Json>::empty()) =~= Seq::<JsonV>::empty());
    let mut k: usize = 0;
    while k < n
        invariant
            n == author_count(*e),
            n <= e.authors@.len(),
            n <= e.author_ids@.len(),
            k <= n,
            jview_items(items@) == authors_view(*e).take(k as int),
        decreases n - k,
    {
        push_item(&mut items, named_ref(e.authors[k].as_str(), &e.author_ids[k]));
        k = k + 1;
        assert(jview_items(items@) =~= authors_view(*e).take(k as int));
    }
    assert(authors_view(*e).take(k as int) =~= authors_view(*e));
    items
}

/// The page properties that `entry` is written as.
pub fn properties_from_entry(entry: NotionBookEntry) -> (r: Json)
    ensures
        jview(r) == properties_view(entry),
{
    let e = &entry;
    let mut members: Vec<(String, Json)> = Vec::new();
    assert(jview_members(Seq::<(String, Json)>::empty()) =~= Seq::<(Seq<char>, JsonV)>::empty());
    push_member(&mut members, "Type", select_of("Book"));
    push_member(&mut members, "Name", single("title", text_list(e.title.as_str())));
    let ghost base = seq![
        ("Type"@, select_view("Book"@)),
        ("Name"@, obj1("title"@, text_list_view(e.title@))),
    ];
    assert(jview_members(members@) =~= base);
    if e.owned {
        push_member(&mut members, "Ownership", select_of("Own"));
    }
    let ghost owned = push_if(base, e.owned, ("Ownership"@, select_view("Own"@)));
    assert(jview_members(members@) == owned);
    let authors = authors_of(e);
    proof {
        lemma_jview_items(authors@);
    }
    let ghost with_authors = push_if(
        owned,
        author_count(entry) > 0,
        ("Authors"@, obj1("multi_select"@, JsonV::Array(authors_view(entry)))),
    );
    if authors.len() > 0 {
        let arr = Json::Array(authors);
        assert(jview(arr) == JsonV::Array(authors_view(entry)));
        push_member(&mut members, "Authors", single("multi_select", arr));
    }
    assert(jview_members(members@) == with_authors);
    let ghost with_publisher = push_if(
        with_authors,
        e.publisher is Some,
        (
            "Publisher"@,
            obj1(
                "select"@,
                named_ref_view(without_commas(e.publisher->0@), opt_text(e.publisher_id)),
            ),
        ),
    );
    match &e.publisher {
        Some(p) => {
            let name = remove_commas(p.as_str());
            push_member(
                &mut members,
                "Publisher",
                single("select", named_ref(name.as_str(), &e.publisher_id)),
            );
        },
        None => {},
    }
    assert(jview_members(members@) == with_publisher);
    let ghost with_date = push_if(
        with_publisher,
        e.published_date is Some,
        ("Publish Date"@, obj1("rich_text"@, text_list_view(e.published_date->0@))),
    );
    match &e.published_date {
        Some(d) => {
            push_member(&mut members, "Publish Date", single("rich_text", text_list(d.as_str())));
        },
        None => {},
    }
    assert(jview_members(members@) == with_date);
    match &e.isbn {
        Some(i) => {
            push_member(&mut members, "ISBN", single("rich_text", text_list(i.as_str())));
        },
        None => {},
    }
    let r = Json::Object(members);
    assert(jview(r) =~= properties_view(entry));
    r
}

/// A page that does not have the shape of a book record.
#[derive(Debug, Clone, Copy, PartialEq, Eq, Structural)]
pub enum PageError {
    Unreadable,
}

/// The property `name` of a page.
pub open spec fn prop(page: JsonV, name: Seq<char>) -> JsonV {
    jat(jat(page, "properties"@), name)
}

/// The title: the plain text of the first run of the `Name` property.
pub open spec fn page_title(page: JsonV) -> Option<Seq<char>> {
    match jarray(jat(prop(page, "Name"@), "title"@)) {
        Some(runs) => if runs.len() > 0 {
            jstr(jat(runs[0], "plain_text"@))
        } else {
            None
        },
        None => None,
    }
}

/// The options of the `Authors` multi-select property.
pub open spec fn page_authors(page: JsonV) -> Option<Seq<JsonV>> {
    jarray(jat(prop(page, "Authors"@), "multi_select"@))
}

/// Whether the `Ownership` select is set to `Own`; unset reads as not owned.
pub open spec fn page_owned(page: JsonV) -> Option<bool> {
    let sel = jat(prop(page, "Ownership"@), "select"@);
    if sel is Object {
        match jstr(jat(sel, "name"@)) {
            Some(n) => Some(n == "Own"@),
            None => None,
        }
    } else {
        Some(false)
    }
}

/// The external link of the page cover, where the cover is an object.
pub open spec fn page_cover(page: JsonV) -> Option<Option<Seq<char>>> {
    match jget(page, "cover"@) {
        Some(c) => if c is Object {
            match jstr(jat(jat(c, "external"@), "url"@)) {
                Some(u) => Some(Some(u)),
                None => None,
            }
        } else {
            Some(None)
        },
        None => Some(None),
    }
}

/// The text member `key` of the option of select property `name`, where an
/// option is set.
pub open spec fn page_select(page: JsonV, name: Seq<char>, key: Seq<char>) -> Option<
    Option<Seq<char>>,
> {
    let sel = jat(prop(page, name), "select"@);
    if sel is Object {
        match jstr(jat(sel, key)) {
            Some(x) => Some(Some(x)),
            None => None,
        }
    } else {
        Some(None)
    }
}

/// The plain text of the first run of text property `name`, where it has runs.
pub open spec fn page_text(page: JsonV, name: Seq<char>) -> Option<Option<Seq<char>>> {
    match jarray(jat(prop(page, name), "rich_text"@)) {
        Some(runs) => if runs.len() == 0 {
            Some(None)
        } else {
            match jstr(jat(runs[0], "plain_text"@)) {
                Some(t) => Some(Some(t)),
                None => None,
            }
        },
        None => None,
    }
}

/// Whether every part of a book record can be read from `page`.
pub open spec fn page_readable(page: JsonV) -> bool {
    &&& jstr(jat(page, "id"@)) is Some
    &&& page_title(page) is Some
    &&& page_authors(page) is Some
    &&& texts_at(page_authors(page)->0, "name"@) is Some
    &&& texts_at(page_authors(page)->0, "id"@) is Some
    &&& page_owned(page) is Some
    &&& page_cover(page) is Some
    &&& page_select(page, "Publisher"@, "name"@) is Some
    &&& page_select(page, "Publisher"@, "id"@) is Some
    &&& page_text(page, "Publish Date"@) is Some
    &&& page_text(page, "ISBN"@) is Some
}

/// Whether `e` is the record that `page` holds: every part read as the
/// `page_` functions say, with no description and no page body yet.
pub open spec fn reads_as(page: JsonV, e: NotionBookEntry) -> bool {
    let authors = page_authors(page)->0;
    &&& opt_text(e.id) == jstr(jat(page, "id"@))
    &&& page_title(page) == Some(e.title@)
    &&& texts_at(authors, "name"@) == Some(texts(e.authors@))
    &&& e.author_ids@.len() == authors.len()
    &&& forall|i: int|
        0 <= i < authors.len() ==> #[trigger] opt_text(e.author_ids@[i]) == Some(
            texts_at(authors, "id"@)->0[i],
        )
    &&& page_owned(page) == Some(e.owned)
    &&& page_cover(page) == Some(opt_text(e.cover_url))
    &&& page_select(page, "Publisher"@, "name"@) == Some(opt_text(e.publisher))
    &&& page_select(page, "Publisher"@, "id"@) == Some(opt_text(e.publisher_id))
    &&& page_text(page, "Publish Date"@) == Some(opt_text(e.published_date))
    &&& page_text(page, "ISBN"@) == Some(opt_text(e.isbn))
    &&& e.description is None
    &&& !e.had_original_description
}

fn select_text(page: &Json, name: &str, key: &str) -> (r: Option<Option<String>>)
    ensures
        match r {
            Some(x) => page_select(jview(*page), name@, key@) == Some(opt_text(x)),
            None => page_select(jview(*page), name@, key@) is None,
        },
{
    let sel = get(get(get(Some(page), "properties"), name), "select");
    if is_object(sel) {
        match opt_string(get(sel, key)) {
            Some(x) => Some(Some(x)),
            None => None,
        }
    } else {
        Some(None)
    }
}

fn first_text(page: &Json, name: &str) -> (r: Option<Option<String>>)
    ensures
        match r {
            Some(x) => page_text(jview(*page), name@) == Some(opt_text(x)),
            None => page_text(jview(*page), name@) is None,
        },
{
    match array_of(get(get(get(Some(page), "properties"), name), "rich_text")) {
        Some(runs) => {
            proof {
                lemma_jview_items(runs@);
            }
            if runs.len() == 0 {
                Some(None)
            } else {
                match opt_string(get(Some(&runs[0]), "plain_text")) {
                    Some(t) => Some(Some(t)),
                    None => None,
                }
            }
        },
        None => None,
    }
}

fn title_of(page: &Json) -> (r: Option<String>)
    ensures
        opt_text(r) == page_title(jview(*page)),
{
    match array_of(get(get(get(Some(page), "properties"), "Name"), "title")) {
        Some(runs) => {
            proof {
                lemma_jview_items(runs@);
            }
            if runs.len() == 0 {
                None
            } else {
                opt_string(get(Some(&runs[0]), "plain_text"))
            }
        },
        None => None,
    }
}

fn owned_of(page: &Json) -> (r: Option<bool>)
    ensures
        r == page_owned(jview(*page)),
{
    let sel = get(get(get(Some(page), "properties"), "Ownership"), "select");
    if is_object(sel) {
        match str_of(get(sel, "name")) {
            Some(n) => Some(same_text(n.as_str(), "Own")),
            None => None,
        }
    } else {
        Some(false)
    }
}

fn cover_of(page: &Json) -> (r: Option<Option<String>>)
    ensures
        match r {
            Some(x) => page_cover(jview(*page)) == Some(opt_text(x)),
            None => page_cover(jview(*page)) is None,
        },
{
    let cover = get(Some(page), "cover");
    if cover.is_some() && is_object(cover) {
        match opt_string(get(get(cover, "external"), "url")) {
            Some(u) => Some(Some(u)),
            None => None,
        }
    } else {
        Some(None)
    }
}

fn some_ids(ids: Vec<String>) -> (r: Vec<Option<String>>)
    ensures
        r@.len() == ids@.len(),
        forall|i: int| 0 <= i < ids@.len() ==> #[trigger] opt_text(r@[i]) == Some(ids@[i]@),
{
    let mut r: Vec<Option<String>> = Vec::new();
    let mut k: usize = 0;
    while k < ids.len()
        invariant
            k <= ids@.len(),
            r@.len() == k,
            forall|i: int| 0 <= i < k ==> #[trigger] opt_text(r@[i]) == Some(ids@[i]@),
        decreases ids@.len() - k,
    {
        r.push(Some(ids[k].clone()));
        k = k + 1;
    }
    r
}

impl NotionBookEntry {
    /// Reads a record from a page of the reading list. The description is not
    /// read: the record has none, and is taken to have no page body until that
    /// is checked.
    pub fn try_from(value: &Json) -> (r: Result<NotionBookEntry, PageError>)
        ensures
            r is Ok <==> page_readable(jview(*value)),
            r matches Ok(e) ==> reads_as(jview(*value), e),
    {
        let page = value;
        let id = match opt_string(get(Some(page), "id")) {
            Some(id) => id,
            None => return Err(PageError::Unreadable),
        };
        let title = match title_of(page) {
            Some(t) => t,
            None => return Err(PageError::Unreadable),
        };
        let options = match array_of(get(get(get(Some(page), "properties"), "Authors"), "multi_select")) {
            Some(a) => a,
            None => return Err(PageError::Unreadable),
        };
        let authors = match texts_of(options, "name") {
            Some(a) => a,
            None => return Err(PageError::Unreadable),
        };
        let ids = match texts_of(options, "id") {
            Some(a) => a,
            None => return Err(PageError::Unreadable),
        };
        let owned = match owned_of(page) {
            Some(o) => o,
            None => return Err(PageError::Unreadable),
        };
        let cover_url = match cover_of(page) {
            Some(c) => c,
            None => return Err(PageError::Unreadable),
        };
        let publisher = match select_text(page, "Publisher", "name") {
            Some(p) => p,
            None => return Err(PageError::Unreadable),
        };
        let publisher_id = match select_text(page, "Publisher", "id") {
            Some(p) => p,
            None => return Err(PageError::Unreadable),
        };
        let published_date = match first_text(page, "Publish Date") {
            Some(d) => d,
            None => return Err(PageError::Unreadable),
        };
        let isbn = match first_text(page, "ISBN") {
            Some(i) => i,
            None => return Err(PageError::Unreadable),
        };
        proof {
            lemma_jview_items(options@);
        }
        let author_ids = some_ids(ids);
        proof {
            let opts = page_authors(jview(*value))->0;
            assert(opts == jview_items(options@));
            assert(texts_at(opts, "id"@) == Some(texts(ids@)));
            assert(texts(ids@).len() == ids@.len());
            assert(Seq::new(opts.len(), |i: int| jstr(jat(opts[i], "id"@))->0).len() == opts.len());
            assert(ids@.len() == opts.len());
            assert forall|i: int| 0 <= i < opts.len() implies #[trigger] opt_text(author_ids@[i])
                == Some(texts_at(opts, "id"@)->0[i]) by {
                assert(texts(ids@)[i] == ids@[i]@);
            }
        }
        Ok(
            NotionBookEntry {
                id: Some(id),
                title,
                owned,
                authors,
                publisher,
                published_date,
                isbn,
                cover_url,
                author_ids,
                publisher_id,
                had_original_description: false,
                description: None,
            },
        )
    }
}

/// Whether a query response lists its pages under `results`, and each holds
/// a book record.
pub open spec fn results_readable(response: JsonV) -> bool {
    match jarray(jat(response, "results"@)) {
        Some(pages) => all_readable(pages),
        None => false,
    }
}

/// Whether each of `pages` holds a book record.
pub open spec fn all_readable(pages: Seq<JsonV>) -> bool {
    forall|i: int| 0 <= i < pages.len() ==> page_readable(#[trigger] pages[i])
}

/// The records that the pages of a query response hold, in order; an error
/// where the response has no `results` array or a page is no book record.
pub fn entries_from_results(response: &Json) -> (r: Result<Vec<NotionBookEntry>, PageError>)
    ensures
        r is Ok <==> results_readable(jview(*response)),
        r matches Ok(v) ==> {
            let pages = jarray(jat(jview(*response), "results"@))->0;
            &&& v@.len() == pages.len()
            &&& forall|i: int| 0 <= i < pages.len() ==> reads_as(#[trigger] pages[i], v@[i])
        },
{
    let pages = match array_of(get(Some(response), "results")) {
        Some(p) => p,
        None => return Err(PageError::Unreadable),
    };
    proof {
        lemma_jview_items(pages@);
    }
    let ghost pv = jview_items(pages@);
    let mut out: Vec<NotionBookEntry> = Vec::new();
    let mut k: usize = 0;
    while k < pages.len()
        invariant
            pv == jview_items(pages@),
            jarray(jat(jview(*response), "results"@)) == Some(pv),
            pv.len() == pages@.len(),
            forall|i: int| 0 <= i < pages@.len() ==> #[trigger] pv[i] == jview(pages@[i]),
            k <= pages@.len(),
            out@.len() == k,
            forall|i: int| 0 <= i < k ==> page_readable(#[trigger] pv[i]) && reads_as(pv[i], out@[i]),
        decreases pages@.len() - k,
    {
        match NotionBookEntry::try_from(&pages[k]) {
            Ok(e) => out.push(e),
            Err(e) => {
                assert(!page_readable(pv[k as int]));
                assert(!results_readable(jview(*response)));
                return Err(e);
            },
        }
        k = k + 1;
    }
    Ok(out)
}

/// The query that finds the records whose title contains `title`.
pub open spec fn search_filter_view(title: Seq<char>) -> JsonV {
    obj1(
        "filter"@,
        obj1(
            "and"@,
            JsonV::Array(
                seq![
                    JsonV::Object(
                        seq![
                            ("property"@, JsonV::Str("title"@)),
                            ("title"@, obj1("contains"@, JsonV::Str(title))),
                        ],
                    ),
                ],
            ),
        ),
    )
}

/// The query that finds the records whose title contains `title`.
pub fn search_filter(title: &str) -> (r: Json)
    ensures
        jview(r) == search_filter_view(title@),
{
    let mut cond: Vec<(String, Json)> = Vec::new();
    assert(jview_members(Seq::<(String, Json)>::empty()) =~= Seq::<(Seq<char>, JsonV)>::empty());
    assert(jview_items(Seq::<Json>::empty()) =~= Seq::<JsonV>::empty());
    push_member(&mut cond, "property", jtext("title"));
    push_member(&mut cond, "title", single("contains", jtext(title)));
    assert(jview_members(cond@) =~= seq![
        ("property"@, JsonV::Str("title"@)),
        ("title"@, obj1("contains"@, JsonV::Str(title@))),
    ]);
    let c = Json::Object(cond);
    let mut all: Vec<Json> = Vec::new();
    push_item(&mut all, c);
    let ghost cv = jview(c);
    assert(jview_items(all@) =~= seq![cv]);
    single("filter", single("and", Json::Array(all)))
}

/// `members` with the page cover set to the external image `url`, where
/// there is one.
pub open spec fn with_cover(members: Seq<(Seq<char>, JsonV)>, url: Option<Seq<char>>) -> Seq<
    (Seq<char>, JsonV),
> {
    match url {
        Some(u) => members.push(("cover"@, obj1("external"@, obj1("url"@, JsonV::Str(u))))),
        None => members,
    }
}

fn push_cover(members: &mut Vec<(String, Json)>, url: &Option<String>)
    ensures
        jview_members(final(members)@) == with_cover(jview_members(old(members)@), opt_text(*url)),
{
    match url {
        Some(u) => push_member(members, "cover", single("external", single("url", jtext(u.as_str())))),
        None => {},
    }
}

/// The request body that creates the page of `entry` in database
/// `database_id`.
pub fn new_page_body(database_id: &str, entry: NotionBookEntry) -> (r: Json)
    ensures
        jview(r) == JsonV::Object(
            with_cover(
                seq![
                    ("parent"@, obj1("database_id"@, JsonV::Str(database_id@))),
                    ("properties"@, properties_view(entry)),
                ],
                opt_text(entry.cover_url),
            ),
        ),
{
    let ghost e = entry;
    let cover = crate::text::copy_opt(&entry.cover_url);
    let mut members: Vec<(String, Json)> = Vec::new();
    assert(jview_members(Seq::<(String, Json)>::empty()) =~= Seq::<(Seq<char>, JsonV)>::empty());
    push_member(&mut members, "parent", single("database_id", jtext(database_id)));
    push_member(&mut members, "properties", properties_from_entry(entry));
    assert(jview_members(members@) =~= seq![
        ("parent"@, obj1("database_id"@, JsonV::Str(database_id@))),
        ("properties"@, properties_view(e)),
    ]);
    push_cover(&mut members, &cover);
    Json::Object(members)
}

/// The request body that rewrites the properties of the page of `entry`.
pub fn page_update_body(entry: NotionBookEntry) -> (r: Json)
    ensures
        jview(r) == JsonV::Object(
            with_cover(seq![("properties"@, properties_view(entry))], opt_text(entry.cover_url)),
        ),
{
    let ghost e = entry;
    let cover = crate::text::copy_opt(&entry.cover_url);
    let mut members: Vec<(String, Json)> = Vec::new();
    assert(jview_members(Seq::<(String, Json)>::empty()) =~= Seq::<(Seq<char>, JsonV)>::empty());
    push_member(&mut members, "properties", properties_from_entry(entry));
    assert(jview_members(members@) =~= seq![("properties"@, properties_view(e))]);
    push_cover(&mut members, &cover);
    Json::Object(members)
}

/// The request body that appends the paragraph block of `text` to a page.
pub fn description_body(text: &RichText) -> (r: Json)
    ensures
        jview(r) == obj1("children"@, JsonV::Array(seq![block_view(text@)])),
{
    let mut blocks: Vec<Json> = Vec::new();
    assert(jview_items(Seq::<Json>::empty()) =~= Seq::<JsonV>::empty());
    push_item(&mut blocks, rich_text_to_block(text));
    assert(jview_items(blocks@) =~= seq![block_view(text@)]);
    single("children", Json::Array(blocks))
}

impl NotionBookEntry {
    /// The description to write when saving the record: only where the page
    /// had no body, since a body that was there is not read back.
    pub fn description_to_write(&self) -> (r: Option<&RichText>)
        ensures
            r is Some <==> !self.had_original_description && self.description is Some,
            r matches Some(d) ==> self.description == Some(*d),
    {
        if self.had_original_description {
            None
        } else {
            match &self.description {
                Some(d) => Some(d),
                None => None,
            }
        }
    }

    /// Records whether the page of the record has a body, from the blocks
    /// listed under it.
    pub fn note_page_body(&mut self, blocks: &Json) -> (r: Result<(), PageError>)
        ensures
            r is Ok <==> jarray(jat(jview(*blocks), "results"@)) is Some,
            r is Ok ==> final(self).had_original_description == (old(self).had_original_description
                || jarray(jat(jview(*blocks), "results"@))->0.len() > 0),
            r is Err ==> final(self).had_original_description == old(self).had_original_description,
            final(self).id == old(self).id,
            final(self).title == old(self).title,
            final(self).owned == old(self).owned,
            final(self).authors == old(self).authors,
            final(self).author_ids == old(self).author_ids,
            final(self).publisher == old(self).publisher,
            final(self).publisher_id == old(self).publisher_id,
            final(self).published_date == old(self).published_date,
            final(self).isbn == old(self).isbn,
            final(self).cover_url == old(self).cover_url,
            final(self).description == old(self).description,
    {
        match array_of(get(Some(blocks), "results")) {
            Some(results) => {
                proof {
                    lemma_jview_items(results@);
                }
                if results.len() > 0 {
                    self.had_original_description = true;
                }
                Ok(())
            },
            None => Err(PageError::Unreadable),
        }
    }
}

} // verus!
