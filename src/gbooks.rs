//! Books as the metadata provider describes them, and how they are listed.
use vstd::prelude::*;

use crate::json::{array_of, get, jarray, jat, jview, texts_at, texts_of, Json};
use crate::text::{join_with, opt_text, push_joined, push_str, string_of, texts};

verus! {

/// A book found by a search, with the details that records are filled from.
#[derive(Debug, Clone)]
pub struct GBook {
    pub title: String,
    pub authors: Vec<String>,
    pub publisher: Option<String>,
    pub published_date: Option<String>,
    pub isbn: Option<String>,
    pub description: Option<String>,
    pub image_link: Option<String>,
}

/// The volume details that the provider returns for one book.
#[derive(Debug, Clone)]
pub struct VolumeInfo {
    pub title: String,
    pub authors: Option<Vec<String>>,
    pub publisher: Option<String>,
    pub published_date: Option<String>,
    pub description: Option<String>,
    pub industry_identifiers: Option<Vec<IndustryIdentifier>>,
    pub image_links: Option<ImageLinks>,
}

/// One identifier of a volume: its kind (such as `ISBN_13`) and its value.
#[derive(Debug, Clone)]
pub struct IndustryIdentifier {
    pub ty: String,
    pub identifier: String,
}

/// Links to cover images of a volume, from smallest to largest.
#[derive(Debug, Clone)]
pub struct ImageLinks {
    pub small_thumbnail: Option<String>,
    pub thumbnail: Option<String>,
    pub small: Option<String>,
    pub medium: Option<String>,
    pub large: Option<String>,
    pub extra_large: Option<String>,
}

/// The value of the first identifier of kind `ISBN_13`.
pub open spec fn first_isbn13(ids: Seq<IndustryIdentifier>) -> Option<Seq<char>>
    decreases ids.len(),
{
    if ids.len() == 0 {
        None
    } else if ids[0].ty@ == "ISBN_13"@ {
        Some(ids[0].identifier@)
    } else {
        first_isbn13(ids.drop_first())
    }
}

impl VolumeInfo {
    /// The 13-digit ISBN of the volume, if it lists one.
    pub fn get_isbn(&self) -> (r: Option<String>)
        ensures
            opt_text(r) == match self.industry_identifiers {
                Some(ids) => first_isbn13(ids@),
                None => None,
            },
    {
        let label = string_of(&crate::text::chars_of("ISBN_13"));
        match &self.industry_identifiers {
            Some(ids) => {
                let mut k: usize = 0;
                assert(ids@.skip(0) =~= ids@);
                while k < ids.len()
                    invariant
                        k <= ids@.len(),
                        self.industry_identifiers == Some(*ids),
                        label@ == "ISBN_13"@,
                        first_isbn13(ids@) == first_isbn13(ids@.skip(k as int)),
                    decreases ids@.len() - k,
                {
                    assert(ids@.skip(k as int).drop_first() =~= ids@.skip(k + 1));
                    assert(ids@.skip(k as int)[0] == ids@[k as int]);
                    if ids[k].ty == label {
                        let found = ids[k].identifier.clone();
                        return Some(found);
                    }
                    k = k + 1;
                }
                None
            },
            None => None,
        }
    }
}

/// The first link present, from the largest image down.
pub open spec fn largest_link(links: ImageLinks) -> Option<String> {
    if links.extra_large is Some {
        links.extra_large
    } else if links.large is Some {
        links.large
    } else if links.medium is Some {
        links.medium
    } else if links.small is Some {
        links.small
    } else if links.thumbnail is Some {
        links.thumbnail
    } else {
        links.small_thumbnail
    }
}

impl ImageLinks {
    /// The link to the largest image there is.
    pub fn into_largest_image(self) -> (r: Option<String>)
        ensures
            r == largest_link(self),
    {
        if self.extra_large.is_some() {
            self.extra_large
        } else if self.large.is_some() {
            self.large
        } else if self.medium.is_some() {
            self.medium
        } else if self.small.is_some() {
            self.small
        } else if self.thumbnail.is_some() {
            self.thumbnail
        } else {
            self.small_thumbnail
        }
    }
}

/// The parenthesised publisher and date that follow a listing's authors.
pub open spec fn details_text(publisher: Option<Seq<char>>, date: Option<Seq<char>>) -> Seq<char> {
    match (publisher, date) {
        (Some(p), Some(d)) => " ("@ + p + ", "@ + d + ")"@,
        (Some(p), None) => " ("@ + p + ")"@,
        (None, Some(d)) => " ("@ + d + ")"@,
        (None, None) => Seq::empty(),
    }
}

/// The one-line listing of a book: `title by authors (publisher, date) (isbn)`,
/// where each part in parentheses is there only when known.
pub open spec fn summary_text(
    title: Seq<char>,
    authors: Seq<Seq<char>>,
    publisher: Option<Seq<char>>,
    date: Option<Seq<char>>,
    isbn: Option<Seq<char>>,
) -> Seq<char> {
    title + " by "@ + join_with(authors, ", "@) + details_text(publisher, date) + match isbn {
        Some(i) => " ("@ + i + ")"@,
        None => Seq::empty(),
    }
}

/// The one-line listing of a book, as `summary_text` describes it.
pub fn summary_line(
    title: &String,
    authors: &Vec<String>,
    publisher: &Option<String>,
    date: &Option<String>,
    isbn: &Option<String>,
) -> (r: String)
    ensures
        r@ == summary_text(
            title@,
            texts(authors@),
            opt_text(*publisher),
            opt_text(*date),
            opt_text(*isbn),
        ),
{
    let mut out: Vec<char> = Vec::new();
    push_str(&mut out, title.as_str());
    push_str(&mut out, " by ");
    push_joined(&mut out, authors, ", ");
    let ghost head = out@;
    match (publisher, date) {
        (Some(p), Some(d)) => {
            push_str(&mut out, " (");
            push_str(&mut out, p.as_str());
            push_str(&mut out, ", ");
            push_str(&mut out, d.as_str());
            push_str(&mut out, ")");
        },
        (Some(p), None) => {
            push_str(&mut out, " (");
            push_str(&mut out, p.as_str());
            push_str(&mut out, ")");
        },
        (None, Some(d)) => {
            push_str(&mut out, " (");
            push_str(&mut out, d.as_str());
            push_str(&mut out, ")");
        },
        (None, None) => {},
    }
    assert(out@ =~= head + details_text(opt_text(*publisher), opt_text(*date)));
    match isbn {
        Some(i) => {
            push_str(&mut out, " (");
            push_str(&mut out, i.as_str());
            push_str(&mut out, ")");
        },
        None => {},
    }
    let r = string_of(&out);
    assert(r@ =~= summary_text(
        title@,
        texts(authors@),
        opt_text(*publisher),
        opt_text(*date),
        opt_text(*isbn),
    ));
    r
}

impl GBook {
    /// The book that a search result's volume describes.
    pub fn from_volume_info(volume: VolumeInfo) -> (r: GBook)
        ensures
            r.title == volume.title,
            r.authors@ == match volume.authors {
                Some(a) => a@,
                None => Seq::empty(),
            },
            r.publisher == volume.publisher,
            r.published_date == volume.published_date,
            r.description == volume.description,
            opt_text(r.isbn) == match volume.industry_identifiers {
                Some(ids) => first_isbn13(ids@),
                None => None,
            },
            r.image_link == match volume.image_links {
                Some(links) => largest_link(links),
                None => None,
            },
    {
        let isbn = volume.get_isbn();
        let image_link = match volume.image_links {
            Some(links) => links.into_largest_image(),
            None => None,
        };
        let authors = match volume.authors {
            Some(a) => a,
            None => Vec::new(),
        };
        GBook {
            title: volume.title,
            authors,
            publisher: volume.publisher,
            published_date: volume.published_date,
            isbn,
            description: volume.description,
            image_link,
        }
    }

    /// The one-line listing of the book, as `summary_text` describes it.
    pub fn summary(&self) -> (r: String)
        ensures
            r@ == summary_text(
                self.title@,
                texts(self.authors@),
                opt_text(self.publisher),
                opt_text(self.published_date),
                opt_text(self.isbn),
            ),
    {
        summary_line(&self.title, &self.authors, &self.publisher, &self.published_date, &self.isbn)
    }
}

/// The identifiers of the volumes that a search response lists under
/// `items`, where it lists them and each has one.
pub fn volume_ids(response: &Json) -> (r: Option<Vec<String>>)
    ensures
        match r {
            Some(ids) => jarray(jat(jview(*response), "items"@)) matches Some(items) && texts_at(
                items,
                "id"@,
            ) == Some(texts(ids@)),
            None => jarray(jat(jview(*response), "items"@)) matches Some(items) ==> texts_at(
                items,
                "id"@,
            ) is None,
        },
{
    match array_of(get(Some(response), "items")) {
        Some(items) => texts_of(items, "id"),
        None => None,
    }
}

} // verus!
