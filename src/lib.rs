//! Conversion of book descriptions with light HTML-like markup into styled
//! text, and the book-record logic built around it: listing found books,
//! filling reading-list records from them, and the page payloads that records
//! are written as and read from.
pub mod entries;
pub mod gbooks;
pub mod json;
pub mod markup;
pub mod markup_lemmas;
pub mod notion;
pub mod text;
