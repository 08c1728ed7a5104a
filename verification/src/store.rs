//! The read and write behaviour of the store, over an abstract file state.
//!
//! The host hands in what it could read from the document file (`None` when
//! the file is absent or unreadable) and performs the filesystem writes the
//! store asks for; everything the store decides is specified here.

use vstd::prelude::*;
use vstd::string::StringExecFns;

verus! {

/// The document text seeded into a fresh store: the default skeleton,
/// pretty-printed with two-space indentation and its keys in sorted order.
pub open spec fn default_text() -> Seq<char> {
    "{\n  \"contacts\": [],\n  \"content\": {},\n  \"partners\": [],\n  \"services\": [],\n  \"team\": []\n}"@
}

/// What read() returns: the file's text verbatim, or the default skeleton
/// when no readable file exists.
pub open spec fn read_text(file: Option<Seq<char>>) -> Seq<char> {
    match file {
        Some(content) => content,
        None => default_text(),
    }
}

/// read() writes the skeleton back exactly when no readable file was there.
pub open spec fn read_seeds(file: Option<Seq<char>>) -> bool {
    file is None
}

/// The file's content after write(data): the prior document is discarded
/// and `data` stands in its place, unvalidated.
pub open spec fn file_after_write(data: Seq<char>) -> Seq<char> {
    data
}

/// The file's content after read(): untouched when it existed, the seeded
/// skeleton otherwise.
pub open spec fn file_after_read(file: Option<Seq<char>>) -> Seq<char> {
    read_text(file)
}

/// The default skeleton document.
pub fn default_document() -> (r: String)
    ensures
        r@ == default_text(),
{
    String::from_str(
        "{\n  \"contacts\": [],\n  \"content\": {},\n  \"partners\": [],\n  \"services\": [],\n  \"team\": []\n}",
    )
}

/// What read() returns and does, given the file text the host could read:
/// the text handed to the caller, and whether the default skeleton must be
/// written back to the file.
pub fn read_data(current: Option<String>) -> (r: (String, bool))
    ensures
        r.0@ == read_text(current.deep_view()),
        r.1 == read_seeds(current.deep_view()),
{
    match current {
        Some(content) => (content, false),
        None => (default_document(), true),
    }
}

/// Writing a document and then reading returns exactly the written text,
/// whether or not it is valid JSON.
pub proof fn lemma_write_then_read(data: Seq<char>)
    ensures
        read_text(Some(file_after_write(data))) == data,
{
}

/// A fresh store reads as the default skeleton, and persists exactly that
/// text.
pub proof fn lemma_fresh_read(file: Option<Seq<char>>)
    requires
        file is None,
    ensures
        read_text(file) == default_text(),
        read_seeds(file),
        file_after_read(file) == default_text(),
{
}

/// Two reads with no intervening write return the same text both times.
pub proof fn lemma_read_idempotent(file: Option<Seq<char>>)
    ensures
        read_text(Some(file_after_read(file))) == read_text(file),
{
}

} // verus!
