//! The export operation: the stored text unchanged as JSON, or a CSV
//! projection of its contact records.
//!
//! The CSV has a fixed header row and one row per contact. Each field is
//! the contact's string member of that name, or empty when the member is
//! missing or not a string. Fields are joined with plain commas and rows
//! end with a newline; embedded commas and newlines are not escaped, a
//! known and deliberate limitation.

use crate::parse::{parse_document, sp_document};
use crate::text::{append_chars, append_str, chars_of, str_eq, string_from_chars};
use crate::value::{get_member, lemma_views_of, views_of, Json, JsonV};
use vstd::prelude::*;
use vstd::string::StringExecFns;

verus! {

/// The CSV cell for one member of a contact: the string member's text,
/// or empty when the member is missing or not a string.
pub open spec fn field_text(c: JsonV, key: Seq<char>) -> Seq<char> {
    match get_member(c, key) {
        Some(JsonV::Str(t)) => t,
        _ => Seq::empty(),
    }
}

/// The CSV row for one contact.
pub open spec fn row_text(c: JsonV) -> Seq<char> {
    field_text(c, "name"@) + ","@ + field_text(c, "email"@) + ","@ + field_text(c, "subject"@)
        + ","@ + field_text(c, "message"@) + ","@ + field_text(c, "status"@) + ","@ + field_text(
        c,
        "date"@,
    ) + "\n"@
}

/// The rows for a list of contacts, in order.
pub open spec fn rows_text(cs: Seq<JsonV>) -> Seq<char>
    decreases cs,
{
    if cs.len() == 0 {
        Seq::empty()
    } else {
        rows_text(cs.drop_last()) + row_text(cs.last())
    }
}

/// The fixed CSV header row.
pub open spec fn csv_header() -> Seq<char> {
    "name,email,subject,message,status,date\n"@
}

/// The whole CSV text for a list of contacts.
pub open spec fn csv_text(cs: Seq<JsonV>) -> Seq<char> {
    csv_header() + rows_text(cs)
}

/// The failure reported when the stored text is not valid JSON.
pub open spec fn invalid_json_message() -> Seq<char> {
    "Invalid JSON data"@
}

/// The failure reported when the document has no `contacts` array.
pub open spec fn no_contacts_message() -> Seq<char> {
    "No contacts data found"@
}

/// The failure reported for an unknown format, completed with the
/// requested format itself.
pub open spec fn unsupported_prefix() -> Seq<char> {
    "Unsupported format: "@
}

/// What export returns for a stored text and a format selector:
/// the text unchanged for "json"; for "csv" the projection of the
/// document's `contacts` array, a parse failure, or the missing-contacts
/// failure; and for any other selector the unsupported-format failure
/// naming it.
pub open spec fn export_outcome(content: Seq<char>, format: Seq<char>) -> Result<
    Seq<char>,
    Seq<char>,
> {
    if format == "json"@ {
        Ok(content)
    } else if format == "csv"@ {
        match sp_document(content) {
            None => Err(invalid_json_message()),
            Some(doc) => match get_member(doc, "contacts"@) {
                Some(JsonV::Arr(cs)) => Ok(csv_text(cs)),
                _ => Err(no_contacts_message()),
            },
        }
    } else {
        Err(unsupported_prefix() + format)
    }
}

/// Appends one contact's cell for `key`.
fn append_field(out: &mut Vec<char>, c: &Json, key: &str)
    ensures
        final(out)@ == old(out)@ + field_text(c@, key@),
{
    let kv = chars_of(key);
    match c.get(&kv) {
        Some(m) => match m {
            Json::Str(t) => {
                append_chars(out, t);
            },
            _ => {
                proof {
                    assert(out@ + Seq::<char>::empty() =~= out@);
                }
            },
        },
        None => {
            proof {
                assert(out@ + Seq::<char>::empty() =~= out@);
            }
        },
    }
}

/// Appends one contact's row.
fn append_row(out: &mut Vec<char>, c: &Json)
    ensures
        final(out)@ == old(out)@ + row_text(c@),
{
    append_field(out, c, "name");
    append_str(out, ",");
    append_field(out, c, "email");
    append_str(out, ",");
    append_field(out, c, "subject");
    append_str(out, ",");
    append_field(out, c, "message");
    append_str(out, ",");
    append_field(out, c, "status");
    append_str(out, ",");
    append_field(out, c, "date");
    append_str(out, "\n");
    proof {
        assert(out@ =~= old(out)@ + row_text(c@));
    }
}

/// The CSV text for the given contacts.
fn build_csv(items: &Vec<Json>) -> (r: String)
    ensures
        r@ == csv_text(views_of(items@)),
{
    let mut out: Vec<char> = chars_of("name,email,subject,message,status,date\n");
    proof {
        lemma_views_of(items@);
        assert(rows_text(views_of(items@).subrange(0, 0)) == Seq::<char>::empty());
        assert(out@ =~= csv_header() + rows_text(views_of(items@).subrange(0, 0)));
    }
    let mut i: usize = 0;
    while i < items.len()
        invariant
            i <= items@.len(),
            views_of(items@).len() == items@.len(),
            forall|k: int| 0 <= k < items@.len() ==> views_of(items@)[k] == items@[k]@,
            out@ == csv_header() + rows_text(views_of(items@).subrange(0, i as int)),
        decreases items@.len() - i,
    {
        append_row(&mut out, &items[i]);
        i = i + 1;
        proof {
            let vs = views_of(items@);
            assert(vs.subrange(0, i as int).drop_last() =~= vs.subrange(0, i - 1));
            assert(vs.subrange(0, i as int).last() == items@[i - 1]@);
            assert(out@ =~= csv_header() + rows_text(vs.subrange(0, i as int)));
        }
    }
    proof {
        assert(views_of(items@).subrange(0, items@.len() as int) =~= views_of(items@));
    }
    string_from_chars(&out)
}

/// The export operation itself, over the stored text the host read.
pub fn export_data(content: &str, format: &str) -> (r: Result<String, String>)
    ensures
        match r {
            Ok(t) => export_outcome(content@, format@) == Ok::<Seq<char>, Seq<char>>(t@),
            Err(e) => export_outcome(content@, format@) == Err::<Seq<char>, Seq<char>>(e@),
        },
{
    if str_eq(format, "json") {
        Ok(String::from_str(content))
    } else if str_eq(format, "csv") {
        let cs = chars_of(content);
        match parse_document(&cs) {
            None => Err(String::from_str("Invalid JSON data")),
            Some(doc) => {
                let key = chars_of("contacts");
                match doc.get(&key) {
                    Some(m) => match m {
                        Json::Arr(items) => Ok(build_csv(items)),
                        _ => Err(String::from_str("No contacts data found")),
                    },
                    None => Err(String::from_str("No contacts data found")),
                }
            },
        }
    } else {
        let mut msg = chars_of("Unsupported format: ");
        append_str(&mut msg, format);
        Err(string_from_chars(&msg))
    }
}

/// Exporting as JSON returns the stored text unchanged, whatever it is.
pub proof fn lemma_export_json_identity(content: Seq<char>)
    ensures
        export_outcome(content, "json"@) == Ok::<Seq<char>, Seq<char>>(content),
{
}

} // verus!
