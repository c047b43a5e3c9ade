//! The JSON sidecar of a post: the authored fields and the post's
//! persistent identifier.
//!
//! Reading is exact: `from_json_str` decodes precisely the documents
//! `decoded_metadata` accepts, to precisely the value it gives, over the
//! named parse of the `json` module. Writing back is fully verified:
//! `to_json_str` produces exactly the four-space pretty-printed document
//! described by `metadata_json`.

use crate::error::{Error, ErrorKind};
use crate::json::{
    json_doc_of, json_lookup, opt_string_field, opt_string_of, parse_json, string_field,
    string_of, Json, JsonV,
};
use crate::text::push_char;
use vstd::prelude::*;
use vstd::string::{StrSliceExecFns, StringExecFns};

verus! {

/// The sidecar fields of a post. `id` is absent until the pipeline assigns
/// one and writes it back.
pub struct PostMetadata {
    pub id: Option<String>,
    pub title: String,
    pub description: Option<String>,
    pub date: String,
    pub tags: Vec<String>,
    pub permalink: Option<String>,
}

#[verifier::ext_equal]
pub ghost struct PostMetadataV {
    pub id: Option<Seq<char>>,
    pub title: Seq<char>,
    pub description: Option<Seq<char>>,
    pub date: Seq<char>,
    pub tags: Seq<Seq<char>>,
    pub permalink: Option<Seq<char>>,
}

impl View for PostMetadata {
    type V = PostMetadataV;

    open spec fn view(&self) -> PostMetadataV {
        PostMetadataV {
            id: self.id.deep_view(),
            title: self.title@,
            description: self.description.deep_view(),
            date: self.date@,
            tags: self.tags.deep_view(),
            permalink: self.permalink.deep_view(),
        }
    }
}

impl DeepView for PostMetadata {
    type V = PostMetadataV;

    open spec fn deep_view(&self) -> PostMetadataV {
        self.view()
    }
}

/// The items of the tags array as the character sequences they hold;
/// nothing when some item is not a string.
pub open spec fn string_items(items: Seq<JsonV>) -> Option<Seq<Seq<char>>>
    decreases items.len(),
{
    if items.len() == 0 {
        Some(Seq::empty())
    } else {
        match string_items(items.drop_last()) {
            None => None,
            Some(rest) => match items.last() {
                JsonV::Str(s) => Some(rest.push(s)),
                _ => None,
            },
        }
    }
}

/// The tags field: an array whose items are all strings; nothing
/// otherwise.
pub open spec fn tags_of(j: JsonV) -> Option<Seq<Seq<char>>> {
    match json_lookup(j, "tags"@) {
        Some(JsonV::Arr(items)) => string_items(items),
        _ => None,
    }
}

/// The sidecar a parsed document decodes to: `title`, `date` and `tags`
/// (an array of strings) are required; `id`, `description` and
/// `permalink` are optional, with null and absence both meaning an empty
/// value. Nothing when any field has the wrong shape.
pub open spec fn metadata_of_json(j: JsonV) -> Option<PostMetadataV> {
    match (
        opt_string_of(j, "id"@),
        string_of(j, "title"@),
        opt_string_of(j, "description"@),
        string_of(j, "date"@),
        tags_of(j),
        opt_string_of(j, "permalink"@),
    ) {
        (Some(id), Some(title), Some(description), Some(date), Some(tags), Some(permalink)) => Some(
            PostMetadataV { id, title, description, date, tags, permalink },
        ),
        _ => None,
    }
}

/// The sidecar a document text decodes to: the parse of the text, then
/// the field extraction above; nothing when the text is malformed or some
/// field has the wrong shape.
pub open spec fn decoded_metadata(s: Seq<char>) -> Option<PostMetadataV> {
    match json_doc_of(s) {
        None => None,
        Some(j) => metadata_of_json(j),
    }
}

/// Once some prefix of the items is not all strings, the whole array is
/// not.
proof fn lemma_string_items_extend_none(items: Seq<JsonV>, k: int)
    requires
        0 <= k <= items.len(),
        string_items(items.take(k)) is None,
    ensures
        string_items(items) is None,
    decreases items.len() - k,
{
    if k == items.len() {
        assert(items.take(k) =~= items);
    } else {
        assert(items.take(k + 1).drop_last() =~= items.take(k));
        lemma_string_items_extend_none(items, k + 1);
    }
}

/// Extracts the tag list from the parsed document, matching `tags_of`.
fn tags_field(doc: &Json) -> (r: Result<Vec<String>, Error>)
    ensures
        r is Ok <==> tags_of(doc@) is Some,
        r matches Ok(v) ==> Some(v.deep_view()) == tags_of(doc@),
        r matches Err(e) ==> e.kind == ErrorKind::Decode,
{
    let value = match doc.get("tags") {
        Some(v) => v,
        None => {
            return Err(Error::new(ErrorKind::Decode, "missing tags field"));
        },
    };
    let items = match value.as_array() {
        Some(a) => a,
        None => {
            return Err(Error::new(ErrorKind::Decode, "tags is not an array"));
        },
    };
    let ghost itemsv = items.deep_view();
    let mut tags: Vec<String> = Vec::new();
    let n = items.len();
    let mut i: usize = 0;
    proof {
        assert(string_items(itemsv.take(0)) =~~= Some(Seq::<Seq<char>>::empty()));
    }
    while i < n
        invariant
            n == items@.len(),
            0 <= i <= n,
            itemsv == items.deep_view(),
            itemsv.len() == n,
            tags_of(doc@) == string_items(itemsv),
            string_items(itemsv.take(i as int)) == Some(tags.deep_view()),
        decreases n - i,
    {
        proof {
            assert(itemsv.take(i + 1).drop_last() =~= itemsv.take(i as int));
            assert(itemsv.take(i + 1).last() == itemsv[i as int]);
            assert(itemsv[i as int] == items@[i as int].deep_view());
        }
        match items[i].as_str() {
            Some(s) => {
                tags.push(crate::text::copy_str(s));
                proof {
                    assert(string_items(itemsv.take(i + 1)) =~~= Some(tags.deep_view()));
                }
            },
            None => {
                proof {
                    assert(string_items(itemsv.take(i + 1)) is None);
                    lemma_string_items_extend_none(itemsv, i + 1);
                }
                return Err(Error::new(ErrorKind::Decode, "tag is not a string"));
            },
        }
        i = i + 1;
    }
    proof {
        assert(itemsv.take(n as int) =~= itemsv);
    }
    Ok(tags)
}

impl PostMetadata {
    /// Decodes a sidecar document: exactly the documents `decoded_metadata`
    /// accepts decode, to exactly the value it gives; everything else is a
    /// decode error.
    pub fn from_json_str(json_str: &str) -> (r: Result<PostMetadata, Error>)
        ensures
            r is Ok <==> decoded_metadata(json_str@) is Some,
            r matches Ok(m) ==> Some(m@) == decoded_metadata(json_str@),
            r matches Err(e) ==> e.kind == ErrorKind::Decode,
    {
        let doc = match parse_json(json_str) {
            Some(v) => v,
            None => {
                return Err(Error::new(ErrorKind::Decode, "failed to decode post metadata"));
            },
        };
        let id = opt_string_field(&doc, "id")?;
        let title = string_field(&doc, "title")?;
        let description = opt_string_field(&doc, "description")?;
        let date = string_field(&doc, "date")?;
        let permalink = opt_string_field(&doc, "permalink")?;
        let tags = tags_field(&doc)?;
        let m = PostMetadata { id, title, description, date, tags, permalink };
        proof {
            assert(Some(m@) =~~= decoded_metadata(json_str@));
        }
        Ok(m)
    }
}

/// The lowercase hexadecimal digit of `d`, for escape sequences.
pub open spec fn escape_hex(d: u32) -> char {
    crate::ident::hex_char_of(d as u64)
}

/// How one character appears inside a JSON string literal: quotes and
/// backslashes are escaped, control characters get their short escapes or
/// a `\u00XX` sequence, everything else stands as itself.
pub open spec fn escape_char(c: char) -> Seq<char> {
    if c == '"' {
        seq!['\\', '"']
    } else if c == '\\' {
        seq!['\\', '\\']
    } else if c == '\u{8}' {
        seq!['\\', 'b']
    } else if c == '\u{c}' {
        seq!['\\', 'f']
    } else if c == '\n' {
        seq!['\\', 'n']
    } else if c == '\r' {
        seq!['\\', 'r']
    } else if c == '\t' {
        seq!['\\', 't']
    } else if (c as u32) < 0x20 {
        seq!['\\', 'u', '0', '0', escape_hex((c as u32) / 16), escape_hex((c as u32) % 16)]
    } else {
        seq![c]
    }
}

/// A character sequence with every character escaped for JSON.
pub open spec fn json_escaped(s: Seq<char>) -> Seq<char>
    decreases s.len(),
{
    if s.len() == 0 {
        Seq::empty()
    } else {
        json_escaped(s.drop_last()) + escape_char(s.last())
    }
}

/// A JSON string literal.
pub open spec fn json_string(s: Seq<char>) -> Seq<char> {
    seq!['"'] + json_escaped(s) + seq!['"']
}

/// An optional string: `null` when absent.
pub open spec fn json_opt_string(o: Option<Seq<char>>) -> Seq<char> {
    match o {
        None => "null"@,
        Some(s) => json_string(s),
    }
}

/// The items of the tags array, one per line at eight spaces of indent,
/// separated by commas.
pub open spec fn json_tags_items(tags: Seq<Seq<char>>) -> Seq<char>
    decreases tags.len(),
{
    if tags.len() == 0 {
        Seq::empty()
    } else if tags.len() == 1 {
        "        "@ + json_string(tags[0])
    } else {
        json_tags_items(tags.drop_last()) + ",\n"@ + "        "@ + json_string(tags.last())
    }
}

/// The tags array as the pretty printer lays it out.
pub open spec fn json_tags(tags: Seq<Seq<char>>) -> Seq<char> {
    if tags.len() == 0 {
        "[]"@
    } else {
        "[\n"@ + json_tags_items(tags) + "\n    ]"@
    }
}

/// The whole sidecar document: a four-space pretty-printed JSON object
/// with the fields in their declared order.
pub open spec fn metadata_json(m: PostMetadataV) -> Seq<char> {
    "{\n    \"id\": "@ + json_opt_string(m.id) + ",\n    \"title\": "@ + json_string(m.title)
        + ",\n    \"description\": "@ + json_opt_string(m.description) + ",\n    \"date\": "@
        + json_string(m.date) + ",\n    \"tags\": "@ + json_tags(m.tags) + ",\n    \"permalink\": "@
        + json_opt_string(m.permalink) + "\n}"@
}

/// Appends a JSON string literal for `s`.
fn push_json_string(out: &mut String, s: &str)
    ensures
        final(out)@ == old(out)@ + json_string(s@),
{
    push_char(out, '"');
    let n = s.unicode_len();
    let mut i: usize = 0;
    while i < n
        invariant
            n == s@.len(),
            0 <= i <= n,
            out@ =~= old(out)@ + seq!['"'] + json_escaped(s@.take(i as int)),
        decreases n - i,
    {
        let c = s.get_char(i);
        proof {
            assert(s@.take(i + 1).drop_last() =~= s@.take(i as int));
            assert(s@.take(i + 1).last() == c);
        }
        if c == '"' {
            push_char(out, '\\');
            push_char(out, '"');
        } else if c == '\\' {
            push_char(out, '\\');
            push_char(out, '\\');
        } else if c == '\u{8}' {
            push_char(out, '\\');
            push_char(out, 'b');
        } else if c == '\u{c}' {
            push_char(out, '\\');
            push_char(out, 'f');
        } else if c == '\n' {
            push_char(out, '\\');
            push_char(out, 'n');
        } else if c == '\r' {
            push_char(out, '\\');
            push_char(out, 'r');
        } else if c == '\t' {
            push_char(out, '\\');
            push_char(out, 't');
        } else if (c as u32) < 0x20 {
            push_char(out, '\\');
            push_char(out, 'u');
            push_char(out, '0');
            push_char(out, '0');
            let hi = crate::ident::hex_digit_char((c as u32 / 16) as u64);
            let lo = crate::ident::hex_digit_char((c as u32 % 16) as u64);
            push_char(out, hi);
            push_char(out, lo);
        } else {
            push_char(out, c);
        }
        assert(out@ =~= old(out)@ + seq!['"'] + json_escaped(s@.take(i + 1)));
        i = i + 1;
    }
    proof {
        assert(s@.take(n as int) =~= s@);
    }
    push_char(out, '"');
    assert(out@ =~= old(out)@ + json_string(s@));
}

/// Appends `null` or a JSON string literal.
fn push_json_opt_string(out: &mut String, o: &Option<String>)
    ensures
        final(out)@ == old(out)@ + json_opt_string(o.deep_view()),
{
    match o {
        None => {
            out.append("null");
        },
        Some(s) => {
            push_json_string(out, s.as_str());
        },
    }
}

/// Appends the pretty-printed tags array.
fn push_json_tags(out: &mut String, tags: &Vec<String>)
    ensures
        final(out)@ == old(out)@ + json_tags(tags.deep_view()),
{
    let n = tags.len();
    if n == 0 {
        out.append("[]");
        return ;
    }
    out.append("[\n");
    let mut i: usize = 0;
    while i < n
        invariant
            n == tags.len(),
            0 < n,
            0 <= i <= n,
            out@ =~= old(out)@ + "[\n"@ + json_tags_items(tags.deep_view().take(i as int)),
        decreases n - i,
    {
        if i > 0 {
            out.append(",\n");
        }
        out.append("        ");
        push_json_string(out, tags[i].as_str());
        proof {
            let items = tags.deep_view().take(i + 1);
            assert(items.drop_last() =~= tags.deep_view().take(i as int));
            assert(items.last() == tags@[i as int]@);
            if i == 0 {
                assert(json_tags_items(items) == "        "@ + json_string(items[0]));
                assert(items[0] == tags@[0]@);
            }
        }
        assert(out@ =~= old(out)@ + "[\n"@ + json_tags_items(tags.deep_view().take(i + 1)));
        i = i + 1;
    }
    proof {
        assert(tags.deep_view().take(n as int) =~= tags.deep_view());
    }
    out.append("\n    ]");
    assert(out@ =~= old(out)@ + json_tags(tags.deep_view()));
}

impl PostMetadata {
    /// Renders the sidecar exactly as `metadata_json` lays it out:
    /// four-space indentation, fields in declared order, absent fields as
    /// `null`. Never fails.
    pub fn to_json_str(&self) -> (r: Result<String, Error>)
        ensures
            r matches Ok(s) && s@ == metadata_json(self@),
    {
        let mut out = String::new();
        out.append("{\n    \"id\": ");
        push_json_opt_string(&mut out, &self.id);
        out.append(",\n    \"title\": ");
        push_json_string(&mut out, self.title.as_str());
        out.append(",\n    \"description\": ");
        push_json_opt_string(&mut out, &self.description);
        out.append(",\n    \"date\": ");
        push_json_string(&mut out, self.date.as_str());
        out.append(",\n    \"tags\": ");
        push_json_tags(&mut out, &self.tags);
        out.append(",\n    \"permalink\": ");
        push_json_opt_string(&mut out, &self.permalink);
        out.append("\n}");
        assert(out@ =~= metadata_json(self@));
        Ok(out)
    }
}

} // verus!
