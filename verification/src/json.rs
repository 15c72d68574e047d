//! The text of a metadata record: how it is written, and how it is read.
//!
//! A record is written as a JSON object with a fixed layout. Strings are
//! written between double quotes, with the quote, the backslash and the
//! control characters escaped, so the text is valid JSON whatever the
//! strings hold.

use vstd::prelude::*;
use vstd::string::StringExecFns;

use crate::folders::Folders;
use crate::options::texts;
use crate::text::{control_code, decimal, hex_char, hex_digit, is_control, push_decimal};

verus! {

/// What a metadata record says.
pub struct Record {
    /// When the record was made, in seconds since the epoch.
    pub timestamp: nat,
    /// The total size of the files in bytes.
    pub size_in_bytes: nat,
    /// The number of files.
    pub file_count: nat,
    /// The selected folders.
    pub folder_options: Seq<Folders>,
    /// The destination directory.
    pub destination_path: Seq<char>,
    /// Whether compression was asked for.
    pub compress: bool,
    /// The excluded extensions.
    pub excluded_extensions: Seq<Seq<char>>,
}

/// The record names of folders.
pub open spec fn tag_names(folders: Seq<Folders>) -> Seq<Seq<char>> {
    Seq::new(folders.len(), |i: int| folders[i].tag_name())
}

/// How one character of a string is written.
pub open spec fn escaped_char(c: char) -> Seq<char> {
    if c == '"' || c == '\\' {
        seq!['\\', c]
    } else if is_control(c) {
        seq!['\\', 'u', '0', '0', hex_char(c as nat / 16), hex_char(c as nat % 16)]
    } else {
        seq![c]
    }
}

/// How the characters of a string are written.
pub open spec fn escaped(s: Seq<char>) -> Seq<char>
    decreases s.len(),
{
    if s.len() == 0 {
        Seq::empty()
    } else {
        escaped_char(s[0]) + escaped(s.skip(1))
    }
}

/// A string as written: escaped, between double quotes.
pub open spec fn quoted(s: Seq<char>) -> Seq<char> {
    seq!['"'] + escaped(s) + seq!['"']
}

/// The items of a list as written: each quoted, with a comma and a space between two.
pub open spec fn rendered_items(items: Seq<Seq<char>>) -> Seq<char>
    decreases items.len(),
{
    if items.len() == 0 {
        Seq::empty()
    } else if items.len() == 1 {
        quoted(items[0])
    } else {
        quoted(items[0]) + ", "@ + rendered_items(items.skip(1))
    }
}

/// A list of strings as written.
pub open spec fn string_list(items: Seq<Seq<char>>) -> Seq<char> {
    seq!['['] + rendered_items(items) + seq![']']
}

/// A truth value as written.
pub open spec fn rendered_bool(b: bool) -> Seq<char> {
    if b {
        "true"@
    } else {
        "false"@
    }
}

/// What stands before the timestamp.
pub open spec fn timestamp_label() -> Seq<char> {
    "{\n  \"timestamp\": "@
}

/// What stands between the timestamp and the size.
pub open spec fn size_label() -> Seq<char> {
    ",\n  \"size_in_bytes\": "@
}

/// What stands between the size and the file count.
pub open spec fn count_label() -> Seq<char> {
    ",\n  \"file_count\": "@
}

/// What stands between the file count and the selected folders.
pub open spec fn folders_label() -> Seq<char> {
    ",\n  \"options\": {\n    \"folder_options\": "@
}

/// What stands between the selected folders and the destination.
pub open spec fn destination_label() -> Seq<char> {
    ",\n    \"destination_path\": "@
}

/// What stands between the destination and the compression flag.
pub open spec fn compress_label() -> Seq<char> {
    ",\n    \"compress\": "@
}

/// What stands between the compression flag and the excluded extensions.
pub open spec fn excluded_label() -> Seq<char> {
    ",\n    \"excluded_extensions\": "@
}

/// What stands after the excluded extensions.
pub open spec fn closing() -> Seq<char> {
    "\n  }\n}"@
}

/// The text of a record from the excluded extensions on.
pub open spec fn text_from_excluded(r: Record) -> Seq<char> {
    excluded_label() + (string_list(r.excluded_extensions) + closing())
}

/// The text of a record from the compression flag on.
pub open spec fn text_from_compress(r: Record) -> Seq<char> {
    compress_label() + (rendered_bool(r.compress) + text_from_excluded(r))
}

/// The text of a record from the destination on.
pub open spec fn text_from_destination(r: Record) -> Seq<char> {
    destination_label() + (quoted(r.destination_path) + text_from_compress(r))
}

/// The text of a record from the selected folders on.
pub open spec fn text_from_folders(r: Record) -> Seq<char> {
    folders_label() + (string_list(tag_names(r.folder_options)) + text_from_destination(r))
}

/// The text of a record from the file count on.
pub open spec fn text_from_count(r: Record) -> Seq<char> {
    count_label() + (decimal(r.file_count) + text_from_folders(r))
}

/// The text of a record from the size on.
pub open spec fn text_from_size(r: Record) -> Seq<char> {
    size_label() + (decimal(r.size_in_bytes) + text_from_count(r))
}

/// The text of a record: its fields in a fixed order, each after its label.
pub open spec fn record_text(r: Record) -> Seq<char> {
    timestamp_label() + (decimal(r.timestamp) + text_from_size(r))
}

/// A field that is written after `before` stands in the text where it
/// stands in front of what follows it.
pub proof fn lemma_field_written(
    before: Seq<char>,
    label: Seq<char>,
    value: Seq<char>,
    rest: Seq<char>,
)
    ensures
        (before + label + value) + rest == before + (label + (value + rest)),
{
    assert((before + label + value) + rest =~= before + (label + (value + rest)));
}

/// Writing a string and then a character is writing the string with that character at its end.
pub proof fn lemma_escaped_push(s: Seq<char>, c: char)
    ensures
        escaped(s.push(c)) == escaped(s) + escaped_char(c),
    decreases s.len(),
{
    if s.len() == 0 {
        assert(s.push(c).skip(1) =~= Seq::<char>::empty());
        assert(escaped(s.push(c).skip(1)) =~= Seq::<char>::empty());
        assert(escaped(s.push(c)) =~= escaped(s) + escaped_char(c));
    } else {
        assert(s.push(c).skip(1) =~= s.skip(1).push(c));
        lemma_escaped_push(s.skip(1), c);
        assert(escaped(s.push(c)) =~= escaped(s) + escaped_char(c));
    }
}

/// The items of a list with one more at its end: the new item follows the
/// others after a comma and a space, or stands alone.
pub proof fn lemma_rendered_items_push(items: Seq<Seq<char>>, item: Seq<char>)
    ensures
        rendered_items(items.push(item)) == if items.len() == 0 {
            quoted(item)
        } else {
            rendered_items(items) + ", "@ + quoted(item)
        },
    decreases items.len(),
{
    if items.len() == 0 {
    } else {
        assert(items.push(item).skip(1) =~= items.skip(1).push(item));
        lemma_rendered_items_push(items.skip(1), item);
        assert(rendered_items(items.push(item)) =~= rendered_items(items) + ", "@ + quoted(item));
    }
}

/// Appends a string as written to `out`.
pub fn push_quoted(out: &mut String, s: &str)
    ensures
        final(out)@ == old(out)@ + quoted(s@),
{
    out.push('"');
    let ghost start = out@;
    for c in it: s.chars()
        invariant
            it.seq() == s@,
            out@ == start + escaped(s@.take(it.index() as int)),
    {
        proof {
            let i = it.index() as int;
            assert(s@.take(i + 1) =~= s@.take(i).push(c));
            lemma_escaped_push(s@.take(i), c);
        }
        let ghost before = out@;
        if c == '"' || c == '\\' {
            out.push('\\');
            out.push(c);
            assert(out@ =~= before + escaped_char(c));
        } else if let Some(code) = control_code(c) {
            out.append("\\u00");
            proof {
                reveal_strlit("\\u00");
                assert("\\u00"@ =~= seq!['\\', 'u', '0', '0']);
            }
            out.push(hex_digit(code / 16));
            out.push(hex_digit(code % 16));
            assert(out@ =~= before + escaped_char(c));
        } else {
            out.push(c);
            assert(out@ =~= before + escaped_char(c));
        }
        assert(out@ =~= start + (escaped(s@.take(it.index() as int)) + escaped_char(c)));
    }
    assert(s@.take(s@.len() as int) =~= s@);
    out.push('"');
    assert(out@ =~= old(out)@ + quoted(s@));
}

/// Appends a list of strings as written to `out`.
pub fn push_string_list(out: &mut String, items: &Vec<String>)
    ensures
        final(out)@ == old(out)@ + string_list(texts(items@)),
{
    out.push('[');
    let ghost start = out@;
    let mut i: usize = 0;
    assert(texts(items@).take(0) =~= Seq::<Seq<char>>::empty());
    assert(out@ =~= start + rendered_items(texts(items@).take(0)));
    while i < items.len()
        invariant
            i <= items.len(),
            out@ == start + rendered_items(texts(items@).take(i as int)),
        decreases items.len() - i,
    {
        let ghost before = out@;
        proof {
            assert(texts(items@).take(i + 1) =~= texts(items@).take(i as int).push(items@[i as int]@));
            lemma_rendered_items_push(texts(items@).take(i as int), items@[i as int]@);
        }
        if i > 0 {
            out.append(", ");
        }
        push_quoted(out, items[i].as_str());
        i += 1;
        assert(out@ =~= start + rendered_items(texts(items@).take(i as int)));
    }
    assert(texts(items@).take(items.len() as int) =~= texts(items@));
    out.push(']');
    assert(out@ =~= old(out)@ + string_list(texts(items@)));
}

/// Appends the list of the record names of `folders` as written to `out`.
pub fn push_tag_list(out: &mut String, folders: &Vec<Folders>)
    ensures
        final(out)@ == old(out)@ + string_list(tag_names(folders@)),
{
    out.push('[');
    let ghost start = out@;
    let mut i: usize = 0;
    assert(tag_names(folders@).take(0) =~= Seq::<Seq<char>>::empty());
    assert(out@ =~= start + rendered_items(tag_names(folders@).take(0)));
    while i < folders.len()
        invariant
            i <= folders.len(),
            out@ == start + rendered_items(tag_names(folders@).take(i as int)),
        decreases folders.len() - i,
    {
        proof {
            assert(tag_names(folders@).take(i + 1) =~= tag_names(folders@).take(i as int).push(
                folders@[i as int].tag_name(),
            ));
            lemma_rendered_items_push(
                tag_names(folders@).take(i as int),
                folders@[i as int].tag_name(),
            );
        }
        if i > 0 {
            out.append(", ");
        }
        push_quoted(out, folders[i].tag());
        i += 1;
        assert(out@ =~= start + rendered_items(tag_names(folders@).take(i as int)));
    }
    assert(tag_names(folders@).take(folders.len() as int) =~= tag_names(folders@));
    out.push(']');
    assert(out@ =~= old(out)@ + string_list(tag_names(folders@)));
}

} // verus!
