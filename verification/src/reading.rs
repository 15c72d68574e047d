//! Reading the text of a metadata record back.
//!
//! The reader takes the layout that the library writes, and in strings every
//! escape of a single character that JSON has in that form.

use vstd::prelude::*;

use crate::folders::Folders;
use crate::json::{
    closing, compress_label, count_label, destination_label, escaped, escaped_char,
    excluded_label, folders_label, quoted, rendered_bool, rendered_items, size_label,
    string_list, tag_names, text_from_compress, text_from_destination, text_from_excluded,
    text_from_folders, timestamp_label, Record,
};
use crate::text::{decimal, hex_char, is_control};

verus! {

/// What is left of `s` after `label`, where `s` begins with it.
pub open spec fn after_label(s: Seq<char>, label: Seq<char>) -> Option<Seq<char>> {
    if label.is_prefix_of(s) {
        Some(s.skip(label.len() as int))
    } else {
        None
    }
}

/// Whether a character is a decimal digit.
pub open spec fn is_digit(c: char) -> bool {
    48 <= (c as nat) <= 57
}

/// The number of decimal digits that `s` begins with.
pub open spec fn digits_len(s: Seq<char>) -> nat
    decreases s.len(),
{
    if s.len() > 0 && is_digit(s[0]) {
        1 + digits_len(s.skip(1))
    } else {
        0
    }
}

/// The number that a sequence of decimal digits stands for.
pub open spec fn digits_value(digits: Seq<char>) -> nat
    decreases digits.len(),
{
    if digits.len() == 0 {
        0
    } else {
        digits_value(digits.drop_last()) * 10 + ((digits.last() as nat) - 48) as nat
    }
}

/// The number that `s` begins with, and what follows it.
pub open spec fn read_nat(s: Seq<char>) -> Option<(nat, Seq<char>)> {
    let n = digits_len(s);
    if n == 0 {
        None
    } else {
        Some((digits_value(s.take(n as int)), s.skip(n as int)))
    }
}

/// The value of a hexadecimal digit.
pub open spec fn hex_value(c: char) -> Option<nat> {
    let code = c as nat;
    if 48 <= code <= 57 {
        Some((code - 48) as nat)
    } else if 97 <= code <= 102 {
        Some((code - 87) as nat)
    } else if 65 <= code <= 70 {
        Some((code - 55) as nat)
    } else {
        None
    }
}

/// Whether a number is the code of a character.
pub open spec fn is_scalar(code: nat) -> bool {
    code < 0xD800 || 0xE000 <= code <= 0x10FFFF
}

/// The character that four hexadecimal digits stand for.
pub open spec fn read_code(a: char, b: char, c: char, d: char) -> Option<char> {
    match (hex_value(a), hex_value(b), hex_value(c), hex_value(d)) {
        (Some(h3), Some(h2), Some(h1), Some(h0)) => {
            let code = ((h3 * 16 + h2) * 16 + h1) * 16 + h0;
            if is_scalar(code) {
                Some(code as char)
            } else {
                None
            }
        },
        _ => None,
    }
}

/// The character that the inside of a string begins with, and how much of
/// the text stands for it. There is none where the text is at its end or at
/// a quote, or begins with a control character or an escape that is not
/// taken.
pub open spec fn read_char(s: Seq<char>) -> Option<(char, nat)> {
    if s.len() == 0 {
        None
    } else if s[0] == '\\' {
        if s.len() >= 2 && (s[1] == '"' || s[1] == '\\') {
            Some((s[1], 2))
        } else if s.len() >= 6 && s[1] == 'u' {
            match read_code(s[2], s[3], s[4], s[5]) {
                Some(c) => Some((c, 6)),
                None => None,
            }
        } else {
            None
        }
    } else if s[0] == '"' || is_control(s[0]) {
        None
    } else {
        Some((s[0], 1))
    }
}

/// The string whose inside `s` begins with, and what follows its closing quote.
pub open spec fn read_inside(s: Seq<char>) -> Option<(Seq<char>, Seq<char>)>
    decreases s.len(),
{
    if s.len() > 0 && s[0] == '"' {
        Some((Seq::empty(), s.skip(1)))
    } else {
        match read_char(s) {
            Some((c, n)) => if 0 < n <= s.len() {
                match read_inside(s.skip(n as int)) {
                    Some((text, rest)) => Some((seq![c] + text, rest)),
                    None => None,
                }
            } else {
                None
            },
            None => None,
        }
    }
}

/// The string that `s` begins with, and what follows it.
pub open spec fn read_string(s: Seq<char>) -> Option<(Seq<char>, Seq<char>)> {
    if s.len() > 0 && s[0] == '"' {
        read_inside(s.skip(1))
    } else {
        None
    }
}

/// The strings of a list whose first item `s` begins with, and what follows
/// the bracket that closes the list.
pub open spec fn read_items(s: Seq<char>) -> Option<(Seq<Seq<char>>, Seq<char>)>
    decreases s.len(),
{
    match read_string(s) {
        Some((item, rest)) => if rest.len() >= s.len() {
            None
        } else if rest.len() >= 1 && rest[0] == ']' {
            Some((seq![item], rest.skip(1)))
        } else if rest.len() >= 2 && rest[0] == ',' && rest[1] == ' ' {
            match read_items(rest.skip(2)) {
                Some((more, end)) => Some((seq![item] + more, end)),
                None => None,
            }
        } else {
            None
        },
        None => None,
    }
}

/// The list of strings that `s` begins with, and what follows it.
pub open spec fn read_list(s: Seq<char>) -> Option<(Seq<Seq<char>>, Seq<char>)> {
    if s.len() >= 2 && s[0] == '[' {
        if s[1] == ']' {
            Some((Seq::empty(), s.skip(2)))
        } else {
            read_items(s.skip(1))
        }
    } else {
        None
    }
}

/// The truth value that `s` begins with, and what follows it.
pub open spec fn read_bool(s: Seq<char>) -> Option<(bool, Seq<char>)> {
    if rendered_bool(true).is_prefix_of(s) {
        Some((true, s.skip(rendered_bool(true).len() as int)))
    } else if rendered_bool(false).is_prefix_of(s) {
        Some((false, s.skip(rendered_bool(false).len() as int)))
    } else {
        None
    }
}

/// The folder of a record name.
pub open spec fn folder_of(name: Seq<char>) -> Option<Folders> {
    if name == Folders::Saves.tag_name() {
        Some(Folders::Saves)
    } else if name == Folders::Config.tag_name() {
        Some(Folders::Config)
    } else if name == Folders::Screenshots.tag_name() {
        Some(Folders::Screenshots)
    } else if name == Folders::Mods.tag_name() {
        Some(Folders::Mods)
    } else if name == Folders::Logs.tag_name() {
        Some(Folders::Logs)
    } else if name == Folders::Backups.tag_name() {
        Some(Folders::Backups)
    } else {
        None
    }
}

/// The folders of a list of record names, where each is the name of one.
pub open spec fn folders_of(names: Seq<Seq<char>>) -> Option<Seq<Folders>> {
    if forall|i: int| 0 <= i < names.len() ==> folder_of(#[trigger] names[i]) is Some {
        Some(Seq::new(names.len(), |i: int| folder_of(names[i])->0))
    } else {
        None
    }
}

/// The number of a field: what `s` holds after `label`.
pub open spec fn read_nat_field(s: Seq<char>, label: Seq<char>) -> Option<(nat, Seq<char>)> {
    match after_label(s, label) {
        Some(rest) => read_nat(rest),
        None => None,
    }
}

/// The string of a field.
pub open spec fn read_string_field(s: Seq<char>, label: Seq<char>) -> Option<
    (Seq<char>, Seq<char>),
> {
    match after_label(s, label) {
        Some(rest) => read_string(rest),
        None => None,
    }
}

/// The list of a field.
pub open spec fn read_list_field(s: Seq<char>, label: Seq<char>) -> Option<
    (Seq<Seq<char>>, Seq<char>),
> {
    match after_label(s, label) {
        Some(rest) => read_list(rest),
        None => None,
    }
}

/// The truth value of a field.
pub open spec fn read_bool_field(s: Seq<char>, label: Seq<char>) -> Option<(bool, Seq<char>)> {
    match after_label(s, label) {
        Some(rest) => read_bool(rest),
        None => None,
    }
}

/// The options that a text holds from the selected folders on, in a record
/// with the given numbers.
pub open spec fn read_options(s: Seq<char>, timestamp: nat, size_in_bytes: nat, file_count: nat) -> Option<
    Record,
> {
    match read_list_field(s, folders_label()) {
        Some((names, s1)) => match read_string_field(s1, destination_label()) {
            Some((destination_path, s2)) => match read_bool_field(s2, compress_label()) {
                Some((compress, s3)) => match read_list_field(s3, excluded_label()) {
                    Some((excluded_extensions, s4)) => match folders_of(names) {
                        Some(folder_options) => if s4 == closing() {
                            Some(
                                Record {
                                    timestamp,
                                    size_in_bytes,
                                    file_count,
                                    folder_options,
                                    destination_path,
                                    compress,
                                    excluded_extensions,
                                },
                            )
                        } else {
                            None
                        },
                        None => None,
                    },
                    None => None,
                },
                None => None,
            },
            None => None,
        },
        None => None,
    }
}

/// The record that a text holds, where it is the text of one.
pub open spec fn read_record(s: Seq<char>) -> Option<Record> {
    match read_nat_field(s, timestamp_label()) {
        Some((timestamp, s1)) => match read_nat_field(s1, size_label()) {
            Some((size_in_bytes, s2)) => match read_nat_field(s2, count_label()) {
                Some((file_count, s3)) => read_options(s3, timestamp, size_in_bytes, file_count),
                None => None,
            },
            None => None,
        },
        None => None,
    }
}

/// A text that begins with a label is read past it.
pub proof fn lemma_after_label(label: Seq<char>, rest: Seq<char>)
    ensures
        after_label(label + rest, label) == Some(rest),
{
    assert((label + rest).subrange(0, label.len() as int) =~= label);
    assert((label + rest).skip(label.len() as int) =~= rest);
}

/// A decimal numeral is made of digits, at least one, and stands for its number.
pub proof fn lemma_decimal_digits(n: nat)
    ensures
        decimal(n).len() >= 1,
        forall|i: int| 0 <= i < decimal(n).len() ==> is_digit(#[trigger] decimal(n)[i]),
        digits_value(decimal(n)) == n,
    decreases n,
{
    if n < 10 {
        assert(decimal(n).drop_last() =~= Seq::<char>::empty());
        assert(digits_value(decimal(n).drop_last()) == 0);
    } else {
        lemma_decimal_digits(n / 10);
        assert(decimal(n).drop_last() =~= decimal(n / 10));
    }
}

/// Digits that no digit follows are counted in full.
pub proof fn lemma_digits_len(digits: Seq<char>, rest: Seq<char>)
    requires
        forall|i: int| 0 <= i < digits.len() ==> is_digit(#[trigger] digits[i]),
        rest.len() == 0 || !is_digit(rest[0]),
    ensures
        digits_len(digits + rest) == digits.len(),
    decreases digits.len(),
{
    if digits.len() == 0 {
        assert(digits + rest =~= rest);
    } else {
        assert((digits + rest).skip(1) =~= digits.skip(1) + rest);
        assert forall|i: int| 0 <= i < digits.skip(1).len() implies is_digit(
            #[trigger] digits.skip(1)[i],
        ) by {
            assert(digits.skip(1)[i] == digits[i + 1]);
        }
        lemma_digits_len(digits.skip(1), rest);
    }
}

/// A numeral that no digit follows is read as its number.
pub proof fn lemma_read_nat(n: nat, rest: Seq<char>)
    requires
        rest.len() == 0 || !is_digit(rest[0]),
    ensures
        read_nat(decimal(n) + rest) == Some((n, rest)),
{
    lemma_decimal_digits(n);
    lemma_digits_len(decimal(n), rest);
    let len = decimal(n).len() as int;
    assert((decimal(n) + rest).take(len) =~= decimal(n));
    assert((decimal(n) + rest).skip(len) =~= rest);
}

/// A hexadecimal digit as written has its value.
pub proof fn lemma_hex_value(d: nat)
    requires
        d < 16,
    ensures
        hex_value(hex_char(d)) == Some(d),
{
}

/// A character as written is read as that character, and does not begin with a quote.
pub proof fn lemma_read_char(c: char, rest: Seq<char>)
    ensures
        read_char(escaped_char(c) + rest) == Some((c, escaped_char(c).len())),
        (escaped_char(c) + rest)[0] != '"',
        escaped_char(c).len() >= 1,
{
    let s = escaped_char(c) + rest;
    if c == '"' || c == '\\' {
        assert(s[0] == '\\' && s[1] == c);
    } else if is_control(c) {
        let code = c as nat;
        lemma_hex_value(0);
        lemma_hex_value(code / 16);
        lemma_hex_value(code % 16);
        assert(s[0] == '\\' && s[1] == 'u' && s[2] == '0' && s[3] == '0');
        assert(s[4] == hex_char(code / 16) && s[5] == hex_char(code % 16));
        assert(hex_char(0) == '0');
        assert(((0 * 16 + 0) * 16 + code / 16) * 16 + code % 16 == code);
        assert(read_code(s[2], s[3], s[4], s[5]) == Some(c));
    } else {
        assert(s[0] == c);
    }
}

/// The inside of a string as written, with its closing quote, is read as that string.
pub proof fn lemma_read_inside(text: Seq<char>, rest: Seq<char>)
    ensures
        read_inside(escaped(text) + seq!['"'] + rest) == Some((text, rest)),
    decreases text.len(),
{
    let s = escaped(text) + seq!['"'] + rest;
    if text.len() == 0 {
        assert(s[0] == '"');
        assert(s.skip(1) =~= rest);
        assert(text =~= Seq::<char>::empty());
    } else {
        let c = text[0];
        let tail = escaped(text.skip(1)) + seq!['"'] + rest;
        assert(s =~= escaped_char(c) + tail);
        lemma_read_char(c, tail);
        let n = escaped_char(c).len();
        assert(s.skip(n as int) =~= tail);
        lemma_read_inside(text.skip(1), rest);
        assert(seq![c] + text.skip(1) =~= text);
    }
}

/// A string as written is read as that string.
pub proof fn lemma_read_string(text: Seq<char>, rest: Seq<char>)
    ensures
        read_string(quoted(text) + rest) == Some((text, rest)),
        (quoted(text) + rest).len() > rest.len(),
        (quoted(text) + rest)[0] == '"',
{
    let s = quoted(text) + rest;
    assert(s[0] == '"');
    assert(s.skip(1) =~= escaped(text) + seq!['"'] + rest);
    lemma_read_inside(text, rest);
}

/// The items of a list as written, with the closing bracket, are read as those items.
pub proof fn lemma_read_items(items: Seq<Seq<char>>, rest: Seq<char>)
    requires
        items.len() >= 1,
    ensures
        read_items(rendered_items(items) + seq![']'] + rest) == Some((items, rest)),
        (rendered_items(items) + seq![']'] + rest)[0] == '"',
    decreases items.len(),
{
    let s = rendered_items(items) + seq![']'] + rest;
    if items.len() == 1 {
        let after = seq![']'] + rest;
        assert(s =~= quoted(items[0]) + after);
        lemma_read_string(items[0], after);
        assert(after[0] == ']');
        assert(after.skip(1) =~= rest);
        assert(seq![items[0]] =~= items);
    } else {
        reveal_strlit(", ");
        let more = rendered_items(items.skip(1)) + seq![']'] + rest;
        let after = ", "@ + more;
        assert(s =~= quoted(items[0]) + after);
        lemma_read_string(items[0], after);
        assert(after[0] == ',' && after[1] == ' ');
        assert(after.skip(2) =~= more);
        lemma_read_items(items.skip(1), rest);
        assert(seq![items[0]] + items.skip(1) =~= items);
    }
}

/// A list of strings as written is read as that list.
pub proof fn lemma_read_list(items: Seq<Seq<char>>, rest: Seq<char>)
    ensures
        read_list(string_list(items) + rest) == Some((items, rest)),
{
    let s = string_list(items) + rest;
    assert(s[0] == '[');
    if items.len() == 0 {
        assert(s[1] == ']');
        assert(s.skip(2) =~= rest);
        assert(items =~= Seq::<Seq<char>>::empty());
    } else {
        lemma_read_items(items, rest);
        assert(s.skip(1) =~= rendered_items(items) + seq![']'] + rest);
        assert(s[1] == s.skip(1)[0]);
    }
}

/// A truth value as written is read as that value.
pub proof fn lemma_read_bool(b: bool, rest: Seq<char>)
    ensures
        read_bool(rendered_bool(b) + rest) == Some((b, rest)),
{
    reveal_strlit("true");
    reveal_strlit("false");
    let s = rendered_bool(b) + rest;
    assert(s.subrange(0, rendered_bool(b).len() as int) =~= rendered_bool(b));
    assert(s.skip(rendered_bool(b).len() as int) =~= rest);
    if !b {
        assert(s[0] == 'f');
        if rendered_bool(true).is_prefix_of(s) {
            assert(s.subrange(0, 4)[0] == 't');
        }
    }
}

/// The record name of a folder is the name of that folder alone.
pub proof fn lemma_folder_of(folder: Folders)
    ensures
        folder_of(folder.tag_name()) == Some(folder),
{
    reveal_strlit("Saves");
    reveal_strlit("Config");
    reveal_strlit("Screenshots");
    reveal_strlit("Mods");
    reveal_strlit("Logs");
    reveal_strlit("Backups");
    assert("Saves"@.len() == 5 && "Saves"@[0] == 'S');
    assert("Config"@.len() == 6 && "Config"@[0] == 'C');
    assert("Screenshots"@.len() == 11 && "Screenshots"@[0] == 'S');
    assert("Mods"@.len() == 4 && "Mods"@[0] == 'M');
    assert("Logs"@.len() == 4 && "Logs"@[0] == 'L');
    assert("Backups"@.len() == 7 && "Backups"@[0] == 'B');
}

/// The record names of folders are read as those folders.
pub proof fn lemma_folders_of(folders: Seq<Folders>)
    ensures
        folders_of(tag_names(folders)) == Some(folders),
{
    let names = tag_names(folders);
    assert forall|i: int| 0 <= i < names.len() implies folder_of(#[trigger] names[i]) == Some(
        folders[i],
    ) by {
        lemma_folder_of(folders[i]);
    }
    assert(Seq::new(names.len(), |i: int| folder_of(names[i])->0) =~= folders);
}

/// The options of a record as written are read as the options of that record.
pub proof fn lemma_read_options(r: Record)
    ensures
        read_options(text_from_folders(r), r.timestamp, r.size_in_bytes, r.file_count) == Some(r),
{
    lemma_after_label(
        folders_label(),
        string_list(tag_names(r.folder_options)) + text_from_destination(r),
    );
    lemma_read_list(tag_names(r.folder_options), text_from_destination(r));
    lemma_after_label(destination_label(), quoted(r.destination_path) + text_from_compress(r));
    lemma_read_string(r.destination_path, text_from_compress(r));
    lemma_after_label(compress_label(), rendered_bool(r.compress) + text_from_excluded(r));
    lemma_read_bool(r.compress, text_from_excluded(r));
    lemma_after_label(excluded_label(), string_list(r.excluded_extensions) + closing());
    lemma_read_list(r.excluded_extensions, closing());
    lemma_folders_of(r.folder_options);
}

} // verus!
