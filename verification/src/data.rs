//! The metadata record of a backup run.

use vstd::prelude::*;
use vstd::string::StringExecFns;
use vstd::utf8::encode_utf8;

use crate::clock::seconds_since_epoch;
use crate::json::{
    closing, compress_label, count_label, destination_label, excluded_label, folders_label,
    lemma_field_written, push_quoted, push_string_list, push_tag_list, quoted, record_text,
    rendered_bool, size_label, string_list, tag_names, text_from_compress, text_from_count,
    text_from_destination, text_from_excluded, text_from_folders, text_from_size, timestamp_label,
    Record,
};
use crate::options::{metadata_path_of, texts, BackUpOptions};
use crate::text::{decimal, push_decimal};

verus! {

/// What is known of a backup run: when it was made, how much it holds, and
/// the options that it was made with.
pub struct BackUpData {
    pub options: BackUpOptions,
    /// Seconds since the epoch, and 0 where the clock could not tell.
    pub timestamp: u64,
    pub size_in_bytes: u64,
    pub file_count: u32,
    /// The size of the record's text in bytes, once it has been made.
    pub json_size_in_bytes: u64,
}

/// The metadata file of a run: where it belongs, and what it holds.
#[derive(Clone, Debug)]
pub struct MetadataFile {
    pub path: String,
    pub contents: String,
}

impl BackUpData {
    /// What the record says.
    pub open spec fn record(&self) -> Record {
        Record {
            timestamp: self.timestamp as nat,
            size_in_bytes: self.size_in_bytes as nat,
            file_count: self.file_count as nat,
            folder_options: self.options.folder_options@,
            destination_path: self.options.destination_path@,
            compress: self.options.compress,
            excluded_extensions: self.options.excluded(),
        }
    }

    /// The record of a run made at the time that `seconds` gives: seconds
    /// since the epoch, or `None` where the clock could not tell, which is
    /// recorded as 0.
    pub fn at_time(
        options: BackUpOptions,
        size_in_bytes: u64,
        file_count: u32,
        seconds: Option<u64>,
    ) -> (data: Self)
        ensures
            data.options == options,
            data.timestamp == match seconds {
                Some(s) => s,
                None => 0,
            },
            data.size_in_bytes == size_in_bytes,
            data.file_count == file_count,
            data.json_size_in_bytes == 0,
    {
        let timestamp = match seconds {
            Some(s) => s,
            None => 0,
        };
        BackUpData { options, timestamp, size_in_bytes, file_count, json_size_in_bytes: 0 }
    }

    /// The record of a run made now. The timestamp is read from the system
    /// clock, so nothing is said of it here; see [`BackUpData::at_time`].
    pub fn new(options: BackUpOptions, size_in_bytes: u64, file_count: u32) -> (data: Self)
        ensures
            data.options == options,
            data.size_in_bytes == size_in_bytes,
            data.file_count == file_count,
            data.json_size_in_bytes == 0,
    {
        Self::at_time(options, size_in_bytes, file_count, seconds_since_epoch())
    }

    /// The text of the record.
    pub fn format_json(&self) -> (text: String)
        ensures
            text@ == record_text(self.record()),
    {
        let ghost r = self.record();
        let mut text = String::new();
        text.append("{\n  \"timestamp\": ");
        push_decimal(&mut text, self.timestamp);
        proof {
            lemma_field_written(
                Seq::empty(),
                timestamp_label(),
                decimal(r.timestamp),
                text_from_size(r),
            );
            assert(text@ + text_from_size(r) =~= record_text(r));
        }
        let ghost before = text@;
        text.append(",\n  \"size_in_bytes\": ");
        push_decimal(&mut text, self.size_in_bytes);
        proof {
            lemma_field_written(before, size_label(), decimal(r.size_in_bytes), text_from_count(r));
        }
        let ghost before = text@;
        text.append(",\n  \"file_count\": ");
        push_decimal(&mut text, self.file_count as u64);
        proof {
            lemma_field_written(before, count_label(), decimal(r.file_count), text_from_folders(r));
        }
        let ghost before = text@;
        text.append(",\n  \"options\": {\n    \"folder_options\": ");
        push_tag_list(&mut text, &self.options.folder_options);
        proof {
            lemma_field_written(
                before,
                folders_label(),
                string_list(tag_names(r.folder_options)),
                text_from_destination(r),
            );
        }
        let ghost before = text@;
        text.append(",\n    \"destination_path\": ");
        push_quoted(&mut text, self.options.destination_path.as_str());
        proof {
            lemma_field_written(
                before,
                destination_label(),
                quoted(r.destination_path),
                text_from_compress(r),
            );
        }
        let ghost before = text@;
        text.append(",\n    \"compress\": ");
        if self.options.compress {
            text.append("true");
        } else {
            text.append("false");
        }
        proof {
            lemma_field_written(
                before,
                compress_label(),
                rendered_bool(r.compress),
                text_from_excluded(r),
            );
        }
        let ghost before = text@;
        text.append(",\n    \"excluded_extensions\": ");
        push_string_list(&mut text, &self.options.excluded_extensions);
        text.append("\n  }\n}");
        proof {
            lemma_field_written(
                before,
                excluded_label(),
                string_list(r.excluded_extensions),
                closing(),
            );
        }
        text
    }

    /// Sets the file count to the number of `files`, as far as the count can
    /// hold it. Nothing is asked of the files themselves: one whose size
    /// could not be had counts like any other.
    pub fn count_files(&mut self, files: &Vec<String>)
        ensures
            final(self).file_count == files.len() as u32,
            files.len() <= u32::MAX ==> final(self).file_count == files.len(),
            final(self).options == old(self).options,
            final(self).timestamp == old(self).timestamp,
            final(self).size_in_bytes == old(self).size_in_bytes,
            final(self).json_size_in_bytes == old(self).json_size_in_bytes,
    {
        self.file_count = #[verifier::truncate]
        (files.len() as u32);
    }

    /// The metadata file of the run: `backup_data.json` in the destination
    /// directory, holding the text of the record. The size of that text is
    /// noted in the record; the caller writes the file.
    pub fn create_json_file(&mut self) -> (file: MetadataFile)
        ensures
            file.path@ == metadata_path_of(old(self).options.destination_path@),
            file.contents@ == record_text(old(self).record()),
            final(self).json_size_in_bytes == encode_utf8(file.contents@).len(),
            final(self).options == old(self).options,
            final(self).timestamp == old(self).timestamp,
            final(self).size_in_bytes == old(self).size_in_bytes,
            final(self).file_count == old(self).file_count,
    {
        let contents = self.format_json();
        let path = self.options.metadata_path();
        self.json_size_in_bytes = contents.as_str().as_bytes().len() as u64;
        MetadataFile { path, contents }
    }
}

} // verus!
