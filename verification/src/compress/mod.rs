//! Compressed views of captured output.

pub mod ansi;
pub mod code;
pub mod diff;
pub mod grep_dedup;
pub mod grep_preview;
pub mod json;
pub mod passthrough;
pub mod syntax;

use crate::bytes;
use crate::search;
use crate::text;
use vstd::prelude::*;

verus! {

/// The ASCII letters.
pub open spec fn is_ascii_letter(c: char) -> bool {
    'a' <= c <= 'z' || 'A' <= c <= 'Z'
}

/// The position of the colon that ends the path of a grep line: the first one,
/// but for the one of a Windows drive letter, which the next one stands in for.
pub open spec fn path_end(line: Seq<char>) -> Option<int> {
    match search::char_index(line, ':') {
        Some(first) => if first == 1 && is_ascii_letter(line[0]) && line.len() > 2 && (line[2]
            == '\\' || line[2] == '/') {
            search::char_index_from(line, ':', 2)
        } else {
            Some(first)
        },
        None => None,
    }
}

/// What `path_end` says of the characters of a line.
pub proof fn lemma_path_end(line: Seq<char>)
    ensures
        path_end(line) matches Some(k) ==> 0 <= k < line.len() && line[k] == ':',
{
    search::lemma_char_index(line, ':');
    search::lemma_char_index_from(line, ':', 2);
}

/// The position of the colon that ends the path of a grep line.
pub fn path_colon(line: &[char]) -> (r: Option<usize>)
    ensures
        text::same_index(r, path_end(line@)),
        r matches Some(k) ==> k < line@.len() && line@[k as int] == ':',
{
    proof {
        search::lemma_char_index(line@, ':');
        lemma_path_end(line@);
    }
    match search::find_char(line, ':') {
        Some(first) => {
            if first == 1 && is_letter(line[0]) && line.len() > 2 && (line[2] == '\\' || line[2]
                == '/') {
                search::find_char_from(line, ':', 2)
            } else {
                Some(first)
            }
        },
        None => None,
    }
}

/// Whether a character is an ASCII letter.
pub(crate) fn is_letter(c: char) -> (r: bool)
    ensures
        r == is_ascii_letter(c),
{
    ('a' <= c && c <= 'z') || ('A' <= c && c <= 'Z')
}

/// Find the colon that separates the file path from the rest of a grep line,
/// as an offset in bytes.
///
/// A colon at offset 1 that belongs to a Windows drive letter (`C:\` or `C:/`)
/// is passed over.
pub fn grep_path_colon_pos(line: &str) -> (r: Option<usize>)
    ensures
        match r {
            Some(pos) => path_end(line@) matches Some(k) && pos == bytes::byte_len(line@.take(k)),
            None => path_end(line@) is None,
        },
{
    let chars = text::chars_of(line);
    match path_colon(chars.as_slice()) {
        Some(k) => Some(bytes::prefix_bytes(line, chars.as_slice(), k)),
        None => None,
    }
}

/// The language of the files with extension `ext`.
pub open spec fn language_for(ext: Seq<char>) -> Option<Seq<char>> {
    if ext == "rs"@ {
        Some("rust"@)
    } else if ext == "ts"@ {
        Some("typescript"@)
    } else if ext == "tsx"@ {
        Some("tsx"@)
    } else if ext == "js"@ || ext == "mjs"@ || ext == "cjs"@ {
        Some("javascript"@)
    } else if ext == "jsx"@ {
        Some("jsx"@)
    } else if ext == "py"@ {
        Some("python"@)
    } else if ext == "go"@ {
        Some("go"@)
    } else if ext == "java"@ {
        Some("java"@)
    } else if ext == "c"@ || ext == "h"@ {
        Some("c"@)
    } else if ext == "cpp"@ || ext == "cc"@ || ext == "cxx"@ || ext == "hpp"@ {
        Some("cpp"@)
    } else if ext == "rb"@ {
        Some("ruby"@)
    } else if ext == "sh"@ || ext == "bash"@ {
        Some("bash"@)
    } else if ext == "css"@ {
        Some("css"@)
    } else if ext == "json"@ {
        Some("json"@)
    } else {
        None
    }
}

/// A language found by executable code agrees with one of a specification.
pub open spec fn same_language(found: Option<&str>, expected: Option<Seq<char>>) -> bool {
    match found {
        Some(l) => expected == Some(l@),
        None => expected is None,
    }
}

/// Map a file extension to a language identifier.
pub fn language_from_extension(ext: &str) -> (r: Option<&'static str>)
    ensures
        same_language(r, language_for(ext@)),
{
    if text::same_text(ext, "rs") {
        Some("rust")
    } else if text::same_text(ext, "ts") {
        Some("typescript")
    } else if text::same_text(ext, "tsx") {
        Some("tsx")
    } else if text::same_text(ext, "js") || text::same_text(ext, "mjs") || text::same_text(
        ext,
        "cjs",
    ) {
        Some("javascript")
    } else if text::same_text(ext, "jsx") {
        Some("jsx")
    } else if text::same_text(ext, "py") {
        Some("python")
    } else if text::same_text(ext, "go") {
        Some("go")
    } else if text::same_text(ext, "java") {
        Some("java")
    } else if text::same_text(ext, "c") || text::same_text(ext, "h") {
        Some("c")
    } else if text::same_text(ext, "cpp") || text::same_text(ext, "cc") || text::same_text(
        ext,
        "cxx",
    ) || text::same_text(ext, "hpp") {
        Some("cpp")
    } else if text::same_text(ext, "rb") {
        Some("ruby")
    } else if text::same_text(ext, "sh") || text::same_text(ext, "bash") {
        Some("bash")
    } else if text::same_text(ext, "css") {
        Some("css")
    } else if text::same_text(ext, "json") {
        Some("json")
    } else {
        None
    }
}

} // verus!
