//! Small text helpers shared by the importers: file names and cleaned text.
use vstd::prelude::*;
use crate::text::{chars_of, string_of, trim, trim_end_once, trim_end_once_chars, trim_start_once, trim_start_once_chars, trim_str};

verus! {

/// Removing a pattern once from either end of a text.
pub trait TrimOnce {
    /// The characters of the text.
    spec fn text_chars(&self) -> Seq<char>;

    /// The text without `pat` at its start, if it starts with `pat`.
    fn trim_start_once(&self, pat: &str) -> (r: String)
        ensures
            r@ == trim_start_once(self.text_chars(), pat@),
    ;

    /// The text without `pat` at its end, if it ends with `pat`.
    fn trim_end_once(&self, pat: &str) -> (r: String)
        ensures
            r@ == trim_end_once(self.text_chars(), pat@),
    ;
}

impl TrimOnce for str {
    open spec fn text_chars(&self) -> Seq<char> {
        self@
    }

    fn trim_start_once(&self, pat: &str) -> (r: String) {
        let v = chars_of(self);
        string_of(&trim_start_once_chars(&v, pat))
    }

    fn trim_end_once(&self, pat: &str) -> (r: String) {
        let v = chars_of(self);
        string_of(&trim_end_once_chars(&v, pat))
    }
}

/// A control character (general category Cc).
pub open spec fn is_control(c: char) -> bool {
    (c as u32) < 0x20 || (0x7f <= (c as u32) && (c as u32) < 0xa0)
}

/// A character that a file name cannot hold on some system.
pub open spec fn is_reserved_in_filename(c: char) -> bool {
    c == '<' || c == '>' || c == ':' || c == '"' || c == '|' || c == '?' || c == '*' || c == '\\'
        || c == '/' || is_control(c)
}

/// The character that stands for `c` in a file name.
pub open spec fn filename_char(c: char) -> char {
    if is_reserved_in_filename(c) {
        '_'
    } else {
        c
    }
}

/// Replaces each reserved or control character by `_`.
pub fn sanitize_filename(filename: &str) -> (r: String)
    ensures
        r@.len() == filename@.len(),
        forall|i: int| 0 <= i < filename@.len() ==> r@[i] == filename_char(#[trigger] filename@[i]),
{
    let v = chars_of(filename);
    let mut out: Vec<char> = Vec::new();
    let mut i: usize = 0;
    while i < v.len()
        invariant
            v@ == filename@,
            i <= v.len(),
            out@.len() == i,
            forall|k: int| 0 <= k < i ==> out@[k] == filename_char(#[trigger] v@[k]),
        decreases v.len() - i,
    {
        let c = v[i];
        let u = c as u32;
        let reserved = c == '<' || c == '>' || c == ':' || c == '"' || c == '|' || c == '?' || c
            == '*' || c == '\\' || c == '/' || u < 0x20 || (0x7f <= u && u < 0xa0);
        if reserved {
            out.push('_');
        } else {
            out.push(c);
        }
        i = i + 1;
    }
    string_of(&out)
}

/// The text without its leading and trailing whitespace.
pub fn clean_text(text: &str) -> (r: String)
    ensures
        r@ == trim(text@),
{
    string_of(&trim_str(text))
}

} // verus!
