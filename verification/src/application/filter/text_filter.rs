//! Filtering servers by a text their name must contain.
use vstd::prelude::*;
use crate::keys::chars_of;
use crate::text::{contains_text, copy_text, occurs_at, string_from_chars, text_contains};

verus! {

/// The filter holds a text; a name passes when it contains the text. When
/// case is ignored, ASCII letters match regardless of case. The setting to
/// ignore accents is kept; accented letters are compared as they are.
pub struct TextFilter {
    text: String,
    ignore_case: bool,
    ignore_accents: bool,
}

pub open spec fn ascii_lower(c: char) -> char {
    if 'A' <= c <= 'Z' {
        ((c as u32) + 32) as char
    } else {
        c
    }
}

pub open spec fn folded(s: Seq<char>, ignore_case: bool) -> Seq<char> {
    if ignore_case {
        s.map_values(|c: char| ascii_lower(c))
    } else {
        s
    }
}

fn lower_char(c: char) -> (r: char)
    ensures
        r == ascii_lower(c),
{
    if 'A' <= c && c <= 'Z' {
        let b = c as u8;
        ((b + 32) as char)
    } else {
        c
    }
}

fn fold_text(s: &str, ignore_case: bool) -> (r: String)
    ensures
        r@ == folded(s@, ignore_case),
{
    let chars = chars_of(s);
    if !ignore_case {
        return string_from_chars(&chars);
    }
    let mut out: Vec<char> = Vec::new();
    let mut i: usize = 0;
    while i < chars.len()
        invariant
            chars@ == s@,
            i <= chars.len(),
            out@ == folded(s@, true).take(i as int),
        decreases chars.len() - i,
    {
        out.push(lower_char(chars[i]));
        assert(out@ =~= folded(s@, true).take(i + 1));
        i = i + 1;
    }
    assert(out@ =~= folded(s@, true));
    string_from_chars(&out)
}

impl TextFilter {
    pub closed spec fn spec_text(&self) -> Seq<char> {
        self.text@
    }

    pub closed spec fn spec_ignore_case(&self) -> bool {
        self.ignore_case
    }

    pub closed spec fn spec_ignore_accents(&self) -> bool {
        self.ignore_accents
    }

    pub open spec fn spec_accept(&self, name: Seq<char>) -> bool {
        contains_text(
            folded(name, self.spec_ignore_case()),
            folded(self.spec_text(), self.spec_ignore_case()),
        )
    }

    pub fn ignore_case(&self) -> (b: bool)
        ensures
            b == self.spec_ignore_case(),
    {
        self.ignore_case
    }

    pub fn set_ignore_case(&mut self, ignore_case: bool)
        ensures
            final(self).spec_ignore_case() == ignore_case,
            final(self).spec_ignore_accents() == old(self).spec_ignore_accents(),
            final(self).spec_text() == old(self).spec_text(),
    {
        self.ignore_case = ignore_case;
    }

    pub fn ignore_accents(&self) -> (b: bool)
        ensures
            b == self.spec_ignore_accents(),
    {
        self.ignore_accents
    }

    pub fn set_ignore_accents(&mut self, ignore_accents: bool)
        ensures
            final(self).spec_ignore_accents() == ignore_accents,
            final(self).spec_ignore_case() == old(self).spec_ignore_case(),
            final(self).spec_text() == old(self).spec_text(),
    {
        self.ignore_accents = ignore_accents;
    }

    pub fn new() -> (f: TextFilter)
        ensures
            f.spec_text() == Seq::<char>::empty(),
            !f.spec_ignore_case(),
            !f.spec_ignore_accents(),
    {
        TextFilter { text: String::new(), ignore_case: false, ignore_accents: false }
    }

    pub fn set_text(&mut self, text: &str)
        ensures
            final(self).spec_text() == text@,
            final(self).spec_ignore_case() == old(self).spec_ignore_case(),
            final(self).spec_ignore_accents() == old(self).spec_ignore_accents(),
    {
        self.text = copy_text(text);
    }

    pub fn text(&self) -> (t: &str)
        ensures
            t@ == self.spec_text(),
    {
        self.text.as_str()
    }

    pub fn accept(&self, name: &str) -> (r: bool)
        ensures
            r == self.spec_accept(name@),
    {
        let hay = fold_text(name, self.ignore_case);
        let needle = fold_text(self.text.as_str(), self.ignore_case);
        text_contains(hay.as_str(), needle.as_str())
    }
}

impl Default for TextFilter {
    fn default() -> (f: TextFilter)
        ensures
            f.spec_text() == Seq::<char>::empty(),
            !f.spec_ignore_case(),
            !f.spec_ignore_accents(),
    {
        TextFilter::new()
    }
}


/// An empty text lets every name through.
pub proof fn lemma_empty_text_accepts(filter: TextFilter, name: Seq<char>)
    requires
        filter.spec_text().len() == 0,
    ensures
        filter.spec_accept(name),
{
    let hay = folded(name, filter.spec_ignore_case());
    let needle = folded(filter.spec_text(), filter.spec_ignore_case());
    assert(needle.len() == 0);
    assert(hay.subrange(0, 0) =~= needle);
    assert(occurs_at(hay, needle, 0));
}

} // verus!
