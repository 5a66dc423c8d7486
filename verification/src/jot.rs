//! The note record and its textual form.
//!
//! A note file is a sequence of CRLF-delimited lines: the first line is
//! ignored, the second line carries the variant keyword and the tags as
//! space-separated tokens, and the remaining lines, rejoined with a single
//! newline, are the body. The title is not stored in the file; it comes from
//! the file's name. Rendering a note is asymmetric with parsing: it writes
//! the title and the tags, never the variant, so a rendered note does not
//! parse back to the same structure.

use vstd::prelude::*;

use crate::text::{
    dedup, dedup_strings, distinct, eq_case_insensitive, eq_ignore_ascii, join_by, join_range,
    lemma_dedup_props, split_by, split_str,
};

verus! {

/// The kind of a note, parsed case-insensitively from the first token of the
/// tag line; anything unrecognized is a plain note.
#[derive(Clone, Copy, PartialEq, Eq, Structural, Debug)]
pub enum JotVariant {
    Note,
    Task,
    Journal,
}

/// A note: a title, a variant, a set of tags and a free-text body. The tag
/// vector keeps the first occurrence of each tag, in order of appearance.
#[derive(Debug)]
pub struct Jot {
    pub title: String,
    pub variant: JotVariant,
    pub tags: Vec<String>,
    pub content: String,
    pub archived: bool,
}

/// The mathematical shape of a note: every text field as a character
/// sequence.
#[verifier::ext_equal]
pub struct JotView {
    pub title: Seq<char>,
    pub variant: JotVariant,
    pub tags: Seq<Seq<char>>,
    pub content: Seq<char>,
    pub archived: bool,
}

impl View for Jot {
    type V = JotView;

    open spec fn view(&self) -> JotView {
        JotView {
            title: self.title@,
            variant: self.variant,
            tags: self.tags.deep_view(),
            content: self.content@,
            archived: self.archived,
        }
    }
}

/// The default empty note: empty title, `Note` variant, no tags, empty body.
pub open spec fn empty_view() -> JotView {
    JotView {
        title: Seq::<char>::empty(),
        variant: JotVariant::Note,
        tags: Seq::<Seq<char>>::empty(),
        content: Seq::<char>::empty(),
        archived: false,
    }
}

/// The CRLF line delimiter of a note file.
pub open spec fn crlf() -> Seq<char> {
    seq!['\r', '\n']
}

/// The token delimiter of the tag line.
pub open spec fn space() -> Seq<char> {
    seq![' ']
}

/// The line joiner of a parsed body.
pub open spec fn newline() -> Seq<char> {
    seq!['\n']
}

/// The lines of a note file: its content split on CRLF.
pub open spec fn lines_of(raw: Seq<char>) -> Seq<Seq<char>> {
    split_by(raw, crlf())
}

/// The variant named by a tag line: its whole text compared case-insensitively
/// against the three keywords; anything else is a plain note.
pub open spec fn variant_of(line: Seq<char>) -> JotVariant {
    if eq_case_insensitive(line, "task"@) {
        JotVariant::Task
    } else if eq_case_insensitive(line, "journal"@) {
        JotVariant::Journal
    } else {
        JotVariant::Note
    }
}

/// The tags of a note file: the second line split on spaces, first
/// occurrences kept.
pub open spec fn tags_of(raw: Seq<char>) -> Seq<Seq<char>>
    recommends
        lines_of(raw).len() >= 2,
{
    dedup(split_by(lines_of(raw)[1], space()))
}

/// The body of a note file: every line from the third on, joined with a
/// single newline.
pub open spec fn body_of(raw: Seq<char>) -> Seq<char>
    recommends
        lines_of(raw).len() >= 2,
{
    join_by(lines_of(raw).subrange(2, lines_of(raw).len() as int), newline())
}

/// What parsing a note file must produce, for a given title and file content.
pub open spec fn parsed_view(title: Seq<char>, raw: Seq<char>) -> JotView
    recommends
        lines_of(raw).len() >= 2,
{
    JotView {
        title: title,
        variant: variant_of(lines_of(raw)[1]),
        tags: tags_of(raw),
        content: body_of(raw),
        archived: false,
    }
}

/// The textual form of a note: title, a dash, the tags joined by spaces, a
/// newline, and the body.
pub open spec fn rendered(v: JotView) -> Seq<char> {
    v.title + seq!['-'] + join_by(v.tags, space()) + seq!['\n'] + v.content
}

/// Construction and parsing of notes.
pub trait JotObj {
    /// Build a note from its parts; the variant starts as `Note` and the
    /// note starts unarchived.
    fn new(title: String, tags: Vec<String>, content: String) -> (r: Jot)
        ensures
            r@ == (JotView {
                title: title@,
                variant: JotVariant::Note,
                tags: tags.deep_view(),
                content: content@,
                archived: false,
            }),
    ;

    /// Parse the content of a note file read from disk. The file must hold
    /// at least two CRLF-delimited lines; the second supplies the variant
    /// and the tags, the rest the body.
    fn parse(title: String, raw: &str) -> (r: Jot)
        requires
            lines_of(raw@).len() >= 2,
        ensures
            r@ == parsed_view(title@, raw@),
            distinct(r@.tags),
    ;

    /// Updating a stored note is not offered yet: the call always reports
    /// failure.
    fn update() -> (r: Result<(), ()>)
        ensures
            r is Err,
    ;
}

impl Default for Jot {
    /// The default note is empty: no title, `Note` variant, no tags, no body.
    fn default() -> (r: Self)
        ensures
            r@ == empty_view(),
    {
        let tags: Vec<String> = Vec::new();
        proof {
            assert(tags.deep_view() =~= Seq::<Seq<char>>::empty());
        }
        let r = Jot {
            title: String::new(),
            variant: JotVariant::Note,
            tags,
            content: String::new(),
            archived: false,
        };
        proof {
            assert(r@ =~= empty_view());
        }
        r
    }
}

impl JotObj for Jot {
    fn new(title: String, tags: Vec<String>, content: String) -> (r: Jot) {
        Jot { title, variant: JotVariant::Note, tags, content, archived: false }
    }

    fn parse(title: String, raw: &str) -> (r: Jot) {
        proof {
            reveal_strlit("\r\n");
            assert("\r\n"@ =~= crlf());
            reveal_strlit(" ");
            assert(" "@ =~= space());
            reveal_strlit("\n");
            assert("\n"@ =~= newline());
        }
        let lines = split_str(raw, "\r\n");
        proof {
            assert(lines.deep_view() == lines_of(raw@));
            assert(lines.deep_view().len() == lines@.len());
            assert(lines.deep_view()[1] == lines@[1]@);
        }
        let variant = variant_from_line(lines[1].as_str());
        let tokens = split_str(lines[1].as_str(), " ");
        let tags = dedup_strings(&tokens);
        proof {
            lemma_dedup_props(tokens.deep_view());
        }
        let content = join_range(&lines, 2, "\n");
        let r = Jot { title, variant, tags, content, archived: false };
        proof {
            assert(lines.deep_view().subrange(2, lines.deep_view().len() as int) == lines_of(
                raw@,
            ).subrange(2, lines_of(raw@).len() as int));
            assert(r@ =~= parsed_view(r.title@, raw@));
        }
        r
    }

    fn update() -> (r: Result<(), ()>) {
        Err(())
    }
}

/// The variant named by a tag line, compared case-insensitively against the
/// three keywords.
pub fn variant_from_line(line: &str) -> (v: JotVariant)
    ensures
        v == variant_of(line@),
{
    if eq_ignore_ascii(line, "task") {
        JotVariant::Task
    } else if eq_ignore_ascii(line, "journal") {
        JotVariant::Journal
    } else {
        JotVariant::Note
    }
}

impl Jot {
    /// Parse the outcome of reading a note file: its content where the read
    /// succeeded, or the default empty note where it did not.
    pub fn parse_or_default(title: String, raw: Option<String>) -> (r: Jot)
        requires
            raw matches Some(c) ==> lines_of(c@).len() >= 2,
        ensures
            raw matches Some(c) ==> r@ == parsed_view(title@, c@),
            raw is None ==> r@ == empty_view(),
    {
        match raw {
            Some(c) => Jot::parse(title, c.as_str()),
            None => Jot::default(),
        }
    }

    /// Render the note as `"{title}-{tags joined by spaces}\n{body}"`.
    pub fn to_text(&self) -> (r: String)
        ensures
            r@ == rendered(self@),
    {
        proof {
            reveal_strlit("-");
            assert("-"@ =~= seq!['-']);
            reveal_strlit(" ");
            assert(" "@ =~= space());
            reveal_strlit("\n");
            assert("\n"@ =~= seq!['\n']);
        }
        let mut r = self.title.clone();
        r.append("-");
        let joined = join_range(&self.tags, 0, " ");
        proof {
            assert(self.tags.deep_view().subrange(0, self.tags.deep_view().len() as int)
                =~= self.tags.deep_view());
        }
        r.append(joined.as_str());
        r.append("\n");
        r.append(self.content.as_str());
        proof {
            assert(r@ =~= rendered(self@));
        }
        r
    }
}

/// Law: a tag line that reads `task` up to ASCII case always parses to the
/// `Task` variant.
pub proof fn lemma_task_variant(line: Seq<char>)
    requires
        eq_case_insensitive(line, "task"@),
    ensures
        variant_of(line) == JotVariant::Task,
{
}

/// Law: a note file whose second line is empty parses to a single
/// empty-string tag.
pub proof fn lemma_empty_tag_line(raw: Seq<char>)
    requires
        lines_of(raw).len() >= 2,
        lines_of(raw)[1].len() == 0,
    ensures
        tags_of(raw) == seq![Seq::<char>::empty()],
{
    let line = lines_of(raw)[1];
    assert(line =~= Seq::<char>::empty());
    assert(split_by(line, space()) == seq![line]);
    let s = seq![line];
    assert(s.drop_last() =~= Seq::<Seq<char>>::empty());
    assert(dedup(s.drop_last()) == Seq::<Seq<char>>::empty());
    assert(!Seq::<Seq<char>>::empty().contains(line));
    assert(dedup(s) =~= seq![Seq::<char>::empty()]);
}

} // verus!
