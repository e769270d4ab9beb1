//! Errors of the environment and the text of their messages.

use crate::syntax::{FileSpan, Span};
use vstd::prelude::*;
use vstd::string::*;

verus! {

/// Two declarations that cannot both stand.
#[derive(Copy, Clone, Debug, PartialEq, Eq, Structural)]
pub struct IncompatibleError {
    pub decl1: FileSpan,
    pub decl2: FileSpan,
}

/// A name that was declared before, with where that was.
#[derive(Debug)]
pub struct RedeclarationError {
    pub msg: String,
    pub othermsg: String,
    pub other: FileSpan,
}

/// Why a sort, term or theorem was not added. A redeclaration carries what
/// is known of the earlier declaration's identifier.
#[derive(Debug)]
pub enum AddItemError<A> {
    Redeclaration(A, RedeclarationError),
    Overflow,
}

/// An error at a place in the source, with the places that it relates to.
#[derive(Debug)]
pub struct ElabError {
    pub pos: Span,
    pub msg: String,
    pub related: Vec<(FileSpan, String)>,
}

/// Mathematical content of an `ElabError`.
pub struct ElabErrorView {
    pub pos: Span,
    pub msg: Seq<char>,
    pub related: Seq<(FileSpan, Seq<char>)>,
}

/// The notes of an error with the text of each as a sequence of characters.
pub open spec fn related_view(r: Seq<(FileSpan, String)>) -> Seq<(FileSpan, Seq<char>)> {
    Seq::new(r.len(), |i: int| (r[i].0, r[i].1@))
}

impl ElabError {
    pub open spec fn view(&self) -> ElabErrorView {
        ElabErrorView { pos: self.pos, msg: self.msg@, related: related_view(self.related@) }
    }

    /// An error with notes.
    pub fn with_info(pos: Span, msg: String, related: Vec<(FileSpan, String)>) -> (r: ElabError)
        ensures
            r@ == (ElabErrorView { pos, msg: msg@, related: related_view(related@) }),
    {
        ElabError { pos, msg, related }
    }

    /// An error without notes.
    pub fn new_e(pos: Span, msg: &str) -> (r: ElabError)
        ensures
            r@ == (ElabErrorView { pos, msg: msg@, related: Seq::empty() }),
    {
        let r = ElabError { pos, msg: String::from_str(msg), related: Vec::new() };
        assert(related_view(r.related@) =~= Seq::empty());
        r
    }
}

/// The text `'name'` with `before` in front of it and `after` behind it.
pub open spec fn quoted(before: Seq<char>, name: Seq<char>, after: Seq<char>) -> Seq<char> {
    before + name + after
}

/// Builds the text of `quoted`.
pub fn quote(before: &str, name: &String, after: &str) -> (r: String)
    ensures
        r@ == quoted(before@, name@, after@),
{
    let mut s = String::from_str(before);
    s.append(name.as_str());
    s.append(after);
    s
}

/// Adds the note `(fsp, text)` to `related`.
pub fn push_note(related: &mut Vec<(FileSpan, String)>, fsp: FileSpan, text: String)
    ensures
        related_view(final(related)@) == related_view(old(related)@).push((fsp, text@)),
{
    related.push((fsp, text));
    assert(related_view(related@) =~= related_view(old(related)@).push((fsp, text@)));
}

/// The contents of the errors `es`.
pub open spec fn error_views(es: Seq<ElabError>) -> Seq<ElabErrorView> {
    Seq::new(es.len(), |i: int| es[i]@)
}

/// Adds `e` to `errors`.
pub fn push_error(errors: &mut Vec<ElabError>, e: ElabError)
    ensures
        error_views(final(errors)@) == error_views(old(errors)@).push(e@),
{
    errors.push(e);
    assert(error_views(errors@) =~= error_views(old(errors)@).push(e@));
}

} // verus!
