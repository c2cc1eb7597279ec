//! Layout documents: text, line breaks that a group may replace by a space or
//! by nothing, indentation and grouping. A document is rendered by the
//! `pretty` crate.

use pretty::{Arena, DocAllocator, Pretty, RefDoc};
use vstd::prelude::*;

verus! {

/// A layout document.
#[derive(Debug, PartialEq, Eq)]
pub enum Doc<'a> {
    /// Nothing.
    Nil,
    /// Literal text. It is laid out as one piece, on one line.
    Text(&'a str),
    /// A line break; a space where the enclosing group is laid out flat.
    Line,
    /// A line break; nothing where the enclosing group is laid out flat.
    Line0,
    /// A line break in every layout. No group that holds one is laid out
    /// flat.
    Hardline,
    /// The parts one after the other.
    Concat(Vec<Doc<'a>>),
    /// The inner document with the indentation raised by the given number of
    /// columns.
    Nest(isize, Box<Doc<'a>>),
    /// The inner document laid out flat if it then fits the line, together
    /// with what follows it up to the next possible line break.
    Group(Box<Doc<'a>>),
}

/// What a [`Doc`] stands for.
pub enum Layout {
    Nil,
    Text(Seq<char>),
    Line,
    Line0,
    Hardline,
    Concat(Seq<Layout>),
    Nest(int, Box<Layout>),
    Group(Box<Layout>),
}

impl<'a> View for Doc<'a> {
    type V = Layout;

    open spec fn view(&self) -> Layout
        decreases self,
    {
        match self {
            Doc::Nil => Layout::Nil,
            Doc::Text(text) => Layout::Text(text@),
            Doc::Line => Layout::Line,
            Doc::Line0 => Layout::Line0,
            Doc::Hardline => Layout::Hardline,
            Doc::Concat(parts) => Layout::Concat(docs_view(parts@)),
            Doc::Nest(columns, inner) => Layout::Nest(*columns as int, Box::new((**inner)@)),
            Doc::Group(inner) => Layout::Group(Box::new((**inner)@)),
        }
    }
}

/// What a sequence of documents stands for.
pub open spec fn docs_view(docs: Seq<Doc>) -> Seq<Layout>
    decreases docs,
{
    if docs.len() == 0 {
        Seq::empty()
    } else {
        docs_view(docs.drop_last()).push(docs.last()@)
    }
}

/// Whether a layout holds a line break that no layout of it leaves out.
pub open spec fn forces_break(layout: Layout) -> bool
    decreases layout,
{
    match layout {
        Layout::Hardline => true,
        Layout::Concat(parts) => any_forces_break(parts),
        Layout::Nest(_, inner) => forces_break(*inner),
        Layout::Group(inner) => forces_break(*inner),
        _ => false,
    }
}

/// Whether one of the layouts forces a line break.
pub open spec fn any_forces_break(parts: Seq<Layout>) -> bool
    decreases parts,
{
    parts.len() > 0 && (forces_break(parts.last()) || any_forces_break(parts.drop_last()))
}

impl<'a> Doc<'a> {
    /// Literal text.
    pub fn text(text: &'a str) -> (doc: Doc<'a>)
        ensures
            doc@ == Layout::Text(text@),
    {
        Doc::Text(text)
    }

    /// The parts one after the other.
    pub fn concat(parts: Vec<Doc<'a>>) -> (doc: Doc<'a>)
        ensures
            doc@ == Layout::Concat(docs_view(parts@)),
    {
        Doc::Concat(parts)
    }

    /// `inner` with the indentation raised by `columns`.
    pub fn nest(columns: isize, inner: Doc<'a>) -> (doc: Doc<'a>)
        ensures
            doc@ == Layout::Nest(columns as int, Box::new(inner@)),
    {
        Doc::Nest(columns, Box::new(inner))
    }

    /// `inner` as a group.
    pub fn group(inner: Doc<'a>) -> (doc: Doc<'a>)
        ensures
            doc@ == Layout::Group(Box::new(inner@)),
    {
        Doc::Group(Box::new(inner))
    }
}

/// Appends `doc` to `docs`.
pub fn push<'a>(docs: &mut Vec<Doc<'a>>, doc: Doc<'a>)
    ensures
        final(docs)@ == old(docs)@.push(doc),
        docs_view(final(docs)@) == docs_view(old(docs)@).push(doc@),
{
    assert(docs@.push(doc).drop_last() == docs@);
    docs.push(doc);
}

/// `pretty::Arena`, in which `pretty` documents are built.
#[verifier::external_type_specification]
#[verifier::external_body]
#[verifier::reject_recursive_types(A)]
pub struct ExArena<'a, A>(Arena<'a, A>);

/// `pretty::RefDoc`, a `pretty` document in an arena.
#[verifier::external_type_specification]
#[verifier::external_body]
#[verifier::reject_recursive_types(A)]
pub struct ExRefDoc<'a, A>(RefDoc<'a, A>);

/// `core::fmt::Error`, the failure that `render_fmt` of `pretty` reports.
#[verifier::external_type_specification]
#[verifier::external_body]
pub struct ExFmtError(core::fmt::Error);

/// The text that `pretty` renders for a layout at a line width, or `None`
/// where it reports a failure. See [`render_fmt`].
pub uninterp spec fn rendered(layout: Layout, width: nat) -> Option<Seq<char>>;

/// Builds in `arena` the `pretty` document of the same shape as `doc`, each
/// variant by the method of `pretty::DocAllocator` or `pretty::DocBuilder` of
/// its name: `nil`, `text`, `line`, `line_` for [`Doc::Line0`], `hardline`,
/// `concat`, `nest` and `group`. Nothing is stated of the result here:
/// [`render_fmt`] holds the one claim that rests on it.
#[verifier::external_body]
fn lower<'a>(doc: &'a Doc<'a>, arena: &'a Arena<'a, ()>) -> RefDoc<'a, ()> {
    match doc {
        Doc::Nil => arena.nil().into_doc(),
        Doc::Text(text) => arena.text(*text).into_doc(),
        Doc::Line => arena.line().into_doc(),
        Doc::Line0 => arena.line_().into_doc(),
        Doc::Hardline => arena.hardline().into_doc(),
        Doc::Concat(parts) => arena.concat(parts.iter().map(|part| lower(part, arena))).into_doc(),
        Doc::Nest(columns, inner) => lower(inner, arena).pretty(arena).nest(*columns).into_doc(),
        Doc::Group(inner) => lower(inner, arena).pretty(arena).group().into_doc(),
    }
}

/// `pretty::Doc::render_fmt` into a fresh `String`, on the document that
/// [`lower`] builds from `doc`: the document is laid out at `width` columns.
/// What comes back, the text or the failure, depends on the shape and the
/// texts of `doc` and on `width` alone; that is all that is claimed of it.
#[verifier::external_body]
fn render_fmt(doc: &Doc, width: usize) -> (out: Result<String, core::fmt::Error>)
    ensures
        match out {
            Ok(text) => rendered(doc@, width as nat) == Some(text@),
            Err(_) => rendered(doc@, width as nat) is None,
        },
{
    let arena = Arena::new();
    let mut buffer = String::new();
    match lower(doc, &arena).render_fmt(width, &mut buffer) {
        Ok(()) => Ok(buffer),
        Err(e) => Err(e),
    }
}

/// The renderer reported a failure.
#[derive(Debug, Clone, Copy, PartialEq, Eq, Hash)]
pub struct RenderError;

impl<'a> Doc<'a> {
    /// Renders the document at `width` columns.
    pub fn render(&self, width: usize) -> (out: Result<String, RenderError>)
        ensures
            match out {
                Ok(text) => rendered(self@, width as nat) == Some(text@),
                Err(_) => rendered(self@, width as nat) is None,
            },
    {
        match render_fmt(self, width) {
            Ok(text) => Ok(text),
            Err(_) => Err(RenderError),
        }
    }
}

} // verus!
