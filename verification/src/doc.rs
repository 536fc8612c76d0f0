//! The document algebra: the recursive value type describing a document, its
//! constructors and combinators, and the flatten transform.
use vstd::prelude::*;

verus! {

/// A document, an immutable tree value.
///
/// - `Nil` contributes nothing.
/// - `Line` is an unconditional line break.
/// - `Nest(j, d)` renders `d` with the indentation of line breaks inside `d`
///   increased by `j`.
/// - `Text(s)` is a literal character run; it must not contain a line break.
/// - `Cat(a, b)` renders `a` immediately followed by `b`.
/// - `Union(flat, expanded)` is a layout choice point: `flat` is rendered when
///   it fits the remaining width, `expanded` otherwise. It is built by
///   [`Doc::group`], which pairs a document with its flattened form.
/// - `FlatAlt(primary, alternate)` renders as `primary`, but flattening
///   resolves it to `alternate`.
#[derive(Debug, PartialEq, Eq)]
pub enum Doc {
    Nil,
    Line,
    Nest(usize, Box<Doc>),
    Text(String),
    Cat(Box<Doc>, Box<Doc>),
    Union(Box<Doc>, Box<Doc>),
    FlatAlt(Box<Doc>, Box<Doc>),
}

/// The flatten transform as a mathematical function: the single-line form of a
/// document. `FlatAlt` resolves to its alternate, a `Union` to the flattening
/// of its flat branch; `Nest` and `Cat` are mapped structurally; leaves are
/// unchanged.
pub open spec fn spec_flatten(d: Doc) -> Doc
    decreases d,
{
    match d {
        Doc::Nest(j, x) => Doc::Nest(j, Box::new(spec_flatten(*x))),
        Doc::Cat(a, b) => Doc::Cat(Box::new(spec_flatten(*a)), Box::new(spec_flatten(*b))),
        Doc::FlatAlt(_, alt) => *alt,
        Doc::Union(flat, _) => spec_flatten(*flat),
        _ => d,
    }
}

/// Flat normal form: no `FlatAlt` and no `Union` anywhere, so the document has
/// a single layout and flattening leaves it unchanged.
pub open spec fn is_flat(d: Doc) -> bool
    decreases d,
{
    match d {
        Doc::Nest(_, x) => is_flat(*x),
        Doc::Cat(a, b) => is_flat(*a) && is_flat(*b),
        Doc::FlatAlt(_, _) => false,
        Doc::Union(_, _) => false,
        _ => true,
    }
}

/// Well-formedness of a document, established by the constructors and kept by
/// the combinators: the alternate of every `FlatAlt` is already in flat normal
/// form, and the flat branch of every `Union` is exactly the flattening of its
/// expanded branch (a `Union` is only ever built by [`Doc::group`]).
pub open spec fn wf(d: Doc) -> bool
    decreases d,
{
    match d {
        Doc::Nest(_, x) => wf(*x),
        Doc::Cat(a, b) => wf(*a) && wf(*b),
        Doc::FlatAlt(p, alt) => wf(*p) && is_flat(*alt),
        Doc::Union(flat, expanded) => wf(*expanded) && *flat == spec_flatten(*expanded),
        _ => true,
    }
}

/// No unconditional line break anywhere in the document.
pub open spec fn line_free(d: Doc) -> bool
    decreases d,
{
    match d {
        Doc::Line => false,
        Doc::Nest(_, x) => line_free(*x),
        Doc::Cat(a, b) => line_free(*a) && line_free(*b),
        Doc::FlatAlt(a, b) => line_free(*a) && line_free(*b),
        Doc::Union(a, b) => line_free(*a) && line_free(*b),
        _ => true,
    }
}

/// Every unconditional line break of the document is guarded: it stands under
/// the primary of a `FlatAlt` whose alternate is break-free, or under the
/// expanded branch of a `Union`. Exactly these documents flatten to a
/// break-free form (see [`lemma_flatten_line_free`]).
pub open spec fn flat_line_free(d: Doc) -> bool
    decreases d,
{
    match d {
        Doc::Line => false,
        Doc::Nest(_, x) => flat_line_free(*x),
        Doc::Cat(a, b) => flat_line_free(*a) && flat_line_free(*b),
        Doc::FlatAlt(_, alt) => line_free(*alt),
        Doc::Union(flat, _) => flat_line_free(*flat),
        _ => true,
    }
}

/// The invariant of the algebra's text runs: no text carries a literal
/// newline; all breaking is expressed structurally. [`text`] requires it of
/// its argument, and every combinator preserves it.
pub open spec fn texts_newline_free(d: Doc) -> bool
    decreases d,
{
    match d {
        Doc::Text(s) => forall|i: int| 0 <= i < s@.len() ==> s@[i] != '\n',
        Doc::Nest(_, x) => texts_newline_free(*x),
        Doc::Cat(a, b) => texts_newline_free(*a) && texts_newline_free(*b),
        Doc::Union(a, b) => texts_newline_free(*a) && texts_newline_free(*b),
        Doc::FlatAlt(a, b) => texts_newline_free(*a) && texts_newline_free(*b),
        _ => true,
    }
}

/// Flattening keeps every text run, so it keeps them newline-free.
pub proof fn lemma_flatten_texts_newline_free(d: Doc)
    requires
        texts_newline_free(d),
    ensures
        texts_newline_free(spec_flatten(d)),
    decreases d,
{
    match d {
        Doc::Nest(_, x) => lemma_flatten_texts_newline_free(*x),
        Doc::Cat(a, b) => {
            lemma_flatten_texts_newline_free(*a);
            lemma_flatten_texts_newline_free(*b);
        },
        Doc::Union(flat, _) => lemma_flatten_texts_newline_free(*flat),
        _ => {},
    }
}

/// The single-character space run that `line` degrades to when flattened.
pub open spec fn is_space_text(d: Doc) -> bool {
    d matches Doc::Text(s) && s@ == " "@
}

/// The shape of [`line`]: a break that flattens to a single space.
pub open spec fn is_line_doc(d: Doc) -> bool {
    d matches Doc::FlatAlt(p, alt) && *p == Doc::Line && is_space_text(*alt)
}

/// A document in flat normal form is a fixed point of flattening.
pub proof fn lemma_flat_flatten_fixpoint(d: Doc)
    requires
        is_flat(d),
    ensures
        spec_flatten(d) == d,
    decreases d,
{
    match d {
        Doc::Nest(_, x) => lemma_flat_flatten_fixpoint(*x),
        Doc::Cat(a, b) => {
            lemma_flat_flatten_fixpoint(*a);
            lemma_flat_flatten_fixpoint(*b);
        },
        _ => {},
    }
}

/// Flattening a well-formed document yields a document in flat normal form:
/// no layout choice is left.
pub proof fn lemma_flatten_flat(d: Doc)
    requires
        wf(d),
    ensures
        is_flat(spec_flatten(d)),
    decreases d,
{
    match d {
        Doc::Nest(_, x) => lemma_flatten_flat(*x),
        Doc::Cat(a, b) => {
            lemma_flatten_flat(*a);
            lemma_flatten_flat(*b);
        },
        Doc::Union(flat, expanded) => {
            lemma_flatten_flat(*expanded);
            lemma_flat_flatten_fixpoint(spec_flatten(*expanded));
        },
        _ => {},
    }
}

/// A document in flat normal form is well-formed.
pub proof fn lemma_flat_wf(d: Doc)
    requires
        is_flat(d),
    ensures
        wf(d),
    decreases d,
{
    match d {
        Doc::Nest(_, x) => lemma_flat_wf(*x),
        Doc::Cat(a, b) => {
            lemma_flat_wf(*a);
            lemma_flat_wf(*b);
        },
        _ => {},
    }
}

/// Flattening preserves well-formedness.
pub proof fn lemma_flatten_wf(d: Doc)
    requires
        wf(d),
    ensures
        wf(spec_flatten(d)),
{
    lemma_flatten_flat(d);
    lemma_flat_wf(spec_flatten(d));
}

/// Flattening is idempotent on well-formed documents: collapsing a document to
/// its single-line form twice gives the same result as doing it once.
pub proof fn lemma_flatten_idempotent(d: Doc)
    requires
        wf(d),
    ensures
        spec_flatten(spec_flatten(d)) == spec_flatten(d),
{
    lemma_flatten_flat(d);
    lemma_flat_flatten_fixpoint(spec_flatten(d));
}

/// Flattening introduces no line break: the flattened form of a document is
/// break-free exactly when every break of the document is guarded.
pub proof fn lemma_flatten_line_free(d: Doc)
    ensures
        line_free(spec_flatten(d)) <==> flat_line_free(d),
    decreases d,
{
    match d {
        Doc::Nest(_, x) => lemma_flatten_line_free(*x),
        Doc::Cat(a, b) => {
            lemma_flatten_line_free(*a);
            lemma_flatten_line_free(*b);
        },
        Doc::Union(flat, _) => lemma_flatten_line_free(*flat),
        _ => {},
    }
}

impl Clone for Doc {
    /// A clone equals the document it was cloned from, node for node.
    fn clone(&self) -> (r: Self)
        ensures
            r == *self,
        decreases self,
    {
        match self {
            Doc::Nil => Doc::Nil,
            Doc::Line => Doc::Line,
            Doc::Nest(j, x) => Doc::Nest(*j, Box::new((**x).clone())),
            Doc::Text(s) => Doc::Text(s.clone()),
            Doc::Cat(a, b) => Doc::Cat(Box::new((**a).clone()), Box::new((**b).clone())),
            Doc::Union(a, b) => Doc::Union(Box::new((**a).clone()), Box::new((**b).clone())),
            Doc::FlatAlt(a, b) => Doc::FlatAlt(Box::new((**a).clone()), Box::new((**b).clone())),
        }
    }
}

impl Doc {
    /// Collapse the document to its single-line form.
    pub fn flatten(self) -> (r: Doc)
        ensures
            r == spec_flatten(self),
        decreases self,
    {
        match self {
            Doc::Nest(j, x) => Doc::Nest(j, Box::new((*x).flatten())),
            Doc::Cat(a, b) => Doc::Cat(Box::new((*a).flatten()), Box::new((*b).flatten())),
            Doc::FlatAlt(_, alt) => *alt,
            Doc::Union(flat, _) => (*flat).flatten(),
            other => other,
        }
    }

    /// Render the line breaks inside this document with the current
    /// indentation increased by `nested`.
    pub fn nest(self, nested: usize) -> (r: Doc)
        ensures
            r == Doc::Nest(nested, Box::new(self)),
            wf(self) ==> wf(r),
            texts_newline_free(self) ==> texts_newline_free(r),
    {
        Doc::Nest(nested, Box::new(self))
    }

    /// Sequential composition: this document immediately followed by `rhs`.
    pub fn cat(self, rhs: Doc) -> (r: Doc)
        ensures
            r == Doc::Cat(Box::new(self), Box::new(rhs)),
            wf(self) && wf(rhs) ==> wf(r),
            texts_newline_free(self) && texts_newline_free(rhs) ==> texts_newline_free(r),
    {
        Doc::Cat(Box::new(self), Box::new(rhs))
    }

    /// This document, then a [`line`], then `rhs`.
    pub fn cat_with_line(self, rhs: Doc) -> (r: Doc)
        ensures
            ({
                &&& r matches Doc::Cat(left, right)
                &&& *right == rhs
                &&& *left matches Doc::Cat(a, sep)
                &&& *a == self
                &&& is_line_doc(*sep)
            }),
            wf(self) && wf(rhs) ==> wf(r),
            texts_newline_free(self) && texts_newline_free(rhs) ==> texts_newline_free(r),
    {
        self.cat(line()).cat(rhs)
    }

    /// This document, then a single space, then `rhs`.
    pub fn cat_with_space(self, rhs: Doc) -> (r: Doc)
        ensures
            ({
                &&& r matches Doc::Cat(left, right)
                &&& *right == rhs
                &&& *left matches Doc::Cat(a, sep)
                &&& *a == self
                &&& is_space_text(*sep)
            }),
            wf(self) && wf(rhs) ==> wf(r),
            texts_newline_free(self) && texts_newline_free(rhs) ==> texts_newline_free(r),
    {
        self.cat(space()).cat(rhs)
    }

    /// A document that renders as this one, but resolves to `rhs` when
    /// flattened.
    pub fn flat_alt(self, rhs: Doc) -> (r: Doc)
        ensures
            r == Doc::FlatAlt(Box::new(self), Box::new(rhs)),
            wf(self) && is_flat(rhs) ==> wf(r),
            texts_newline_free(self) && texts_newline_free(rhs) ==> texts_newline_free(r),
    {
        Doc::FlatAlt(Box::new(self), Box::new(rhs))
    }

    /// Wrap this document in a layout choice pairing its flattened form with
    /// itself: the layout engine renders it on one line when that fits the
    /// remaining width, and expands it otherwise.
    pub fn group(self) -> (r: Doc)
        ensures
            r == Doc::Union(Box::new(spec_flatten(self)), Box::new(self)),
            wf(self) ==> wf(r),
            texts_newline_free(self) ==> texts_newline_free(r),
    {
        let flat = self.clone().flatten();
        proof {
            if texts_newline_free(self) {
                lemma_flatten_texts_newline_free(self);
            }
        }
        Doc::Union(Box::new(flat), Box::new(self))
    }
}

/// The empty document.
pub fn nil() -> (r: Doc)
    ensures
        r == Doc::Nil,
{
    Doc::Nil
}

/// A literal character run. Text must carry no line break: all breaking is
/// expressed structurally, through `Line` and the combinators.
pub fn text(txt: &str) -> (r: Doc)
    requires
        forall|i: int| 0 <= i < txt@.len() ==> txt@[i] != '\n',
    ensures
        r matches Doc::Text(s) && s@ == txt@,
        texts_newline_free(r),
{
    Doc::Text(txt.to_owned())
}

/// The empty document, under the name the combinator layer uses.
pub fn empty() -> (r: Doc)
    ensures
        r == Doc::Nil,
{
    Doc::Nil
}

/// A single space.
pub fn space() -> (r: Doc)
    ensures
        is_space_text(r),
        texts_newline_free(r),
{
    proof {
        reveal_strlit(" ");
    }
    text(" ")
}

/// A line break that degrades to a single space when its group is flattened.
pub fn line() -> (r: Doc)
    ensures
        is_line_doc(r),
        wf(r),
        flat_line_free(r),
        texts_newline_free(r),
{
    let sp = space();
    proof {
        assert(wf(Doc::Line));
        assert(is_flat(sp));
        assert(line_free(sp));
        assert(texts_newline_free(Doc::Line));
    }
    Doc::FlatAlt(Box::new(Doc::Line), Box::new(sp))
}

/// An unconditional line break: it survives flattening.
pub fn hard_line() -> (r: Doc)
    ensures
        r == Doc::Line,
{
    Doc::Line
}

/// A line break that degrades to nothing when its group is flattened.
pub fn line_break() -> (r: Doc)
    ensures
        r == Doc::FlatAlt(Box::new(Doc::Line), Box::new(Doc::Nil)),
{
    Doc::FlatAlt(Box::new(Doc::Line), Box::new(Doc::Nil))
}

/// A break rendered as a space when it fits and as a line break otherwise.
pub fn soft_line() -> (r: Doc)
    ensures
        r matches Doc::Union(flat, expanded) && is_space_text(*flat) && is_line_doc(*expanded),
        wf(r),
        texts_newline_free(r),
{
    line().group()
}

/// A break rendered as nothing when it fits and as a line break otherwise.
pub fn soft_line_break() -> (r: Doc)
    ensures
        r == Doc::Union(
            Box::new(Doc::Nil),
            Box::new(Doc::FlatAlt(Box::new(Doc::Line), Box::new(Doc::Nil))),
        ),
{
    line_break().group()
}

} // verus!
