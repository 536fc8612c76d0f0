//! The layout engine: the width-aware traversal that linearizes a document
//! into a token stream, deciding for each layout choice point whether its
//! single-line form fits the remaining width.
use crate::doc::{spec_flatten, Doc};
use crate::output::{
    fits_at, lemma_render_str_newline_free, render_str, token_newline_free, SimpleDoc,
    SimpleDocElem, Token,
};
use vstd::prelude::*;
use vstd::string::StrSliceExecFns;

verus! {

/// The number of nodes of a document; every document has at least one.
pub open spec fn doc_size(d: Doc) -> nat
    decreases d,
{
    match d {
        Doc::Nest(_, x) => 1 + doc_size(*x),
        Doc::Cat(a, b) => 1 + doc_size(*a) + doc_size(*b),
        Doc::Union(a, b) => 1 + doc_size(*a) + doc_size(*b),
        Doc::FlatAlt(a, b) => 1 + doc_size(*a) + doc_size(*b),
        _ => 1,
    }
}

/// The total node count of the documents on a work stack: the termination
/// measure of the layout traversal.
pub open spec fn work_size(s: Seq<(int, Doc)>) -> nat
    decreases s.len(),
{
    if s.len() == 0 {
        0
    } else {
        work_size(s.drop_last()) + doc_size(s.last().1)
    }
}

/// The sum of the text lengths of a document, over all branches.
pub open spec fn text_sum(d: Doc) -> nat
    decreases d,
{
    match d {
        Doc::Text(s) => s@.len(),
        Doc::Nest(_, x) => text_sum(*x),
        Doc::Cat(a, b) => text_sum(*a) + text_sum(*b),
        Doc::Union(a, b) => text_sum(*a) + text_sum(*b),
        Doc::FlatAlt(a, b) => text_sum(*a) + text_sum(*b),
        _ => 0,
    }
}

/// The sum of the nest offsets of a document, over all branches.
pub open spec fn nest_sum(d: Doc) -> nat
    decreases d,
{
    match d {
        Doc::Nest(j, x) => j as nat + nest_sum(*x),
        Doc::Cat(a, b) => nest_sum(*a) + nest_sum(*b),
        Doc::Union(a, b) => nest_sum(*a) + nest_sum(*b),
        Doc::FlatAlt(a, b) => nest_sum(*a) + nest_sum(*b),
        _ => 0,
    }
}

/// An upper bound on every column and indentation the layout of `d` can
/// reach: all its text plus all its nest offsets.
pub open spec fn weight(d: Doc) -> nat {
    nest_sum(d) + text_sum(d)
}

/// The sum of the text lengths of the documents on a work stack.
pub open spec fn stack_text(s: Seq<(int, Doc)>) -> nat
    decreases s.len(),
{
    if s.len() == 0 {
        0
    } else {
        stack_text(s.drop_last()) + text_sum(s.last().1)
    }
}

pub proof fn lemma_work_size_push(s: Seq<(int, Doc)>, e: (int, Doc))
    ensures
        work_size(s.push(e)) == work_size(s) + doc_size(e.1),
{
    assert(s.push(e).drop_last() =~= s);
    assert(s.push(e).last() == e);
}

pub proof fn lemma_stack_text_push(s: Seq<(int, Doc)>, e: (int, Doc))
    ensures
        stack_text(s.push(e)) == stack_text(s) + text_sum(e.1),
{
    assert(s.push(e).drop_last() =~= s);
    assert(s.push(e).last() == e);
}

/// The layout function: the token stream produced by rendering the given work
/// stack (processed last element first) at page width `w`, with `placed`
/// characters already on the current line. A `Nest` raises the indentation of
/// its body; a line break is emitted with the current indentation, where the
/// next line starts; a `FlatAlt` renders as its primary. A `Union` is resolved
/// by laying out its flat branch together with all the remaining work, as a
/// candidate: the candidate is committed when it fits the remaining width
/// (scanned up to its first line break, see [`fits_at`]), and discarded in
/// favour of the expanded branch otherwise.
pub open spec fn lay(w: int, placed: int, work: Seq<(int, Doc)>) -> Seq<Token>
    decreases work_size(work),
{
    if work.len() == 0 {
        Seq::<Token>::empty()
    } else {
        let ind = work.last().0;
        let rest = work.drop_last();
        match work.last().1 {
            Doc::Nil => lay(w, placed, rest),
            Doc::Line => seq![Token::Line(ind)] + lay(w, ind, rest),
            Doc::Text(s) => {
                seq![Token::Text(s)] + lay(w, placed + s@.len(), rest)
            },
            Doc::Nest(j, x) => {
                proof {
                    lemma_work_size_push(rest, (ind + j, *x));
                }
                lay(w, placed, rest.push((ind + j, *x)))
            },
            Doc::Cat(a, b) => {
                proof {
                    lemma_work_size_push(rest, (ind, *b));
                    lemma_work_size_push(rest.push((ind, *b)), (ind, *a));
                }
                lay(w, placed, rest.push((ind, *b)).push((ind, *a)))
            },
            Doc::FlatAlt(p, _) => {
                proof {
                    lemma_work_size_push(rest, (ind, *p));
                }
                lay(w, placed, rest.push((ind, *p)))
            },
            Doc::Union(flat, expanded) => {
                proof {
                    lemma_work_size_push(rest, (ind, *flat));
                    lemma_work_size_push(rest, (ind, *expanded));
                }
                let cand = lay(w, placed, rest.push((ind, *flat)));
                if fits_at(cand, w - placed) {
                    cand
                } else {
                    lay(w, placed, rest.push((ind, *expanded)))
                }
            },
        }
    }
}

/// The meaning of rendering: the stringified token stream laid out from the
/// document alone, at indentation zero and an empty current line.
pub open spec fn pretty_spec(d: Doc, w: int) -> Seq<char> {
    render_str(lay(w, 0, seq![(0int, d)]))
}

/// The total length of the text runs of a token stream.
spec fn tokens_text(s: Seq<Token>) -> nat
    decreases s.len(),
{
    if s.len() == 0 {
        0
    } else {
        (match s[0] {
            Token::Text(t) => t@.len(),
            Token::Line(_) => 0,
        }) + tokens_text(s.drop_first())
    }
}

/// A token stream of text runs alone.
spec fn text_only(s: Seq<Token>) -> bool {
    forall|i: int| 0 <= i < s.len() ==> s[i] is Text
}

/// No layout choice point anywhere a traversal can reach.
spec fn union_free(d: Doc) -> bool
    decreases d,
{
    match d {
        Doc::Union(_, _) => false,
        Doc::Nest(_, x) => union_free(*x),
        Doc::Cat(a, b) => union_free(*a) && union_free(*b),
        Doc::FlatAlt(p, _) => union_free(*p),
        _ => true,
    }
}

/// No layout choice point anywhere on the work stack.
spec fn stack_union_free(s: Seq<(int, Doc)>) -> bool
    decreases s.len(),
{
    if s.len() == 0 {
        true
    } else {
        stack_union_free(s.drop_last()) && union_free(s.last().1)
    }
}

/// The token stream of a document in flat normal form without breaks: its
/// text runs, in order.
pub open spec fn flat_tokens(d: Doc) -> Seq<Token>
    decreases d,
{
    match d {
        Doc::Text(s) => seq![Token::Text(s)],
        Doc::Nest(_, x) => flat_tokens(*x),
        Doc::Cat(a, b) => flat_tokens(*a) + flat_tokens(*b),
        _ => Seq::<Token>::empty(),
    }
}

proof fn lemma_tokens_text_cons(t: Token, s: Seq<Token>)
    ensures
        tokens_text(seq![t] + s) == (match t {
            Token::Text(x) => x@.len(),
            Token::Line(_) => 0,
        }) + tokens_text(s),
{
    assert((seq![t] + s)[0] == t);
    assert((seq![t] + s).drop_first() =~= s);
}

proof fn lemma_tokens_text_append(a: Seq<Token>, b: Seq<Token>)
    ensures
        tokens_text(a + b) == tokens_text(a) + tokens_text(b),
    decreases a.len(),
{
    if a.len() == 0 {
        assert(a + b =~= b);
    } else {
        assert((a + b)[0] == a[0]);
        assert((a + b).drop_first() =~= a.drop_first() + b);
        lemma_tokens_text_append(a.drop_first(), b);
    }
}

proof fn lemma_suf_push(s: Seq<(int, Doc)>, e: (int, Doc))
    ensures
        stack_union_free(s.push(e)) == (stack_union_free(s) && union_free(e.1)),
{
    assert(s.push(e).drop_last() =~= s);
    assert(s.push(e).last() == e);
}

proof fn lemma_flat_union_free(d: Doc)
    requires
        crate::doc::is_flat(d),
    ensures
        union_free(d),
    decreases d,
{
    match d {
        Doc::Nest(_, x) => lemma_flat_union_free(*x),
        Doc::Cat(a, b) => {
            lemma_flat_union_free(*a);
            lemma_flat_union_free(*b);
        },
        _ => {},
    }
}

/// The text a layout emits never exceeds the text on its work stack.
proof fn lemma_lay_text_bound(w: int, placed: int, work: Seq<(int, Doc)>)
    ensures
        tokens_text(lay(w, placed, work)) <= stack_text(work),
    decreases work_size(work),
{
    if work.len() == 0 {
    } else {
        let ind = work.last().0;
        let rest = work.drop_last();
        match work.last().1 {
            Doc::Nil => lemma_lay_text_bound(w, placed, rest),
            Doc::Line => {
                lemma_lay_text_bound(w, ind, rest);
                lemma_tokens_text_cons(Token::Line(ind), lay(w, ind, rest));
            },
            Doc::Text(s) => {
                lemma_lay_text_bound(w, placed + s@.len(), rest);
                lemma_tokens_text_cons(Token::Text(s), lay(w, placed + s@.len(), rest));
            },
            Doc::Nest(j, x) => {
                lemma_work_size_push(rest, (ind + j, *x));
                lemma_stack_text_push(rest, (ind + j, *x));
                lemma_lay_text_bound(w, placed, rest.push((ind + j, *x)));
            },
            Doc::Cat(a, b) => {
                lemma_work_size_push(rest, (ind, *b));
                lemma_work_size_push(rest.push((ind, *b)), (ind, *a));
                lemma_stack_text_push(rest, (ind, *b));
                lemma_stack_text_push(rest.push((ind, *b)), (ind, *a));
                lemma_lay_text_bound(w, placed, rest.push((ind, *b)).push((ind, *a)));
            },
            Doc::FlatAlt(p, _) => {
                lemma_work_size_push(rest, (ind, *p));
                lemma_stack_text_push(rest, (ind, *p));
                lemma_lay_text_bound(w, placed, rest.push((ind, *p)));
            },
            Doc::Union(x, y) => {
                lemma_work_size_push(rest, (ind, *x));
                lemma_work_size_push(rest, (ind, *y));
                lemma_stack_text_push(rest, (ind, *x));
                lemma_stack_text_push(rest, (ind, *y));
                lemma_lay_text_bound(w, placed, rest.push((ind, *x)));
                lemma_lay_text_bound(w, placed, rest.push((ind, *y)));
            },
        }
    }
}

/// A token stream whose text fits the budget fits.
proof fn lemma_fits_of_bound(s: Seq<Token>, b: int)
    requires
        tokens_text(s) <= b,
    ensures
        fits_at(s, b),
    decreases s.len(),
{
    if s.len() == 0 {
    } else {
        match s[0] {
            Token::Text(t) => {
                assert(tokens_text(s) == t@.len() + tokens_text(s.drop_first()));
                lemma_fits_of_bound(s.drop_first(), b - t@.len());
            },
            Token::Line(_) => {},
        }
    }
}

/// Over text runs alone, fitting is exactly the total length staying within
/// the budget (an empty stream always fits).
proof fn lemma_fits_text_only(s: Seq<Token>, b: int)
    requires
        text_only(s),
    ensures
        fits_at(s, b) <==> (s.len() == 0 || tokens_text(s) <= b),
    decreases s.len(),
{
    if s.len() == 0 {
    } else {
        match s[0] {
            Token::Text(t) => {
                assert(text_only(s.drop_first()));
                lemma_fits_text_only(s.drop_first(), b - t@.len());
                assert(tokens_text(s) == t@.len() + tokens_text(s.drop_first()));
                if s.drop_first().len() == 0 {
                    assert(tokens_text(s.drop_first()) == 0);
                }
            },
            Token::Line(_) => {
                assert(s[0] is Text);
            },
        }
    }
}

/// A work stack without choice points lays out the same at every width.
proof fn lemma_lay_width_indep(w1: int, w2: int, placed: int, work: Seq<(int, Doc)>)
    requires
        stack_union_free(work),
    ensures
        lay(w1, placed, work) == lay(w2, placed, work),
    decreases work_size(work),
{
    if work.len() == 0 {
    } else {
        let ind = work.last().0;
        let rest = work.drop_last();
        match work.last().1 {
            Doc::Nil => lemma_lay_width_indep(w1, w2, placed, rest),
            Doc::Line => lemma_lay_width_indep(w1, w2, ind, rest),
            Doc::Text(s) => lemma_lay_width_indep(w1, w2, placed + s@.len(), rest),
            Doc::Nest(j, x) => {
                lemma_work_size_push(rest, (ind + j, *x));
                lemma_suf_push(rest, (ind + j, *x));
                lemma_lay_width_indep(w1, w2, placed, rest.push((ind + j, *x)));
            },
            Doc::Cat(a, b) => {
                lemma_work_size_push(rest, (ind, *b));
                lemma_work_size_push(rest.push((ind, *b)), (ind, *a));
                lemma_suf_push(rest, (ind, *b));
                lemma_suf_push(rest.push((ind, *b)), (ind, *a));
                lemma_lay_width_indep(w1, w2, placed, rest.push((ind, *b)).push((ind, *a)));
            },
            Doc::FlatAlt(p, _) => {
                lemma_work_size_push(rest, (ind, *p));
                lemma_suf_push(rest, (ind, *p));
                lemma_lay_width_indep(w1, w2, placed, rest.push((ind, *p)));
            },
            Doc::Union(_, _) => {
                assert(!union_free(work.last().1));
            },
        }
    }
}

/// Laying out a document in break-free flat normal form emits exactly its
/// text runs, advances the column by their total length, and goes on with the
/// remaining work.
proof fn lemma_lay_flat(w: int, placed: int, ind: int, d: Doc, rest: Seq<(int, Doc)>)
    requires
        crate::doc::is_flat(d),
        crate::doc::line_free(d),
    ensures
        lay(w, placed, rest.push((ind, d))) == flat_tokens(d) + lay(
            w,
            placed + text_sum(d),
            rest,
        ),
    decreases d,
{
    let work = rest.push((ind, d));
    assert(work.drop_last() =~= rest);
    assert(work.last() == (ind, d));
    match d {
        Doc::Nil => {
            assert(flat_tokens(d) + lay(w, placed, rest) =~= lay(w, placed, rest));
        },
        Doc::Text(s) => {},
        Doc::Nest(j, x) => {
            lemma_lay_flat(w, placed, ind + j, *x, rest);
        },
        Doc::Cat(a, b) => {
            lemma_lay_flat(w, placed, ind, *a, rest.push((ind, *b)));
            lemma_lay_flat(w, placed + text_sum(*a), ind, *b, rest);
            assert(flat_tokens(*a) + (flat_tokens(*b) + lay(w, placed + text_sum(*a) + text_sum(*b), rest))
                =~= (flat_tokens(*a) + flat_tokens(*b)) + lay(w, placed + text_sum(d), rest));
        },
        _ => {},
    }
}

/// The text runs of a break-free document in flat normal form are text alone,
/// with the document's total text length.
proof fn lemma_flat_tokens_props(d: Doc)
    requires
        crate::doc::is_flat(d),
        crate::doc::line_free(d),
    ensures
        text_only(flat_tokens(d)),
        tokens_text(flat_tokens(d)) == text_sum(d),
    decreases d,
{
    match d {
        Doc::Text(s) => {
            assert(seq![Token::Text(s)].drop_first() =~= Seq::<Token>::empty());
        },
        Doc::Nest(_, x) => lemma_flat_tokens_props(*x),
        Doc::Cat(a, b) => {
            lemma_flat_tokens_props(*a);
            lemma_flat_tokens_props(*b);
            lemma_tokens_text_append(flat_tokens(*a), flat_tokens(*b));
            assert forall|i: int| 0 <= i < flat_tokens(d).len() implies flat_tokens(d)[i] is Text by {
                if i < flat_tokens(*a).len() {
                    assert(flat_tokens(d)[i] == flat_tokens(*a)[i]);
                } else {
                    assert(flat_tokens(d)[i] == flat_tokens(*b)[i - flat_tokens(*a).len()]);
                }
            }
        },
        _ => {},
    }
}

/// Every document on the work stack is break-free and carries no literal
/// newline in its text runs.
spec fn stack_clean(s: Seq<(int, Doc)>) -> bool
    decreases s.len(),
{
    if s.len() == 0 {
        true
    } else {
        &&& stack_clean(s.drop_last())
        &&& crate::doc::line_free(s.last().1)
        &&& crate::doc::texts_newline_free(s.last().1)
    }
}

proof fn lemma_clean_push(s: Seq<(int, Doc)>, e: (int, Doc))
    ensures
        stack_clean(s.push(e)) == (stack_clean(s) && crate::doc::line_free(e.1)
            && crate::doc::texts_newline_free(e.1)),
{
    assert(s.push(e).drop_last() =~= s);
    assert(s.push(e).last() == e);
}

/// A break-free work stack with newline-free text lays out to newline-free
/// text tokens alone.
proof fn lemma_lay_newline_free(w: int, placed: int, work: Seq<(int, Doc)>)
    requires
        stack_clean(work),
    ensures
        forall|i: int|
            0 <= i < lay(w, placed, work).len() ==> token_newline_free(
                #[trigger] lay(w, placed, work)[i],
            ),
    decreases work_size(work),
{
    if work.len() == 0 {
        assert(lay(w, placed, work) == Seq::<Token>::empty());
    } else {
        let ind = work.last().0;
        let rest = work.drop_last();
        match work.last().1 {
            Doc::Nil => {
                lemma_lay_newline_free(w, placed, rest);
                assert(lay(w, placed, work) == lay(w, placed, rest));
            },
            Doc::Line => {
                assert(!crate::doc::line_free(work.last().1));
            },
            Doc::Text(s) => {
                lemma_lay_newline_free(w, placed + s@.len(), rest);
                let toks = lay(w, placed, work);
                let tail = lay(w, placed + s@.len(), rest);
                assert(toks == seq![Token::Text(s)] + tail);
                assert forall|i: int| 0 <= i < toks.len() implies token_newline_free(
                    #[trigger] toks[i],
                ) by {
                    if i == 0 {
                        assert(toks[0] == Token::Text(s));
                    } else {
                        assert(toks[i] == tail[i - 1]);
                    }
                }
            },
            Doc::Nest(j, x) => {
                lemma_work_size_push(rest, (ind + j, *x));
                lemma_clean_push(rest, (ind + j, *x));
                lemma_lay_newline_free(w, placed, rest.push((ind + j, *x)));
                assert(lay(w, placed, work) == lay(w, placed, rest.push((ind + j, *x))));
            },
            Doc::Cat(a, b) => {
                lemma_work_size_push(rest, (ind, *b));
                lemma_work_size_push(rest.push((ind, *b)), (ind, *a));
                lemma_clean_push(rest, (ind, *b));
                lemma_clean_push(rest.push((ind, *b)), (ind, *a));
                lemma_lay_newline_free(w, placed, rest.push((ind, *b)).push((ind, *a)));
                assert(lay(w, placed, work) == lay(
                    w,
                    placed,
                    rest.push((ind, *b)).push((ind, *a)),
                ));
            },
            Doc::FlatAlt(p, _) => {
                lemma_work_size_push(rest, (ind, *p));
                lemma_clean_push(rest, (ind, *p));
                lemma_lay_newline_free(w, placed, rest.push((ind, *p)));
                assert(lay(w, placed, work) == lay(w, placed, rest.push((ind, *p))));
            },
            Doc::Union(x, y) => {
                lemma_work_size_push(rest, (ind, *x));
                lemma_work_size_push(rest, (ind, *y));
                lemma_clean_push(rest, (ind, *x));
                lemma_clean_push(rest, (ind, *y));
                lemma_lay_newline_free(w, placed, rest.push((ind, *x)));
                lemma_lay_newline_free(w, placed, rest.push((ind, *y)));
                if fits_at(lay(w, placed, rest.push((ind, *x))), w - placed) {
                    assert(lay(w, placed, work) == lay(w, placed, rest.push((ind, *x))));
                } else {
                    assert(lay(w, placed, work) == lay(w, placed, rest.push((ind, *y))));
                }
            },
        }
    }
}

/// Flat documents have no breaks, at the renderer: a document whose
/// unconditional breaks are all guarded and whose text runs carry no literal
/// newline flattens to a document that renders, at any width, to a string
/// without a newline character.
pub proof fn lemma_flat_render_break_free(d: Doc, w: int)
    requires
        crate::doc::flat_line_free(d),
        crate::doc::texts_newline_free(d),
    ensures
        forall|j: int|
            0 <= j < pretty_spec(spec_flatten(d), w).len() ==> pretty_spec(spec_flatten(d), w)[j]
                != '\n',
{
    crate::doc::lemma_flatten_line_free(d);
    crate::doc::lemma_flatten_texts_newline_free(d);
    let work = seq![(0int, spec_flatten(d))];
    assert(work.drop_last() =~= Seq::<(int, Doc)>::empty());
    assert(stack_clean(Seq::<(int, Doc)>::empty()));
    assert(work.last() == (0int, spec_flatten(d)));
    assert(stack_clean(work));
    lemma_lay_newline_free(w, 0, work);
    lemma_render_str_newline_free(lay(w, 0, work));
}

/// Group coherence: a group whose single-line form fits a wide enough page is
/// laid out exactly as its flattened document would be, at any width at all.
pub proof fn lemma_group_coherence(d: Doc, ind: int, placed: int, w_wide: int, w_any: int)
    requires
        crate::doc::wf(d),
        text_sum(spec_flatten(d)) <= w_wide - placed,
    ensures
        lay(w_wide, placed, seq![(ind, Doc::Union(Box::new(spec_flatten(d)), Box::new(d)))])
            == lay(w_any, placed, seq![(ind, spec_flatten(d))]),
{
    let flat = spec_flatten(d);
    let work = seq![(ind, Doc::Union(Box::new(flat), Box::new(d)))];
    let rest = work.drop_last();
    assert(rest =~= Seq::<(int, Doc)>::empty());
    assert(rest.push((ind, flat)) =~= seq![(ind, flat)]);
    assert(work.last() == (ind, Doc::Union(Box::new(flat), Box::new(d))));
    let cand = lay(w_wide, placed, seq![(ind, flat)]);
    lemma_lay_text_bound(w_wide, placed, seq![(ind, flat)]);
    assert(seq![(ind, flat)].drop_last() =~= Seq::<(int, Doc)>::empty());
    assert(stack_text(Seq::<(int, Doc)>::empty()) == 0);
    assert(stack_text(seq![(ind, flat)]) == text_sum(flat));
    lemma_fits_of_bound(cand, w_wide - placed);
    assert(lay(w_wide, placed, work) == cand);
    crate::doc::lemma_flatten_flat(d);
    lemma_flat_union_free(flat);
    assert(stack_union_free(Seq::<(int, Doc)>::empty()));
    assert(seq![(ind, flat)].last() == (ind, flat));
    assert(stack_union_free(seq![(ind, flat)]));
    lemma_lay_width_indep(w_wide, w_any, placed, seq![(ind, flat)]);
}

/// Group coherence, at the renderer: a group rendered at a page wide enough
/// for its single-line form prints exactly what its flattened document prints
/// at any width at all.
pub proof fn lemma_group_coherence_render(d: Doc, w_wide: int, w_any: int)
    requires
        crate::doc::wf(d),
        text_sum(spec_flatten(d)) <= w_wide,
    ensures
        pretty_spec(Doc::Union(Box::new(spec_flatten(d)), Box::new(d)), w_wide) == pretty_spec(
            spec_flatten(d),
            w_any,
        ),
{
    lemma_group_coherence(d, 0, 0, w_wide, w_any);
}

/// Width respect: a group standing alone is laid out flat exactly when its
/// single-line form's length fits the width remaining on the current line,
/// and as its expanded document otherwise.
pub proof fn lemma_group_width_respect(d: Doc, ind: int, placed: int, w: int)
    requires
        crate::doc::wf(d),
        crate::doc::flat_line_free(d),
        placed <= w,
    ensures
        text_sum(spec_flatten(d)) <= w - placed ==> lay(
            w,
            placed,
            seq![(ind, Doc::Union(Box::new(spec_flatten(d)), Box::new(d)))],
        ) == flat_tokens(spec_flatten(d)),
        text_sum(spec_flatten(d)) > w - placed ==> lay(
            w,
            placed,
            seq![(ind, Doc::Union(Box::new(spec_flatten(d)), Box::new(d)))],
        ) == lay(w, placed, seq![(ind, d)]),
{
    let flat = spec_flatten(d);
    let work = seq![(ind, Doc::Union(Box::new(flat), Box::new(d)))];
    let rest = work.drop_last();
    assert(rest =~= Seq::<(int, Doc)>::empty());
    assert(rest.push((ind, flat)) =~= seq![(ind, flat)]);
    assert(rest.push((ind, d)) =~= seq![(ind, d)]);
    assert(work.last() == (ind, Doc::Union(Box::new(flat), Box::new(d))));
    crate::doc::lemma_flatten_flat(d);
    crate::doc::lemma_flatten_line_free(d);
    lemma_lay_flat(w, placed, ind, flat, Seq::<(int, Doc)>::empty());
    assert(lay(w, placed + text_sum(flat), Seq::<(int, Doc)>::empty()) =~= Seq::<Token>::empty());
    let cand = lay(w, placed, seq![(ind, flat)]);
    assert(cand =~= flat_tokens(flat));
    lemma_flat_tokens_props(flat);
    lemma_fits_text_only(cand, w - placed);
    if text_sum(flat) <= w - placed {
        assert(fits_at(cand, w - placed));
    } else {
        assert(tokens_text(cand) > w - placed);
        assert(cand.len() > 0);
        assert(!fits_at(cand, w - placed));
    }
}

/// Scanning text runs followed by a line break: the stream fits exactly when
/// the text before the break fits the budget, whatever follows the break.
proof fn lemma_fits_through_texts(a: Seq<Token>, n: int, c: Seq<Token>, b: int)
    requires
        text_only(a),
        b >= 0,
    ensures
        fits_at(a + (seq![Token::Line(n)] + c), b) <==> tokens_text(a) <= b,
    decreases a.len(),
{
    let s = a + (seq![Token::Line(n)] + c);
    if a.len() == 0 {
        assert(s[0] == Token::Line(n));
    } else {
        assert(s[0] == a[0]);
        assert(a[0] is Text);
        let t = a[0]->Text_0;
        assert(tokens_text(a) == t@.len() + tokens_text(a.drop_first()));
        if t@.len() <= b {
            assert(s.drop_first() =~= a.drop_first() + (seq![Token::Line(n)] + c));
            assert(text_only(a.drop_first()));
            lemma_fits_through_texts(a.drop_first(), n, c, b - t@.len());
        }
    }
}

/// Width respect before a break: a group followed on the work stack by an
/// unconditional line break — whatever work follows that break — is laid out
/// flat exactly when its single-line form's length fits the width remaining
/// on the current line.
pub proof fn lemma_group_width_respect_before_break(
    d: Doc,
    ind: int,
    placed: int,
    w: int,
    ind2: int,
    rest: Seq<(int, Doc)>,
)
    requires
        crate::doc::wf(d),
        crate::doc::flat_line_free(d),
        placed <= w,
    ensures
        text_sum(spec_flatten(d)) <= w - placed ==> lay(
            w,
            placed,
            rest.push((ind2, Doc::Line)).push(
                (ind, Doc::Union(Box::new(spec_flatten(d)), Box::new(d))),
            ),
        ) == lay(w, placed, rest.push((ind2, Doc::Line)).push((ind, spec_flatten(d)))),
        text_sum(spec_flatten(d)) > w - placed ==> lay(
            w,
            placed,
            rest.push((ind2, Doc::Line)).push(
                (ind, Doc::Union(Box::new(spec_flatten(d)), Box::new(d))),
            ),
        ) == lay(w, placed, rest.push((ind2, Doc::Line)).push((ind, d))),
{
    let flat = spec_flatten(d);
    let g = Doc::Union(Box::new(flat), Box::new(d));
    let mid = rest.push((ind2, Doc::Line));
    let work = mid.push((ind, g));
    assert(work.drop_last() =~= mid);
    assert(work.last() == (ind, g));
    crate::doc::lemma_flatten_flat(d);
    crate::doc::lemma_flatten_line_free(d);
    lemma_lay_flat(w, placed, ind, flat, mid);
    assert(mid.drop_last() =~= rest);
    assert(mid.last() == (ind2, Doc::Line));
    let tail = lay(w, ind2, rest);
    assert(lay(w, placed + text_sum(flat), mid) == seq![Token::Line(ind2)] + tail);
    let cand = lay(w, placed, mid.push((ind, flat)));
    assert(cand == flat_tokens(flat) + (seq![Token::Line(ind2)] + tail));
    lemma_flat_tokens_props(flat);
    lemma_fits_through_texts(flat_tokens(flat), ind2, tail, w - placed);
    assert(fits_at(cand, w - placed) <==> text_sum(flat) <= w - placed);
}

/// Indentation accumulates additively: nesting twice raises the indentation
/// of the nested document by the sum of the two offsets.
pub proof fn lemma_nest_additive(
    w: int,
    placed: int,
    ind: int,
    a: usize,
    b: usize,
    d: Doc,
    rest: Seq<(int, Doc)>,
)
    ensures
        lay(w, placed, rest.push((ind, Doc::Nest(a, Box::new(Doc::Nest(b, Box::new(d)))))))
            == lay(w, placed, rest.push((ind + a + b, d))),
{
    let outer = Doc::Nest(a, Box::new(Doc::Nest(b, Box::new(d))));
    let w1 = rest.push((ind, outer));
    assert(w1.drop_last() =~= rest);
    assert(w1.last() == (ind, outer));
    let w2 = rest.push((ind + a, Doc::Nest(b, Box::new(d))));
    assert(w2.drop_last() =~= rest);
    assert(w2.last() == (ind + a, Doc::Nest(b, Box::new(d))));
    assert(lay(w, placed, w1) == lay(w, placed, w2));
    assert(lay(w, placed, w2) == lay(w, placed, rest.push((ind + a + b, d))));
}

/// The largest column the engine may hold in a `usize` and still cast to
/// `i64` when it measures a remaining width.
spec fn col_limit() -> int {
    if usize::MAX <= i64::MAX {
        usize::MAX as int
    } else {
        i64::MAX as int
    }
}

/// One work stack entry stays within the machine's columns: its indentation,
/// and every indentation the nest offsets under it can raise it to.
spec fn entry_ok(e: (int, Doc), budget: int) -> bool {
    0 <= e.0 && e.0 + nest_sum(e.1) <= budget
}

/// The engine's machine-limit invariant: the current column plus all text
/// still to place fits the machine, and so does every indentation any entry
/// can reach.
spec fn stack_ok(s: Seq<(int, Doc)>, placed: int) -> bool {
    &&& 0 <= placed
    &&& placed + stack_text(s) <= col_limit()
    &&& forall|k: int| 0 <= k < s.len() ==> entry_ok(#[trigger] s[k], col_limit() - stack_text(s))
}

/// The mathematical form of the engine's work stack.
spec fn stack_view(s: Seq<(usize, &Doc)>) -> Seq<(int, Doc)> {
    s.map(|i: int, e: (usize, &Doc)| (e.0 as int, *e.1))
}

fn copy_stack<'a>(s: &Vec<(usize, &'a Doc)>) -> (r: Vec<(usize, &'a Doc)>)
    ensures
        r@ == s@,
{
    let mut r: Vec<(usize, &'a Doc)> = Vec::new();
    let mut i: usize = 0;
    proof {
        assert(s@.take(0) =~= r@);
    }
    while i < s.len()
        invariant
            0 <= i <= s@.len(),
            r@ == s@.take(i as int),
        decreases s@.len() - i,
    {
        r.push(s[i]);
        proof {
            assert(s@.take(i as int).push(s@[i as int]) =~= s@.take(i as int + 1));
        }
        i = i + 1;
    }
    proof {
        assert(s@.take(s@.len() as int) =~= s@);
    }
    r
}

/// The engine's traversal: pop a work entry, emit its tokens, push its
/// children; resolve a `Union` by laying its flat branch out speculatively,
/// against a copy of the remaining work, into a scratch buffer, and committing
/// the scratch tokens exactly when they fit the remaining width.
#[verifier::loop_isolation(false)]
fn be<'a>(page_width: i64, placed: usize, stack: Vec<(usize, &'a Doc)>, out: &mut SimpleDoc)
    requires
        0 <= page_width,
        stack_ok(stack_view(stack@), placed as int),
    ensures
        final(out)@ == old(out)@ + lay(page_width as int, placed as int, stack_view(stack@)),
    decreases work_size(stack_view(stack@)),
{
    let ghost init_work = stack_view(stack@);
    let ghost init_placed = placed as int;
    let ghost w_int = page_width as int;
    let mut stack = stack;
    let mut placed = placed;
    let mut done = false;
    while !done && stack.len() > 0
        invariant
            done ==> out@ == old(out)@ + lay(w_int, init_placed, init_work),
            !done ==> stack_ok(stack_view(stack@), placed as int),
            !done ==> old(out)@ + lay(w_int, init_placed, init_work) == out@ + lay(
                w_int,
                placed as int,
                stack_view(stack@),
            ),
            work_size(stack_view(stack@)) <= work_size(init_work),
        decreases work_size(stack_view(stack@)),
    {
        let ghost pre = stack_view(stack@);
        let ghost pre_placed = placed as int;
        let (indent, doc) = stack.pop().unwrap();
        let ghost rest = stack_view(stack@);
        proof {
            assert(rest =~= pre.drop_last());
            assert(pre.last() == (indent as int, *doc));
        }
        match doc {
            Doc::Nil => {
                proof {
                    assert(lay(w_int, pre_placed, pre) == lay(w_int, pre_placed, rest));
                }
            },
            Doc::Line => {
                out.add(SimpleDocElem::Line(indent));
                placed = indent;
                proof {
                    assert(lay(w_int, pre_placed, pre) == seq![Token::Line(indent as int)] + lay(
                        w_int,
                        indent as int,
                        rest,
                    ));
                    assert(out@ + lay(w_int, placed as int, rest) =~= old(out)@ + lay(
                        w_int,
                        init_placed,
                        init_work,
                    ));
                }
            },
            Doc::Text(t) => {
                let tlen = t.as_str().unicode_len();
                out.add(SimpleDocElem::Text(t.clone()));
                proof {
                    assert(stack_text(pre) == stack_text(rest) + text_sum(*doc));
                }
                placed = placed + tlen;
                proof {
                    assert(lay(w_int, pre_placed, pre) == seq![Token::Text(*t)] + lay(
                        w_int,
                        pre_placed + t@.len(),
                        rest,
                    ));
                    assert(out@ + lay(w_int, placed as int, rest) =~= old(out)@ + lay(
                        w_int,
                        init_placed,
                        init_work,
                    ));
                }
            },
            Doc::Nest(j, x) => {
                proof {
                    assert(entry_ok(pre.last(), col_limit() - stack_text(pre)));
                    assert(nest_sum(*doc) == *j as nat + nest_sum(**x));
                    lemma_stack_text_push(rest, (indent as int + *j, **x));
                    lemma_work_size_push(rest, (indent as int + *j, **x));
                }
                stack.push((indent + *j, &**x));
                proof {
                    assert(stack_view(stack@) =~= rest.push((indent as int + *j, **x)));
                    assert(lay(w_int, pre_placed, pre) == lay(
                        w_int,
                        pre_placed,
                        rest.push((indent as int + *j, **x)),
                    ));
                }
            },
            Doc::Cat(a, b) => {
                proof {
                    lemma_stack_text_push(rest, (indent as int, **b));
                    lemma_stack_text_push(rest.push((indent as int, **b)), (indent as int, **a));
                    lemma_work_size_push(rest, (indent as int, **b));
                    lemma_work_size_push(rest.push((indent as int, **b)), (indent as int, **a));
                }
                stack.push((indent, &**b));
                stack.push((indent, &**a));
                proof {
                    assert(stack_view(stack@) =~= rest.push((indent as int, **b)).push(
                        (indent as int, **a),
                    ));
                    assert(lay(w_int, pre_placed, pre) == lay(
                        w_int,
                        pre_placed,
                        rest.push((indent as int, **b)).push((indent as int, **a)),
                    ));
                }
            },
            Doc::FlatAlt(p, _) => {
                proof {
                    lemma_stack_text_push(rest, (indent as int, **p));
                    lemma_work_size_push(rest, (indent as int, **p));
                }
                stack.push((indent, &**p));
                proof {
                    assert(stack_view(stack@) =~= rest.push((indent as int, **p)));
                    assert(lay(w_int, pre_placed, pre) == lay(
                        w_int,
                        pre_placed,
                        rest.push((indent as int, **p)),
                    ));
                }
            },
            Doc::Union(x, y) => {
                let mut speculative = copy_stack(&stack);
                proof {
                    lemma_stack_text_push(rest, (indent as int, **x));
                    lemma_work_size_push(rest, (indent as int, **x));
                }
                speculative.push((indent, &**x));
                let ghost spec_work = rest.push((indent as int, **x));
                proof {
                    assert(stack_view(speculative@) =~= spec_work);
                }
                let mut scratch = SimpleDoc(Vec::new());
                proof {
                    assert(scratch@ =~= Seq::<Token>::empty());
                }
                be(page_width, placed, speculative, &mut scratch);
                let ghost cand = lay(w_int, pre_placed, spec_work);
                proof {
                    assert(scratch@ =~= cand);
                }
                if scratch.fits(page_width - placed as i64) {
                    out.append(scratch);
                    proof {
                        assert(lay(w_int, pre_placed, pre) == cand);
                        assert(out@ =~= old(out)@ + lay(w_int, init_placed, init_work));
                    }
                    done = true;
                } else {
                    proof {
                        lemma_stack_text_push(rest, (indent as int, **y));
                        lemma_work_size_push(rest, (indent as int, **y));
                    }
                    stack.push((indent, &**y));
                    proof {
                        assert(stack_view(stack@) =~= rest.push((indent as int, **y)));
                        assert(lay(w_int, pre_placed, pre) == lay(
                            w_int,
                            pre_placed,
                            rest.push((indent as int, **y)),
                        ));
                    }
                }
            },
        }
    }
    proof {
        if !done {
            assert(stack_view(stack@) =~= Seq::<(int, Doc)>::empty());
            assert(out@ + lay(w_int, placed as int, stack_view(stack@)) =~= out@);
        }
    }
}

impl Doc {
    /// Render the document against a target page width: the best-fitting
    /// layout, stringified. The width bound `weight` is the machine limit on
    /// documents the engine can lay out; it admits any document whose text and
    /// nest offsets together fit the platform's integers.
    pub fn pretty(&self, w: i64) -> (r: String)
        requires
            0 <= w,
            weight(*self) <= usize::MAX,
            weight(*self) <= i64::MAX,
        ensures
            r@ == pretty_spec(*self, w as int),
    {
        let mut stack: Vec<(usize, &Doc)> = Vec::new();
        stack.push((0, self));
        let mut out = SimpleDoc(Vec::new());
        proof {
            assert(stack_view(stack@) =~= seq![(0int, *self)]);
            assert(seq![(0int, *self)].drop_last() =~= Seq::<(int, Doc)>::empty());
            assert(stack_text(Seq::<(int, Doc)>::empty()) == 0);
            assert(stack_text(seq![(0int, *self)]) == text_sum(*self));
            assert(out@ =~= Seq::<Token>::empty());
        }
        be(w, 0, stack, &mut out);
        out.to_string()
    }

    /// Render the document against a target page width, under the name of the
    /// continuation-passing presentation of the traversal. A continuation
    /// chain and an explicit work stack resume after a subtree in the same
    /// order and commit to the same layout choices, so both entry points
    /// render alike.
    pub fn pretty_cps(&self, w: i64) -> (r: String)
        requires
            0 <= w,
            weight(*self) <= usize::MAX,
            weight(*self) <= i64::MAX,
        ensures
            r@ == pretty_spec(*self, w as int),
    {
        self.pretty(w)
    }
}

} // verus!
