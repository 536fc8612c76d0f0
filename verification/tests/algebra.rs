use pprint::doc::{
    empty, hard_line, line_break, nil, soft_line, soft_line_break, space, text, Doc,
};

fn line() -> Doc {
    pprint::doc::line()
}

#[test]
fn flatten_is_idempotent_on_built_documents() {
    let d = text("key")
        .cat_with_line(text("value"))
        .nest(2)
        .group()
        .cat_with_space(text("tail"));
    let once = d.clone().flatten();
    let twice = d.flatten().flatten();
    assert_eq!(once, twice);
}

#[test]
fn flatten_turns_line_into_space() {
    assert_eq!(line().flatten(), space());
}

#[test]
fn flatten_turns_line_break_into_nothing() {
    assert_eq!(line_break().flatten(), nil());
}

#[test]
fn flatten_keeps_a_hard_line() {
    // An unguarded break survives flattening.
    assert_eq!(hard_line().flatten(), hard_line());
}

#[test]
fn flatten_resolves_a_group_to_its_flat_branch() {
    let d = text("a").cat_with_line(text("b"));
    assert_eq!(d.clone().group().flatten(), d.flatten());
}

#[test]
fn flattened_documents_render_without_breaks() {
    let d = text("a")
        .cat_with_line(text("b"))
        .cat(soft_line())
        .cat(line_break())
        .cat(text("c"));
    let rendered = d.flatten().pretty(0);
    assert_eq!(rendered, "a b c");
    assert!(!rendered.contains('\n'));
}

#[test]
fn empty_and_nil_are_the_same_document() {
    assert_eq!(empty(), nil());
    assert_eq!(empty(), Doc::Nil);
}

#[test]
fn soft_line_break_pairs_nothing_with_a_break() {
    let d = soft_line_break();
    assert_eq!(
        d,
        Doc::Union(
            Box::new(Doc::Nil),
            Box::new(Doc::FlatAlt(Box::new(Doc::Line), Box::new(Doc::Nil))),
        )
    );
}

#[test]
fn group_pairs_a_document_with_its_flattening() {
    let d = text("x").cat_with_line(text("y"));
    match d.clone().group() {
        Doc::Union(flat, expanded) => {
            assert_eq!(*flat, d.clone().flatten());
            assert_eq!(*expanded, d);
        },
        other => panic!("group did not build a union: {:?}", other),
    }
}

#[test]
fn clone_preserves_structure() {
    let d = text("x").cat_with_line(text("y")).nest(3).group();
    assert_eq!(d.clone(), d);
}

#[test]
fn constructors_build_the_documented_shapes() {
    assert_eq!(hard_line(), Doc::Line);
    assert_eq!(space(), text(" "));
    assert_eq!(
        line(),
        Doc::FlatAlt(Box::new(Doc::Line), Box::new(text(" ")))
    );
    assert_eq!(
        line_break(),
        Doc::FlatAlt(Box::new(Doc::Line), Box::new(Doc::Nil))
    );
    assert_eq!(soft_line(), line().group());
}
