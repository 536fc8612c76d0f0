use pprint::doc::{hard_line, nil, soft_line, text, Doc};

fn line() -> Doc {
    pprint::doc::line()
}

#[test]
fn text_alone_renders_verbatim() {
    assert_eq!(text("hello").pretty(20), "hello");
}

#[test]
fn group_fits_flat_at_width_20() {
    let d = text("hello").cat_with_line(text("world")).group();
    assert_eq!(d.pretty(20), "hello world");
}

#[test]
fn group_expands_at_width_5() {
    let d = text("hello").cat_with_line(text("world")).group();
    assert_eq!(d.pretty(5), "hello\nworld");
}

#[test]
fn nested_group_fits_flat_at_width_20() {
    let d = text("hello")
        .cat_with_line(text("world"))
        .nest(2)
        .cat_with_line(text("!"))
        .group();
    assert_eq!(d.pretty(20), "hello world !");
}

#[test]
fn nested_group_expands_at_width_10() {
    // The nest applies only to the break before "world", which lies inside its
    // scope, not to the break before "!", which lies outside it.
    let d = text("hello")
        .cat_with_line(text("world"))
        .nest(2)
        .cat_with_line(text("!"))
        .group();
    assert_eq!(d.pretty(10), "hello\n  world\n!");
}

#[test]
fn bracketed_block_expands_with_indented_body() {
    let d = text("{")
        .cat(line().cat(text("aaaaaaaaaaaa")).nest(2))
        .cat_with_line(text("}"))
        .group();
    assert_eq!(d.pretty(6), "{\n  aaaaaaaaaaaa\n}");
    assert_eq!(d.pretty(40), "{ aaaaaaaaaaaa }");
}

#[test]
fn width_zero_expands_every_group() {
    let d = text("hello").cat_with_line(text("world")).group();
    assert_eq!(d.pretty(0), "hello\nworld");
}

#[test]
fn group_coherence_wide_render_equals_flat_render() {
    let d = text("one").cat_with_line(text("two")).cat_with_line(text("three"));
    let wide = d.clone().group().pretty(1000);
    assert_eq!(wide, d.clone().flatten().pretty(0));
    assert_eq!(wide, d.flatten().pretty(7));
    assert_eq!(wide, "one two three");
}

#[test]
fn width_respect_at_the_exact_boundary() {
    // The flat form "hello world" is 11 characters long: it is chosen at
    // width 11 and rejected at width 10.
    let d = text("hello").cat_with_line(text("world")).group();
    assert_eq!(d.pretty(11), "hello world");
    assert_eq!(d.pretty(10), "hello\nworld");
}

#[test]
fn indentation_accumulates_through_nested_nests() {
    let inner = hard_line().cat(text("b"));
    let d = text("a").cat(inner.clone().nest(2).nest(3));
    assert_eq!(d.pretty(20), "a\n     b");
    let e = text("a").cat(inner.nest(5));
    assert_eq!(e.pretty(20), "a\n     b");
}

#[test]
fn line_token_sets_the_next_column() {
    let d = text("x").cat(hard_line().cat(text("y")).nest(4));
    assert_eq!(d.pretty(20), "x\n    y");
}

#[test]
fn soft_line_is_a_space_when_it_fits_and_a_break_otherwise() {
    let d = text("a").cat(soft_line()).cat(text("b"));
    assert_eq!(d.clone().pretty(10), "a b");
    assert_eq!(d.pretty(1), "a\nb");
}

#[test]
fn empty_document_renders_to_nothing() {
    assert_eq!(nil().pretty(10), "");
    assert_eq!(Doc::Nil.cat(nil()).pretty(0), "");
}

#[test]
fn width_counts_characters_not_bytes() {
    // Width is measured in characters: the accented letters take two bytes
    // each but one column each, so the flat form still fits at width 11.
    let d = text("h\u{e9}llo").cat_with_line(text("w\u{f6}rld")).group();
    assert_eq!(d.clone().pretty(11), "h\u{e9}llo w\u{f6}rld");
    assert_eq!(d.pretty(10), "h\u{e9}llo\nw\u{f6}rld");
}

#[test]
fn group_choice_looks_only_to_the_next_break() {
    // A group followed by an unconditional break chooses by its own flat
    // width alone: the long text after the break lies on another line.
    let d = text("aaa")
        .cat_with_line(text("bbb"))
        .group()
        .cat(hard_line())
        .cat(text("cccccccccccc"));
    assert_eq!(d.clone().pretty(7), "aaa bbb\ncccccccccccc");
    assert_eq!(d.pretty(6), "aaa\nbbb\ncccccccccccc");
}

#[test]
fn right_nested_group_chain_renders_in_budget_when_flat() {
    // A deeply right-nested chain of groups that all fit: the first layout
    // choice commits the whole render in one pass.
    let mut d = text("end");
    let mut expected = String::from("end");
    for _ in 0..300 {
        d = text("ab").cat_with_line(d).group();
        expected = format!("ab {}", expected);
    }
    assert_eq!(d.pretty(2000), expected);
}

#[test]
fn right_nested_group_chain_renders_in_budget_when_expanded() {
    // The same chain at a width nothing fits: every group expands, one line
    // per link, and the render still completes well within its budget.
    let mut d = text("end");
    let mut expected = String::from("end");
    for _ in 0..300 {
        d = text("ab").cat_with_line(d).group();
        expected = format!("ab\n{}", expected);
    }
    assert_eq!(d.pretty(1), expected);
}
