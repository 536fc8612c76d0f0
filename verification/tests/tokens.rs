use pprint::output::{SimpleDoc, SimpleDocElem};
use pprint::state::PrettyState;

#[test]
fn fits_counts_text_up_to_the_first_break() {
    let sd = SimpleDoc(vec![
        SimpleDocElem::Text("hello".to_string()),
        SimpleDocElem::Line(2),
        SimpleDocElem::Text("a very long tail that lies on the next line".to_string()),
    ]);
    assert!(sd.fits(5));
    assert!(!sd.fits(4));
}

#[test]
fn fits_fails_as_soon_as_the_budget_is_spent() {
    let sd = SimpleDoc(vec![
        SimpleDocElem::Text("hello".to_string()),
        SimpleDocElem::Text(" ".to_string()),
        SimpleDocElem::Text("world".to_string()),
    ]);
    assert!(sd.fits(11));
    assert!(!sd.fits(10));
    assert!(!sd.fits(0));
}

#[test]
fn an_empty_stream_fits_any_width() {
    let sd = SimpleDoc(vec![]);
    assert!(sd.fits(0));
    assert!(sd.fits(-5));
}

#[test]
fn a_leading_break_fits_any_width() {
    let sd = SimpleDoc(vec![SimpleDocElem::Line(0)]);
    assert!(sd.fits(-1));
}

#[test]
fn add_and_append_keep_token_order() {
    let mut sd = SimpleDoc(vec![]);
    sd.add(SimpleDocElem::Text("a".to_string()));
    let mut tail = SimpleDoc(vec![]);
    tail.add(SimpleDocElem::Line(2));
    tail.add(SimpleDocElem::Text("b".to_string()));
    sd.append(tail);
    assert_eq!(
        sd,
        SimpleDoc(vec![
            SimpleDocElem::Text("a".to_string()),
            SimpleDocElem::Line(2),
            SimpleDocElem::Text("b".to_string()),
        ])
    );
}

#[test]
fn stringification_renders_breaks_as_newline_and_spaces() {
    let sd = SimpleDoc(vec![
        SimpleDocElem::Text("a".to_string()),
        SimpleDocElem::Line(2),
        SimpleDocElem::Text("b".to_string()),
        SimpleDocElem::Line(0),
        SimpleDocElem::Text("c".to_string()),
    ]);
    assert_eq!(sd.to_string(), "a\n  b\nc");
}

#[test]
fn stringification_of_an_empty_stream_is_empty() {
    assert_eq!(SimpleDoc(vec![]).to_string(), "");
}

#[test]
fn state_builders_replace_one_field_each() {
    let s = PrettyState::default()
        .with_page_width(80)
        .with_placed(3)
        .with_row(1)
        .with_col(4)
        .with_indent(2)
        .with_index(9);
    assert_eq!(s.page_width, 80);
    assert_eq!(s.placed, 3);
    assert_eq!(s.row, 1);
    assert_eq!(s.col, 4);
    assert_eq!(s.indent, 2);
    assert_eq!(s.index, 9);
    let t = s.with_col(0);
    assert_eq!(t.col, 0);
    assert_eq!(t.page_width, 80);
}

#[test]
fn pretty_cps_renders_like_pretty() {
    let d = pprint::doc::text("hello")
        .cat_with_line(pprint::doc::text("world"))
        .group();
    assert_eq!(d.pretty_cps(20), d.pretty(20));
    assert_eq!(d.pretty_cps(5), d.pretty(5));
    assert_eq!(d.pretty_cps(5), "hello\nworld");
}
