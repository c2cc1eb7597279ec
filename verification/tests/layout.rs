use markup_reflow::layout::{push, Doc};

fn bracketed<'a>() -> Doc<'a> {
    Doc::group(Doc::concat(vec![
        Doc::text("("),
        Doc::nest(
            2,
            Doc::concat(vec![
                Doc::Line0,
                Doc::text("test"),
                Doc::Line,
                Doc::text("test"),
            ]),
        ),
        Doc::Line0,
        Doc::text(")"),
    ]))
}

#[test]
fn group_is_flat_where_it_fits() {
    assert_eq!(bracketed().render(100), Ok("(test test)".to_string()));
    assert_eq!(bracketed().render(11), Ok("(test test)".to_string()));
}

#[test]
fn group_breaks_where_it_does_not_fit() {
    assert_eq!(bracketed().render(10), Ok("(\n  test\n  test\n)".to_string()));
    assert_eq!(bracketed().render(0), Ok("(\n  test\n  test\n)".to_string()));
}

#[test]
fn nothing_renders_as_nothing() {
    assert_eq!(Doc::Nil.render(80), Ok(String::new()));
    assert_eq!(Doc::concat(vec![]).render(80), Ok(String::new()));
    assert_eq!(Doc::text("").render(80), Ok(String::new()));
}

#[test]
fn text_is_written_as_it_is() {
    assert_eq!(Doc::text("a < b").render(1), Ok("a < b".to_string()));
}

#[test]
fn line_outside_a_group_breaks() {
    let doc = Doc::concat(vec![Doc::text("a"), Doc::Line, Doc::text("b"), Doc::Line0]);
    assert_eq!(doc.render(80), Ok("a\nb\n".to_string()));
}

#[test]
fn hardline_breaks_every_group_around_it() {
    let inner = Doc::group(Doc::concat(vec![Doc::text("b"), Doc::Hardline, Doc::text("c")]));
    let doc = Doc::group(Doc::concat(vec![
        Doc::text("a"),
        Doc::Line,
        inner,
        Doc::Line,
        Doc::text("d"),
    ]));
    assert_eq!(doc.render(80), Ok("a\nb\nc\nd".to_string()));
}

#[test]
fn inner_group_decides_for_itself() {
    let inner = Doc::group(Doc::concat(vec![Doc::text("bb"), Doc::Line, Doc::text("cc")]));
    let doc = Doc::group(Doc::concat(vec![
        Doc::text("aaaa"),
        Doc::Line,
        inner,
        Doc::Line,
        Doc::text("dddd"),
    ]));
    assert_eq!(doc.render(80), Ok("aaaa bb cc dddd".to_string()));
    assert_eq!(doc.render(10), Ok("aaaa\nbb cc\ndddd".to_string()));
    assert_eq!(doc.render(4), Ok("aaaa\nbb\ncc\ndddd".to_string()));
}

#[test]
fn group_accounts_for_what_follows_it() {
    let doc = Doc::concat(vec![
        Doc::group(Doc::concat(vec![Doc::text("ab"), Doc::Line, Doc::text("cd")])),
        Doc::text(">"),
    ]);
    assert_eq!(doc.render(6), Ok("ab cd>".to_string()));
    assert_eq!(doc.render(5), Ok("ab\ncd>".to_string()));
}

#[test]
fn nest_indents_the_lines_inside_it() {
    let doc = Doc::concat(vec![
        Doc::text("a"),
        Doc::nest(
            4,
            Doc::concat(vec![
                Doc::Hardline,
                Doc::text("b"),
                Doc::nest(-2, Doc::concat(vec![Doc::Hardline, Doc::text("c")])),
            ]),
        ),
        Doc::Hardline,
        Doc::text("d"),
    ]);
    assert_eq!(doc.render(80), Ok("a\n    b\n  c\nd".to_string()));
}

#[test]
fn soft_lines_wrap_words() {
    let mut parts = Vec::new();
    for (i, word) in ["aa", "bb", "cc", "dd"].into_iter().enumerate() {
        if i > 0 {
            push(&mut parts, Doc::group(Doc::Line));
        }
        push(&mut parts, Doc::text(word));
    }
    let doc = Doc::concat(parts);
    assert_eq!(doc.render(5), Ok("aa bb\ncc dd".to_string()));
    assert_eq!(doc.render(80), Ok("aa bb cc dd".to_string()));
    assert_eq!(doc.render(1), Ok("aa\nbb\ncc\ndd".to_string()));
}

#[test]
fn documents_compare_by_shape() {
    assert_eq!(Doc::text("a"), Doc::Text("a"));
    assert_eq!(Doc::group(Doc::Line), Doc::Group(Box::new(Doc::Line)));
    assert_eq!(Doc::nest(2, Doc::Nil), Doc::Nest(2, Box::new(Doc::Nil)));
    assert_eq!(Doc::concat(vec![Doc::Line0]), Doc::Concat(vec![Doc::Line0]));
    assert_ne!(Doc::Line, Doc::Line0);
}
