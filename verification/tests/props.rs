use germ::ast::{Ast, GemtextError, Node};
use germ::convert::{from_ast, Target};

#[test]
fn round_trip_mixed_document() {
    let source = "# Title\n\n* one\n* two\nafter\n> quoted\n```alt\n# not a heading\n```\n=> /x hi\nlast";
    assert_eq!(Ast::from_string(source).unwrap().to_gemtext(), source);
}

#[test]
fn round_trip_trailing_blank_line() {
    let source = "hello\n\n";
    assert_eq!(Ast::from_string(source).unwrap().to_gemtext(), source);
}

#[test]
fn round_trip_fence_only_document() {
    let source = "```a\nx\n```";
    assert_eq!(Ast::from_string(source).unwrap().to_gemtext(), source);
}

#[test]
fn rendering_twice_is_identical() {
    let ast = Ast::from_string("# Hi\nbody\n=> /to label").unwrap();
    assert_eq!(from_ast(&ast, &Target::HTML), from_ast(&ast, &Target::HTML));
    assert_eq!(
        from_ast(&ast, &Target::Markdown),
        from_ast(&ast, &Target::Markdown)
    );
}

#[test]
fn list_grouping() {
    assert_eq!(
        *Ast::from_string("* a\n* b\nc").unwrap().inner(),
        vec![
            Node::List(vec!["a".to_string(), "b".to_string()]),
            Node::Text("c".to_string()),
        ],
    );
}

#[test]
fn link_with_and_without_label() {
    assert_eq!(
        *Ast::from_string("=> /x hi").unwrap().inner(),
        vec![Node::Link {
            to: "/x".to_string(),
            text: Some("hi".to_string()),
        }],
    );
    assert_eq!(
        *Ast::from_string("=> /x").unwrap().inner(),
        vec![Node::Link {
            to: "/x".to_string(),
            text: None,
        }],
    );
}

#[test]
fn preformatted_keeps_inner_markup_literal() {
    assert_eq!(
        *Ast::from_string("```\n=> /x hi\n```").unwrap().inner(),
        vec![Node::PreformattedText {
            alt_text: None,
            text: "=> /x hi\n".to_string(),
        }],
    );
}

#[test]
fn heading_rendering_in_both_targets() {
    let ast = Ast::from_nodes(vec![Node::Heading {
        level: 1,
        text: "Hi".to_string(),
    }]);
    assert_eq!(from_ast(&ast, &Target::HTML), "<h1>Hi</h1>");
    assert_eq!(from_ast(&ast, &Target::Markdown), "# Hi\n");
}

#[test]
fn markdown_link_rendering() {
    let ast = Ast::from_nodes(vec![Node::Link {
        to: "/to".to_string(),
        text: Some("hello !".to_string()),
    }]);
    assert_eq!(from_ast(&ast, &Target::Markdown), "[hello !](/to)\n");
}

#[test]
fn malformed_link_is_rejected() {
    assert_eq!(Ast::from_string("=>"), Err(GemtextError::MalformedLink));
    assert_eq!(Ast::from_string("=>   "), Err(GemtextError::MalformedLink));
}

#[test]
fn unterminated_fence_is_discarded() {
    assert_eq!(*Ast::from_string("```alt\nlost line").unwrap().inner(), vec![]);
}

#[test]
fn trailing_list_is_flushed() {
    assert_eq!(
        *Ast::from_string("* a\n* b").unwrap().inner(),
        vec![Node::List(vec!["a".to_string(), "b".to_string()])],
    );
}

#[test]
fn heading_level_is_clamped() {
    assert_eq!(
        *Ast::from_string("#### deep").unwrap().inner(),
        vec![Node::Heading {
            level: 3,
            text: "deep".to_string(),
        }],
    );
}

#[test]
fn empty_source_parses_to_nothing() {
    let ast = Ast::from_string("").unwrap();
    assert_eq!(*ast.inner(), vec![]);
    assert_eq!(ast.to_gemtext(), "");
}

#[test]
fn whitespace_only_line_is_text() {
    assert_eq!(
        *Ast::from_string(" ").unwrap().inner(),
        vec![Node::Text(" ".to_string())],
    );
}

#[test]
fn blank_line_is_whitespace_node() {
    assert_eq!(
        *Ast::from_string("a\n\nb").unwrap().inner(),
        vec![
            Node::Text("a".to_string()),
            Node::Whitespace,
            Node::Text("b".to_string()),
        ],
    );
}

#[test]
fn whitespace_renders_nothing_in_html() {
    let ast = Ast::from_nodes(vec![Node::Whitespace]);
    assert_eq!(from_ast(&ast, &Target::HTML), "");
    assert_eq!(from_ast(&ast, &Target::Markdown), "\n");
}

#[test]
fn html_list_items_are_wrapped() {
    let ast = Ast::from_string("* a\n* b").unwrap();
    assert_eq!(
        from_ast(&ast, &Target::HTML),
        "<ul><li>a</li>\n<li>b</li></ul>"
    );
}

#[test]
fn markdown_list_uses_dashes() {
    let ast = Ast::from_string("* a\n* b").unwrap();
    assert_eq!(from_ast(&ast, &Target::Markdown), "- a\n- b\n");
}
