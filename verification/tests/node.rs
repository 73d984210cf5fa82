use germ::ast::Node;

#[test]
fn node_to_gemtext() {
    assert_eq!(
        Node::Link {
            to: "/faq".to_string(),
            text: Some("FAQ".to_string()),
        }
        .content(),
        "=> /faq FAQ",
    );
}
