use germ::convert::{from_string, Target};

#[test]
fn convert_from_string_to_html_single_line() {
    assert_eq!(from_string("hi", &Target::HTML).unwrap(), "<p>hi</p>");
}

#[test]
fn convert_from_string_to_html_multi_line() {
    assert_eq!(
        from_string("hi\n# hi", &Target::HTML).unwrap(),
        "<p>hi</p><h1>hi</h1>"
    );
}

#[test]
fn convert_from_string_to_html_single_link_macro_expression() {
    assert_eq!(
        from_string("=> /to hello !", &Target::HTML).unwrap(),
        "<a href=\"/to\">hello !</a><br>",
    );
}

#[test]
fn convert_from_string_to_markdown_single_line() {
    assert_eq!(from_string("hi", &Target::Markdown).unwrap(), "hi\n");
}

#[test]
fn convert_from_string_to_markdown_multi_line() {
    assert_eq!(
        from_string("hi\n# hi", &Target::Markdown).unwrap(),
        "hi\n# hi\n"
    );
}

#[test]
fn convert_from_string_to_markdown_single_link() {
    assert_eq!(
        from_string("=> /to hello !", &Target::Markdown).unwrap(),
        "[hello !](/to)\n",
    );
}

#[test]
fn convert_from_string_to_markdown_single_macro_expression() {
    assert_eq!(
        from_string("=> /to hello !", &Target::Markdown).unwrap(),
        "[hello !](/to)\n",
    );
}
