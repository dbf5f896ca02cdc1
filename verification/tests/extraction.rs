use tuist::html::parse;
use tuist::layout::get_text_content;

fn flatten(source: &str) -> String {
    let node = parse(source.to_string()).expect("well-formed input");
    get_text_content(&node, &mut String::new())
}

#[test]
fn extracts_text_verbatim() {
    assert_eq!(flatten("Some text"), "Some text".to_string());
}

#[test]
fn block_tags_hang_a_blank_line() {
    assert_eq!(flatten("<div>x</div>"), "x\n\n".to_string());
    assert_eq!(flatten("<p>x</p>"), "x\n\n".to_string());
    assert_eq!(flatten("<ul>x</ul>"), "x\n\n".to_string());
    assert_eq!(flatten("<h1>x</h1>"), "x\n\n".to_string());
}

#[test]
fn h_prefix_covers_any_tag_starting_with_h() {
    assert_eq!(flatten("<header>x</header>"), "x\n\n".to_string());
}

#[test]
fn inline_tags_hang_a_space() {
    assert_eq!(flatten("<a>x</a>"), "x ".to_string());
    assert_eq!(flatten("<span>x</span>"), "x ".to_string());
}

#[test]
fn unrecognized_tags_hang_nothing() {
    assert_eq!(flatten("<b>x</b>"), "x".to_string());
    assert_eq!(flatten("<title>x</title>"), "x".to_string());
}

#[test]
fn nested_blocks_hang_their_own_separators() {
    assert_eq!(flatten("<div><div>x</div></div>"), "x\n\n\n\n".to_string());
}

#[test]
fn children_flatten_in_document_order() {
    assert_eq!(
        flatten("<div><p>one</p><span>two</span>three</div>"),
        "one\n\ntwo three\n\n".to_string()
    );
}

#[test]
fn extraction_is_deterministic() {
    let node = parse("<div><p>one</p>two</div>".to_string()).expect("well-formed input");
    let first = get_text_content(&node, &mut String::new());
    let second = get_text_content(&node, &mut String::new());
    assert_eq!(first, second);
}

#[test]
fn extraction_appends_to_the_accumulator() {
    let node = parse("<p>tail</p>".to_string()).expect("well-formed input");
    let mut out = String::from("head ");
    let r = get_text_content(&node, &mut out);
    assert_eq!(out, "head tail\n\n".to_string());
    assert_eq!(r, out);
}
