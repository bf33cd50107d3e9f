use ate::doc::{Document, LinkRange};

fn parse_links(input: &str) -> Vec<LinkRange> {
    let doc = Document::new(input.as_bytes());
    doc.links().clone()
}

#[test]
fn parse_zero_length_link() {
    let links = parse_links("\x1b]8;;http://a.b\x1b\\\x1b]8;;\x1b\\After zero length link");
    assert_eq!(1, links.len());
    assert_eq!(0, links[0].start);
    assert_eq!(0, links[0].end);
}

#[test]
fn parse_continued_link() {
    let links = parse_links("Before\x1b]8;;http://a.b\x1b\\\x1b]8;;http://a.b\x1b\\After");
    assert_eq!(2, links.len());
    assert_eq!(6, links[0].start);
    assert_eq!(6, links[0].end);
    assert_eq!(6, links[1].start);
    assert_eq!(11, links[1].end);
}

#[test]
fn parse_a_link() {
    let input = "Before\x1b]8;;http://example.com\x1b\\Link to example";
    let links = parse_links(input);
    assert_eq!(1, links.len());
    assert_eq!(6, links[0].start);
    assert_eq!(21, links[0].end);
    assert_eq!(links[0].uri, "http://example.com");
}
