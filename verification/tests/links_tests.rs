use audio_player::links::{find_byte_in, find_in, same_bytes};

fn links_of(html: &str) -> Vec<&str> {
    audio_player::links::links(html.as_bytes())
        .into_iter()
        .map(|link| std::str::from_utf8(link).unwrap())
        .collect()
}

#[test]
fn links() {
    let html = r#"
        <a href="/a/b/c">...</a>
        <a href="/d/e/f">...</a>
        "#;
    let links: Vec<_> = links_of(html);
    assert_eq!(links, vec!["/a/b/c", "/d/e/f"]);
}

#[test]
fn links_in_comments() {
    let html = r#"
        <a href="/a/b/c">...</a>
        <!-- <a href="/d/e/f">...</a> -->
        <a href="/g/h/i">...</a>
        "#;
    let links: Vec<_> = links_of(html);
    assert_eq!(links, vec!["/a/b/c", "/g/h/i"]);
}

#[test]
fn links_in_malformed_comment() {
    let html = r#"
        <a href="/a/b/c">...</a>
        <!-- <a href="/d/e/f">...</a>
        <a href="/g/h/i">...</a>
        "#;
    let links: Vec<_> = links_of(html);
    assert_eq!(links, vec!["/a/b/c"]);
}

#[test]
fn minified() {
    let html = "
        <a href=/a/b/c>...</a>
        <a href=/d/e/f rel=noreferrer>...</a>
        ";
    let links: Vec<_> = links_of(html);
    assert_eq!(links, vec!["/a/b/c", "/d/e/f"]);
}

#[test]
fn web_utils_links() {
    let html = r#"
        <a href="/a/b/c">...</a>
        <a href="/d/e/f">...</a>
        "#;
    let links: Vec<_> = links_of(html);
    assert_eq!(links, vec!["/a/b/c", "/d/e/f"]);
}

#[test]
fn web_utils_links_in_comments() {
    let html = r#"
        <a href="/a/b/c">...</a>
        <!-- <a href="/d/e/f">...</a> -->
        <a href="/g/h/i">...</a>
        "#;
    let links: Vec<_> = links_of(html);
    assert_eq!(links, vec!["/a/b/c", "/g/h/i"]);
}

#[test]
fn web_utils_links_in_malformed_comment() {
    let html = r#"
        <a href="/a/b/c">...</a>
        <!-- <a href="/d/e/f">...</a>
        <a href="/g/h/i">...</a>
        "#;
    let links: Vec<_> = links_of(html);
    assert_eq!(links, vec!["/a/b/c"]);
}

#[test]
fn web_utils_minified() {
    let html = r"
        <a href=/a/b/c>...</a>
        <a href=/d/e/f rel=noreferrer>...</a>
        ";
    let links: Vec<_> = links_of(html);
    assert_eq!(links, vec!["/a/b/c", "/d/e/f"]);
}

#[test]
fn repeated_links_are_left_out() {
    let html = r#"<a href="/a">x</a><a href="/a">y</a><a href='/b'>z</a><a href="/a">w</a>"#;
    assert_eq!(links_of(html), vec!["/a", "/b", "/a"]);
    assert_eq!(links_of(r#"<a href="">x</a><a href="/a">y</a>"#), vec!["/a"]);
}

#[test]
fn unfinished_links_end_the_search() {
    assert_eq!(links_of(""), Vec::<&str>::new());
    assert_eq!(links_of("no link here"), Vec::<&str>::new());
    assert_eq!(links_of("<a href="), Vec::<&str>::new());
    assert_eq!(links_of(r#"<a href="/a"#), Vec::<&str>::new());
    assert_eq!(links_of("<a href=/a"), Vec::<&str>::new());
    assert_eq!(links_of(r#"<a href="/a">x</a><a href='/b">y</a><a href="/c">"#), vec!["/a"]);
    assert_eq!(links_of("<a href=é><a href=/b>"), Vec::<&str>::new());
    assert_eq!(links_of(r#"<a href="é"><a href=/b>"#), vec!["é", "/b"]);
    assert_eq!(links_of("<!-- --><!-- <a href=/a> --><a href=/b>"), vec!["/b"]);
    assert_eq!(links_of("<a href=/a> <!-- <a href=/b> "), vec!["/a"]);
}

#[test]
fn patterns_are_found() {
    let content = b"abcabcd";
    assert_eq!(find_in(content, b"abc", 0, 7), 0);
    assert_eq!(find_in(content, b"abc", 1, 7), 3);
    assert_eq!(find_in(content, b"abcd", 0, 7), 3);
    assert_eq!(find_in(content, b"abcd", 0, 6), 6);
    assert_eq!(find_in(content, b"x", 0, 7), 7);
    assert_eq!(find_in(content, b"abc", 4, 7), 7);
    assert_eq!(find_byte_in(content, b'c', b'd', 0, 7), 2);
    assert_eq!(find_byte_in(content, b'd', b'd', 0, 7), 6);
    assert_eq!(find_byte_in(content, b'd', b'd', 0, 6), 6);
    assert_eq!(find_byte_in(content, b'x', b'y', 2, 7), 7);
    assert!(same_bytes(b"abc", b"abc"));
    assert!(!same_bytes(b"abc", b"abd"));
    assert!(!same_bytes(b"abc", b"ab"));
    assert!(same_bytes(b"", b""));
}
