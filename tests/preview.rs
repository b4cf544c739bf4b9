use fontfor::escape::{push_css_escaped, push_escaped};
use fontfor::page::{
    Builder, Family, BLOCK_CHAR, BLOCK_CLOSE, BLOCK_NAME, BLOCK_OPEN, PAGE_BODY, PAGE_HEAD,
    PAGE_TAIL, STYLE,
};
use fontfor::server::{push_decimal, ServerError, ServerState, StaticPageServer};

fn block(c: &str, family: &str) -> String {
    styled_block(c, family, family)
}

fn styled_block(c: &str, style_name: &str, family: &str) -> String {
    format!(
        "{}{}{}{}{}{}{}",
        BLOCK_OPEN, style_name, BLOCK_CHAR, c, BLOCK_NAME, family, BLOCK_CLOSE
    )
}

fn page(previews: &str) -> String {
    format!("{}{}{}{}{}", PAGE_HEAD, STYLE, PAGE_BODY, previews, PAGE_TAIL)
}

fn family(name: &str) -> Family {
    Family::new(name.to_string())
}

#[test]
fn two_families_in_order() {
    let mut builder = Builder::default();
    builder.add_family(&family("Noto Sans")).add_family(&family("DejaVu Sans"));
    let html = builder.build_html('A');
    let expected = page(&(block("A", "Noto Sans") + &block("A", "DejaVu Sans")));
    assert_eq!(html, expected);
    let first = html.find("Noto Sans").unwrap();
    let second = html.find("DejaVu Sans").unwrap();
    assert!(first < second);
    assert_eq!(html.matches("<div class=\"preview\">").count(), 2);
}

#[test]
fn build_for_hands_page_to_new_server() {
    let builder = Builder::from_families(&[family("Noto Sans"), family("DejaVu Sans")]);
    let server = builder.build_for('A');
    let expected = page(&(block("A", "Noto Sans") + &block("A", "DejaVu Sans")));
    assert_eq!(server.document(), expected);
    assert_eq!(server.state(), ServerState::Created);
    assert!(!server.accepts_connections());
}

#[test]
fn duplicates_give_one_block_each() {
    let builder = Builder::from_families(&[family("Mono"), family("Serif"), family("Mono")]);
    let html = builder.build_html('x');
    let expected =
        page(&(block("x", "Mono") + &block("x", "Serif") + &block("x", "Mono")));
    assert_eq!(html, expected);
    assert_eq!(html.matches("<div class=\"preview\">").count(), 3);
}

#[test]
fn empty_builder_gives_whole_page() {
    let html = Builder::default().build_html('A');
    assert_eq!(html, page(""));
    assert!(html.starts_with("<!DOCTYPE html>"));
    assert!(html.ends_with("</html>\n"));
    assert!(!html.contains("class=\"preview\""));
}

#[test]
fn multibyte_characters_stand_verbatim() {
    for c in ['字', 'é', '😀', '\u{10FFFF}'] {
        let builder = Builder::from_families(&[family("Noto Sans CJK"), family("Symbola")]);
        let html = builder.build_html(c);
        let s = c.to_string();
        assert_eq!(html, page(&(block(&s, "Noto Sans CJK") + &block(&s, "Symbola"))));
        assert_eq!(html.matches(c).count(), 2);
    }
}

#[test]
fn script_in_family_name_is_escaped() {
    let builder = Builder::from_families(&[family("<script>alert('x')</script>")]);
    let html = builder.build_html('A');
    assert!(!html.contains("<script>"));
    assert!(html.contains("&lt;script&gt;alert(&#39;x&#39;)&lt;/script&gt;"));
}

#[test]
fn markup_character_is_escaped() {
    let builder = Builder::from_families(&[family("A & B \"quoted\"")]);
    let html = builder.build_html('<');
    assert_eq!(html, page(&block("&lt;", "A &amp; B &quot;quoted&quot;")));
}

#[test]
fn escaping_plain_and_markup_text() {
    let mut out = String::from("x");
    push_escaped(&mut out, "a<b>&'\"c");
    assert_eq!(out, "xa&lt;b&gt;&amp;&#39;&quot;c");
    let mut plain = String::new();
    push_escaped(&mut plain, "Noto Sans 字");
    assert_eq!(plain, "Noto Sans 字");
}

#[test]
fn default_name_is_kept() {
    let f = family("DejaVu Sans Mono");
    assert_eq!(f.default_name(), "DejaVu Sans Mono");
}

#[test]
fn decimal_lengths() {
    let mut s = String::new();
    push_decimal(&mut s, 0);
    assert_eq!(s, "0");
    let mut s = String::from("n=");
    push_decimal(&mut s, 1204);
    assert_eq!(s, "n=1204");
    let mut s = String::new();
    push_decimal(&mut s, usize::MAX);
    assert_eq!(s, usize::MAX.to_string());
}

#[test]
fn get_any_path_returns_document() {
    let mut server = StaticPageServer::new("<html>X</html>".to_string());
    assert_eq!(server.begin_listening(), Ok(()));
    let expected: &[u8] = b"HTTP/1.1 200 OK\r\nContent-Type: text/html; charset=utf-8\r\nContent-Length: 14\r\nConnection: close\r\n\r\n<html>X</html>";
    for request in [
        &b"GET / HTTP/1.1\r\nHost: localhost\r\n\r\n"[..],
        &b"GET /some/other/path?q=1 HTTP/1.1\r\n\r\n"[..],
        &b"POST /x HTTP/1.0\r\n\r\n"[..],
        &b"get / HTTP/1.1\r\n\r\n"[..],
        &b"VERSION-CONTROL / HTTP/1.1\r\n\r\n"[..],
        &b"M_2.x!#$%&'*+^`|~ /p HTTP/1.1\r\n\r\n"[..],
    ] {
        assert_eq!(server.respond_to(request), expected);
    }
    assert_eq!(server.ok_response(), expected);
}

#[test]
fn content_length_counts_bytes() {
    let server = StaticPageServer::new("é字".to_string());
    let r = server.ok_response();
    let text = String::from_utf8(r).unwrap();
    assert!(text.contains("Content-Length: 5\r\n"));
    assert!(text.ends_with("\r\n\r\né字"));
}

#[test]
fn malformed_request_gets_error() {
    let server = StaticPageServer::new("<html>X</html>".to_string());
    let bad: &[u8] = b"HTTP/1.1 400 Bad Request\r\nContent-Length: 0\r\nConnection: close\r\n\r\n";
    assert_eq!(server.respond_to(b""), bad);
    assert_eq!(server.respond_to(b" GET /"), bad);
    assert_eq!(server.respond_to(b"GET"), bad);
    assert_eq!(server.respond_to(b"\x16\x03\x01"), bad);
}

#[test]
fn shutdown_twice_stays_stopped() {
    let mut server = StaticPageServer::new("<html>X</html>".to_string());
    assert_eq!(server.begin_listening(), Ok(()));
    assert!(server.accepts_connections());
    server.shutdown();
    assert_eq!(server.state(), ServerState::Stopped);
    server.shutdown();
    assert_eq!(server.state(), ServerState::Stopped);
    assert!(!server.accepts_connections());
    assert_eq!(server.document(), "<html>X</html>");
}

#[test]
fn lifecycle_errors() {
    let mut server = StaticPageServer::new("doc".to_string());
    assert_eq!(server.begin_listening(), Ok(()));
    assert_eq!(server.begin_listening(), Err(ServerError::AlreadyListening));
    assert_eq!(server.state(), ServerState::Listening);
    server.shutdown();
    assert_eq!(server.begin_listening(), Err(ServerError::Stopped));
    assert_eq!(server.state(), ServerState::Stopped);
    let mut fresh = StaticPageServer::new("doc".to_string());
    fresh.shutdown();
    assert_eq!(fresh.state(), ServerState::Stopped);
}

#[test]
fn every_request_gets_identical_bytes() {
    let builder = Builder::from_families(&[family("Noto Sans"), family("DejaVu Sans")]);
    let mut server = builder.build_for('A');
    server.begin_listening().unwrap();
    let requests: Vec<Vec<u8>> = (0..8)
        .map(|i| format!("GET /page{} HTTP/1.1\r\n\r\n", i).into_bytes())
        .collect();
    let answers: Vec<Vec<u8>> = requests.iter().map(|r| server.respond_to(r)).collect();
    for a in &answers {
        assert_eq!(a, &answers[0]);
    }
    assert!(answers[0].ends_with(server.document().as_bytes()));
}

#[test]
fn non_token_method_gets_error() {
    let server = StaticPageServer::new("<html>X</html>".to_string());
    let bad: &[u8] = b"HTTP/1.1 400 Bad Request\r\nContent-Length: 0\r\nConnection: close\r\n\r\n";
    assert_eq!(server.respond_to(b"GE(T / HTTP/1.1\r\n"), bad);
    assert_eq!(server.respond_to(b"GE\"T / HTTP/1.1\r\n"), bad);
    assert_eq!(server.respond_to(b"G\xc3\xa9T / HTTP/1.1\r\n"), bad);
}

#[test]
fn quote_and_backslash_escaped_for_css() {
    let builder = Builder::from_families(&[family("Sam's Font"), family("A\\B")]);
    let html = builder.build_html('A');
    let expected = page(
        &(styled_block("A", "Sam\\27 s Font", "Sam&#39;s Font")
            + &styled_block("A", "A\\5c B", "A\\B")),
    );
    assert_eq!(html, expected);
    assert!(html.contains("font-family: 'Sam\\27 s Font';"));
}

#[test]
fn css_escaping_of_text() {
    let mut out = String::from(">");
    push_css_escaped(&mut out, "it's\\a\nb\rc 字");
    assert_eq!(out, ">it\\27 s\\5c a\\a b\\d c 字");
}
