use phixiv::caption::{extract_html_inner_text, fix_links, find_first_pair, find_quote_end, replace_link};

#[test]
fn caption_fixture_reduces_to_lines() {
    let html = "Caption:<a href=\"/x\">https://example.com/</a>a<NOT A TAG><br />b<span>_</span ><strong>STRONG</strong  ><i>  I<x>I  </i><br ><s>S0<br>S1</s><empty></empty    ><br  /><a>https://example.com/</a><br  /><strong>A<i> More </i>Com<>ple<x> <s>One</s></strong>";
    let expected = vec![
        "Caption: https://example.com/ a<NOT A TAG>",
        "b_STRONG  I<x>I",
        "S0",
        "S1",
        "https://example.com/",
        "A More Com<>ple<x> One",
    ]
    .join("\n");
    assert_eq!(extract_html_inner_text(html), expected);
}

#[test]
fn caption_fixture_with_padding_and_attributes() {
    let html = vec![
        "    Caption:",
        r#"<a href="/jump.php?https%3A%2F%2Fexample.com%2F" target="_blank">https://example.com/</a>"#,
        "a<NOT A TAG><br />b",
        r#"<span style="color:#fff;">_</span >"#,
        "<strong>STRONG</strong  >",
        "<i>  I<x>I  </i>",
        "<br >",
        "<s>S0<br>S1</s>",
        "<empty></empty    >",
        r#"<br  /><a>https://example.com/</a><br  />"#,
        "<strong>A<i> More </i>Com<>ple<x> <s>One</s></strong>",
        "    ",
    ]
    .join("");
    let expected = vec![
        "Caption: https://example.com/ a<NOT A TAG>",
        "b_STRONG  I<x>I",
        "S0",
        "S1",
        "https://example.com/",
        "A More Com<>ple<x> One",
    ]
    .join("\n");
    assert_eq!(extract_html_inner_text(&html), expected);
}

#[test]
fn caption_without_tags_is_kept() {
    assert_eq!(extract_html_inner_text("plain text"), "plain text");
    assert_eq!(extract_html_inner_text(""), "");
    assert_eq!(extract_html_inner_text("unclosed <b>bold"), "unclosed <b>bold");
}

#[test]
fn caption_empty_tag_gives_empty_segment() {
    assert_eq!(extract_html_inner_text("x<empty></empty>y"), "xy");
}

#[test]
fn caption_anchor_is_padded() {
    assert_eq!(extract_html_inner_text("see<a href=\"u\">link</a>now"), "see link now");
}

#[test]
fn caption_shorter_tag_name_closes() {
    assert_eq!(extract_html_inner_text("<strong>x</s>"), "x");
}

#[test]
fn caption_line_breaks_split_and_trim() {
    assert_eq!(extract_html_inner_text(" a <br> b <br/>c<br   />"), "a\nb\nc\n");
    assert_eq!(extract_html_inner_text("a<brx>b"), "a<brx>b");
}

#[test]
fn link_repair_decodes_target() {
    assert_eq!(
        fix_links("href=\"/jump.php?https%3A%2F%2Fexample.com%2F\""),
        "href=\"https://example.com/\""
    );
}

#[test]
fn link_repair_rewrites_every_link_and_nothing_else() {
    let input = "<a href=\"/jump.php?a%20b\" target=\"_blank\">x</a> <a href=\"/other\">y</a> <a href=\"/jump.php?c\">z</a>";
    let expected = "<a href=\"a b\" target=\"_blank\">x</a> <a href=\"/other\">y</a> <a href=\"c\">z</a>";
    assert_eq!(fix_links(input), expected);
}

#[test]
fn link_repair_keeps_undecodable_or_unterminated_links() {
    assert_eq!(fix_links("href=\"/jump.php?%FF\""), "href=\"/jump.php?%FF\"");
    assert_eq!(fix_links("href=\"/jump.php?abc"), "href=\"/jump.php?abc");
    assert_eq!(fix_links("href=\"/jump.php?a\nb\""), "href=\"/jump.php?a\nb\"");
}

#[test]
fn link_replacement_uses_decoded_target() {
    let link: Vec<char> = "href=\"/jump.php?x\"".chars().collect();
    let r: String = replace_link(&link, Some("https://a/".to_string())).into_iter().collect();
    assert_eq!(r, "href=\"https://a/\"");
    let kept: String = replace_link(&link, None).into_iter().collect();
    assert_eq!(kept, "href=\"/jump.php?x\"");
}

#[test]
fn quote_end_stops_at_newline() {
    let s: Vec<char> = "ab\"c".chars().collect();
    assert_eq!(find_quote_end(&s, 0), Some(2));
    let t: Vec<char> = "a\nb\"".chars().collect();
    assert_eq!(find_quote_end(&t, 0), None);
}

#[test]
fn first_pair_prefers_longest_tag_then_shortest_inner() {
    let s: Vec<char> = "x<ab c>1</ab>2</ab>".chars().collect();
    assert_eq!(find_first_pair(&s), Some((1, 2, 6, 8, 12)));
    let none: Vec<char> = "<a>b".chars().collect();
    assert_eq!(find_first_pair(&none), None);
}
