use bibiocr::markdown::{html_ranges, normalize_ocr, replace_html, SourceEvent};

#[test]
fn mixed_ocr_markdown_has_no_raw_html_in_editor() {
    let source = "# 结果\n\n<div style=\"text-align: center;\"><img src=\"imgs/crop.jpg\" alt=\"Image\" width=\"7%\" /></div>\n\n正文 **重点**。";
    let output = normalize_ocr(source);
    assert!(output.starts_with("# 结果"), "{output}");
    assert!(output.contains("正文 **重点**。"), "{output}");
    assert!(!output.contains("<div"), "{output}");
    assert!(!output.contains("<img"), "{output}");
    assert!(output.contains("![Image]"), "{output}");
}

#[test]
fn html_table_and_inline_tags_keep_their_text() {
    let source = "前文 <strong>重点</strong> 后文\n\n<table><tr><th>名称</th></tr><tr><td>金额</td></tr></table>";
    let output = normalize_ocr(source);
    assert!(output.contains("重点"), "{output}");
    assert!(output.contains("金额"), "{output}");
    assert!(!output.contains("<table"), "{output}");
    assert!(!output.contains("<strong"), "{output}");
}

#[test]
fn markdown_without_html_is_kept_as_it_is() {
    let source = "# 标题\n\n- item\n\n**bold** `code`";
    assert_eq!(normalize_ocr(source), source);
}

#[test]
fn ranges_that_do_not_fit_the_text_are_refused() {
    assert_eq!(replace_html("abc", &[(2, 1)]), None);
    assert_eq!(replace_html("abc", &[(1, 9)]), None);
    assert_eq!(replace_html("中文", &[(1, 3)]), None);
    assert_eq!(replace_html("abc", &[(2, 3), (1, 2)]), None);
    assert_eq!(replace_html("abc", &[]), Some("abc".to_owned()));
}

#[test]
fn only_html_events_are_replaced() {
    let events = [
        (SourceEvent::Html, 1, 3),
        (SourceEvent::Other, 0, 1),
        (SourceEvent::InlineHtml, 4, 5),
    ];
    assert_eq!(html_ranges(&events), [(1, 3), (4, 5)]);
}
