use xuflow_core::extract::{
    extract_content, find_char_boundary, is_block_tag, page_title, truncate_and_normalize,
    ExtractMode,
};

#[test]
fn test_extract_text_simple() {
    let html = "<html><body><h1>标题</h1><p>这是一段<b>重要</b>内容。</p></body></html>";
    let result = extract_content(html, ExtractMode::Text, 0);
    assert!(result.contains("标题"));
    assert!(result.contains("重要内容"));
    assert!(!result.contains("<b>"));
}

#[test]
fn test_extract_readability_removes_noise() {
    let html = r#"<html><body>
            <nav>导航菜单</nav>
            <article><h1>正文标题</h1><p>第一段内容。</p><p>第二段内容。</p></article>
            <footer>页脚版权</footer>
        </body></html>"#;
    let result = extract_content(html, ExtractMode::Readability, 0);
    assert!(result.contains("正文标题"));
    assert!(result.contains("第一段内容"));
    assert!(!result.contains("导航菜单"));
    assert!(!result.contains("页脚版权"));
}

#[test]
fn test_max_chars_truncation() {
    let html = "<html><body><p>这是一个很长的段落，需要被截断测试。</p></body></html>";
    let long = extract_content(html, ExtractMode::Text, 10);
    assert!(long.contains("[内容已截断...]"));
    assert!(long.len() > 10);
}

#[test]
fn extract_text_exact_layout() {
    let html = "<html><body><h1>标题</h1><p>这是一段<b>重要</b>内容。</p></body></html>";
    assert_eq!(extract_content(html, ExtractMode::Text, 0), "\n标题\n\n这是一段重要内容。");
}

#[test]
fn extract_text_skips_script_and_code() {
    let html = "<html><body><p>keep</p><script>var x = 1;</script><pre>raw</pre><code>c</code></body></html>";
    assert_eq!(extract_content(html, ExtractMode::Text, 0), "\nkeep");
}

#[test]
fn extract_text_without_body_content_is_empty() {
    assert_eq!(extract_content("", ExtractMode::Text, 0), "");
}

#[test]
fn readability_prefers_densest_container() {
    let html = "<html><body><div><p>a</p><p>b</p></div><section><p>x</p><p>y</p><p>z</p></section></body></html>";
    assert_eq!(extract_content(html, ExtractMode::Readability, 0), "\nx\n\ny\n\nz");
}

#[test]
fn readability_role_main() {
    let html = r#"<html><body><div>noise</div><div role="main"><p>core</p></div></body></html>"#;
    assert_eq!(extract_content(html, ExtractMode::Readability, 0), "\ncore");
}

#[test]
fn readability_falls_back_to_body() {
    let html = "<html><body><span>only</span> text</body></html>";
    assert_eq!(extract_content(html, ExtractMode::Readability, 0), "onlytext");
}

#[test]
fn truncation_counts_characters() {
    let html = "<html><body><p>这是一个很长的段落，需要被截断测试。</p></body></html>";
    assert_eq!(extract_content(html, ExtractMode::Text, 10), "\n这是一个很长的段落\n\n[内容已截断...]");
}

#[test]
fn tidy_collapses_blank_lines() {
    assert_eq!(truncate_and_normalize("a\n\n\n b \n", 0), "a\n\nb");
    assert_eq!(truncate_and_normalize("  x  ", 0), "x");
}

#[test]
fn tidy_limit_in_chars() {
    assert_eq!(truncate_and_normalize("abcdef", 3), "abc\n\n[内容已截断...]");
    assert_eq!(truncate_and_normalize("abc", 3), "abc");
    assert_eq!(truncate_and_normalize("你好", 4), "你好");
    assert_eq!(truncate_and_normalize("你好世界", 2), "你好\n\n[内容已截断...]");
    let r = extract_content("<html><body><p>这是一个</p></body></html>", ExtractMode::Text, 10);
    assert!(!r.contains("[内容已截断...]") && r.contains("这是一个"));
}

#[test]
fn char_boundary_below_limit() {
    assert_eq!(find_char_boundary("你好", 4), 3);
    assert_eq!(find_char_boundary("你好", 6), 6);
    assert_eq!(find_char_boundary("你好", 2), 0);
    assert_eq!(find_char_boundary("ab", 10), 2);
}

#[test]
fn block_tags() {
    assert!(is_block_tag("p"));
    assert!(is_block_tag("blockquote"));
    assert!(!is_block_tag("span"));
    assert!(!is_block_tag("P"));
}

#[test]
fn title_is_trimmed() {
    assert_eq!(page_title("<html><head><title>  Hello  </title></head><body></body></html>"), "Hello");
    assert_eq!(page_title("<html><body>none</body></html>"), "");
}
