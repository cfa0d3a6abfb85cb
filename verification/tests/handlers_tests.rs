use myblog::handlers::{
    compute_page_info, date_to_rfc2822, generate_sitemap_urls, group_by_year_month,
    matches_all_terms, popular_tags, weekday,
};
use myblog::post::{Frontmatter, Post};
use myblog::SiteConfig;

fn post(title: &str, date: &str, tags: Vec<String>, slug: &str) -> Post {
    Post {
        frontmatter: Frontmatter {
            title: title.to_string(),
            date: date.to_string(),
            tags,
            excerpt: None,
        },
        slug: slug.to_string(),
        content_html: String::new(),
        excerpt: String::new(),
        reading_time: 1,
        toc: vec![],
        word_count: 1,
        search_text: String::new(),
    }
}

fn terms(q: &str) -> Vec<String> {
    q.split_whitespace().map(|s| s.to_string()).collect()
}

#[test]
fn test_compute_page_info_total_less_or_equal_5() {
    let info = compute_page_info(1, 3);
    assert_eq!(info.current, 1);
    assert_eq!(info.total, 3);
    assert!(!info.has_prev);
    assert!(info.has_next);
    assert_eq!(info.pages, vec![1, 2, 3]);
    assert!(!info.show_start_ellipsis);
    assert!(!info.show_end_ellipsis);
}

#[test]
fn test_compute_page_info_total_5() {
    let info = compute_page_info(3, 5);
    assert_eq!(info.pages, vec![1, 2, 3, 4, 5]);
}

#[test]
fn test_compute_page_info_large_total_current_start() {
    let info = compute_page_info(1, 20);
    assert_eq!(info.current, 1);
    assert!(!info.has_prev);
    assert!(info.has_next);
    assert_eq!(info.pages, vec![2]);
    assert!(!info.show_start_ellipsis);
    assert!(info.show_end_ellipsis);
}

#[test]
fn test_compute_page_info_large_total_current_middle() {
    let info = compute_page_info(10, 20);
    assert_eq!(info.pages, vec![9, 10, 11]);
    assert!(info.show_start_ellipsis);
    assert!(info.show_end_ellipsis);
}

#[test]
fn test_compute_page_info_large_total_current_end() {
    let info = compute_page_info(20, 20);
    assert_eq!(info.pages, vec![19]);
    assert!(info.show_start_ellipsis);
    assert!(!info.show_end_ellipsis);
    assert!(info.has_prev);
    assert!(!info.has_next);
}

#[test]
fn test_compute_page_info_single_page() {
    let info = compute_page_info(1, 1);
    assert!(!info.has_prev);
    assert!(!info.has_next);
    assert_eq!(info.pages, vec![1]);
}

#[test]
fn test_compute_page_info_current_2_of_large() {
    let info = compute_page_info(2, 20);
    assert_eq!(info.pages, vec![2, 3]);
    assert!(!info.show_start_ellipsis);
    assert!(info.show_end_ellipsis);
}

#[test]
fn test_compute_page_info_current_19_of_large() {
    let info = compute_page_info(19, 20);
    assert_eq!(info.pages, vec![18, 19]);
    assert!(info.show_start_ellipsis);
    assert!(!info.show_end_ellipsis);
}

#[test]
fn test_date_to_rfc2822_valid() {
    let result = date_to_rfc2822("2024-06-15");
    assert_eq!(result, "Sat, 15 Jun 2024 00:00:00 GMT");
}

#[test]
fn test_date_to_rfc2822_short() {
    assert_eq!(date_to_rfc2822("2024"), "2024");
}

#[test]
fn test_weekday_known_date() {
    assert_eq!(weekday("2024", "Jun", "15"), "Sat");
    assert_eq!(weekday("2024", "Jan", "1"), "Mon");
    assert_eq!(weekday("2024", "Dec", "25"), "Wed");
}

#[test]
fn test_weekday_leap_year() {
    assert_eq!(weekday("2024", "Feb", "29"), "Thu");
}

#[test]
fn test_weekday_all_months() {
    assert_eq!(weekday("2024", "Jan", "1"), "Mon");
    assert_eq!(weekday("2024", "Feb", "1"), "Thu");
    assert_eq!(weekday("2024", "Mar", "1"), "Fri");
    assert_eq!(weekday("2024", "Apr", "1"), "Mon");
    assert_eq!(weekday("2024", "May", "1"), "Wed");
    assert_eq!(weekday("2024", "Jun", "1"), "Sat");
    assert_eq!(weekday("2024", "Jul", "1"), "Mon");
    assert_eq!(weekday("2024", "Aug", "1"), "Thu");
    assert_eq!(weekday("2024", "Sep", "1"), "Sun");
    assert_eq!(weekday("2024", "Oct", "1"), "Tue");
    assert_eq!(weekday("2024", "Nov", "1"), "Fri");
    assert_eq!(weekday("2024", "Dec", "1"), "Sun");
}

#[test]
fn test_search_filter_logic() {
    let tokens = terms("rust memory");
    let titles = vec!["Rust Memory Model", "Rust Async", "Web Design"];
    let search_texts = vec!["memory model in rust", "async programming in rust", "css layout tips"];
    let no_tags: Vec<String> = vec![];

    let matches: Vec<&str> = titles
        .iter()
        .enumerate()
        .filter(|(i, title)| matches_all_terms(&tokens, title, &no_tags, search_texts[*i]))
        .map(|(_, title)| *title)
        .collect();
    assert_eq!(matches, vec!["Rust Memory Model"], "both 'rust' and 'memory' must match");
}

#[test]
fn test_search_filter_logic_single_token() {
    let tokens = terms("rust");
    let titles = vec!["Rust Memory", "Web Design", "Async Rust"];
    let no_tags: Vec<String> = vec![];

    let matches: Vec<&str> = titles
        .iter()
        .filter(|title| matches_all_terms(&tokens, title, &no_tags, ""))
        .map(|title| *title)
        .collect();
    assert_eq!(matches, vec!["Rust Memory", "Async Rust"]);
}

#[test]
fn test_search_filter_logic_no_match() {
    let tokens = terms("python");
    let titles = vec!["Rust Memory", "Web Design"];
    let no_tags: Vec<String> = vec![];

    let matches: Vec<&str> = titles
        .iter()
        .filter(|title| matches_all_terms(&tokens, title, &no_tags, ""))
        .map(|title| *title)
        .collect();
    assert!(matches.is_empty());
}

#[test]
fn test_generate_sitemap_urls_with_posts() {
    let mut p1 = post("P1", "2024-06-15", vec!["a".to_string()], "p1");
    p1.content_html = "<p>P1</p>".to_string();
    p1.excerpt = "P1".to_string();
    p1.search_text = "p1".to_string();
    let posts = vec![p1];
    let urls = generate_sitemap_urls(&SiteConfig::default(), &posts);
    assert!(urls.contains("/post/p1"), "should contain post slug: {}", urls);
    assert!(urls.contains("2024-06-15"), "should contain post date");
    assert!(urls.contains("/about"), "should contain about page");
    assert!(urls.contains("/archive"), "should contain archive page");
    assert!(urls.contains("</url>"), "should have closing url tags");
    assert!(urls.contains("priority>1.0<"), "should have homepage priority");
}

#[test]
fn test_generate_sitemap_urls_empty() {
    let posts: Vec<Post> = vec![];
    let urls = generate_sitemap_urls(&SiteConfig::default(), &posts);
    assert!(urls.contains("/about"), "static pages always present");
    assert!(urls.contains("/archive"), "static pages always present");
    assert!(!urls.contains("/post/"), "no post entries");
}

#[test]
fn test_group_by_year_month_basic() {
    let posts = vec![
        post("P1", "2024-06-15", vec![], "p1"),
        post("P2", "2024-03-10", vec![], "p2"),
        post("P3", "2023-12-01", vec![], "p3"),
    ];
    let groups = group_by_year_month(&posts);
    assert_eq!(groups.len(), 2, "two distinct years");
    assert_eq!(groups[0].year, "2024");
    assert_eq!(groups[0].months.len(), 2, "two months in 2024");
    assert_eq!(groups[0].months[0].month, "June", "months sorted descending");
    assert_eq!(groups[0].months[1].month, "March");
    assert_eq!(groups[1].year, "2023");
    assert_eq!(groups[1].months.len(), 1);
    assert_eq!(groups[1].months[0].month, "December");
}

#[test]
fn test_group_by_year_month_empty() {
    let posts: Vec<Post> = vec![];
    let groups = group_by_year_month(&posts);
    assert!(groups.is_empty());
}

#[test]
fn test_popular_tags_top_10() {
    let posts: Vec<Post> = (0..15)
        .map(|i| {
            let tag = format!("tag-{}", i);
            post(&format!("P{}", i), "2024-06-15", vec![tag], &format!("p{}", i))
        })
        .collect();
    let tags = popular_tags(&posts);
    assert_eq!(tags.len(), 10, "at most 10 popular tags returned, got {}", tags.len());
}

#[test]
fn test_popular_tags_less_than_10() {
    let posts = vec![post("P1", "2024-06-15", vec!["rust".to_string()], "p1")];
    let tags = popular_tags(&posts);
    assert_eq!(tags, vec!["rust"]);
}
