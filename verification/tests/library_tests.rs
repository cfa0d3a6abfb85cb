use myblog::archive::group_by_year_month;
use myblog::config::{
    apply_about_update, avatar_extension, avatar_file_path, avatar_public_path, avatar_save_path,
    avatar_url, check_avatar_size, upload_step, with_overrides, AboutConfig, AvatarError,
    UploadEvent, UploadState, MAX_AVATAR_BYTES,
};
use myblog::feed::{date_is_formattable, date_to_rfc2822, feed_xml, sitemap_xml, weekday};
use myblog::handlers::{
    archive_nav, compute_page_info, normalized_query, page_url, paginate, paginate_checked,
    post_page, posts_with_tag, search_page, search_posts, tag_page, titled,
};
use myblog::archive::month_index;
use myblog::highlight::Highlighter;
use myblog::parse::{parse_i32, parse_usize};
use myblog::post::{
    add_heading_ids, build_post, post_slug, escape_xml, highlight_code_blocks, is_valid_date, render_markdown, strip_html_tags, unescape_html, slugify, sort_posts_newest_first, split_frontmatter,
    Frontmatter, Post, PostError,
};
use myblog::html::{strip_is_defined, toc_is_defined};
use myblog::slug::slug_from_lowercase;
use myblog::tags::{
    distinct_tag_count, max_frequency, popular_tags, tag_frequencies, total_word_count,
};
use myblog::watch::{file_signature_changed, is_watched, SignatureStore};
use myblog::{posts_per_page, site_desc, site_title, site_url, SiteConfig};

fn post(title: &str, date: &str, tags: &[&str], slug: &str) -> Post {
    Post {
        frontmatter: Frontmatter {
            title: title.to_string(),
            date: date.to_string(),
            tags: tags.iter().map(|t| t.to_string()).collect(),
            excerpt: None,
        },
        slug: slug.to_string(),
        content_html: format!("<p>{}</p>", title),
        excerpt: String::new(),
        reading_time: 1,
        toc: vec![],
        word_count: 2,
        search_text: title.to_lowercase(),
    }
}

fn site(per_page: usize) -> SiteConfig {
    SiteConfig {
        title: "T".to_string(),
        description: "D".to_string(),
        url: "http://x".to_string(),
        posts_per_page: per_page,
    }
}

// ---- numbers ----

#[test]
fn parse_usize_reads_decimal_numbers() {
    assert_eq!(parse_usize("42"), Some(42));
    assert_eq!(parse_usize("+7"), Some(7));
    assert_eq!(parse_usize("007"), Some(7));
    assert_eq!(parse_usize("-1"), None);
    assert_eq!(parse_usize("-0"), None);
    assert_eq!(parse_usize(""), None);
    assert_eq!(parse_usize("+"), None);
    assert_eq!(parse_usize("12a"), None);
    assert_eq!(parse_usize(" 1"), None);
    assert_eq!(parse_usize("99999999999999999999999"), None);
}

#[test]
fn parse_i32_reads_signed_numbers() {
    assert_eq!(parse_i32("-2147483648"), Some(i32::MIN));
    assert_eq!(parse_i32("2147483647"), Some(i32::MAX));
    assert_eq!(parse_i32("2147483648"), None);
    assert_eq!(parse_i32("-2147483649"), None);
    assert_eq!(parse_i32("-"), None);
    assert_eq!(parse_i32("+5"), Some(5));
    assert_eq!(parse_i32("-15"), Some(-15));
    assert_eq!(parse_i32("1.5"), None);
}

// ---- site settings ----

#[test]
fn site_config_defaults() {
    let c = SiteConfig::default();
    assert_eq!(c.title, "MyBlog");
    assert_eq!(c.description, "A personal blog built with Rust and Axum");
    assert_eq!(c.url, "http://127.0.0.1:3000");
    assert_eq!(c.posts_per_page, 5);
    assert_eq!(posts_per_page(&c), 5);
    assert_eq!(site_url(&c), "http://127.0.0.1:3000");
    assert_eq!(site_title(&c), "MyBlog");
    assert_eq!(site_desc(&c), "A personal blog built with Rust and Axum");
}

#[test]
fn environment_overrides_replace_settings() {
    let c = with_overrides(
        SiteConfig::default(),
        Some("Other".to_string()),
        None,
        Some("https://blog.example".to_string()),
        Some("12".to_string()),
    );
    assert_eq!(c.title, "Other");
    assert_eq!(c.description, "A personal blog built with Rust and Axum");
    assert_eq!(c.url, "https://blog.example");
    assert_eq!(c.posts_per_page, 12);
    let d = with_overrides(SiteConfig::default(), None, None, None, Some("many".to_string()));
    assert_eq!(d.posts_per_page, 5);
}

#[test]
fn about_defaults_and_edits() {
    let a = AboutConfig::default();
    assert_eq!(a.author_name, "阿愁");
    assert_eq!(a.avatar_path, "/static/images/avatar.jpg");
    let b = apply_about_update(a, Some("Ann".to_string()), Some(String::new()));
    assert_eq!(b.author_name, "Ann");
    assert_eq!(b.avatar_path, "/static/images/avatar.jpg");
    let c = apply_about_update(b, None, Some("https://img/x.png".to_string()));
    assert_eq!(c.author_name, "Ann");
    assert_eq!(c.avatar_path, "https://img/x.png");
}

#[test]
fn avatar_urls_carry_modification_time() {
    assert_eq!(avatar_url("/static/images/avatar.jpg", 1700000000), "/static/images/avatar.jpg?v=1700000000");
    assert_eq!(avatar_url("/static/a.png", 0), "/static/a.png?v=0");
    assert_eq!(avatar_url("https://img/x.png", 5), "https://img/x.png");
    assert_eq!(avatar_file_path("/static/images/avatar.jpg"), Some("./static/images/avatar.jpg".to_string()));
    assert_eq!(avatar_file_path("/img/a.png"), None);
}

#[test]
fn avatar_uploads_are_checked() {
    assert_eq!(avatar_extension("image/png").ok(), Some("png".to_string()));
    assert_eq!(avatar_extension("image/webp").ok(), Some("webp".to_string()));
    assert_eq!(avatar_extension("image/jpeg").ok(), Some("jpg".to_string()));
    assert!(matches!(avatar_extension("image/gif"), Err(AvatarError::BadType)));
    assert!(check_avatar_size(MAX_AVATAR_BYTES).is_ok());
    assert!(matches!(check_avatar_size(5 * 1024 * 1024 + 1), Err(AvatarError::TooLarge)));
    assert_eq!(avatar_save_path("png"), "static/images/avatar.png");
    assert_eq!(avatar_public_path("png"), "/static/images/avatar.png");
    assert_eq!(AvatarError::NoFile.message(), "No file uploaded");
    assert_eq!(AvatarError::BadType.message(), "Only JPG, PNG, WebP allowed");
    assert_eq!(AvatarError::ReadFailed.message(), "Failed to read file");
    assert_eq!(AvatarError::TooLarge.message(), "File too large (max 5MB)");
    assert_eq!(AvatarError::CreateFailed.message(), "Failed to create file");
    assert_eq!(AvatarError::WriteFailed.message(), "Failed to save file");
    assert!(AvatarError::WriteFailed.is_server_error());
    assert!(AvatarError::CreateFailed.is_server_error());
    assert!(!AvatarError::TooLarge.is_server_error());
}

// ---- pagination ----

#[test]
fn paginate_limits_the_page() {
    let pg = paginate(Some(7), 12, 5);
    assert_eq!((pg.page, pg.total_pages, pg.start, pg.end), (3, 3, 10, 12));
    let pg = paginate(Some(0), 12, 5);
    assert_eq!((pg.page, pg.start, pg.end), (1, 0, 5));
    let pg = paginate(None, 0, 0);
    assert_eq!((pg.page, pg.total_pages, pg.start, pg.end), (1, 1, 0, 0));
    assert!(paginate_checked(None, 3, 0).is_none());
    assert!(paginate_checked(None, 0, 0).is_some());
}

#[test]
fn every_item_is_on_exactly_one_page() {
    let n = 12;
    let per = 5;
    for k in 0..n {
        let mut pages_with_k = 0;
        for p in 1..=3 {
            let pg = paginate(Some(p), n, per);
            if pg.start <= k && k < pg.end {
                pages_with_k += 1;
                assert_eq!(p, k / per + 1);
            }
        }
        assert_eq!(pages_with_k, 1);
    }
}

#[test]
fn page_bar_lists_increasing_pages() {
    for total in 0..12 {
        for current in 1..=total {
            let info = compute_page_info(current, total);
            assert!(info.pages.len() <= 5);
            assert!(info.pages.windows(2).all(|w| w[0] < w[1]));
            assert!(current == 1 || current == total || info.pages.contains(&current));
        }
    }
}

#[test]
fn archive_navigation() {
    let nav = archive_nav(Some(5), 3);
    assert_eq!((nav.page, nav.has_prev, nav.has_next, nav.prev_page, nav.next_page), (3, true, false, 2, 4));
    let nav = archive_nav(None, 0);
    assert_eq!((nav.page, nav.has_prev, nav.has_next), (1, false, false));
    let nav = archive_nav(Some(0), 4);
    assert_eq!((nav.page, nav.has_prev, nav.has_next), (1, false, true));
}

// ---- a post's page ----

#[test]
fn post_page_finds_neighbours_and_related() {
    let posts = vec![
        post("A", "2024-05-01", &["rust"], "a"),
        post("B", "2024-04-01", &["web"], "b"),
        post("C", "2024-03-01", &["rust", "web"], "c"),
        post("D", "2024-02-01", &["rust"], "d"),
        post("E", "2024-01-01", &["rust"], "e"),
        post("F", "2023-12-01", &["rust"], "f"),
    ];
    let pp = post_page(&posts, "c").unwrap();
    assert_eq!(pp.index, 2);
    assert_eq!(pp.prev, Some(3));
    assert_eq!(pp.next, Some(1));
    assert_eq!(pp.related, vec![0, 1, 3]);
    let first = post_page(&posts, "a").unwrap();
    assert_eq!(first.next, None);
    assert_eq!(first.related, vec![2, 3, 4]);
    let last = post_page(&posts, "f").unwrap();
    assert_eq!(last.prev, None);
    assert!(post_page(&posts, "zzz").is_none());
}

// ---- tags ----

#[test]
fn tag_page_escapes_and_encodes_the_tag() {
    let posts = vec![
        post("A", "2024-05-01", &["rust & web"], "a"),
        post("B", "2024-04-01", &["web"], "b"),
    ];
    let name = "rust & web".to_string();
    let tp = tag_page(&site(5), &posts, &name, None);
    assert_eq!(tp.matches, vec![0]);
    assert_eq!(tp.tag, "rust &amp; web");
    assert_eq!(tp.tag_url, "rust+%26+web");
    assert_eq!(tp.og_title, "#rust &amp; web - T");
    assert_eq!(tp.og_description, "Posts tagged with #rust &amp; web");
    assert_eq!(tp.og_url, "http://x/tag/rust+%26+web");
    assert_eq!(posts_with_tag(&posts, &"web".to_string()), vec![1]);
    let cjk = tag_page(&site(5), &posts, &"中文".to_string(), Some(3));
    assert_eq!(cjk.tag_url, "%E4%B8%AD%E6%96%87");
    assert_eq!(cjk.pagination.page, 1);
}

#[test]
fn tag_counts_and_popularity() {
    let posts = vec![
        post("A", "2024-05-01", &["b", "a"], "a"),
        post("B", "2024-04-01", &["a", "c"], "b"),
        post("C", "2024-03-01", &["a", "c"], "c"),
    ];
    let f = tag_frequencies(&posts);
    let pairs: Vec<(String, usize)> = f.iter().map(|t| (t.name.clone(), t.count)).collect();
    assert_eq!(pairs, vec![("b".to_string(), 1), ("a".to_string(), 3), ("c".to_string(), 2)]);
    assert_eq!(max_frequency(&f), 3);
    assert_eq!(max_frequency(&vec![]), 1);
    assert_eq!(distinct_tag_count(&posts), 3);
    assert_eq!(total_word_count(&posts), 6);
    assert_eq!(popular_tags(&posts), vec!["a", "c", "b"]);
}

// ---- search ----

#[test]
fn search_normalizes_and_matches_every_term() {
    let posts = vec![
        post("Rust Memory Model", "2024-05-01", &[], "a"),
        post("Async", "2024-04-01", &["RustLang"], "b"),
        post("Web", "2024-03-01", &[], "c"),
    ];
    assert_eq!(normalized_query(&Some("  Rust  ".to_string())), "rust");
    assert_eq!(normalized_query(&None), "");
    assert_eq!(search_posts(&posts, "rust"), vec![0, 1]);
    assert_eq!(search_posts(&posts, "rust memory"), vec![0]);
    assert!(search_posts(&posts, "").is_empty());
    let sp = search_page(&site(5), &posts, &Some(" RUST & Co ".to_string()), None).unwrap();
    assert_eq!(sp.query, "rust & co");
    assert_eq!(sp.query_display, "rust &amp; co");
    assert_eq!(sp.query_url, "rust+%26+co");
    assert_eq!(sp.og_title, "Search - T");
    assert_eq!(sp.og_description, "Search results for \"rust &amp; co\"");
    assert_eq!(sp.og_url, "http://x/search?q=rust+%26+co");
    assert!(search_page(&site(0), &posts, &Some("rust".to_string()), None).is_none());
    assert!(search_page(&site(0), &posts, &Some("python".to_string()), None).is_some());
}

// ---- the archive ----

#[test]
fn archive_keeps_unknown_months_and_skips_undated() {
    let posts = vec![
        post("A", "2024-13-01", &[], "a"),
        post("B", "2024", &[], "b"),
        post("C", "2024-01-05", &[], "c"),
        post("D", "2024-00-01", &[], "d"),
        post("E", "2024-01-02", &[], "e"),
    ];
    let groups = group_by_year_month(&posts);
    assert_eq!(groups.len(), 1);
    let months: Vec<&str> = groups[0].months.iter().map(|m| m.month.as_str()).collect();
    assert_eq!(months, vec!["January", "13", "00"]);
    let jan: Vec<&str> = groups[0].months[0].posts.iter().map(|p| p.slug.as_str()).collect();
    assert_eq!(jan, vec!["c", "e"]);
    assert_eq!(month_index("June"), 6);
    assert_eq!(month_index("Foo"), 0);
}

// ---- dates, feed, sitemap ----

#[test]
fn dates_that_do_not_read_use_defaults() {
    assert_eq!(weekday("abc", "Xyz", "zz"), "Mon");
    assert_eq!(date_to_rfc2822("2023-13-40"), "Thu, 40 13 2023 00:00:00 GMT");
    assert!(date_is_formattable("2024-01-15"));
    assert!(!date_is_formattable("2024-01-2147483647"));
    assert!(date_is_formattable("nonsense"));
}

#[test]
fn feed_document_for_one_post() {
    let mut p = post("Tom & Jerry", "2024-06-15", &[], "tj");
    p.content_html = "<p>hi</p>".to_string();
    let xml = feed_xml(&site(5), &[p]);
    let expected = "<?xml version=\"1.0\" encoding=\"UTF-8\"?>\n<rss version=\"2.0\" xmlns:atom=\"http://www.w3.org/2005/Atom\">\n  <channel>\n    <title>T</title>\n    <link>http://x</link>\n    <description>D</description>\n    <language>zh-CN</language>\n    <atom:link href=\"http://x/feed.xml\" rel=\"self\" type=\"application/rss+xml\"/>\n    <lastBuildDate>Sat, 15 Jun 2024 00:00:00 GMT</lastBuildDate>\n  <item>\n    <title>Tom &amp; Jerry</title>\n    <link>http://x/post/tj</link>\n    <guid>http://x/post/tj</guid>\n    <pubDate>Sat, 15 Jun 2024 00:00:00 GMT</pubDate>\n    <description><![CDATA[<p>hi</p>]]></description>\n  </item>\n\n  </channel>\n</rss>";
    assert_eq!(xml, expected);
    let empty = feed_xml(&site(5), &[]);
    assert!(empty.contains("<lastBuildDate></lastBuildDate>"));
}

#[test]
fn sitemap_document_without_posts() {
    let xml = sitemap_xml(&site(5), &[]);
    let expected = "<?xml version=\"1.0\" encoding=\"UTF-8\"?>\n<urlset xmlns=\"http://www.sitemaps.org/schemas/sitemap/0.9\">\n  <url>\n    <loc>http://x/</loc>\n    <priority>1.0</priority>\n  </url>\n  <url>\n    <loc>http://x/about</loc>\n    <priority>0.8</priority>\n  </url>\n  <url>\n    <loc>http://x/archive</loc>\n    <priority>0.7</priority>\n  </url>\n\n</urlset>";
    assert_eq!(xml, expected);
    assert_eq!(page_url(&site(5), "/about"), "http://x/about");
    assert_eq!(titled("About - ", &site(5)), "About - T");
}

// ---- posts ----

#[test]
fn frontmatter_is_cut_at_the_fences() {
    let (f, m) = split_frontmatter("  +++\ntitle = \"x\"\n+++\n\n  body  \n").unwrap();
    assert_eq!(f, "\ntitle = \"x\"\n");
    assert_eq!(m, "body");
    assert!(split_frontmatter("+++ only one").is_none());
    assert!(split_frontmatter("no fence").is_none());
}

#[test]
fn dates_must_have_the_form_yyyy_mm_dd() {
    assert!(is_valid_date("2024-01-15"));
    assert!(!is_valid_date("2024-1-15"));
    assert!(!is_valid_date("2024-01-15 "));
    assert!(is_valid_date("２０２４-01-15"));
}

#[test]
fn posts_sort_newest_first_keeping_ties() {
    let posts = vec![
        post("A", "2023-01-01", &[], "a"),
        post("B", "2024-01-01", &[], "b"),
        post("C", "2023-01-01", &[], "c"),
        post("D", "2025-06-30", &[], "d"),
    ];
    let sorted = sort_posts_newest_first(posts);
    let slugs: Vec<&str> = sorted.iter().map(|p| p.slug.as_str()).collect();
    assert_eq!(slugs, vec!["d", "b", "a", "c"]);
}

#[test]
fn build_post_derives_fields() {
    let hl = Highlighter::load_defaults().unwrap();
    let fm = Frontmatter {
        title: "T".to_string(),
        date: "2024-04-01".to_string(),
        tags: vec![],
        excerpt: None,
    };
    let body = "word ".repeat(300);
    let p = build_post(fm, "t".to_string(), &body, &hl).unwrap();
    assert_eq!(p.excerpt.chars().count(), 163);
    assert!(p.excerpt.ends_with("..."));
    assert_eq!(p.word_count, 300);
    assert_eq!(p.reading_time, 2);
    assert_eq!(p.search_text, p.search_text.to_lowercase());
    let bad = Frontmatter {
        title: "T".to_string(),
        date: "April".to_string(),
        tags: vec![],
        excerpt: Some("x".to_string()),
    };
    assert!(matches!(
        build_post(bad, "t".to_string(), "body", &hl),
        Err(PostError::InvalidDate)
    ));
}

#[test]
fn escaped_text_has_no_markup_and_slugs_no_spaces() {
    let e = escape_xml("<a href='x'>\"q\"</a>");
    assert!(!e.contains('<') && !e.contains('>') && !e.contains('"') && !e.contains('\''));
    let s = slugify("  A  b\tC\n d ");
    assert!(!s.chars().any(|c| c.is_whitespace()));
    assert_eq!(s, "a-b-c-d");
}

// ---- watching files ----

#[test]
fn watched_paths() {
    assert!(is_watched("posts/a.md", "posts", "md"));
    assert!(is_watched("/srv/blog/posts/a.md", "posts", "md"));
    assert!(!is_watched("posts/notes.txt", "posts", "md"));
    assert!(!is_watched("drafts/a.md", "posts", "md"));
    assert!(!is_watched("posts/.md", "posts", "md"));
    assert!(is_watched("templates/index.html", "templates", "html"));
}

#[test]
fn signatures_report_each_change_once() {
    let mut store = SignatureStore::new();
    let paths = vec!["posts/a.md".to_string()];
    assert!(file_signature_changed(&mut store, &paths, &vec![Some(1)], "posts", "md"));
    assert!(!file_signature_changed(&mut store, &paths, &vec![Some(1)], "posts", "md"));
    assert!(file_signature_changed(&mut store, &paths, &vec![Some(2)], "posts", "md"));
    assert!(file_signature_changed(&mut store, &paths, &vec![None], "posts", "md"));
    assert!(!file_signature_changed(&mut store, &paths, &vec![None], "posts", "md"));
    assert_eq!(store.signature("posts/a.md"), None);
    let other = vec!["posts/notes.txt".to_string()];
    assert!(!file_signature_changed(&mut store, &other, &vec![Some(9)], "posts", "md"));
    assert_eq!(store.signature("posts/notes.txt"), None);
    let mut fresh = SignatureStore::new();
    assert!(!file_signature_changed(&mut fresh, &paths, &vec![None], "posts", "md"));
}

#[test]
fn one_path_written_two_ways_is_one_file() {
    let mut store = SignatureStore::new();
    let a = vec!["posts/a.md".to_string()];
    let b = vec!["posts//a.md".to_string()];
    let c = vec!["posts/./a.md".to_string()];
    assert!(file_signature_changed(&mut store, &a, &vec![Some(1)], "posts", "md"));
    assert!(!file_signature_changed(&mut store, &b, &vec![Some(1)], "posts", "md"));
    assert!(!file_signature_changed(&mut store, &c, &vec![Some(1)], "posts", "md"));
    assert_eq!(store.signature("posts//a.md"), Some(1));
    assert!(file_signature_changed(&mut store, &c, &vec![Some(2)], "posts", "md"));
    assert_eq!(store.signature("posts/a.md"), Some(2));
}

#[test]
fn successive_edits_and_a_deletion() {
    let mut store = SignatureStore::new();
    let f = vec!["blog/posts/post.md".to_string()];
    let answers: Vec<bool> = [Some(1), Some(1), Some(2), Some(2), None, None]
        .iter()
        .map(|s| file_signature_changed(&mut store, &f, &vec![*s], "posts", "md"))
        .collect();
    assert_eq!(answers, vec![true, false, true, false, true, false]);
    let g = vec!["blog/posts/notes.txt".to_string()];
    assert!(!file_signature_changed(&mut store, &g, &vec![Some(3)], "posts", "md"));
}

#[test]
fn escaping_laws() {
    let a = "a<b & \"c\"";
    let b = "'d' > e";
    assert_eq!(escape_xml(&format!("{}{}", a, b)), format!("{}{}", escape_xml(a), escape_xml(b)));
    let s = "x < y > \"z\" 1";
    assert_eq!(unescape_html(&escape_xml(s)), s);
    assert_eq!(unescape_html(&escape_xml("it's")), "it&apos;s");
}

#[test]
fn stripped_text_opens_no_tag() {
    let t = strip_html_tags("<p>a</p><script>x<y</script>b <!-- c --> d<em>e</em>");
    assert!(!t.contains('<'));
    // A comment ends only at a `>` preceded by `-->`, so the rest is hidden.
    assert_eq!(t, "ab");
    assert_eq!(strip_html_tags("a<!-- c -->>b<i>c</i>"), "abc");
}

#[test]
fn openings_are_found_at_the_offset_in_the_original_text() {
    // The Kelvin sign lowercases to a one-byte `k`, so the `<` of
    // `<script>` sits one byte further in the original text than in the
    // lowercased one: the opening is not seen and the script text stays.
    assert!(strip_is_defined("\u{212A}<script>x</script>"));
    assert_eq!(strip_html_tags("\u{212A}<script>x</script>"), "\u{212A}x");
    assert!(strip_is_defined("<p>plain</p>"));
    // `Ⱥ` lowercases to a three-byte character, so the offset of the `<`
    // falls inside a character of the lowercased text.
    assert!(!strip_is_defined("\u{023A}<p>"));
    assert!(toc_is_defined("<h2 id=\"a\">A</h2>"));
    assert!(!toc_is_defined("<h2 id=\"a\">\u{023A}<b>A</b></h2>"));
}

#[test]
fn post_files_and_their_slugs() {
    assert_eq!(post_slug("posts/hello-world.md"), Some("hello-world".to_string()));
    assert_eq!(post_slug("/srv/blog/posts/a.b.md"), Some("a.b".to_string()));
    assert_eq!(post_slug("posts/notes.txt"), None);
    assert_eq!(post_slug("posts/README"), None);
    assert_eq!(post_slug("posts/.md"), None);
}

#[test]
fn slug_of_a_slug_is_itself() {
    for t in ["hello, world!", "a-b  c", "--x--", "", "déjà vu 42", "tab\there"] {
        let s = slug_from_lowercase(t);
        assert_eq!(slug_from_lowercase(&s), s);
    }
}

#[test]
fn identified_headings_are_left_alone() {
    let h = "<h2 id=\"a\">A</h2>\n<p>x</p><h3 class=\"c\" id=\"b\">B</h3>";
    assert_eq!(add_heading_ids(h), h);
    let once = add_heading_ids("<h1>Hello World</h1><h2 class=\"x\">Hi</h2>");
    assert_eq!(once, "<h1 id=\"hello-world\">Hello World</h1><h2 id=\"hi\" class=\"x\">Hi</h2>");
    assert_eq!(add_heading_ids(&once), once);
}

#[test]
fn heading_ids_twice_can_differ_from_once() {
    // The newline in the attributes of `<h2` keeps `<h1>` from matching;
    // rebuilding the `h2` trims it away, so a second pass matches `<h1>`.
    let once = add_heading_ids("<h1>x<h2\n>T</h2>");
    assert_eq!(once, "<h1>x<h2 id=\"t\">T</h2>");
    assert_eq!(
        add_heading_ids(&once),
        "<h1 id=\"x-h2-id-t-t\">x<h2 id=\"t\">T</h1>"
    );
}

#[test]
fn slugs_of_lowercase_text() {
    assert_eq!(slug_from_lowercase("hello, world!"), "hello-world");
    assert_eq!(slug_from_lowercase("  a  "), "a");
}

#[test]
fn highlighted_code_uses_syntect_and_renders_alike() {
    let hl = Highlighter::load_defaults().unwrap();
    let html = "<pre><code class=\"language-rust\">fn main() {}\n</code></pre>";
    let out = highlight_code_blocks(html, &hl);
    assert!(out.contains("<span style"));
    assert!(out.contains("<td class=\"ln\">1</td>"));
    let md = "# T\n\n```rust\nlet x = 1;\n```\n";
    assert_eq!(render_markdown(md, &hl), render_markdown(md, &hl));
}

#[test]
fn avatar_upload_steps() {
    let s = upload_step(UploadState::AwaitField, UploadEvent::Field("image/webp".to_string()));
    assert!(matches!(&s, UploadState::AwaitBytes(e) if e == "webp"));
    let s = upload_step(s, UploadEvent::Bytes(1024));
    assert!(matches!(&s, UploadState::AwaitSaved(e) if e == "webp"));
    let s = upload_step(s, UploadEvent::Saved);
    assert!(matches!(&s, UploadState::Done(p) if p == "/static/images/avatar.webp"));
    let f = upload_step(UploadState::AwaitField, UploadEvent::NoField);
    assert!(matches!(f, UploadState::Failed(AvatarError::NoFile)));
    let f = upload_step(UploadState::AwaitField, UploadEvent::Field("text/plain".to_string()));
    assert!(matches!(f, UploadState::Failed(AvatarError::BadType)));
    let f = upload_step(UploadState::AwaitBytes("png".to_string()), UploadEvent::Bytes(MAX_AVATAR_BYTES + 1));
    assert!(matches!(f, UploadState::Failed(AvatarError::TooLarge)));
    let f = upload_step(UploadState::AwaitBytes("png".to_string()), UploadEvent::ReadFailed);
    assert!(matches!(f, UploadState::Failed(AvatarError::ReadFailed)));
    let f = upload_step(UploadState::AwaitSaved("png".to_string()), UploadEvent::CreateFailed);
    assert!(matches!(f, UploadState::Failed(AvatarError::CreateFailed)));
    let f = upload_step(UploadState::AwaitSaved("png".to_string()), UploadEvent::WriteFailed);
    assert!(matches!(f, UploadState::Failed(AvatarError::WriteFailed)));
}
