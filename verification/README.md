# myblog

A flat-file blog: Markdown posts with TOML frontmatter, rendered to HTML and
served with Axum. The library in `src/` holds the blog's logic, with
contracts proved by Verus; `app/main.rs` is the server around it.

## Layout

- `src/text.rs`, `src/parse.rs` — character-level text operations and
  integer reading, shared by the rest.
- `src/escape.rs`, `src/slug.rs`, `src/html.rs` — XML escaping, slugs, tag
  stripping, word counts, reading time and the table of contents.
- `src/highlight.rs`, `src/render.rs` — Markdown rendering (pulldown-cmark),
  heading anchors and code blocks (syntect).
- `src/post.rs` — frontmatter, building a post, ordering posts newest first.
- `src/config.rs` — site and about-page settings, avatar uploads.
- `src/handlers.rs`, `src/archive.rs`, `src/tags.rs`, `src/feed.rs` — what
  each page shows: pagination, post neighbours, tag and search pages, the
  archive, tag counts, the RSS feed and the sitemap.
- `src/watch.rs` — which file changes call for a reload.
- `app/` — the HTTP server, file and network I/O, templates and serde.
