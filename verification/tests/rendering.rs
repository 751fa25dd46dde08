use fleen::renderer::{
    classify, decode_frontmatter, file_render, find_frontmatter, markdown_options,
    parse_frontmatter, render_as_markdown, server_render, skipped_path, EntryKind, FileOp,
    Frontmatter, Page, RenderError, RenderOutput, Verdict,
};
use fleen::site_path::SitePath;

fn path(text: &str) -> SitePath {
    SitePath::parse(text)
}

#[test]
fn hidden_paths_give_nothing_whatever_stands_there() {
    for source in ["_skipped.html", "_layouts/post.html", "a/_b/c.md", "../x", "a/../b.txt", "a/.."] {
        assert!(skipped_path(&path(source)));
        for kind in [EntryKind::Missing, EntryKind::Dir, EntryKind::File, EntryKind::Other] {
            for sibling in [EntryKind::Missing, EntryKind::File] {
                for preview in [false, true] {
                    assert_eq!(classify(path(source), kind, sibling, preview), Verdict::NoOutput);
                }
            }
        }
    }
    for source in ["a_b/c", "...", "a/..b", "x_", ".", ""] {
        assert!(!skipped_path(&path(source)));
    }
}

#[test]
fn directories_are_directories_in_both_modes() {
    assert_eq!(file_render(path("dir"), EntryKind::Dir), Verdict::Dir(path("dir")));
    assert_eq!(
        server_render(path("dir.md"), EntryKind::Dir, EntryKind::Missing),
        Verdict::Dir(path("dir.md"))
    );
    assert_eq!(file_render(path("dir.md"), EntryKind::Dir), Verdict::Dir(path("dir.md")));
}

#[test]
fn files_are_rendered_or_copied() {
    assert_eq!(file_render(path("raw.txt"), EntryKind::File), Verdict::RawFile(path("raw.txt")));
    assert_eq!(file_render(path("a/p.md"), EntryKind::File), Verdict::Markdown(path("a/p.md")));
    assert_eq!(file_render(path("fifo"), EntryKind::Other), Verdict::RawFile(path("fifo")));
    assert_eq!(file_render(path(".keep"), EntryKind::File), Verdict::RawFile(path(".keep")));
    assert_eq!(file_render(path(".md"), EntryKind::File), Verdict::RawFile(path(".md")));
    assert_eq!(file_render(path("gone.txt"), EntryKind::Missing), Verdict::NoOutput);
    assert_eq!(file_render(path("gone.md"), EntryKind::Missing), Verdict::NoOutput);
}

#[test]
fn preview_bridges_html_to_markdown() {
    assert_eq!(
        server_render(path("index.html"), EntryKind::Missing, EntryKind::File),
        Verdict::Markdown(path("index.md"))
    );
    assert_eq!(
        server_render(path("a/b.html"), EntryKind::Missing, EntryKind::Dir),
        Verdict::Markdown(path("a/b.md"))
    );
    // a Markdown source is not served under its own name
    assert_eq!(server_render(path("index.md"), EntryKind::File, EntryKind::File), Verdict::NoOutput);
    // an html file that exists is served as it is
    assert_eq!(
        server_render(path("index.html"), EntryKind::File, EntryKind::File),
        Verdict::RawFile(path("index.html"))
    );
    assert_eq!(
        server_render(path("index.html"), EntryKind::Missing, EntryKind::Missing),
        Verdict::NoOutput
    );
    assert_eq!(
        server_render(path("index.txt"), EntryKind::Missing, EntryKind::File),
        Verdict::NoOutput
    );
}

#[test]
fn verdicts_turn_into_outputs() {
    assert_eq!(Verdict::NoOutput.into_output(), RenderOutput::NoOutput);
    assert_eq!(Verdict::Dir(path("d")).into_output(), RenderOutput::Dir(path("d")));
    assert_eq!(Verdict::RawFile(path("f")).into_output(), RenderOutput::RawFile(path("f")));
    assert_eq!(Verdict::Markdown(path("p.md")).into_output(), RenderOutput::NoOutput);
}

#[test]
fn markdown_is_turned_into_html() {
    let page = render_as_markdown(&path("p.md"), Ok("# Hi *there*\n".to_string())).unwrap();
    assert_eq!(page.html, "<h1>Hi <em>there</em></h1>\n");
    assert_eq!(page.frontmatter, None);
    assert_eq!(page.layout(), None);
    let out = page.render(&path("a/p.md"), &path("/site"), &Err("unused".to_string())).unwrap();
    assert_eq!(
        out,
        RenderOutput::Rendered(path("a/p.html"), "<h1>Hi <em>there</em></h1>\n".to_string())
    );
}

#[test]
fn tables_and_code_fences_are_rendered() {
    let text = "| a | b |\n|---|---|\n| 1 | 2 |\n\n```rust\nfn main() {}\n```\n";
    let page = render_as_markdown(&path("p.md"), Ok(text.to_string())).unwrap();
    assert!(page.html.starts_with("<table>"));
    assert!(page.html.contains("<pre><code class=\"language-rust\">fn main() {}\n</code></pre>"));
    let options = markdown_options();
    assert!(options.frontmatter);
    assert!(options.gfm_table);
}

#[test]
fn front_matter_is_read_and_left_out_of_the_page() {
    let text = "+++\nlayout = \"_layouts/default.html\"\ntitle = \"Pest Toast\"\npublished = true\nextra = 3\n+++\n\nBody\n";
    let page = render_as_markdown(&path("p.md"), Ok(text.to_string())).unwrap();
    assert_eq!(page.html, "<p>Body</p>\n");
    assert_eq!(
        page.frontmatter,
        Some(Frontmatter {
            layout: Some("_layouts/default.html".to_string()),
            title: Some("Pest Toast".to_string()),
            published: Some(true),
        })
    );
    assert_eq!(page.layout(), Some("_layouts/default.html".to_string()));
}

#[test]
fn empty_front_matter_gives_defaults() {
    let page = render_as_markdown(&path("p.md"), Ok("+++\n+++\n\nBody\n".to_string())).unwrap();
    assert_eq!(
        page.frontmatter,
        Some(Frontmatter { layout: None, title: None, published: None })
    );
    let out = page.render(&path("p.md"), &path("/site"), &Err("unused".to_string())).unwrap();
    assert_eq!(out, RenderOutput::Rendered(path("p.html"), "<p>Body</p>\n".to_string()));
}

#[test]
fn read_failure_names_the_path() {
    let r = render_as_markdown(&path("a/p.md"), Err("permission denied".to_string()));
    assert_eq!(r, Err(RenderError::FileRead("permission denied".to_string(), path("a/p.md"))));
    assert_eq!(r.unwrap_err().message(), "Error reading a/p.md: permission denied");
}

#[test]
fn malformed_front_matter_is_a_parse_error() {
    let r = render_as_markdown(&path("p.md"), Ok("+++\ntitle = \n+++\n".to_string()));
    match r {
        Err(RenderError::FrontmatterParse(cause, at)) => {
            assert_eq!(at, path("p.md"));
            assert!(!cause.is_empty());
        }
        other => panic!("{:?}", other),
    }
    let e = parse_frontmatter("= nothing", &path("q.md")).unwrap_err();
    assert!(matches!(&e, RenderError::FrontmatterParse(_, at) if *at == path("q.md")));
    assert!(e.message().starts_with("Error parsing frontmatter in q.md: "));
}

#[test]
fn front_matter_fields_of_the_wrong_type_are_refused() {
    for text in ["title = 3", "layout = true", "published = \"no\"", "layout = [\"a\"]", "[title]\nx = 1"] {
        let r = parse_frontmatter(text, &path("p.md"));
        assert!(matches!(r, Err(RenderError::FrontmatterParse(_, _))), "for {:?}", text);
    }
    let value: toml::Value = toml::from_str("title = \"T\"\nother = 1").unwrap();
    assert_eq!(
        decode_frontmatter(&value),
        Ok(Frontmatter { layout: None, title: Some("T".to_string()), published: None })
    );
    let value: toml::Value = toml::from_str("published = false").unwrap();
    assert_eq!(
        decode_frontmatter(&value),
        Ok(Frontmatter { layout: None, title: None, published: Some(false) })
    );
    let value: toml::Value = toml::from_str("published = 0").unwrap();
    assert!(decode_frontmatter(&value).is_err());
}

#[test]
fn find_frontmatter_takes_the_first_block() {
    assert_eq!(find_frontmatter(&vec![]), None);
    assert_eq!(find_frontmatter(&vec![None, None]), None);
    assert_eq!(find_frontmatter(&vec![Some("a".to_string())]), Some(&"a".to_string()));
    assert_eq!(
        find_frontmatter(&vec![None, Some("a".to_string()), None, Some("b".to_string())]),
        Some(&"a".to_string())
    );
}

#[test]
fn layout_placeholders_are_replaced() {
    let fm = Frontmatter {
        layout: Some("_layouts/l.html".to_string()),
        title: Some("Pest Toast".to_string()),
        published: None,
    };
    let out = fm.apply_layout(
        "<p>Body</p>".to_string(),
        &path("dir/page.md"),
        &path("/site"),
        Ok("<title>$title</title><h1>$title</h1>$content!".to_string()),
    );
    assert_eq!(
        out,
        Ok(RenderOutput::Rendered(
            path("dir/page.html"),
            "<title>Pest Toast</title><h1>Pest Toast</h1><p>Body</p>!".to_string()
        ))
    );
}

#[test]
fn title_defaults_to_empty_and_content_is_not_escaped() {
    let fm = Frontmatter { layout: Some("l".to_string()), title: None, published: Some(true) };
    let out = fm.apply_layout(
        "<b>$title</b>".to_string(),
        &path("p.md"),
        &path("/site"),
        Ok("[$title|$content]".to_string()),
    );
    assert_eq!(out, Ok(RenderOutput::Rendered(path("p.html"), "[|<b>$title</b>]".to_string())));
}

#[test]
fn a_title_that_holds_the_content_mark_is_filled_too() {
    let fm = Frontmatter {
        layout: Some("l".to_string()),
        title: Some("$content".to_string()),
        published: None,
    };
    let out = fm.apply_layout("C".to_string(), &path("p.md"), &path("/"), Ok("$title-$content".to_string()));
    assert_eq!(out, Ok(RenderOutput::Rendered(path("p.html"), "C-C".to_string())));
}

#[test]
fn published_false_hides_the_page() {
    let hidden = Frontmatter { layout: None, title: None, published: Some(false) };
    assert_eq!(
        hidden.apply_layout("c".to_string(), &path("p.md"), &path("/s"), Err("unused".to_string())),
        Ok(RenderOutput::Hidden(path("p.html"), "c".to_string()))
    );
    let shown = Frontmatter { layout: None, title: None, published: Some(true) };
    assert_eq!(
        shown.apply_layout("c".to_string(), &path("p.md"), &path("/s"), Err("unused".to_string())),
        Ok(RenderOutput::Rendered(path("p.html"), "c".to_string()))
    );
    let silent = Frontmatter { layout: None, title: None, published: None };
    assert_eq!(
        silent.apply_layout("c".to_string(), &path("p"), &path("/s"), Err("unused".to_string())),
        Ok(RenderOutput::Rendered(path("p.html"), "c".to_string()))
    );
}

#[test]
fn a_missing_layout_is_a_read_error_with_its_path() {
    let fm = Frontmatter {
        layout: Some("_layouts/none.html".to_string()),
        title: None,
        published: Some(false),
    };
    let out = fm.apply_layout(
        "c".to_string(),
        &path("p.md"),
        &path("/site"),
        Err("No such file or directory".to_string()),
    );
    assert_eq!(
        out,
        Err(RenderError::FileRead(
            "No such file or directory".to_string(),
            path("/site/_layouts/none.html")
        ))
    );
    assert_eq!(
        out.unwrap_err().message(),
        "Error reading /site/_layouts/none.html: No such file or directory"
    );
}

#[test]
fn page_render_uses_the_front_matter() {
    let page = Page {
        html: "<p>x</p>".to_string(),
        frontmatter: Some(Frontmatter {
            layout: Some("l.html".to_string()),
            title: Some("T".to_string()),
            published: Some(false),
        }),
    };
    assert_eq!(
        page.render(&path("a.md"), &path("/s"), &Ok("$title:$content".to_string())),
        Ok(RenderOutput::Hidden(path("a.html"), "T:<p>x</p>".to_string()))
    );
    assert_eq!(
        page.render(&path("a.md"), &path("/s"), &Err("gone".to_string())),
        Err(RenderError::FileRead("gone".to_string(), path("/s/l.html")))
    );
}

#[test]
fn render_error_messages() {
    assert_eq!(
        RenderError::MarkdownParse("bad".to_string(), path("a/b.md")).message(),
        "Error parsing Markdown a/b.md: bad"
    );
    assert_eq!(
        RenderError::FrontmatterParse("bad".to_string(), path("b.md")).message(),
        "Error parsing frontmatter in b.md: bad"
    );
    let e = RenderError::FileRead("x".to_string(), path("p"));
    assert_eq!(e.duplicate(), e);
}

#[test]
fn file_operations_put_outputs_under_the_target() {
    let root = path("/site");
    let target = path("/out");
    assert_eq!(
        RenderOutput::Rendered(path("a/p.html"), "c".to_string()).file_operation(&root, &target),
        FileOp::Write(path("/out/a/p.html"), "c".to_string())
    );
    assert_eq!(
        RenderOutput::Hidden(path("p.html"), "c".to_string()).file_operation(&root, &target),
        FileOp::Nothing
    );
    assert_eq!(RenderOutput::NoOutput.file_operation(&root, &target), FileOp::Nothing);
    assert_eq!(
        RenderOutput::RawFile(path("raw.txt")).file_operation(&root, &target),
        FileOp::Copy(path("/site/raw.txt"), path("/out/raw.txt"))
    );
    assert_eq!(
        RenderOutput::Dir(path("dir")).file_operation(&root, &target),
        FileOp::CreateDir(path("/out/dir"))
    );
    let o = RenderOutput::Rendered(path("p.html"), "c".to_string());
    assert_eq!(o.duplicate(), o);
}
