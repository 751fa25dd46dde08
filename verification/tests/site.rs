use fleen::fleen_app::FleenApp;
use fleen::renderer::{
    file_render, render_as_markdown, server_render, EntryKind, RenderError, RenderOutput, Verdict,
};
use fleen::site_path::SitePath;
use fleen::source_tree::SourceTree;

const LAYOUT: &str = "<!DOCTYPE html>\n<html>\n<head><title>$title</title></head>\n<body>\n$content\n</body>\n</html>\n";

const INDEX: &str = "+++\nlayout = \"_layouts/default.html\"\ntitle = \"Pest Toast\"\n+++\n\n# Welcome\n\n```rust\nfn main() {}\n```\n\n| a | b |\n|---|---|\n| 1 | 2 |\n";

const HIDDEN: &str = "+++\nlayout = \"_layouts/default.html\"\ntitle = \"Hidden\"\npublished = false\n+++\n\nThis file should render to hidden\n";

const NOT_HIDDEN: &str = "+++\nlayout = \"_layouts/default.html\"\ntitle = \"Shown\"\n+++\n\nThis file is published\n";

/// The files of the test site: a path and, for a file, its text.
fn testdata() -> Vec<(&'static str, Option<&'static str>)> {
    vec![
        ("_layouts", None),
        ("_layouts/default.html", Some(LAYOUT)),
        ("_layouts/post.html", Some(LAYOUT)),
        ("_skipped.md", Some("Skipped\n")),
        ("dir", None),
        ("dir/subdir.md", Some("In a directory\n")),
        ("hidden.md", Some(HIDDEN)),
        ("index.md", Some(INDEX)),
        ("nolayout.md", Some("This file has no layout at all\n")),
        ("not_hidden.md", Some(NOT_HIDDEN)),
        ("raw.txt", Some("raw text\n")),
    ]
}

fn kind_of(path: &SitePath) -> EntryKind {
    for (at, text) in testdata() {
        if SitePath::parse(at) == *path {
            return if text.is_some() { EntryKind::File } else { EntryKind::Dir };
        }
    }
    EntryKind::Missing
}

fn read(path: &SitePath) -> Result<String, String> {
    for (at, text) in testdata() {
        if SitePath::parse(at) == *path {
            return match text {
                Some(text) => Ok(text.to_string()),
                None => Err("Is a directory".to_string()),
            };
        }
    }
    Err("No such file or directory".to_string())
}

fn render_markdown(md: &SitePath, root: &SitePath) -> Result<RenderOutput, RenderError> {
    let page = render_as_markdown(md, read(md))?;
    let template = match page.layout() {
        Some(layout) => read(&SitePath::parse(&layout)),
        None => Err(String::new()),
    };
    page.render(md, root, &template)
}

fn render_file(path: &str) -> RenderOutput {
    let root = SitePath::parse("./testdata");
    let source = SitePath::parse(path);
    let kind = kind_of(&source);
    let sibling = kind_of(&source.with_extension("md"));
    let rendered = match server_render(source, kind, sibling) {
        Verdict::Markdown(md) => render_markdown(&md, &root),
        verdict => Ok(verdict.into_output()),
    };
    match rendered {
        Ok(ro) => ro,
        Err(e) => {
            println!("{}", e.message());
            panic!();
        }
    }
}

fn walk(dir: &SitePath, root: &SitePath, tree: &mut SourceTree) {
    for (at, text) in testdata() {
        let path = SitePath::parse(at);
        if path.len() == 0 || path.parent() != *dir {
            continue;
        }
        let name = path.file_name().unwrap();
        if text.is_none() {
            tree.enter_dir(&name);
            walk(&path, root, tree);
            tree.leave_dir();
        } else if tree.wants_page(&name, EntryKind::File) {
            let page = render_as_markdown(&path, read(&path));
            let template = match &page {
                Ok(page) => match page.layout() {
                    Some(layout) => read(&SitePath::parse(&layout)),
                    None => Err(String::new()),
                },
                Err(_) => Err(String::new()),
            };
            tree.add_page(&name, page, template);
        } else {
            tree.add_file(&name, EntryKind::File);
        }
    }
}

fn find_rendered_index(actions: &Vec<RenderOutput>, path: &str) -> Option<usize> {
    let path = SitePath::parse(path);
    actions.iter().position(|a| matches!(a, RenderOutput::Rendered(p, _) if p == &path))
}

fn find_dir_index(actions: &Vec<RenderOutput>, path: &str) -> Option<usize> {
    let path = SitePath::parse(path);
    actions.iter().position(|a| matches!(a, RenderOutput::Dir(p) if p == &path))
}

fn find_raw_index(actions: &Vec<RenderOutput>, path: &str) -> Option<usize> {
    let path = SitePath::parse(path);
    actions.iter().position(|a| matches!(a, RenderOutput::RawFile(p) if p == &path))
}

#[test]
fn test_compile() {
    let app = FleenApp::open(SitePath::parse("./testdata"), EntryKind::Dir).unwrap();
    let mut tree = SourceTree::new();
    walk(&SitePath::new(), app.root(), &mut tree);
    let actions = app.compile(&tree).unwrap();

    // Rendered files in the root that exist
    assert!(find_rendered_index(&actions, "index.html").is_some());
    assert!(find_rendered_index(&actions, "nolayout.html").is_some());
    assert!(find_rendered_index(&actions, "not_hidden.html").is_some());

    // Rendered files that are hidden for whatever reason
    assert!(find_rendered_index(&actions, "hidden.html").is_none());
    assert!(find_rendered_index(&actions, "_skipped.html").is_none());

    // The md sources are not reproduced:
    assert!(find_rendered_index(&actions, "index.md").is_none());
    assert!(find_rendered_index(&actions, "nolayout.md").is_none());
    assert!(find_rendered_index(&actions, "not_hidden.md").is_none());

    // A subdir
    assert!(find_dir_index(&actions, "dir").is_some());

    // The thing in it should be made after the dir itself:
    let file_idx = find_rendered_index(&actions, "dir/subdir.html").unwrap();
    let dir_idx = find_dir_index(&actions, "dir").unwrap();
    assert!(file_idx > dir_idx);

    // Raw files should be produced:
    assert!(find_raw_index(&actions, "raw.txt").is_some());

    // But not hidden ones:
    assert!(find_raw_index(&actions, "_layouts/post.html").is_none());
}

#[test]
fn test_rendering_markdown() {
    let contents = render_file("index.html");
    assert!(matches!(contents, RenderOutput::Rendered(_, _)));
    let RenderOutput::Rendered(filename, contents) = contents else { unreachable!() };
    assert_eq!(filename.to_text(), "index.html"); // Goes to the right filename
    assert!(contents.starts_with("<!DOCTYPE html>")); // Uses the layout
    assert!(contents.matches("Pest Toast").next().is_some()); // Replaces in the title
    assert!(contents.matches("<code class=\"language-rust\">").next().is_some()); // Renders the code snippet
    assert!(contents.matches("<table>").next().is_some()); // Renders the table
}

#[test]
fn test_no_layout() {
    let contents = render_file("nolayout.html");
    assert!(matches!(contents, RenderOutput::Rendered(_, _))); // Normal output
    let RenderOutput::Rendered(_, contents) = contents else { unreachable!() };
    assert!(contents.starts_with("<p>This file has no layout")) // Doesn't use any layout, just the contents
}

#[test]
fn test_no_output() {
    let contents = render_file("_skipped.html");
    assert!(matches!(contents, RenderOutput::NoOutput)); // This begins with an underscore so it's skipped

    let contents = render_file("_layouts/post.html");
    assert!(matches!(contents, RenderOutput::NoOutput)); // This is in a dir that begins with an underscore
}

#[test]
fn test_hidden() {
    let contents = render_file("hidden.html");
    assert!(matches!(contents, RenderOutput::Hidden(_, _))); // The dev server should return it but it shouldn't produce a file
    let RenderOutput::Hidden(_, contents) = contents else { unreachable!() };
    assert!(contents.starts_with("<!DOCTYPE html>")); // Uses the layout
    assert!(contents.matches("This file should render to hidden").next().is_some());

    let contents = render_file("not_hidden.html");
    assert!(matches!(contents, RenderOutput::Rendered(_, _))); // If we don't specify, it's published by default
}

#[test]
fn test_raw() {
    let contents = render_file("raw.txt");
    assert_eq!(contents, RenderOutput::RawFile(SitePath::parse("raw.txt")));
}

#[test]
fn test_dotdot() {
    assert!(matches!(render_file("../src/main.rs"), RenderOutput::NoOutput));
}

#[test]
fn test_dir() {
    assert!(matches!(render_file("dir"), RenderOutput::Dir(_)));
}

#[test]
fn test_ask_for_html() {
    let contents = render_file("index.html");
    assert!(matches!(contents, RenderOutput::Rendered(_, _))) // We asked for the html file which doesn't exist but the md does
}

#[test]
fn build_never_copies_a_page_under_its_html_name() {
    let app = FleenApp::open(SitePath::parse("./testdata"), EntryKind::Dir).unwrap();
    let mut tree = SourceTree::new();
    walk(&SitePath::new(), app.root(), &mut tree);
    let actions = app.compile(&tree).unwrap();
    assert!(find_raw_index(&actions, "index.html").is_none());
    assert!(find_raw_index(&actions, "index.md").is_none());
    // the build has no fallback from .html to .md
    assert_eq!(file_render(SitePath::parse("index.html"), EntryKind::Missing), Verdict::NoOutput);
    assert_eq!(
        file_render(SitePath::parse("index.md"), EntryKind::File),
        Verdict::Markdown(SitePath::parse("index.md"))
    );
}

#[test]
fn compile_gives_one_action_for_each_entry_in_walk_order() {
    let app = FleenApp::open(SitePath::parse("/site"), EntryKind::Dir).unwrap();
    let mut tree = SourceTree::new();
    walk(&SitePath::new(), app.root(), &mut tree);
    let actions = app.compile(&tree).unwrap();
    assert_eq!(actions.len(), testdata().len());
    assert_eq!(actions[0], RenderOutput::NoOutput); // _layouts
    assert_eq!(actions[1], RenderOutput::NoOutput); // _layouts/default.html
    assert_eq!(actions[2], RenderOutput::NoOutput); // _layouts/post.html
    assert_eq!(actions[3], RenderOutput::NoOutput); // _skipped.md
    assert_eq!(actions[4], RenderOutput::Dir(SitePath::parse("dir")));
    assert_eq!(
        actions[5],
        RenderOutput::Rendered(
            SitePath::parse("dir/subdir.html"),
            "<p>In a directory</p>\n".to_string()
        )
    );
    assert!(matches!(&actions[6], RenderOutput::Hidden(p, _) if *p == SitePath::parse("hidden.html")));
    assert_eq!(actions[10], RenderOutput::RawFile(SitePath::parse("raw.txt")));
}
