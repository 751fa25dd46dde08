use fleen::site_path::SitePath;
use fleen::text::{chars_of, replace_all, string_of};

fn segments(p: &SitePath) -> Vec<String> {
    (0..p.len()).map(|i| p.segment(i).clone()).collect()
}

#[test]
fn parse_splits_on_separators() {
    let p = SitePath::parse("dir/subdir.html");
    assert_eq!(segments(&p), vec!["dir".to_string(), "subdir.html".to_string()]);
    assert_eq!(p.to_text(), "dir/subdir.html");
}

#[test]
fn parse_drops_empty_pieces_and_inner_dots() {
    assert_eq!(SitePath::parse("a//b/./c/"), SitePath::parse("a/b/c"));
    assert_eq!(segments(&SitePath::parse("a/./b")), vec!["a".to_string(), "b".to_string()]);
    assert_eq!(SitePath::parse("").len(), 0);
    assert_eq!(SitePath::parse("a/.").len(), 1);
}

#[test]
fn parse_keeps_a_leading_dot_and_the_root() {
    assert_eq!(segments(&SitePath::parse("./testdata")), vec![".".to_string(), "testdata".to_string()]);
    assert_eq!(segments(&SitePath::parse(".")), vec![".".to_string()]);
    assert_eq!(segments(&SitePath::parse("/a/b")), vec!["/".to_string(), "a".to_string(), "b".to_string()]);
    assert_eq!(segments(&SitePath::parse("/.")), vec!["/".to_string()]);
    assert_eq!(segments(&SitePath::parse(".hidden/x")), vec![".hidden".to_string(), "x".to_string()]);
    assert_eq!(segments(&SitePath::parse("../x")), vec!["..".to_string(), "x".to_string()]);
}

#[test]
fn parse_agrees_with_std_components() {
    for text in ["", ".", "./", "/", "//", "a", "a/", "/a//b/", "./a/./b", "a/../b", "..", ".a/b.c", "a/.b"] {
        let ours = segments(&SitePath::parse(text));
        let theirs: Vec<String> = std::path::Path::new(text)
            .components()
            .map(|c| c.as_os_str().to_string_lossy().into_owned())
            .collect();
        assert_eq!(ours, theirs, "for {:?}", text);
    }
}

#[test]
fn to_text_writes_the_root_once() {
    assert_eq!(SitePath::parse("/a/b").to_text(), "/a/b");
    assert_eq!(SitePath::parse("/").to_text(), "/");
    assert_eq!(SitePath::parse("/a").to_text(), "/a");
    assert_eq!(SitePath::new().to_text(), "");
    assert_eq!(SitePath::parse("./a").to_text(), "./a");
}

#[test]
fn extension_is_what_follows_the_last_dot() {
    assert!(SitePath::parse("index.md").has_extension("md"));
    assert!(!SitePath::parse("index.md").has_extension("html"));
    assert!(SitePath::parse("a/b.tar.gz").has_extension("gz"));
    assert!(!SitePath::parse("a/b.tar.gz").has_extension("tar.gz"));
    assert!(!SitePath::parse(".md").has_extension("md"));
    assert!(!SitePath::parse("md").has_extension("md"));
    assert!(SitePath::parse("foo.").has_extension(""));
    assert!(!SitePath::parse("a.md/..").has_extension("md"));
    assert!(!SitePath::new().has_extension(""));
}

#[test]
fn with_extension_agrees_with_std() {
    for text in ["index.md", "a/b.tar.gz", ".md", "plain", "foo.", "dir/sub.dir/file", "x/..", "", "/", "."] {
        for ext in ["html", "md", ""] {
            let ours = SitePath::parse(text).with_extension(ext);
            let theirs = std::path::Path::new(text).with_extension(ext);
            assert_eq!(ours, SitePath::parse(&theirs.to_string_lossy()), "for {:?} {:?}", text, ext);
        }
    }
    assert_eq!(SitePath::parse("index.md").with_extension("html").to_text(), "index.html");
    assert_eq!(SitePath::parse(".md").with_extension("html").to_text(), ".md.html");
}

#[test]
fn join_follows_std() {
    let root = SitePath::parse("/site");
    assert_eq!(root.join(&SitePath::parse("a/b")).to_text(), "/site/a/b");
    assert_eq!(root.join(&SitePath::parse("/etc/passwd")).to_text(), "/etc/passwd");
    assert_eq!(root.join(&SitePath::new()), root);
    assert_eq!(root.child("x").to_text(), "/site/x");
}

#[test]
fn parent_and_file_name() {
    assert_eq!(SitePath::parse("a/b/c").parent(), SitePath::parse("a/b"));
    assert_eq!(SitePath::parse("a").parent(), SitePath::new());
    assert_eq!(SitePath::new().parent(), SitePath::new());
    assert_eq!(SitePath::parse("a/b.txt").file_name(), Some("b.txt".to_string()));
    assert_eq!(SitePath::parse("a/..").file_name(), None);
    assert_eq!(SitePath::parse("/").file_name(), None);
    assert_eq!(SitePath::new().file_name(), None);
}

#[test]
fn ancestors_are_prefixes() {
    let root = SitePath::parse("/home/me/site");
    assert!(root.is_ancestor_of(&root));
    assert!(SitePath::parse("/home").is_ancestor_of(&root));
    assert!(SitePath::parse("/").is_ancestor_of(&root));
    assert!(!SitePath::parse("/home/you").is_ancestor_of(&root));
    assert!(!root.is_ancestor_of(&SitePath::parse("/home")));
    // the empty path stands above relative paths only
    assert!(!SitePath::new().is_ancestor_of(&root));
    assert!(SitePath::new().is_ancestor_of(&SitePath::parse("a/b")));
    assert!(SitePath::new().is_ancestor_of(&SitePath::new()));
    assert!(root.starts_with(&SitePath::parse("/home/me")));
    assert!(root.same(&SitePath::parse("/home//me/site/")));
    assert!(!root.same(&SitePath::parse("/home/me")));
    assert!(root.is_absolute());
    assert!(!SitePath::parse("a").is_absolute());
    assert_eq!(root.duplicate(), root);
}

#[test]
fn replace_all_replaces_every_occurrence() {
    assert_eq!(replace_all("a $t b $t", "$t", "X"), "a X b X");
    assert_eq!(replace_all("aaa", "aa", "b"), "ba");
    assert_eq!(replace_all("abc", "x", "y"), "abc");
    assert_eq!(replace_all("", "x", "y"), "");
    assert_eq!(replace_all("abc", "", "x"), "abc");
    assert_eq!(replace_all("xx", "x", ""), "");
    assert_eq!(replace_all("$title", "$title", "$title$title"), "$title$title");
    assert_eq!(replace_all("héllo wörld", "ö", "o"), "héllo world");
    for (text, pattern, with) in [("a.b.c", ".", "::"), ("banana", "ana", "-"), ("$$$", "$$", "$")] {
        assert_eq!(replace_all(text, pattern, with), text.replace(pattern, with));
    }
}

#[test]
fn text_conversions_round_trip() {
    let v = chars_of("héllo");
    assert_eq!(v, vec!['h', 'é', 'l', 'l', 'o']);
    assert_eq!(string_of(&v, 1, 4), "éll");
    assert_eq!(string_of(&v, 2, 2), "");
}
