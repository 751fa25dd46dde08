use fleen::site_path::SitePath;
use fleen::utils::{
    hex_name, id_for_path, image_file_name, image_markdown, initialize_site, label_for_path,
    new_rng, page_template, random_name, ScaffoldStep, Template,
};

fn path(text: &str) -> SitePath {
    SitePath::parse(text)
}

#[test]
fn labels_and_ids() {
    assert_eq!(label_for_path(&path("/site/dir/page.md")), "page.md");
    assert_eq!(label_for_path(&path("page")), "page");
    assert_eq!(id_for_path(&path("/site/dir/page.md")), "/site/dir/page.md");
    assert_eq!(id_for_path(&path("a/b")), "a/b");
}

#[test]
fn hex_names_spell_their_numbers() {
    assert_eq!(hex_name(&vec![0, 9, 10, 15]), "09af");
    assert_eq!(hex_name(&vec![]), "");
    assert_eq!(hex_name(&vec![1, 2, 3, 4, 5, 6, 7, 8, 11, 12, 13, 14]), "12345678bcde");
}

#[test]
fn random_names_are_eight_hex_digits() {
    let mut rng = new_rng(42);
    let mut seen = Vec::new();
    for _ in 0..20 {
        let name = random_name(&mut rng);
        assert_eq!(name.chars().count(), 8);
        assert!(name.chars().all(|c| "0123456789abcdef".contains(c)));
        seen.push(name);
    }
    // the generator moves on between draws
    assert!(seen.iter().any(|name| *name != seen[0]));
}

#[test]
fn image_names_and_their_markdown() {
    let mut rng = new_rng(7);
    let name = image_file_name(&mut rng);
    assert_eq!(name.len(), "image_".len() + 8 + ".png".len());
    assert!(name.starts_with("image_"));
    assert!(name.ends_with(".png"));
    assert_eq!(image_markdown("image_0a1b2c3d.png"), "![](/images/image_0a1b2c3d.png)");
}

#[test]
fn a_new_site_gets_its_directories_and_files() {
    assert_eq!(
        initialize_site(&path("/new")),
        vec![
            ScaffoldStep::CreateDir(path("/new/_layouts")),
            ScaffoldStep::CreateDir(path("/new/_scripts")),
            ScaffoldStep::CreateDir(path("/new/assets")),
            ScaffoldStep::CreateDir(path("/new/images")),
            ScaffoldStep::WriteFile(path("/new/_layouts/default.html"), Template::DefaultLayout),
            ScaffoldStep::WriteFile(path("/new/_scripts/deploy.sh"), Template::DeployScript),
            ScaffoldStep::WriteFile(path("/new/assets/.keep"), Template::Empty),
            ScaffoldStep::WriteFile(path("/new/images/.keep"), Template::Empty),
        ]
    );
}

#[test]
fn new_pages_start_from_a_template() {
    assert_eq!(page_template("post.md"), Template::MarkdownPage);
    assert_eq!(page_template(".md"), Template::MarkdownPage);
    assert_eq!(page_template("page.html"), Template::DefaultLayout);
    assert_eq!(page_template("notes.txt"), Template::Empty);
    assert_eq!(page_template("md"), Template::Empty);
    assert_eq!(page_template(""), Template::Empty);
    assert_eq!(page_template("a.md.bak"), Template::Empty);
}
