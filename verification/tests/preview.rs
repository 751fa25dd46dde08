use fleen::renderer::{RenderError, RenderOutput};
use fleen::server::{not_found, request_path, respond, Body, Response};
use fleen::site_path::SitePath;

fn path(text: &str) -> SitePath {
    SitePath::parse(text)
}

#[test]
fn the_root_asks_for_the_default_document() {
    let default = path("index.html");
    assert_eq!(request_path("/", &default), Some(path("index.html")));
    assert_eq!(request_path("", &default), Some(path("index.html")));
}

#[test]
fn a_request_names_the_path_behind_its_first_slash() {
    let default = path("index.html");
    assert_eq!(request_path("/about.html", &default), Some(path("about.html")));
    assert_eq!(request_path("/a/b/c.png", &default), Some(path("a/b/c.png")));
    assert_eq!(request_path("about.html", &default), Some(path("about.html")));
    assert_eq!(request_path("/a//b/", &default), Some(path("a/b")));
    assert_eq!(request_path("/../etc/passwd", &default), Some(path("../etc/passwd")));
}

#[test]
fn a_request_cannot_leave_the_site_through_the_root() {
    let default = path("index.html");
    assert_eq!(request_path("//etc/passwd", &default), None);
    assert_eq!(request_path("//", &default), None);
    assert_eq!(request_path("///x", &default), None);
}

#[test]
fn pages_are_answered_with_200() {
    assert_eq!(
        respond(Ok(RenderOutput::Rendered(path("a.html"), "<p>a</p>".to_string()))),
        Response { status: 200, body: Body::Html("<p>a</p>".to_string()) }
    );
    assert_eq!(
        respond(Ok(RenderOutput::Hidden(path("a.html"), "<p>h</p>".to_string()))),
        Response { status: 200, body: Body::Html("<p>h</p>".to_string()) }
    );
    assert_eq!(
        respond(Ok(RenderOutput::RawFile(path("img/a.png")))),
        Response { status: 200, body: Body::File(path("img/a.png")) }
    );
}

#[test]
fn nothing_and_directories_are_answered_with_404() {
    assert_eq!(respond(Ok(RenderOutput::NoOutput)), Response { status: 404, body: Body::NotFound });
    assert_eq!(
        respond(Ok(RenderOutput::Dir(path("dir")))),
        Response { status: 404, body: Body::NotFound }
    );
    assert_eq!(not_found(), Response { status: 404, body: Body::NotFound });
}

#[test]
fn render_errors_are_answered_with_500_and_their_text() {
    assert_eq!(
        respond(Err(RenderError::FrontmatterParse("bad".to_string(), path("a.md")))),
        Response {
            status: 500,
            body: Body::Error("Error parsing frontmatter in a.md: bad".to_string())
        }
    );
}
