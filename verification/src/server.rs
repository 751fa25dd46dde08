//! The preview resolver: which path a request asks for, and how the
//! rendering of that path is answered.

use vstd::prelude::*;
use vstd::string::*;
use crate::renderer::{
    classified, error_text, html, is_skipped, md, rendered_page, EntryKind, ErrorView, OutputView,
    PageView, RenderError, RenderOutput, VerdictView,
};
use crate::site_path::{components, extension, is_absolute, with_extension, SitePath};
use crate::text::{chars_of, string_of};

verus! {

/// What the preview server sends back.
#[derive(Clone, Debug, PartialEq, Eq)]
pub enum Body {
    /// A rendered page.
    Html(String),
    /// The bytes of the file at this path under the site root.
    File(SitePath),
    /// The page that says that nothing was found.
    NotFound,
    /// The text of an error.
    Error(String),
}

/// A `Body` as plain values.
pub ghost enum BodyView {
    Html(Seq<char>),
    File(Seq<Seq<char>>),
    NotFound,
    Error(Seq<char>),
}

impl View for Body {
    type V = BodyView;

    open spec fn view(&self) -> BodyView {
        match *self {
            Body::Html(text) => BodyView::Html(text@),
            Body::File(path) => BodyView::File(path@),
            Body::NotFound => BodyView::NotFound,
            Body::Error(text) => BodyView::Error(text@),
        }
    }
}

/// The answer to one request.
#[derive(Clone, Debug, PartialEq, Eq)]
pub struct Response {
    /// The HTTP status.
    pub status: u16,
    /// What is sent.
    pub body: Body,
}

/// A `Response` as plain values.
pub ghost struct ResponseView {
    pub status: int,
    pub body: BodyView,
}

impl View for Response {
    type V = ResponseView;

    open spec fn view(&self) -> ResponseView {
        ResponseView { status: self.status as int, body: self.body@ }
    }
}

/// The request path without the slash that opens it.
pub open spec fn stripped(request: Seq<char>) -> Seq<char> {
    if request.len() > 0 && request[0] == '/' {
        request.skip(1)
    } else {
        request
    }
}

/// The path under the site root that a request asks for: the default
/// document for `/` and for the empty path, else the path behind the first
/// slash. A path that still starts at the root of the file system names
/// nothing in the site.
pub open spec fn requested(request: Seq<char>, default_document: Seq<Seq<char>>) -> Option<
    Seq<Seq<char>>,
> {
    let rest = stripped(request);
    if rest.len() == 0 {
        Some(default_document)
    } else if is_absolute(components(rest)) {
        None
    } else {
        Some(components(rest))
    }
}

/// The path under the site root that a request asks for, if any.
pub fn request_path(request: &str, default_document: &SitePath) -> (r: Option<SitePath>)
    ensures
        match r {
            Some(path) => requested(request@, default_document@) == Some(path@),
            None => requested(request@, default_document@) is None,
        },
{
    let all = chars_of(request);
    let from: usize = if all.len() > 0 && all[0] == '/' {
        1
    } else {
        0
    };
    let rest = string_of(&all, from, all.len());
    proof {
        assert(all@.subrange(from as int, all.len() as int) =~= stripped(request@));
    }
    if all.len() == from {
        return Some(default_document.duplicate());
    }
    let path = SitePath::parse(rest.as_str());
    if path.is_absolute() {
        None
    } else {
        Some(path)
    }
}

/// The answer to a request whose path was rendered as `render`: 200 with
/// the content of a page, hidden or not, or with a raw file; 404 where the
/// path gives nothing or is a directory; 500 with the text of the error
/// where rendering failed.
pub open spec fn response_for(render: Result<OutputView, ErrorView>) -> ResponseView {
    match render {
        Ok(OutputView::Rendered(_, content)) => ResponseView {
            status: 200,
            body: BodyView::Html(content),
        },
        Ok(OutputView::Hidden(_, content)) => ResponseView {
            status: 200,
            body: BodyView::Html(content),
        },
        Ok(OutputView::RawFile(path)) => ResponseView { status: 200, body: BodyView::File(path) },
        Ok(OutputView::NoOutput) => ResponseView { status: 404, body: BodyView::NotFound },
        Ok(OutputView::Dir(_)) => ResponseView { status: 404, body: BodyView::NotFound },
        Err(e) => ResponseView { status: 500, body: BodyView::Error(error_text(e)) },
    }
}

/// The answer to a request whose path was rendered as `render`.
pub fn respond(render: Result<RenderOutput, RenderError>) -> (response: Response)
    ensures
        response@ == response_for(
            match render {
                Ok(output) => Ok(output@),
                Err(e) => Err(e@),
            },
        ),
{
    match render {
        Ok(RenderOutput::Rendered(_, content)) => Response { status: 200, body: Body::Html(content) },
        Ok(RenderOutput::Hidden(_, content)) => Response { status: 200, body: Body::Html(content) },
        Ok(RenderOutput::RawFile(path)) => Response { status: 200, body: Body::File(path) },
        Ok(RenderOutput::NoOutput) => Response { status: 404, body: Body::NotFound },
        Ok(RenderOutput::Dir(_)) => Response { status: 404, body: Body::NotFound },
        Err(e) => Response { status: 500, body: Body::Error(e.message()) },
    }
}

/// The answer to a request that names nothing in the site.
pub fn not_found() -> (response: Response)
    ensures
        response@ == (ResponseView { status: 404, body: BodyView::NotFound }),
{
    Response { status: 404, body: Body::NotFound }
}

/// A request for a missing `.html` path whose Markdown source exists is
/// answered with status 200 and the rendered page, hidden or not, where the
/// page can be rendered.
pub proof fn lemma_preview_answers_rendered_pages(
    source: Seq<Seq<char>>,
    sibling: EntryKind,
    page: PageView,
    root: Seq<Seq<char>>,
    template: Result<Seq<char>, Seq<char>>,
)
    requires
        !is_skipped(source),
        extension(source) == Some(html()),
        sibling !is Missing,
        rendered_page(page, with_extension(source, md()), root, template) is Ok,
    ensures
        classified(source, EntryKind::Missing, sibling, true) == VerdictView::Markdown(
            with_extension(source, md()),
        ),
        response_for(rendered_page(page, with_extension(source, md()), root, template)).status
            == 200,
        response_for(rendered_page(page, with_extension(source, md()), root, template)).body
            is Html,
        page.frontmatter is None ==> response_for(
            rendered_page(page, with_extension(source, md()), root, template),
        ).body == BodyView::Html(page.html),
{
}

} // verus!
