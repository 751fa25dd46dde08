//! What one path of a site turns into: the classification of a path, the
//! rendering of a Markdown source with its front-matter and layout, and the
//! file operation that puts an output on disk.

use vstd::prelude::*;
use vstd::string::*;
use crate::site_path::{
    components, extension, file_name, is_normal, joined, last_dot, lemma_last_dot_bound,
    name_stem, with_extension, written, SitePath,
};
use crate::text::{chars_of, replace_all, replaced};

verus! {

/// The extension of Markdown sources.
pub open spec fn md() -> Seq<char> {
    seq!['m', 'd']
}

/// The extension of every rendered page.
pub open spec fn html() -> Seq<char> {
    seq!['h', 't', 'm', 'l']
}

/// The placeholder that a layout holds for the page title.
pub open spec fn title_mark() -> Seq<char> {
    seq!['$', 't', 'i', 't', 'l', 'e']
}

/// The placeholder that a layout holds for the rendered page.
pub open spec fn content_mark() -> Seq<char> {
    seq!['$', 'c', 'o', 'n', 't', 'e', 'n', 't']
}

/// What stands at a path of the site, as the file system reports it.
#[derive(Clone, Copy, Debug, PartialEq, Eq)]
pub enum EntryKind {
    /// Nothing is there.
    Missing,
    /// A directory.
    Dir,
    /// A regular file.
    File,
    /// Something else that exists.
    Other,
}

/// The things we might return from trying to render a file.
#[derive(Clone, Debug, PartialEq, Eq)]
pub enum RenderOutput {
    /// Content rendered from a source file, with the path it goes to.
    Rendered(SitePath, String),
    /// Content that the preview server returns but that is never written
    /// to a file.
    Hidden(SitePath, String),
    /// The raw contents of the file at the given path.
    RawFile(SitePath),
    /// Nothing: the file is not output, the preview server answers 404.
    NoOutput,
    /// A directory, which the build has to create.
    Dir(SitePath),
}

/// A `RenderOutput` as plain values.
pub ghost enum OutputView {
    Rendered(Seq<Seq<char>>, Seq<char>),
    Hidden(Seq<Seq<char>>, Seq<char>),
    RawFile(Seq<Seq<char>>),
    NoOutput,
    Dir(Seq<Seq<char>>),
}

impl View for RenderOutput {
    type V = OutputView;

    open spec fn view(&self) -> OutputView {
        match *self {
            RenderOutput::Rendered(path, content) => OutputView::Rendered(path@, content@),
            RenderOutput::Hidden(path, content) => OutputView::Hidden(path@, content@),
            RenderOutput::RawFile(path) => OutputView::RawFile(path@),
            RenderOutput::NoOutput => OutputView::NoOutput,
            RenderOutput::Dir(path) => OutputView::Dir(path@),
        }
    }
}

/// Why a page could not be rendered: the cause as text, and the path.
#[derive(Clone, Debug, PartialEq, Eq)]
pub enum RenderError {
    /// A source or layout file could not be read.
    FileRead(String, SitePath),
    /// The Markdown parser refused the source.
    MarkdownParse(String, SitePath),
    /// The front-matter is not the TOML that a page may carry.
    FrontmatterParse(String, SitePath),
}

/// A `RenderError` as plain values.
pub ghost enum ErrorView {
    FileRead(Seq<char>, Seq<Seq<char>>),
    MarkdownParse(Seq<char>, Seq<Seq<char>>),
    FrontmatterParse(Seq<char>, Seq<Seq<char>>),
}

impl View for RenderError {
    type V = ErrorView;

    open spec fn view(&self) -> ErrorView {
        match *self {
            RenderError::FileRead(cause, path) => ErrorView::FileRead(cause@, path@),
            RenderError::MarkdownParse(cause, path) => ErrorView::MarkdownParse(cause@, path@),
            RenderError::FrontmatterParse(cause, path) => ErrorView::FrontmatterParse(
                cause@,
                path@,
            ),
        }
    }
}

/// The text of a render error, as it is shown to the user.
pub open spec fn error_text(e: ErrorView) -> Seq<char> {
    match e {
        ErrorView::FileRead(cause, path) => "Error reading "@ + written(path) + ": "@ + cause,
        ErrorView::MarkdownParse(cause, path) => "Error parsing Markdown "@ + written(path) + ": "@
            + cause,
        ErrorView::FrontmatterParse(cause, path) => "Error parsing frontmatter in "@ + written(
            path,
        ) + ": "@ + cause,
    }
}

impl RenderError {
    /// A copy of this error.
    pub fn duplicate(&self) -> (e: RenderError)
        ensures
            e@ == self@,
    {
        match self {
            RenderError::FileRead(cause, path) => RenderError::FileRead(
                cause.clone(),
                path.duplicate(),
            ),
            RenderError::MarkdownParse(cause, path) => RenderError::MarkdownParse(
                cause.clone(),
                path.duplicate(),
            ),
            RenderError::FrontmatterParse(cause, path) => RenderError::FrontmatterParse(
                cause.clone(),
                path.duplicate(),
            ),
        }
    }

    /// The message for the user: what failed, on which path, and why.
    pub fn message(&self) -> (s: String)
        ensures
            s@ == error_text(self@),
    {
        let (head, cause, path) = match self {
            RenderError::FileRead(cause, path) => ("Error reading ", cause, path),
            RenderError::MarkdownParse(cause, path) => ("Error parsing Markdown ", cause, path),
            RenderError::FrontmatterParse(cause, path) => (
                "Error parsing frontmatter in ",
                cause,
                path,
            ),
        };
        let mut s = head.to_owned();
        let shown = path.to_text();
        s.append(shown.as_str());
        s.append(": ");
        s.append(cause.as_str());
        s
    }
}

impl RenderOutput {
    /// A copy of this output.
    pub fn duplicate(&self) -> (o: RenderOutput)
        ensures
            o@ == self@,
    {
        match self {
            RenderOutput::Rendered(path, content) => RenderOutput::Rendered(
                path.duplicate(),
                content.clone(),
            ),
            RenderOutput::Hidden(path, content) => RenderOutput::Hidden(
                path.duplicate(),
                content.clone(),
            ),
            RenderOutput::RawFile(path) => RenderOutput::RawFile(path.duplicate()),
            RenderOutput::NoOutput => RenderOutput::NoOutput,
            RenderOutput::Dir(path) => RenderOutput::Dir(path.duplicate()),
        }
    }
}

/// One change to the disk that a build asks for.
#[derive(Clone, Debug, PartialEq, Eq)]
pub enum FileOp {
    /// Remove the directory at the path with all it holds.
    RemoveDirAll(SitePath),
    /// Remove the file at the path.
    RemoveFile(SitePath),
    /// Write the text to the file at the path.
    Write(SitePath, String),
    /// Copy the file at the first path to the second, byte for byte.
    Copy(SitePath, SitePath),
    /// Create the directory at the path.
    CreateDir(SitePath),
    /// Do nothing.
    Nothing,
}

/// A `FileOp` as plain values.
pub ghost enum FileOpView {
    RemoveDirAll(Seq<Seq<char>>),
    RemoveFile(Seq<Seq<char>>),
    Write(Seq<Seq<char>>, Seq<char>),
    Copy(Seq<Seq<char>>, Seq<Seq<char>>),
    CreateDir(Seq<Seq<char>>),
    Nothing,
}

impl View for FileOp {
    type V = FileOpView;

    open spec fn view(&self) -> FileOpView {
        match *self {
            FileOp::RemoveDirAll(path) => FileOpView::RemoveDirAll(path@),
            FileOp::RemoveFile(path) => FileOpView::RemoveFile(path@),
            FileOp::Write(path, text) => FileOpView::Write(path@, text@),
            FileOp::Copy(from, to) => FileOpView::Copy(from@, to@),
            FileOp::CreateDir(path) => FileOpView::CreateDir(path@),
            FileOp::Nothing => FileOpView::Nothing,
        }
    }
}

/// What putting `output` under `target` asks of the disk: rendered content
/// is written, a raw file is copied from under `root`, a directory is
/// created, and hidden or empty output changes nothing.
pub open spec fn operation(output: OutputView, root: Seq<Seq<char>>, target: Seq<Seq<char>>)
    -> FileOpView {
    match output {
        OutputView::Rendered(path, content) => FileOpView::Write(joined(target, path), content),
        OutputView::Hidden(_, _) => FileOpView::Nothing,
        OutputView::NoOutput => FileOpView::Nothing,
        OutputView::RawFile(path) => FileOpView::Copy(joined(root, path), joined(target, path)),
        OutputView::Dir(path) => FileOpView::CreateDir(joined(target, path)),
    }
}

impl RenderOutput {
    /// The change to the disk that puts this output under `target`, for a
    /// site whose sources lie under `root`.
    pub fn file_operation(&self, root: &SitePath, target: &SitePath) -> (op: FileOp)
        ensures
            op@ == operation(self@, root@, target@),
    {
        match self {
            RenderOutput::Rendered(path, content) => FileOp::Write(
                target.join(path),
                content.clone(),
            ),
            RenderOutput::Hidden(_, _) => FileOp::Nothing,
            RenderOutput::NoOutput => FileOp::Nothing,
            RenderOutput::RawFile(path) => FileOp::Copy(root.join(path), target.join(path)),
            RenderOutput::Dir(path) => FileOp::CreateDir(target.join(path)),
        }
    }
}

/// Whether a component hides the path it occurs in: `..`, or a name that
/// starts with an underscore.
pub open spec fn hides(segment: Seq<char>) -> bool {
    segment == seq!['.', '.'] || (segment.len() > 0 && segment[0] == '_')
}

/// Whether some component of the path hides it.
pub open spec fn is_skipped(path: Seq<Seq<char>>) -> bool {
    exists|i: int| 0 <= i < path.len() && hides(#[trigger] path[i])
}

/// If any component of the path starts with an underscore we skip the path,
/// and also if somebody has put `..` in it (the preview server then answers
/// 404).
pub fn skipped_path(source: &SitePath) -> (r: bool)
    ensures
        r == is_skipped(source@),
{
    let mut i: usize = 0;
    while i < source.len()
        invariant
            i <= source@.len(),
            forall|k: int| 0 <= k < i ==> !hides(#[trigger] source@[k]),
        decreases source@.len() - i,
    {
        let segment = chars_of(source.segment(i).as_str());
        let dots = segment.len() == 2 && segment[0] == '.' && segment[1] == '.';
        let private = segment.len() > 0 && segment[0] == '_';
        proof {
            if dots {
                assert(segment@ =~= seq!['.', '.']);
            }
            if segment@ == seq!['.', '.'] {
                assert(segment@.len() == 2);
            }
            assert((dots || private) == hides(source@[i as int]));
        }
        if dots || private {
            return true;
        }
        i += 1;
    }
    false
}

/// What the path classifier says of one path.
#[derive(Clone, Debug, PartialEq, Eq)]
pub enum Verdict {
    /// The path gives nothing.
    NoOutput,
    /// The path is a directory to create.
    Dir(SitePath),
    /// The file at the path is copied as it is.
    RawFile(SitePath),
    /// The Markdown source at the given path is rendered.
    Markdown(SitePath),
}

/// A `Verdict` as plain values.
pub ghost enum VerdictView {
    NoOutput,
    Dir(Seq<Seq<char>>),
    RawFile(Seq<Seq<char>>),
    Markdown(Seq<Seq<char>>),
}

impl View for Verdict {
    type V = VerdictView;

    open spec fn view(&self) -> VerdictView {
        match *self {
            Verdict::NoOutput => VerdictView::NoOutput,
            Verdict::Dir(path) => VerdictView::Dir(path@),
            Verdict::RawFile(path) => VerdictView::RawFile(path@),
            Verdict::Markdown(path) => VerdictView::Markdown(path@),
        }
    }
}

/// The output that a verdict other than `Markdown` stands for; a Markdown
/// source gives nothing until it is rendered.
pub open spec fn verdict_output(v: VerdictView) -> OutputView {
    match v {
        VerdictView::Dir(path) => OutputView::Dir(path),
        VerdictView::RawFile(path) => OutputView::RawFile(path),
        _ => OutputView::NoOutput,
    }
}

impl Verdict {
    /// The output that this verdict stands for without any rendering.
    pub fn into_output(self) -> (output: RenderOutput)
        ensures
            output@ == verdict_output(self@),
    {
        match self {
            Verdict::Dir(path) => RenderOutput::Dir(path),
            Verdict::RawFile(path) => RenderOutput::RawFile(path),
            _ => RenderOutput::NoOutput,
        }
    }
}

/// The classification of `source`, where `kind` stands at that path and
/// `sibling` at the same path with the extension `md`.
///
/// Hidden paths come first, then directories. A file that exists is rendered
/// if it is Markdown and copied otherwise; the preview never serves a
/// Markdown source under its own name. Only the preview looks at `sibling`:
/// a missing `.html` path whose Markdown sibling exists is rendered from it.
pub open spec fn classified(
    source: Seq<Seq<char>>,
    kind: EntryKind,
    sibling: EntryKind,
    preview: bool,
) -> VerdictView {
    if is_skipped(source) {
        VerdictView::NoOutput
    } else if kind is Dir {
        VerdictView::Dir(source)
    } else if kind !is Missing {
        if extension(source) == Some(md()) {
            if preview {
                VerdictView::NoOutput
            } else {
                VerdictView::Markdown(source)
            }
        } else {
            VerdictView::RawFile(source)
        }
    } else if preview && extension(source) == Some(html()) && sibling !is Missing {
        VerdictView::Markdown(with_extension(source, md()))
    } else {
        VerdictView::NoOutput
    }
}

/// The one classification routine behind the build and the preview.
pub fn classify(source: SitePath, kind: EntryKind, sibling: EntryKind, preview: bool) -> (v:
    Verdict)
    ensures
        v@ == classified(source@, kind, sibling, preview),
{
    proof {
        reveal_strlit("md");
        reveal_strlit("html");
        assert("md"@ =~= md());
        assert("html"@ =~= html());
    }
    if skipped_path(&source) {
        return Verdict::NoOutput;
    }
    match kind {
        EntryKind::Dir => Verdict::Dir(source),
        EntryKind::File | EntryKind::Other => {
            if source.has_extension("md") {
                if preview {
                    Verdict::NoOutput
                } else {
                    Verdict::Markdown(source)
                }
            } else {
                Verdict::RawFile(source)
            }
        },
        EntryKind::Missing => {
            let found = match sibling {
                EntryKind::Missing => false,
                _ => true,
            };
            if preview && found && source.has_extension("html") {
                Verdict::Markdown(source.with_extension("md"))
            } else {
                Verdict::NoOutput
            }
        },
    }
}

/// The classification that the preview server uses for a requested path:
/// `sibling` is what stands at the same path with the extension `md`.
pub fn server_render(source: SitePath, kind: EntryKind, sibling: EntryKind) -> (v: Verdict)
    ensures
        v@ == classified(source@, kind, sibling, true),
{
    classify(source, kind, sibling, true)
}

/// The classification that the build uses for a path of the source tree.
pub fn file_render(source: SitePath, kind: EntryKind) -> (v: Verdict)
    ensures
        v@ == classified(source@, kind, EntryKind::Missing, false),
        forall|sibling: EntryKind| v@ == classified(source@, kind, sibling, false),
{
    classify(source, kind, EntryKind::Missing, false)
}

/// What reading a file gave: its text, or the cause of the failure.
pub open spec fn read_view(read: Result<String, String>) -> Result<Seq<char>, Seq<char>> {
    match read {
        Ok(text) => Ok(text@),
        Err(cause) => Err(cause@),
    }
}

/// The result of a rendering as plain values.
pub open spec fn outcome_view(r: Result<RenderOutput, RenderError>) -> Result<
    OutputView,
    ErrorView,
> {
    match r {
        Ok(output) => Ok(output@),
        Err(e) => Err(e@),
    }
}

/// The constructs that the Markdown parser is asked for beyond CommonMark.
#[derive(Clone, Copy, Debug, PartialEq, Eq)]
pub struct MarkdownOptions {
    /// Front-matter blocks at the top of a document.
    pub frontmatter: bool,
    /// GitHub-flavoured tables.
    pub gfm_table: bool,
}

/// The options every page of a site is rendered with: front-matter and
/// tables are on.
pub fn markdown_options() -> (options: MarkdownOptions)
    ensures
        options.frontmatter,
        options.gfm_table,
{
    MarkdownOptions { frontmatter: true, gfm_table: true }
}

/// The message with which the `markdown` crate refuses a document.
#[verifier::external_type_specification]
#[verifier::external_body]
pub struct ExMessage(markdown::message::Message);

/// A parsed TOML document, as the `toml` crate holds it.
#[verifier::external_type_specification]
#[verifier::external_body]
pub struct ExTomlValue(toml::Value);

/// The error with which the `toml` crate refuses a document.
#[verifier::external_type_specification]
#[verifier::external_body]
pub struct ExTomlError(toml::de::Error);

/// The HTML that `markdown::to_html_with_options` makes of `text` with the
/// two constructs switched as given and every other option at its default;
/// `None` where it refuses the text.
pub uninterp spec fn markdown_html(text: Seq<char>, frontmatter: bool, gfm_table: bool) -> Option<
    Seq<char>,
>;

/// The top-level nodes of the tree that `markdown::to_mdast` makes of
/// `text`, each as the text of a TOML front-matter node or `None` for any
/// other node; `None` where it refuses the text.
pub uninterp spec fn markdown_blocks(text: Seq<char>, frontmatter: bool, gfm_table: bool) -> Option<
    Seq<Option<Seq<char>>>,
>;

/// A value of a TOML table, as far as front-matter looks at it.
pub ghost enum FieldValue {
    Text(Seq<char>),
    Flag(bool),
    Other,
}

/// The entries of the table that `toml::from_str` reads from `text`; `None`
/// where it refuses the text.
pub uninterp spec fn toml_document(text: Seq<char>) -> Option<Map<Seq<char>, FieldValue>>;

/// The entries of a TOML value that is a table, by key.
pub uninterp spec fn toml_entries(value: toml::Value) -> Map<Seq<char>, FieldValue>;

/// One entry of a TOML table, or its absence.
pub enum TomlField {
    Absent,
    Text(String),
    Flag(bool),
    Other,
}

impl View for TomlField {
    type V = Option<FieldValue>;

    open spec fn view(&self) -> Option<FieldValue> {
        match *self {
            TomlField::Absent => None,
            TomlField::Text(text) => Some(FieldValue::Text(text@)),
            TomlField::Flag(flag) => Some(FieldValue::Flag(flag)),
            TomlField::Other => Some(FieldValue::Other),
        }
    }
}

/// The views of the blocks that the Markdown tree wrapper hands out.
pub open spec fn blocks_view(blocks: Seq<Option<String>>) -> Seq<Option<Seq<char>>> {
    Seq::new(
        blocks.len(),
        |i: int|
            match blocks[i] {
                Some(text) => Some(text@),
                None => None,
            },
    )
}

/// Calls `markdown::to_html_with_options`. The result is the HTML that the
/// crate makes of the text under these options, which only depends on the
/// text and the options.
#[verifier::external_body]
fn markdown_to_html(text: &str, options: MarkdownOptions) -> (r: Result<
    String,
    markdown::message::Message,
>)
    ensures
        match r {
            Ok(html) => markdown_html(text@, options.frontmatter, options.gfm_table) == Some(
                html@,
            ),
            Err(_) => markdown_html(text@, options.frontmatter, options.gfm_table) is None,
        },
{
    let constructs = markdown::Constructs {
        frontmatter: options.frontmatter,
        gfm_table: options.gfm_table,
        ..Default::default()
    };
    let parse = markdown::ParseOptions { constructs, ..Default::default() };
    markdown::to_html_with_options(text, &markdown::Options { parse, ..Default::default() })
}

/// Calls `markdown::to_mdast` and hands out the children of the root node:
/// the text of each TOML front-matter node, `None` for every other node.
#[verifier::external_body]
fn markdown_top_level(text: &str, options: MarkdownOptions) -> (r: Result<
    Vec<Option<String>>,
    markdown::message::Message,
>)
    ensures
        match r {
            Ok(blocks) => markdown_blocks(text@, options.frontmatter, options.gfm_table) == Some(
                blocks_view(blocks@),
            ),
            Err(_) => markdown_blocks(text@, options.frontmatter, options.gfm_table) is None,
        },
{
    let constructs = markdown::Constructs {
        frontmatter: options.frontmatter,
        gfm_table: options.gfm_table,
        ..Default::default()
    };
    let parse = markdown::ParseOptions { constructs, ..Default::default() };
    let tree = markdown::to_mdast(text, &parse)?;
    let children = tree.children().map(|c| c.as_slice()).unwrap_or(&[]);
    Ok(children.iter().map(|node| match node {
        markdown::mdast::Node::Toml(toml) => Some(toml.value.clone()),
        _ => None,
    }).collect())
}

/// The text of a `markdown` message, as its `Display` writes it.
#[verifier::external_body]
fn message_text(message: &markdown::message::Message) -> (text: String) {
    message.to_string()
}

/// Calls `toml::from_str` for a `toml::Value`: the document as a table.
#[verifier::external_body]
fn toml_parse(text: &str) -> (r: Result<toml::Value, toml::de::Error>)
    ensures
        match r {
            Ok(value) => toml_document(text@) == Some(toml_entries(value)),
            Err(_) => toml_document(text@) is None,
        },
{
    toml::from_str::<toml::Value>(text)
}

/// Calls `toml::Value::get` with a key: the entry of the table under that
/// key, a string or a boolean with what it holds, any other value as
/// `Other`.
#[verifier::external_body]
fn toml_field(value: &toml::Value, key: &str) -> (field: TomlField)
    ensures
        field@ == if toml_entries(*value).contains_key(key@) {
            Some(toml_entries(*value)[key@])
        } else {
            None
        },
{
    match value.get(key) {
        None => TomlField::Absent,
        Some(toml::Value::String(text)) => TomlField::Text(text.clone()),
        Some(toml::Value::Boolean(flag)) => TomlField::Flag(*flag),
        Some(_) => TomlField::Other,
    }
}

/// The text of a `toml` error, as its `Display` writes it.
#[verifier::external_body]
fn toml_error_text(error: &toml::de::Error) -> (text: String) {
    error.to_string()
}

/// The front-matter of a page. All of it is optional.
#[derive(Clone, Debug, PartialEq, Eq)]
pub struct Frontmatter {
    /// The layout to wrap the page in, as a path relative to the site root.
    pub layout: Option<String>,
    /// The title of the page; empty where there is none.
    pub title: Option<String>,
    /// `false` keeps the page out of the built site.
    pub published: Option<bool>,
}

/// A `Frontmatter` as plain values.
pub ghost struct FrontmatterView {
    pub layout: Option<Seq<char>>,
    pub title: Option<Seq<char>>,
    pub published: Option<bool>,
}

/// The text of an optional string.
pub open spec fn optional_text(o: Option<String>) -> Option<Seq<char>> {
    match o {
        Some(text) => Some(text@),
        None => None,
    }
}

impl View for Frontmatter {
    type V = FrontmatterView;

    open spec fn view(&self) -> FrontmatterView {
        FrontmatterView {
            layout: optional_text(self.layout),
            title: optional_text(self.title),
            published: self.published,
        }
    }
}

/// The entry under `key` read as an optional string: `None` where the
/// entry holds something else.
pub open spec fn text_entry(entries: Map<Seq<char>, FieldValue>, key: Seq<char>) -> Option<
    Option<Seq<char>>,
> {
    if !entries.contains_key(key) {
        Some(None)
    } else {
        match entries[key] {
            FieldValue::Text(text) => Some(Some(text)),
            _ => None,
        }
    }
}

/// The entry under `key` read as an optional boolean: `None` where the
/// entry holds something else.
pub open spec fn flag_entry(entries: Map<Seq<char>, FieldValue>, key: Seq<char>) -> Option<
    Option<bool>,
> {
    if !entries.contains_key(key) {
        Some(None)
    } else {
        match entries[key] {
            FieldValue::Flag(flag) => Some(Some(flag)),
            _ => None,
        }
    }
}

/// The front-matter that a TOML table stands for: `layout` and `title` are
/// strings, `published` is a boolean, each may be missing, other keys are
/// ignored. `None` where one of the three holds a value of another type.
pub open spec fn decoded(entries: Map<Seq<char>, FieldValue>) -> Option<FrontmatterView> {
    match (
        text_entry(entries, "layout"@),
        text_entry(entries, "title"@),
        flag_entry(entries, "published"@),
    ) {
        (Some(layout), Some(title), Some(published)) => Some(
            FrontmatterView { layout, title, published },
        ),
        _ => None,
    }
}

/// The first block that is TOML front-matter.
pub open spec fn first_toml(blocks: Seq<Option<Seq<char>>>) -> Option<Seq<char>>
    decreases blocks.len(),
{
    if blocks.len() == 0 {
        None
    } else if blocks[0] is Some {
        blocks[0]
    } else {
        first_toml(blocks.skip(1))
    }
}

/// How the page is published: hidden where the front-matter says
/// `published = false`, rendered otherwise.
pub open spec fn published_as(published: Option<bool>, path: Seq<Seq<char>>, content: Seq<char>)
    -> OutputView {
    if published == Some(false) {
        OutputView::Hidden(path, content)
    } else {
        OutputView::Rendered(path, content)
    }
}

/// The layout `template` with the title and then the content put in the
/// place of their placeholders.
pub open spec fn laid_out(template: Seq<char>, title: Seq<char>, content: Seq<char>) -> Seq<char> {
    replaced(replaced(template, title_mark(), title), content_mark(), content)
}

/// What a page with front-matter `fm` and rendered `content` becomes.
/// `template` is what reading the layout gave; it is looked at only where
/// the front-matter names a layout.
pub open spec fn applied(
    fm: FrontmatterView,
    content: Seq<char>,
    filename: Seq<Seq<char>>,
    root: Seq<Seq<char>>,
    template: Result<Seq<char>, Seq<char>>,
) -> Result<OutputView, ErrorView> {
    let title = match fm.title {
        Some(title) => title,
        None => Seq::empty(),
    };
    let path = with_extension(filename, html());
    match fm.layout {
        Some(layout) => match template {
            Ok(text) => Ok(published_as(fm.published, path, laid_out(text, title, content))),
            Err(cause) => Err(ErrorView::FileRead(cause, joined(root, components(layout)))),
        },
        None => Ok(published_as(fm.published, path, content)),
    }
}

impl Frontmatter {
    /// A copy of this front-matter.
    pub fn duplicate(&self) -> (fm: Frontmatter)
        ensures
            fm@ == self@,
    {
        Frontmatter {
            layout: match &self.layout {
                Some(layout) => Some(layout.clone()),
                None => None,
            },
            title: match &self.title {
                Some(title) => Some(title.clone()),
                None => None,
            },
            published: self.published,
        }
    }

    /// Wraps the rendered `content` of the page `filename` in its layout
    /// and decides whether it is published.
    ///
    /// `template` is what reading the layout file under `root` gave. It is
    /// looked at only where the front-matter names a layout: a failed read
    /// is then the error, with the path of the layout.
    pub fn apply_layout(
        self,
        content: String,
        filename: &SitePath,
        root: &SitePath,
        template: Result<String, String>,
    ) -> (r: Result<RenderOutput, RenderError>)
        ensures
            outcome_view(r) == applied(self@, content@, filename@, root@, read_view(template)),
    {
        proof {
            reveal_strlit("html");
            reveal_strlit("$title");
            reveal_strlit("$content");
            assert("html"@ =~= html());
            assert("$title"@ =~= title_mark());
            assert("$content"@ =~= content_mark());
        }
        let title = match self.title {
            Some(title) => title,
            None => String::new(),
        };
        let wrapped = match self.layout {
            Some(layout) => match template {
                Ok(text) => {
                    let titled = replace_all(text.as_str(), "$title", title.as_str());
                    replace_all(titled.as_str(), "$content", content.as_str())
                },
                Err(cause) => {
                    let at = root.join(&SitePath::parse(layout.as_str()));
                    return Err(RenderError::FileRead(cause, at));
                },
            },
            None => content,
        };
        let path = filename.with_extension("html");
        match self.published {
            Some(false) => Ok(RenderOutput::Hidden(path, wrapped)),
            _ => Ok(RenderOutput::Rendered(path, wrapped)),
        }
    }
}

/// Look for TOML front-matter among the top-level blocks of a document:
/// the first block that is one.
pub fn find_frontmatter(blocks: &Vec<Option<String>>) -> (r: Option<&String>)
    ensures
        match r {
            Some(block) => first_toml(blocks_view(blocks@)) == Some(block@),
            None => first_toml(blocks_view(blocks@)) is None,
        },
{
    let ghost all = blocks_view(blocks@);
    let mut i: usize = 0;
    proof {
        assert(all.skip(0) =~= all);
    }
    while i < blocks.len()
        invariant
            i <= blocks.len(),
            all == blocks_view(blocks@),
            first_toml(all) == first_toml(all.skip(i as int)),
        decreases blocks.len() - i,
    {
        proof {
            assert(all.skip(i as int)[0] == all[i as int]);
            assert(all.skip(i as int).skip(1) =~= all.skip(i + 1));
        }
        match &blocks[i] {
            Some(block) => {
                return Some(block);
            },
            None => {},
        }
        i += 1;
    }
    None
}

/// A Markdown source after parsing: its HTML and its front-matter.
#[derive(Clone, Debug, PartialEq, Eq)]
pub struct Page {
    /// The Markdown turned into HTML.
    pub html: String,
    /// The front-matter, where the source has one.
    pub frontmatter: Option<Frontmatter>,
}

/// A `Page` as plain values.
pub ghost struct PageView {
    pub html: Seq<char>,
    pub frontmatter: Option<FrontmatterView>,
}

impl View for Page {
    type V = PageView;

    open spec fn view(&self) -> PageView {
        PageView {
            html: self.html@,
            frontmatter: match self.frontmatter {
                Some(fm) => Some(fm@),
                None => None,
            },
        }
    }
}

/// What parsing a Markdown source comes to.
pub ghost enum ParseOutcome {
    Page(PageView),
    MarkdownFailure,
    FrontmatterFailure,
}

/// What parsing `text` comes to: the Markdown parser may refuse it, the
/// first TOML block may be no TOML or hold a field of the wrong type, or
/// there is a page.
pub open spec fn parsed(text: Seq<char>) -> ParseOutcome {
    match (markdown_html(text, true, true), markdown_blocks(text, true, true)) {
        (Some(html), Some(blocks)) => match first_toml(blocks) {
            None => ParseOutcome::Page(PageView { html, frontmatter: None }),
            Some(block) => match toml_document(block) {
                None => ParseOutcome::FrontmatterFailure,
                Some(entries) => match decoded(entries) {
                    None => ParseOutcome::FrontmatterFailure,
                    Some(fm) => ParseOutcome::Page(PageView { html, frontmatter: Some(fm) }),
                },
            },
        },
        _ => ParseOutcome::MarkdownFailure,
    }
}

/// What a parsed page becomes for the file `filename`: without front-matter
/// the HTML as it is, under the file's path with the extension `html`.
pub open spec fn rendered_page(
    page: PageView,
    filename: Seq<Seq<char>>,
    root: Seq<Seq<char>>,
    template: Result<Seq<char>, Seq<char>>,
) -> Result<OutputView, ErrorView> {
    match page.frontmatter {
        Some(fm) => applied(fm, page.html, filename, root, template),
        None => Ok(OutputView::Rendered(with_extension(filename, html()), page.html)),
    }
}

/// Reads the front-matter out of a TOML table.
pub fn decode_frontmatter(value: &toml::Value) -> (r: Result<Frontmatter, String>)
    ensures
        match r {
            Ok(fm) => decoded(toml_entries(*value)) == Some(fm@),
            Err(_) => decoded(toml_entries(*value)) is None,
        },
{
    let layout = match toml_field(value, "layout") {
        TomlField::Absent => None,
        TomlField::Text(text) => Some(text),
        _ => {
            return Err("invalid type: `layout` must be a string".to_owned());
        },
    };
    let title = match toml_field(value, "title") {
        TomlField::Absent => None,
        TomlField::Text(text) => Some(text),
        _ => {
            return Err("invalid type: `title` must be a string".to_owned());
        },
    };
    let published = match toml_field(value, "published") {
        TomlField::Absent => None,
        TomlField::Flag(flag) => Some(flag),
        _ => {
            return Err("invalid type: `published` must be a boolean".to_owned());
        },
    };
    Ok(Frontmatter { layout, title, published })
}

/// Parses the front-matter block `text` of the source at `source`.
pub fn parse_frontmatter(text: &str, source: &SitePath) -> (r: Result<Frontmatter, RenderError>)
    ensures
        match r {
            Ok(fm) => toml_document(text@) matches Some(entries) && decoded(entries) == Some(fm@),
            Err(e) => e matches RenderError::FrontmatterParse(_, at) && at@ == source@ && (
            toml_document(text@) matches Some(entries) ==> decoded(entries) is None),
        },
{
    match toml_parse(text) {
        Ok(value) => match decode_frontmatter(&value) {
            Ok(fm) => Ok(fm),
            Err(cause) => Err(RenderError::FrontmatterParse(cause, source.duplicate())),
        },
        Err(error) => Err(
            RenderError::FrontmatterParse(toml_error_text(&error), source.duplicate()),
        ),
    }
}

/// Turns the Markdown source at `source` into a page. `read` is what
/// reading the file gave: a failed read is the error, with the path.
pub fn render_as_markdown(source: &SitePath, read: Result<String, String>) -> (r: Result<
    Page,
    RenderError,
>)
    ensures
        match read {
            Err(cause) => r matches Err(e) && e@ == ErrorView::FileRead(cause@, source@),
            Ok(text) => match parsed(text@) {
                ParseOutcome::Page(page) => r matches Ok(p) && p@ == page,
                ParseOutcome::MarkdownFailure => r matches Err(RenderError::MarkdownParse(_, at))
                    && at@ == source@,
                ParseOutcome::FrontmatterFailure => r matches Err(
                    RenderError::FrontmatterParse(_, at),
                ) && at@ == source@,
            },
        },
{
    let text = match read {
        Ok(text) => text,
        Err(cause) => {
            return Err(RenderError::FileRead(cause, source.duplicate()));
        },
    };
    let options = markdown_options();
    let html = match markdown_to_html(text.as_str(), options) {
        Ok(html) => html,
        Err(message) => {
            return Err(RenderError::MarkdownParse(message_text(&message), source.duplicate()));
        },
    };
    let blocks = match markdown_top_level(text.as_str(), options) {
        Ok(blocks) => blocks,
        Err(message) => {
            return Err(RenderError::MarkdownParse(message_text(&message), source.duplicate()));
        },
    };
    match find_frontmatter(&blocks) {
        Some(block) => match parse_frontmatter(block.as_str(), source) {
            Ok(fm) => Ok(Page { html, frontmatter: Some(fm) }),
            Err(e) => Err(e),
        },
        None => Ok(Page { html, frontmatter: None }),
    }
}

impl Page {
    /// The layout that the page asks for, as its front-matter writes it: a
    /// path relative to the site root.
    pub fn layout(&self) -> (r: Option<String>)
        ensures
            optional_text(r) == match self@.frontmatter {
                Some(fm) => fm.layout,
                None => None,
            },
    {
        match &self.frontmatter {
            Some(fm) => match &fm.layout {
                Some(layout) => Some(layout.clone()),
                None => None,
            },
            None => None,
        }
    }

    /// What the page becomes for the source file `filename`. `template` is
    /// what reading the layout under `root` gave; it is looked at only
    /// where the page asks for a layout.
    pub fn render(&self, filename: &SitePath, root: &SitePath, template: &Result<String, String>)
        -> (r: Result<RenderOutput, RenderError>)
        ensures
            outcome_view(r) == rendered_page(self@, filename@, root@, read_view(*template)),
    {
        proof {
            reveal_strlit("html");
            assert("html"@ =~= html());
        }
        match &self.frontmatter {
            Some(fm) => {
                let given = match template {
                    Ok(text) => Ok(text.clone()),
                    Err(cause) => Err(cause.clone()),
                };
                fm.duplicate().apply_layout(self.html.clone(), filename, root, given)
            },
            None => Ok(RenderOutput::Rendered(filename.with_extension("html"), self.html.clone())),
        }
    }
}

/// A path with a component `..`, or with a component that starts with an
/// underscore, gives nothing: whatever its extension, whatever stands at
/// it, in the build and in the preview alike.
pub proof fn lemma_hidden_paths_give_nothing(
    source: Seq<Seq<char>>,
    kind: EntryKind,
    sibling: EntryKind,
    preview: bool,
)
    requires
        is_skipped(source),
    ensures
        classified(source, kind, sibling, preview) == VerdictView::NoOutput,
{
}

/// The build and the preview agree on hidden paths and on directories.
pub proof fn lemma_modes_agree(source: Seq<Seq<char>>, kind: EntryKind, sibling: EntryKind)
    requires
        is_skipped(source) || kind is Dir,
    ensures
        classified(source, kind, sibling, true) == classified(source, kind, sibling, false),
{
}

/// A file that exists, is not hidden and is no Markdown source is a raw
/// file, and the build copies it from under the root to the same path
/// under the target.
pub proof fn lemma_raw_files_are_copied(
    source: Seq<Seq<char>>,
    kind: EntryKind,
    sibling: EntryKind,
    preview: bool,
    root: Seq<Seq<char>>,
    target: Seq<Seq<char>>,
)
    requires
        !is_skipped(source),
        kind is File || kind is Other,
        extension(source) != Some(md()),
    ensures
        classified(source, kind, sibling, preview) == VerdictView::RawFile(source),
        operation(verdict_output(VerdictView::RawFile(source)), root, target) == FileOpView::Copy(
            joined(root, source),
            joined(target, source),
        ),
{
}

/// The preview renders a missing `.html` path from the Markdown source of
/// the same name; the build has no such fallback and gives nothing for a
/// path at which nothing stands.
pub proof fn lemma_preview_falls_back_to_markdown(source: Seq<Seq<char>>, sibling: EntryKind)
    requires
        !is_skipped(source),
        extension(source) == Some(html()),
        sibling !is Missing,
    ensures
        classified(source, EntryKind::Missing, sibling, true) == VerdictView::Markdown(
            with_extension(source, md()),
        ),
        classified(source, EntryKind::Missing, sibling, false) == VerdictView::NoOutput,
{
}

/// A Markdown source without front-matter renders to the path of the
/// source with the extension `html`, and its content is exactly what the
/// Markdown parser made of it: no layout is applied.
pub proof fn lemma_plain_page(
    text: Seq<char>,
    filename: Seq<Seq<char>>,
    root: Seq<Seq<char>>,
    template: Result<Seq<char>, Seq<char>>,
)
    requires
        markdown_html(text, true, true) is Some,
        markdown_blocks(text, true, true) is Some,
        first_toml(markdown_blocks(text, true, true)->0) is None,
    ensures
        parsed(text) == ParseOutcome::Page(
            PageView { html: markdown_html(text, true, true)->0, frontmatter: None },
        ),
        rendered_page(parsed(text)->Page_0, filename, root, template) == Ok::<
            OutputView,
            ErrorView,
        >(OutputView::Rendered(with_extension(filename, html()), markdown_html(text, true, true)->0)),
{
}

/// A page whose front-matter says `published = false` is hidden; a page
/// that says `published = true`, or nothing, is rendered. A page with a
/// layout is the layout with the title and the content in the place of
/// their placeholders; a page without one is its content.
pub proof fn lemma_published_decides(
    fm: FrontmatterView,
    content: Seq<char>,
    filename: Seq<Seq<char>>,
    root: Seq<Seq<char>>,
    template: Result<Seq<char>, Seq<char>>,
)
    requires
        applied(fm, content, filename, root, template) is Ok,
    ensures
        fm.published == Some(false) ==> applied(fm, content, filename, root, template)->Ok_0
            is Hidden,
        fm.published != Some(false) ==> applied(fm, content, filename, root, template)->Ok_0
            is Rendered,
        fm.layout is None ==> applied(fm, content, filename, root, template)->Ok_0
            == published_as(fm.published, with_extension(filename, html()), content),
{
}

proof fn lemma_last_dot_after_suffix(stem: Seq<char>)
    ensures
        last_dot(stem + seq!['.'] + html()) == stem.len(),
{
    let name = stem + seq!['.'] + html();
    let n4 = name.drop_last();
    let n3 = n4.drop_last();
    let n2 = n3.drop_last();
    let n1 = n2.drop_last();
    assert(name.last() == 'l');
    assert(n4.last() == 'm');
    assert(n3.last() == 't');
    assert(n2.last() == 'h');
    assert(n1.last() == '.');
    assert(n1.len() == stem.len() + 1);
    assert(last_dot(n1) == stem.len());
    assert(last_dot(n2) == last_dot(n1));
    assert(last_dot(n3) == last_dot(n2));
    assert(last_dot(n4) == last_dot(n3));
    assert(last_dot(name) == last_dot(n4));
}

/// The path of a rendered page always has the extension `html`, whatever
/// the extension of its source was. (The source has a file name, which is
/// not empty.)
pub proof fn lemma_pages_are_html(filename: Seq<Seq<char>>)
    requires
        file_name(filename) is Some,
        filename.last().len() > 0,
    ensures
        extension(with_extension(filename, html())) == Some(html()),
{
    let name = filename.last();
    let stem = name_stem(name);
    let renamed = stem + seq!['.'] + html();
    lemma_last_dot_after_suffix(stem);
    lemma_last_dot_bound(name);
    assert(stem.len() > 0);
    assert(renamed.len() >= 6);
    assert(is_normal(renamed));
    assert(with_extension(filename, html()).last() == renamed);
    assert(renamed.skip(stem.len() as int + 1) =~= html());
}

} // verus!
