//! The handle of one site: its root, the cached listing of its tree, and
//! the plans for compiling and building it.

use vstd::prelude::*;
use vstd::string::*;
use crate::renderer::{
    classify, error_text, operation, EntryKind, ErrorView, FileOp, FileOpView, OutputView,
    RenderError, RenderOutput, Verdict,
};
use tinyrand::StdRand;
use crate::site_path::{components, file_name, is_ancestor, joined, written, SitePath};
use crate::utils::{
    image_file_name, image_markdown, image_name, is_hex, label_for_path, page_template,
    template_for, ScaffoldStep, ScaffoldView,
};
use crate::source_tree::{
    compiled, current_dir, item_path, lemma_directories_come_first, parents_created,
    well_formed, ItemView, SourceItem, SourceTree,
};

verus! {

/// What can go wrong with a site.
#[derive(Clone, Debug, PartialEq, Eq)]
pub enum FleenError {
    /// The root directory cannot be reached.
    RootDirNonexistence(SitePath),
    /// A new site was asked for in a directory that holds something.
    RootDirPopulated(SitePath),
    /// An operation on a file failed: what was touched, and the cause.
    FileIo(String, String),
    /// The page to create exists already.
    FileExists(SitePath),
    /// The page could not be created.
    FileCreate(SitePath, String),
    /// The site has no image directory.
    NoImageDir,
    /// The clipboard holds no image.
    NoClipboardImage,
    /// A page could not be rendered.
    RenderError(RenderError),
    /// The target of a build lies in the site, or the site in it.
    TargetDir,
    /// Reading or writing the disk failed.
    Io(String),
    /// The site has no deploy script.
    ScriptMissing,
    /// The deploy script failed; what it printed, or why it did not start.
    DeployError(String),
}

/// A `FleenError` as plain values.
pub ghost enum FleenErrorView {
    RootDirNonexistence(Seq<Seq<char>>),
    RootDirPopulated(Seq<Seq<char>>),
    FileIo(Seq<char>, Seq<char>),
    FileExists(Seq<Seq<char>>),
    FileCreate(Seq<Seq<char>>, Seq<char>),
    NoImageDir,
    NoClipboardImage,
    RenderError(ErrorView),
    TargetDir,
    Io(Seq<char>),
    ScriptMissing,
    DeployError(Seq<char>),
}

impl View for FleenError {
    type V = FleenErrorView;

    open spec fn view(&self) -> FleenErrorView {
        match *self {
            FleenError::RootDirNonexistence(path) => FleenErrorView::RootDirNonexistence(path@),
            FleenError::RootDirPopulated(path) => FleenErrorView::RootDirPopulated(path@),
            FleenError::FileIo(what, cause) => FleenErrorView::FileIo(what@, cause@),
            FleenError::FileExists(path) => FleenErrorView::FileExists(path@),
            FleenError::FileCreate(path, cause) => FleenErrorView::FileCreate(path@, cause@),
            FleenError::NoImageDir => FleenErrorView::NoImageDir,
            FleenError::NoClipboardImage => FleenErrorView::NoClipboardImage,
            FleenError::RenderError(e) => FleenErrorView::RenderError(e@),
            FleenError::TargetDir => FleenErrorView::TargetDir,
            FleenError::Io(cause) => FleenErrorView::Io(cause@),
            FleenError::ScriptMissing => FleenErrorView::ScriptMissing,
            FleenError::DeployError(output) => FleenErrorView::DeployError(output@),
        }
    }
}

/// The text of an error, as it is shown to the user.
pub open spec fn fleen_error_text(e: FleenErrorView) -> Seq<char> {
    match e {
        FleenErrorView::RootDirNonexistence(path) => "Can't reach root dir "@ + written(path),
        FleenErrorView::RootDirPopulated(path) =>
            "Root dir is nonempty, you probably don't want to create an app here: "@ + written(
                path,
            ),
        FleenErrorView::FileIo(what, cause) => "IO error on "@ + what + ": "@ + cause,
        FleenErrorView::FileExists(path) => "Can't create "@ + written(path)
            + " because it already exists"@,
        FleenErrorView::FileCreate(path, cause) => "Can't create "@ + written(path) + ": "@
            + cause,
        FleenErrorView::NoImageDir => "Image dir doesn't exist"@,
        FleenErrorView::NoClipboardImage => "No image on clipboard"@,
        FleenErrorView::RenderError(e) => "Render error: "@ + error_text(e),
        FleenErrorView::TargetDir =>
            "Target dir is invalid (can't contain the app dir or vice versa)"@,
        FleenErrorView::Io(cause) => "IO error: "@ + cause,
        FleenErrorView::ScriptMissing => "Deploy script missing! Create _scripts/deploy.sh"@,
        FleenErrorView::DeployError(output) => "Deploy script error:\n\n"@ + output,
    }
}

impl FleenError {
    /// A copy of this error.
    pub fn duplicate(&self) -> (e: FleenError)
        ensures
            e@ == self@,
    {
        match self {
            FleenError::RootDirNonexistence(path) => FleenError::RootDirNonexistence(
                path.duplicate(),
            ),
            FleenError::RootDirPopulated(path) => FleenError::RootDirPopulated(path.duplicate()),
            FleenError::FileIo(what, cause) => FleenError::FileIo(what.clone(), cause.clone()),
            FleenError::FileExists(path) => FleenError::FileExists(path.duplicate()),
            FleenError::FileCreate(path, cause) => FleenError::FileCreate(
                path.duplicate(),
                cause.clone(),
            ),
            FleenError::NoImageDir => FleenError::NoImageDir,
            FleenError::NoClipboardImage => FleenError::NoClipboardImage,
            FleenError::RenderError(e) => FleenError::RenderError(e.duplicate()),
            FleenError::TargetDir => FleenError::TargetDir,
            FleenError::Io(cause) => FleenError::Io(cause.clone()),
            FleenError::ScriptMissing => FleenError::ScriptMissing,
            FleenError::DeployError(output) => FleenError::DeployError(output.clone()),
        }
    }

    /// The message for the user.
    pub fn message(&self) -> (s: String)
        ensures
            s@ == fleen_error_text(self@),
    {
        match self {
            FleenError::RootDirNonexistence(path) => {
                let mut s = "Can't reach root dir ".to_owned();
                s.append(path.to_text().as_str());
                s
            },
            FleenError::RootDirPopulated(path) => {
                let mut s =
                    "Root dir is nonempty, you probably don't want to create an app here: ".to_owned();
                s.append(path.to_text().as_str());
                s
            },
            FleenError::FileIo(what, cause) => {
                let mut s = "IO error on ".to_owned();
                s.append(what.as_str());
                s.append(": ");
                s.append(cause.as_str());
                s
            },
            FleenError::FileExists(path) => {
                let mut s = "Can't create ".to_owned();
                s.append(path.to_text().as_str());
                s.append(" because it already exists");
                s
            },
            FleenError::FileCreate(path, cause) => {
                let mut s = "Can't create ".to_owned();
                s.append(path.to_text().as_str());
                s.append(": ");
                s.append(cause.as_str());
                s
            },
            FleenError::NoImageDir => "Image dir doesn't exist".to_owned(),
            FleenError::NoClipboardImage => "No image on clipboard".to_owned(),
            FleenError::RenderError(e) => {
                let mut s = "Render error: ".to_owned();
                s.append(e.message().as_str());
                s
            },
            FleenError::TargetDir =>
                "Target dir is invalid (can't contain the app dir or vice versa)".to_owned(),
            FleenError::Io(cause) => {
                let mut s = "IO error: ".to_owned();
                s.append(cause.as_str());
                s
            },
            FleenError::ScriptMissing => "Deploy script missing! Create _scripts/deploy.sh".to_owned(),
            FleenError::DeployError(output) => {
                let mut s = "Deploy script error:\n\n".to_owned();
                s.append(output.as_str());
                s
            },
        }
    }
}

/// One line of the listing of the site's tree: a directory's entries stand
/// between its `Dir` and the `CloseDir` that matches it.
#[derive(Clone, Debug, PartialEq, Eq)]
pub enum TreeEntry {
    File(SitePath),
    Dir(SitePath),
    CloseDir,
}

/// A `TreeEntry` as plain values.
pub ghost enum TreeEntryView {
    File(Seq<Seq<char>>),
    Dir(Seq<Seq<char>>),
    CloseDir,
}

impl View for TreeEntry {
    type V = TreeEntryView;

    open spec fn view(&self) -> TreeEntryView {
        match *self {
            TreeEntry::File(path) => TreeEntryView::File(path@),
            TreeEntry::Dir(path) => TreeEntryView::Dir(path@),
            TreeEntry::CloseDir => TreeEntryView::CloseDir,
        }
    }
}

impl TreeEntry {
    /// A copy of this entry.
    pub fn duplicate(&self) -> (e: TreeEntry)
        ensures
            e@ == self@,
    {
        match self {
            TreeEntry::File(path) => TreeEntry::File(path.duplicate()),
            TreeEntry::Dir(path) => TreeEntry::Dir(path.duplicate()),
            TreeEntry::CloseDir => TreeEntry::CloseDir,
        }
    }
}

/// What kind of page to create.
#[derive(Copy, Clone, Debug, PartialEq, Eq)]
pub enum FileType {
    File,
    Dir,
}

/// The views of a sequence of outputs.
pub open spec fn outputs_view(outputs: Seq<RenderOutput>) -> Seq<OutputView> {
    Seq::new(outputs.len(), |i: int| outputs[i]@)
}

/// The views of a sequence of tree entries.
pub open spec fn entries_view(entries: Seq<TreeEntry>) -> Seq<TreeEntryView> {
    Seq::new(entries.len(), |i: int| entries[i]@)
}

/// The views of a sequence of file operations.
pub open spec fn ops_view(ops: Seq<FileOp>) -> Seq<FileOpView> {
    Seq::new(ops.len(), |i: int| ops[i]@)
}

/// Whether the last component of the path starts with a dot.
pub open spec fn is_dotfile(path: Seq<Seq<char>>) -> bool {
    path.len() > 0 && path.last().len() > 0 && path.last()[0] == '.'
}

/// The line of the listing for one item of a walk: directories and their
/// ends always, regular files unless their name starts with a dot, nothing
/// else.
pub open spec fn item_entry(item: ItemView, root: Seq<Seq<char>>) -> Option<TreeEntryView> {
    match item {
        ItemView::Dir(path) => Some(TreeEntryView::Dir(joined(root, path))),
        ItemView::File(path, kind) => if kind is File && !is_dotfile(path) {
            Some(TreeEntryView::File(joined(root, path)))
        } else {
            None
        },
        ItemView::Page(path, _, _) => if !is_dotfile(path) {
            Some(TreeEntryView::File(joined(root, path)))
        } else {
            None
        },
        ItemView::CloseDir => Some(TreeEntryView::CloseDir),
    }
}

/// The lines of the listing for the items of a walk, in order.
pub open spec fn listed(items: Seq<ItemView>, root: Seq<Seq<char>>) -> Seq<TreeEntryView>
    decreases items.len(),
{
    if items.len() == 0 {
        Seq::empty()
    } else {
        match item_entry(items.last(), root) {
            Some(entry) => listed(items.drop_last(), root).push(entry),
            None => listed(items.drop_last(), root),
        }
    }
}

/// `n` ends of directories.
pub open spec fn closing(n: nat) -> Seq<TreeEntryView> {
    Seq::new(n, |i: int| TreeEntryView::CloseDir)
}

/// The listing of the tree under `root` that a walk recorded: the root
/// opens it, every directory still open at the end of the walk is closed,
/// and the root last.
pub open spec fn tree_entries(items: Seq<ItemView>, root: Seq<Seq<char>>) -> Seq<TreeEntryView> {
    seq![TreeEntryView::Dir(root)] + listed(items, root) + closing(current_dir(items).len() + 1)
}

/// Whether a build of the site at `root` may write to `target`: neither
/// is the other, nor lies in it.
pub open spec fn valid_target(root: Seq<Seq<char>>, target: Seq<Seq<char>>) -> bool {
    !is_ancestor(target, root) && !is_ancestor(root, target)
}

/// One entry that the target directory of a build holds before the build.
#[derive(Clone, Debug, PartialEq, Eq)]
pub struct TargetEntry {
    /// Its name in the target directory.
    pub name: String,
    /// Whether it is a directory.
    pub is_dir: bool,
}

/// How one entry of the target directory is removed.
pub open spec fn removal(target: Seq<Seq<char>>, entry: TargetEntry) -> FileOpView {
    if entry.is_dir {
        FileOpView::RemoveDirAll(target.push(entry.name@))
    } else {
        FileOpView::RemoveFile(target.push(entry.name@))
    }
}

/// The operations that empty the target directory.
pub open spec fn cleaning(target: Seq<Seq<char>>, existing: Seq<TargetEntry>) -> Seq<FileOpView> {
    Seq::new(existing.len(), |i: int| removal(target, existing[i]))
}

/// The operations that put the build actions under `target`, in order.
pub open spec fn operations(
    actions: Seq<OutputView>,
    root: Seq<Seq<char>>,
    target: Seq<Seq<char>>,
) -> Seq<FileOpView> {
    Seq::new(actions.len(), |i: int| operation(actions[i], root, target))
}

/// What a build does: `steps` in order, and then, where `failure` holds an
/// error, the build fails with it.
#[derive(Clone, Debug, PartialEq, Eq)]
pub struct BuildPlan {
    /// The changes to the disk, in the order in which they are made.
    pub steps: Vec<FileOp>,
    /// The error that ends the build after the steps, if any.
    pub failure: Option<RenderError>,
}

/// A `BuildPlan` as plain values.
pub ghost struct PlanView {
    pub steps: Seq<FileOpView>,
    pub failure: Option<ErrorView>,
}

impl View for BuildPlan {
    type V = PlanView;

    open spec fn view(&self) -> PlanView {
        PlanView {
            steps: ops_view(self.steps@),
            failure: match self.failure {
                Some(e) => Some(e@),
                None => None,
            },
        }
    }
}

/// The plan of a build into a valid target: the target is emptied, then
/// every build action is carried out in order. Where a page cannot be
/// rendered the target is emptied and nothing is written.
pub open spec fn build_plan(
    root: Seq<Seq<char>>,
    target: Seq<Seq<char>>,
    existing: Seq<TargetEntry>,
    items: Seq<ItemView>,
) -> PlanView {
    match compiled(items, root) {
        Ok(actions) => PlanView {
            steps: cleaning(target, existing) + operations(actions, root, target),
            failure: None,
        },
        Err(e) => PlanView { steps: cleaning(target, existing), failure: Some(e) },
    }
}

/// The directory in which a new page is made: the entry chosen in the
/// tree, or the root where none is chosen. A new directory that is asked
/// for at a file goes beside that file.
pub open spec fn page_dir(
    root: Seq<Seq<char>>,
    file_type: FileType,
    parent: Option<Seq<Seq<char>>>,
    parent_kind: EntryKind,
) -> Seq<Seq<char>> {
    let start = match parent {
        Some(parent) => parent,
        None => root,
    };
    if file_type is Dir && parent_kind is File && start.len() > 0 {
        start.drop_last()
    } else {
        start
    }
}

/// The path that a page has after it is renamed to `name`.
pub open spec fn renamed(path: Seq<Seq<char>>, name: Seq<char>) -> Seq<Seq<char>> {
    let dir = if file_name(path) is Some {
        path.drop_last()
    } else {
        path
    };
    joined(dir, components(name))
}

/// What goes to the clipboard and to the user once an image is saved.
#[derive(Clone, Debug, PartialEq, Eq)]
pub struct Pasted {
    /// The Markdown that shows the image.
    pub clipboard: String,
    /// The message for the user.
    pub message: String,
}

/// The site handle as plain values.
pub ghost struct AppView {
    pub root: Seq<Seq<char>>,
    pub cache: Option<Seq<TreeEntryView>>,
}

/// What a directory chosen for a new site holds.
#[derive(Copy, Clone, Debug, PartialEq, Eq)]
pub enum RootState {
    /// It cannot be read.
    Missing,
    /// It is empty.
    Empty,
    /// It holds something.
    Populated,
}

/// The handle of one site.
#[derive(Debug)]
pub struct FleenApp {
    root: SitePath,
    files_cache: Option<Vec<TreeEntry>>,
}

impl View for FleenApp {
    type V = AppView;

    closed spec fn view(&self) -> AppView {
        AppView {
            root: self.root@,
            cache: match self.files_cache {
                Some(entries) => Some(entries_view(entries@)),
                None => None,
            },
        }
    }
}

proof fn lemma_compiled_error_stays(items: Seq<ItemView>, k: int, root: Seq<Seq<char>>)
    requires
        0 <= k <= items.len(),
        compiled(items.take(k), root) is Err,
    ensures
        compiled(items, root) == compiled(items.take(k), root),
    decreases items.len() - k,
{
    if k == items.len() {
        assert(items.take(k) =~= items);
    } else {
        assert(items.take(k + 1).drop_last() =~= items.take(k));
        lemma_compiled_error_stays(items, k + 1, root);
    }
}

proof fn lemma_outputs_push(outputs: Seq<RenderOutput>, output: RenderOutput)
    ensures
        outputs_view(outputs.push(output)) == outputs_view(outputs).push(output@),
{
    assert(outputs_view(outputs.push(output)) =~= outputs_view(outputs).push(output@));
}

proof fn lemma_entries_push(entries: Seq<TreeEntry>, entry: TreeEntry)
    ensures
        entries_view(entries.push(entry)) == entries_view(entries).push(entry@),
{
    assert(entries_view(entries.push(entry)) =~= entries_view(entries).push(entry@));
}

proof fn lemma_ops_push(ops: Seq<FileOp>, op: FileOp)
    ensures
        ops_view(ops.push(op)) == ops_view(ops).push(op@),
{
    assert(ops_view(ops.push(op)) =~= ops_view(ops).push(op@));
}

fn dotfile(path: &SitePath) -> (r: bool)
    ensures
        r == is_dotfile(path@),
{
    let n = path.len();
    if n == 0 {
        return false;
    }
    let name = path.segment(n - 1).as_str();
    !name.is_empty() && name.get_char(0) == '.'
}

/// The listing of the tree under `root` that `walk` recorded.
fn list_tree(root: &SitePath, walk: &SourceTree) -> (entries: Vec<TreeEntry>)
    requires
        walk.wf(),
    ensures
        entries_view(entries@) == tree_entries(walk@, root@),
{
    let mut entries: Vec<TreeEntry> = Vec::new();
    entries.push(TreeEntry::Dir(root.duplicate()));
    let ghost head = seq![TreeEntryView::Dir(root@)];
    let mut i: usize = 0;
    proof {
        assert(walk@.take(0) =~= Seq::<ItemView>::empty());
        assert(entries_view(entries@) =~= head + listed(walk@.take(0), root@));
    }
    while i < walk.len()
        invariant
            i <= walk@.len(),
            head == seq![TreeEntryView::Dir(root@)],
            entries_view(entries@) == head + listed(walk@.take(i as int), root@),
        decreases walk@.len() - i,
    {
        proof {
            assert(walk@.take(i + 1).drop_last() =~= walk@.take(i as int));
            assert(walk@.take(i + 1).last() == walk@[i as int]);
        }
        let entry = match walk.item(i) {
            SourceItem::Dir(path) => Some(TreeEntry::Dir(root.join(path))),
            SourceItem::File(path, kind) => {
                let regular = match kind {
                    EntryKind::File => true,
                    _ => false,
                };
                if regular && !dotfile(path) {
                    Some(TreeEntry::File(root.join(path)))
                } else {
                    None
                }
            },
            SourceItem::Page(path, _, _) => if !dotfile(path) {
                Some(TreeEntry::File(root.join(path)))
            } else {
                None
            },
            SourceItem::CloseDir => Some(TreeEntry::CloseDir),
        };
        match entry {
            Some(entry) => {
                proof {
                    lemma_entries_push(entries@, entry);
                    assert((head + listed(walk@.take(i as int), root@)).push(entry@) =~= head
                        + listed(walk@.take(i as int), root@).push(entry@));
                }
                entries.push(entry);
            },
            None => {},
        }
        i += 1;
    }
    proof {
        assert(walk@.take(walk@.len() as int) =~= walk@);
    }
    let depth = walk.depth();
    let ghost body = head + listed(walk@, root@);
    let mut k: usize = 0;
    proof {
        assert(body + closing(0) =~= body);
    }
    while k < depth
        invariant
            k <= depth,
            entries_view(entries@) == body + closing(k as nat),
        decreases depth - k,
    {
        proof {
            lemma_entries_push(entries@, TreeEntry::CloseDir);
            assert((body + closing(k as nat)).push(TreeEntryView::CloseDir) =~= body + closing(
                (k + 1) as nat,
            ));
        }
        entries.push(TreeEntry::CloseDir);
        k += 1;
    }
    proof {
        lemma_entries_push(entries@, TreeEntry::CloseDir);
        assert((body + closing(depth as nat)).push(TreeEntryView::CloseDir) =~= body + closing(
            (depth + 1) as nat,
        ));
    }
    entries.push(TreeEntry::CloseDir);
    entries
}

fn copy_entries(entries: &Vec<TreeEntry>) -> (copy: Vec<TreeEntry>)
    ensures
        entries_view(copy@) == entries_view(entries@),
{
    let mut copy: Vec<TreeEntry> = Vec::new();
    let mut i: usize = 0;
    while i < entries.len()
        invariant
            i <= entries.len(),
            entries_view(copy@) == entries_view(entries@).take(i as int),
        decreases entries.len() - i,
    {
        let entry = entries[i].duplicate();
        proof {
            lemma_entries_push(copy@, entry);
            assert(entries_view(entries@).take(i + 1) =~= entries_view(entries@).take(
                i as int,
            ).push(entries@[i as int]@));
        }
        copy.push(entry);
        i += 1;
    }
    proof {
        assert(entries_view(entries@).take(entries.len() as int) =~= entries_view(entries@));
    }
    copy
}

impl FleenApp {
    /// Opens the site at `root`, where `found` is what stands at that path.
    pub fn open(root: SitePath, found: EntryKind) -> (r: Result<FleenApp, FleenError>)
        ensures
            match r {
                Ok(app) => found !is Missing && app@ == (AppView { root: root@, cache: None }),
                Err(e) => found is Missing && e@ == FleenErrorView::RootDirNonexistence(root@),
            },
    {
        match found {
            EntryKind::Missing => Err(FleenError::RootDirNonexistence(root)),
            _ => Ok(FleenApp { root, files_cache: None }),
        }
    }

    /// Makes the handle of a new site at `root`.
    ///
    /// `state` is what the directory holds. Only an empty directory is
    /// given the files of a new site, and `scaffold` is what writing them
    /// gave; it is looked at for an empty directory only.
    pub fn create(root: SitePath, state: RootState, scaffold: Result<(), String>) -> (r: Result<
        FleenApp,
        FleenError,
    >)
        ensures
            match state {
                RootState::Missing => r matches Err(e) && e@
                    == FleenErrorView::RootDirNonexistence(root@),
                RootState::Populated => r matches Err(e) && e@ == FleenErrorView::RootDirPopulated(
                    root@,
                ),
                RootState::Empty => match scaffold {
                    Err(cause) => r matches Err(e) && e@ == FleenErrorView::FileIo(
                        "creating site"@,
                        cause@,
                    ),
                    Ok(_) => r matches Ok(app) && app@ == (AppView { root: root@, cache: None }),
                },
            },
    {
        match state {
            RootState::Missing => Err(FleenError::RootDirNonexistence(root)),
            RootState::Populated => Err(FleenError::RootDirPopulated(root)),
            RootState::Empty => match scaffold {
                Err(cause) => Err(FleenError::FileIo("creating site".to_owned(), cause)),
                Ok(_) => Ok(FleenApp { root, files_cache: None }),
            },
        }
    }

    /// The root of the site.
    pub fn root(&self) -> (root: &SitePath)
        ensures
            root@ == self@.root,
    {
        &self.root
    }

    /// The root of the site, written out.
    pub fn root_path(&self) -> (s: String)
        ensures
            s@ == written(self@.root),
    {
        self.root.to_text()
    }

    /// The directory that holds the images of the site.
    pub fn image_dir(&self) -> (dir: SitePath)
        ensures
            dir@ == self@.root.push("images"@),
    {
        self.root.child("images")
    }

    /// Whether the site has an image directory, where `found` is what
    /// stands at `image_dir()`.
    pub fn image_dir_exists(&self, found: EntryKind) -> (r: bool)
        ensures
            r == (found is Dir),
    {
        match found {
            EntryKind::Dir => true,
            _ => false,
        }
    }

    /// Decides the build action for every entry that `walk` recorded, in
    /// the order of the walk. The first page that cannot be rendered is
    /// the error of the whole.
    pub fn compile(&self, walk: &SourceTree) -> (r: Result<Vec<RenderOutput>, FleenError>)
        requires
            walk.wf(),
        ensures
            match compiled(walk@, self@.root) {
                Ok(actions) => r matches Ok(outputs) && outputs_view(outputs@) == actions,
                Err(e) => r matches Err(FleenError::RenderError(err)) && err@ == e,
            },
            r matches Ok(outputs) ==> forall|j: int|
                0 <= j < outputs.len() ==> parents_created(outputs_view(outputs@), j),
    {
        let mut sources: Vec<RenderOutput> = Vec::new();
        let mut i: usize = 0;
        proof {
            assert(outputs_view(sources@) =~= Seq::<OutputView>::empty());
            assert(walk@.take(0) =~= Seq::<ItemView>::empty());
        }
        while i < walk.len()
            invariant
                i <= walk@.len(),
                compiled(walk@.take(i as int), self@.root) == Ok::<Seq<OutputView>, ErrorView>(
                    outputs_view(sources@),
                ),
            decreases walk@.len() - i,
        {
            proof {
                assert(walk@.take(i + 1).drop_last() =~= walk@.take(i as int));
                assert(walk@.take(i + 1).last() == walk@[i as int]);
            }
            let action: Option<Result<RenderOutput, RenderError>> = match walk.item(i) {
                SourceItem::Dir(path) => Some(
                    Ok(
                        classify(
                            path.duplicate(),
                            EntryKind::Dir,
                            EntryKind::Missing,
                            false,
                        ).into_output(),
                    ),
                ),
                SourceItem::File(path, kind) => Some(
                    Ok(classify(path.duplicate(), *kind, EntryKind::Missing, false).into_output()),
                ),
                SourceItem::Page(path, page, template) => {
                    match classify(path.duplicate(), EntryKind::File, EntryKind::Missing, false) {
                        Verdict::Markdown(source) => match page {
                            Ok(page) => Some(page.render(&source, &self.root, template)),
                            Err(e) => Some(Err(e.duplicate())),
                        },
                        other => Some(Ok(other.into_output())),
                    }
                },
                SourceItem::CloseDir => None,
            };
            match action {
                Some(Ok(output)) => {
                    proof {
                        lemma_outputs_push(sources@, output);
                    }
                    sources.push(output);
                },
                Some(Err(e)) => {
                    proof {
                        lemma_compiled_error_stays(walk@, i + 1, self@.root);
                    }
                    return Err(FleenError::RenderError(e));
                },
                None => {},
            }
            i += 1;
        }
        proof {
            assert(walk@.take(walk@.len() as int) =~= walk@);
            let actions = outputs_view(sources@);
            assert forall|j: int| 0 <= j < actions.len() implies parents_created(actions, j) by {
                lemma_directories_come_first(*walk, self@.root, j);
            }
        }
        Ok(sources)
    }

    /// Whether the listing of the tree has to be made anew before it is
    /// read.
    pub fn cache_is_stale(&self) -> (r: bool)
        ensures
            r == (self@.cache is None),
    {
        self.files_cache.is_none()
    }

    /// Marks the cached listing as stale. Whatever changes the tree (a new
    /// page, a deleted or renamed one, a pasted image) is followed by this
    /// call.
    pub fn invalidate(&mut self)
        ensures
            final(self)@ == (AppView { root: old(self)@.root, cache: None }),
    {
        self.files_cache = None;
    }

    /// Makes the cached listing from `walk` where there is none, or where
    /// `force` asks for it; otherwise the cache stays as it is.
    pub fn refresh_file_cache(&mut self, force: bool, walk: &SourceTree)
        requires
            walk.wf(),
        ensures
            final(self)@.root == old(self)@.root,
            final(self)@.cache == if old(self)@.cache is None || force {
                Some(tree_entries(walk@, old(self)@.root))
            } else {
                old(self)@.cache
            },
    {
        if self.files_cache.is_none() || force {
            let entries = list_tree(&self.root, walk);
            self.files_cache = Some(entries);
        }
    }

    /// The listing of the site's tree: the cached one where there is one,
    /// else the one that `walk` recorded, which is then cached.
    pub fn file_tree_entries(&mut self, walk: &SourceTree) -> (entries: Vec<TreeEntry>)
        requires
            walk.wf(),
        ensures
            final(self)@.root == old(self)@.root,
            final(self)@.cache == Some(entries_view(entries@)),
            entries_view(entries@) == match old(self)@.cache {
                Some(cached) => cached,
                None => tree_entries(walk@, old(self)@.root),
            },
    {
        self.refresh_file_cache(false, walk);
        match &self.files_cache {
            Some(entries) => copy_entries(entries),
            None => Vec::new(),
        }
    }

    /// Whether a build of this site may write to `target`.
    pub fn check_target(&self, target: &SitePath) -> (r: Result<(), FleenError>)
        ensures
            valid_target(self@.root, target@) <==> r is Ok,
            r matches Err(e) ==> e@ == FleenErrorView::TargetDir,
    {
        if self.root.is_ancestor_of(target) || target.is_ancestor_of(&self.root) {
            Err(FleenError::TargetDir)
        } else {
            Ok(())
        }
    }

    /// Plans the build of the site into `target`.
    ///
    /// `existing` is what the target directory holds now and `walk` the
    /// record of the source tree. A target that is the site root, lies in
    /// it or holds it is refused before anything else. Otherwise the plan
    /// empties the target and carries out the build actions in order; where
    /// a page cannot be rendered it empties the target and fails.
    pub fn build_site(&self, target: &SitePath, existing: &Vec<TargetEntry>, walk: &SourceTree)
        -> (r: Result<BuildPlan, FleenError>)
        requires
            walk.wf(),
        ensures
            match r {
                Ok(plan) => valid_target(self@.root, target@) && plan@ == build_plan(
                    self@.root,
                    target@,
                    existing@,
                    walk@,
                ),
                Err(e) => !valid_target(self@.root, target@) && e@ == FleenErrorView::TargetDir,
            },
    {
        match self.check_target(target) {
            Err(e) => {
                return Err(e);
            },
            Ok(_) => {},
        }
        let mut steps: Vec<FileOp> = Vec::new();
        let mut i: usize = 0;
        proof {
            assert(ops_view(steps@) =~= cleaning(target@, existing@.take(0)));
        }
        while i < existing.len()
            invariant
                i <= existing.len(),
                ops_view(steps@) == cleaning(target@, existing@.take(i as int)),
            decreases existing.len() - i,
        {
            let at = target.child(existing[i].name.as_str());
            let op = if existing[i].is_dir {
                FileOp::RemoveDirAll(at)
            } else {
                FileOp::RemoveFile(at)
            };
            proof {
                lemma_ops_push(steps@, op);
                assert(cleaning(target@, existing@.take(i + 1)) =~= cleaning(
                    target@,
                    existing@.take(i as int),
                ).push(removal(target@, existing@[i as int])));
            }
            steps.push(op);
            i += 1;
        }
        proof {
            assert(existing@.take(existing.len() as int) =~= existing@);
        }
        let ghost clean = cleaning(target@, existing@);
        match self.compile(walk) {
            Err(FleenError::RenderError(e)) => Ok(BuildPlan { steps, failure: Some(e) }),
            Err(_) => Ok(BuildPlan { steps, failure: None }),
            Ok(actions) => {
                let mut j: usize = 0;
                proof {
                    assert(clean + operations(outputs_view(actions@).take(0), self@.root, target@)
                        =~= clean);
                }
                while j < actions.len()
                    invariant
                        j <= actions.len(),
                        ops_view(steps@) == clean + operations(
                            outputs_view(actions@).take(j as int),
                            self@.root,
                            target@,
                        ),
                    decreases actions.len() - j,
                {
                    let op = actions[j].file_operation(&self.root, target);
                    proof {
                        lemma_ops_push(steps@, op);
                        let done = outputs_view(actions@).take(j as int);
                        let more = outputs_view(actions@).take(j + 1);
                        assert(more =~= done.push(actions@[j as int]@));
                        assert(operations(more, self@.root, target@) =~= operations(
                            done,
                            self@.root,
                            target@,
                        ).push(op@));
                        assert((clean + operations(done, self@.root, target@)).push(op@) =~= clean
                            + operations(more, self@.root, target@));
                    }
                    steps.push(op);
                    j += 1;
                }
                proof {
                    assert(outputs_view(actions@).take(actions.len() as int) =~= outputs_view(
                        actions@,
                    ));
                }
                Ok(BuildPlan { steps, failure: None })
            },
        }
    }

    /// The path of a new page `name`. `parent` is the entry chosen in the
    /// tree, if any, and `parent_kind` what stands there (at the root,
    /// where nothing is chosen).
    pub fn page_target(
        &self,
        file_type: FileType,
        name: &str,
        parent: Option<&SitePath>,
        parent_kind: EntryKind,
    ) -> (target: SitePath)
        ensures
            target@ == joined(
                page_dir(
                    self@.root,
                    file_type,
                    match parent {
                        Some(parent) => Some(parent@),
                        None => None,
                    },
                    parent_kind,
                ),
                components(name@),
            ),
    {
        let start = match parent {
            Some(parent) => parent.duplicate(),
            None => self.root.duplicate(),
        };
        let beside = match (file_type, parent_kind) {
            (FileType::Dir, EntryKind::File) => true,
            _ => false,
        };
        let dir = if beside && start.len() > 0 {
            start.parent()
        } else {
            start
        };
        dir.join(&SitePath::parse(name))
    }

    /// Decides how the page `name` is made at `target`, where `found` is
    /// what stands there now: nothing is made over something that exists.
    /// A file starts from the template that goes with its name.
    pub fn create_page(&self, file_type: FileType, name: &str, target: SitePath, found: EntryKind)
        -> (r: Result<ScaffoldStep, FleenError>)
        ensures
            match r {
                Ok(step) => found is Missing && step@ == match file_type {
                    FileType::File => ScaffoldView::WriteFile(target@, template_for(name@)),
                    FileType::Dir => ScaffoldView::CreateDir(target@),
                },
                Err(e) => found !is Missing && e@ == FleenErrorView::FileExists(target@),
            },
    {
        match found {
            EntryKind::Missing => {},
            _ => {
                return Err(FleenError::FileExists(target));
            },
        }
        match file_type {
            FileType::File => Ok(ScaffoldStep::WriteFile(target, page_template(name))),
            FileType::Dir => Ok(ScaffoldStep::CreateDir(target)),
        }
    }

    /// Takes note of how making the page at `target` went. A page that was
    /// made leaves the cached listing stale; the result then says whether
    /// the page is to be opened, which holds of files.
    pub fn page_created(&mut self, file_type: FileType, target: SitePath, outcome: Result<
        (),
        String,
    >) -> (r: Result<bool, FleenError>)
        ensures
            final(self)@.root == old(self)@.root,
            match outcome {
                Ok(_) => r == Ok::<bool, FleenError>(file_type is File) && final(self)@.cache
                    is None,
                Err(cause) => r matches Err(e) && e@ == FleenErrorView::FileCreate(
                    target@,
                    cause@,
                ) && final(self)@.cache == old(self)@.cache,
            },
    {
        match outcome {
            Ok(_) => {
                self.invalidate();
                match file_type {
                    FileType::File => Ok(true),
                    FileType::Dir => Ok(false),
                }
            },
            Err(cause) => Err(FleenError::FileCreate(target, cause)),
        }
    }

    /// How the page at `path` is deleted, where `kind` is what stands
    /// there: a directory goes with all it holds.
    pub fn delete_page(&self, path: SitePath, kind: EntryKind) -> (op: FileOp)
        ensures
            op@ == if kind is Dir {
                FileOpView::RemoveDirAll(path@)
            } else {
                FileOpView::RemoveFile(path@)
            },
    {
        match kind {
            EntryKind::Dir => FileOp::RemoveDirAll(path),
            _ => FileOp::RemoveFile(path),
        }
    }

    /// The path that the page at `path` has once it is renamed to
    /// `new_name`.
    pub fn rename_page(&self, path: &SitePath, new_name: &str) -> (to: SitePath)
        ensures
            to@ == renamed(path@, new_name@),
    {
        let dir = match path.file_name() {
            Some(_) => path.parent(),
            None => path.duplicate(),
        };
        dir.join(&SitePath::parse(new_name))
    }

    /// Takes note of how deleting or renaming the page at `path` went. A
    /// change that was made leaves the cached listing stale.
    pub fn page_changed(&mut self, path: &SitePath, outcome: Result<(), String>) -> (r: Result<
        (),
        FleenError,
    >)
        ensures
            final(self)@.root == old(self)@.root,
            match outcome {
                Ok(_) => r is Ok && final(self)@.cache is None,
                Err(cause) => r matches Err(e) && e@ == FleenErrorView::FileIo(
                    written(path@),
                    cause@,
                ) && final(self)@.cache == old(self)@.cache,
            },
    {
        match outcome {
            Ok(_) => {
                self.invalidate();
                Ok(())
            },
            Err(cause) => Err(FleenError::FileIo(path.to_text(), cause)),
        }
    }

    /// A candidate for the path of a pasted image, where `found` is what
    /// stands at `image_dir()`. The caller draws again while something
    /// exists at the candidate.
    pub fn image_candidate(&self, found: EntryKind, rng: &mut StdRand) -> (r: Result<
        SitePath,
        FleenError,
    >)
        ensures
            match r {
                Ok(path) => found is Dir && path@.drop_last() == self@.root.push("images"@)
                    && exists|random: Seq<char>|
                    path@.last() == image_name(random) && random.len() == 8 && forall|i: int|
                        0 <= i < 8 ==> is_hex(#[trigger] random[i]),
                Err(e) => found !is Dir && e@ == FleenErrorView::NoImageDir,
            },
    {
        if !self.image_dir_exists(found) {
            return Err(FleenError::NoImageDir);
        }
        let name = image_file_name(rng);
        let path = self.image_dir().child(name.as_str());
        proof {
            assert(path@.drop_last() =~= self@.root.push("images"@));
        }
        Ok(path)
    }

    /// Takes note of how saving the pasted image at `target` went. A saved
    /// image leaves the cached listing stale; the result holds the
    /// Markdown that shows the image, for the clipboard, and the message
    /// for the user.
    pub fn paste_image(&mut self, target: &SitePath, saved: Result<(), String>) -> (r: Result<
        Pasted,
        FleenError,
    >)
        requires
            file_name(target@) is Some,
        ensures
            final(self)@.root == old(self)@.root,
            match saved {
                Ok(_) => r matches Ok(pasted) && pasted.clipboard@ == "![](/images/"@
                    + target@.last() + ")"@ && pasted.message@ == "Image saved!"@
                    && final(self)@.cache is None,
                Err(cause) => r matches Err(e) && e@ == FleenErrorView::FileCreate(
                    target@,
                    cause@,
                ) && final(self)@.cache == old(self)@.cache,
            },
    {
        match saved {
            Ok(_) => {
                self.invalidate();
                let name = label_for_path(target);
                Ok(
                    Pasted {
                        clipboard: image_markdown(name.as_str()),
                        message: "Image saved!".to_owned(),
                    },
                )
            },
            Err(cause) => Err(FleenError::FileCreate(target.duplicate(), cause)),
        }
    }
}

/// A build never writes where it reads: the target is refused where it is
/// the root of the site, a directory above it, or a directory in it.
pub proof fn lemma_target_must_be_apart(root: Seq<Seq<char>>, target: Seq<Seq<char>>)
    ensures
        target == root ==> !valid_target(root, target),
        target.len() > 0 && target.is_prefix_of(root) ==> !valid_target(root, target),
        root.len() > 0 && root.is_prefix_of(target) ==> !valid_target(root, target),
{
    if target == root {
        assert(target.is_prefix_of(root));
    }
}

/// How many directories of a listing are open at its end.
pub open spec fn open_dirs(entries: Seq<TreeEntryView>) -> int
    decreases entries.len(),
{
    if entries.len() == 0 {
        0
    } else {
        open_dirs(entries.drop_last()) + match entries.last() {
            TreeEntryView::Dir(_) => 1,
            TreeEntryView::CloseDir => -1,
            TreeEntryView::File(_) => 0int,
        }
    }
}

/// Whether every directory of the listing is closed exactly once: the
/// first one stays open until the last line, which closes it.
pub open spec fn balanced(entries: Seq<TreeEntryView>) -> bool {
    &&& open_dirs(entries) == 0
    &&& forall|k: int| 0 < k < entries.len() ==> open_dirs(#[trigger] entries.take(k)) > 0
}

proof fn lemma_listed_prefix(items: Seq<ItemView>, root: Seq<Seq<char>>, k: int)
    requires
        0 <= k <= listed(items, root).len(),
    ensures
        exists|m: int|
            0 <= m <= items.len() && #[trigger] listed(items.take(m), root) == listed(
                items,
                root,
            ).take(k),
    decreases items.len(),
{
    if k == listed(items, root).len() {
        assert(items.take(items.len() as int) =~= items);
        assert(listed(items, root).take(k) =~= listed(items, root));
        assert(listed(items.take(items.len() as int), root) == listed(items, root).take(k));
    } else {
        let before = items.drop_last();
        assert(items.len() > 0);
        assert(listed(before, root).take(k) =~= listed(items, root).take(k));
        lemma_listed_prefix(before, root, k);
        let m = choose|m: int|
            0 <= m <= before.len() && #[trigger] listed(before.take(m), root) == listed(
                before,
                root,
            ).take(k);
        assert(before.take(m) =~= items.take(m));
    }
}

proof fn lemma_well_formed_prefix(items: Seq<ItemView>, m: int)
    requires
        well_formed(items),
        0 <= m <= items.len(),
    ensures
        well_formed(items.take(m)),
    decreases items.len(),
{
    if m == items.len() {
        assert(items.take(m) =~= items);
    } else {
        assert(items.drop_last().take(m) =~= items.take(m));
        lemma_well_formed_prefix(items.drop_last(), m);
    }
}

proof fn lemma_open_after_walk(items: Seq<ItemView>, root: Seq<Seq<char>>)
    requires
        well_formed(items),
    ensures
        open_dirs(seq![TreeEntryView::Dir(root)] + listed(items, root)) == 1 + current_dir(
            items,
        ).len(),
    decreases items.len(),
{
    let head = seq![TreeEntryView::Dir(root)];
    if items.len() == 0 {
        assert(head + listed(items, root) =~= head);
        assert(head.drop_last() =~= Seq::<TreeEntryView>::empty());
        assert(open_dirs(head.drop_last()) == 0);
        assert(open_dirs(head) == 1);
    } else {
        let before = items.drop_last();
        let dir = current_dir(before);
        lemma_open_after_walk(before, root);
        match item_entry(items.last(), root) {
            Some(entry) => {
                let all = head + listed(items, root);
                assert(listed(items, root) == listed(before, root).push(entry));
                assert(all.drop_last() =~= head + listed(before, root));
                assert(all.last() == entry);
                assert(open_dirs(all) == open_dirs(all.drop_last()) + match entry {
                    TreeEntryView::Dir(_) => 1,
                    TreeEntryView::CloseDir => -1,
                    TreeEntryView::File(_) => 0int,
                });
                match items.last() {
                    ItemView::Dir(path) => {
                        assert(path.drop_last().len() == path.len() - 1);
                        assert(path.len() == dir.len() + 1);
                    },
                    ItemView::CloseDir => {
                        assert(dir.len() > 0);
                        assert(current_dir(items) == dir.drop_last());
                    },
                    _ => {},
                }
            },
            None => {
                assert(listed(items, root) == listed(before, root));
            },
        }
    }
}

proof fn lemma_open_closing(entries: Seq<TreeEntryView>, n: nat)
    ensures
        open_dirs(entries + closing(n)) == open_dirs(entries) - n,
    decreases n,
{
    if n == 0 {
        assert(entries + closing(0) =~= entries);
    } else {
        let m = (n - 1) as nat;
        lemma_open_closing(entries, m);
        assert((entries + closing(n)).drop_last() =~= entries + closing(m));
        assert((entries + closing(n)).last() == TreeEntryView::CloseDir);
    }
}

/// The listing of a tree is balanced: every directory that it opens is
/// closed exactly once, after its entries, and the root is closed last.
pub proof fn lemma_listing_is_balanced(tree: SourceTree, root: Seq<Seq<char>>)
    requires
        tree.wf(),
    ensures
        balanced(tree_entries(tree@, root)),
{
    let items = tree@;
    let head = seq![TreeEntryView::Dir(root)];
    let body = head + listed(items, root);
    let depth = current_dir(items).len();
    let entries = tree_entries(items, root);
    tree.lemma_wf_is_well_formed();
    lemma_open_after_walk(items, root);
    lemma_open_closing(body, depth + 1);
    assert forall|k: int| 0 < k < entries.len() implies open_dirs(#[trigger] entries.take(k))
        > 0 by {
        if k <= body.len() {
            lemma_listed_prefix(items, root, k - 1);
            let m = choose|m: int|
                0 <= m <= items.len() && #[trigger] listed(items.take(m), root) == listed(
                    items,
                    root,
                ).take(k - 1);
            lemma_well_formed_prefix(items, m);
            lemma_open_after_walk(items.take(m), root);
            assert(entries.take(k) =~= head + listed(items.take(m), root));
        } else {
            let m = (k - body.len()) as nat;
            lemma_open_closing(body, m);
            assert(entries.take(k) =~= body + closing(m));
        }
    }
}

/// The listing of a tree leaves out the files whose name starts with a
/// dot.
pub proof fn lemma_listing_hides_dotfiles(item: ItemView, root: Seq<Seq<char>>)
    requires
        item_entry(item, root) matches Some(TreeEntryView::File(_)),
    ensures
        item_path(item) matches Some(path) && !is_dotfile(path),
{
}

} // verus!
