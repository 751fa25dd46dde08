//! The source tree of a site as one walk over it recorded it: every entry
//! under the root, a directory before what it holds, with what the build
//! needs to know of each. The build plan is computed from this record and
//! from nothing else.

use vstd::prelude::*;
use vstd::string::*;
use crate::renderer::{
    classified, classify, hides, html, is_skipped, lemma_pages_are_html, md, read_view,
    rendered_page, verdict_output, EntryKind, ErrorView, OutputView, Page, PageView, RenderError,
    Verdict, VerdictView,
};
use crate::site_path::{extension, lemma_last_dot_bound, with_extension, SitePath};

verus! {

/// One step of the walk.
#[derive(Debug)]
pub enum SourceItem {
    /// A directory was entered; its entries follow.
    Dir(SitePath),
    /// An entry that is not rendered, with what stands there.
    File(SitePath, EntryKind),
    /// A Markdown source: what parsing it gave and what reading its layout
    /// gave (looked at only where the page asks for a layout).
    Page(SitePath, Result<Page, RenderError>, Result<String, String>),
    /// The directory entered last and not yet left was left.
    CloseDir,
}

/// A `SourceItem` as plain values.
pub ghost enum ItemView {
    Dir(Seq<Seq<char>>),
    File(Seq<Seq<char>>, EntryKind),
    Page(Seq<Seq<char>>, Result<PageView, ErrorView>, Result<Seq<char>, Seq<char>>),
    CloseDir,
}

/// The result of parsing a page as plain values.
pub open spec fn page_view(r: Result<Page, RenderError>) -> Result<PageView, ErrorView> {
    match r {
        Ok(page) => Ok(page@),
        Err(e) => Err(e@),
    }
}

impl View for SourceItem {
    type V = ItemView;

    open spec fn view(&self) -> ItemView {
        match *self {
            SourceItem::Dir(path) => ItemView::Dir(path@),
            SourceItem::File(path, kind) => ItemView::File(path@, kind),
            SourceItem::Page(path, page, template) => ItemView::Page(
                path@,
                page_view(page),
                read_view(template),
            ),
            SourceItem::CloseDir => ItemView::CloseDir,
        }
    }
}

/// The views of a sequence of items.
pub open spec fn items_view(items: Seq<SourceItem>) -> Seq<ItemView> {
    Seq::new(items.len(), |i: int| items[i]@)
}

/// The directory in which the walk stands after `items`, relative to the
/// root.
pub open spec fn current_dir(items: Seq<ItemView>) -> Seq<Seq<char>>
    decreases items.len(),
{
    if items.len() == 0 {
        Seq::empty()
    } else {
        match items.last() {
            ItemView::Dir(path) => path,
            ItemView::CloseDir => {
                let dir = current_dir(items.drop_last());
                if dir.len() > 0 {
                    dir.drop_last()
                } else {
                    dir
                }
            },
            _ => current_dir(items.drop_last()),
        }
    }
}

/// Whether the build renders what stands at `path` as Markdown.
pub open spec fn is_rendered(path: Seq<Seq<char>>, kind: EntryKind) -> bool {
    classified(path, kind, EntryKind::Missing, false) is Markdown
}

/// Whether `path` names an entry of the directory `dir`.
pub open spec fn is_entry_of(path: Seq<Seq<char>>, dir: Seq<Seq<char>>) -> bool {
    path.len() > 0 && path.drop_last() == dir
}

/// Whether `items` is the record of a walk: each entry lies in the
/// directory entered last and not yet left, only an entered directory is
/// left, and a file that the build renders is recorded with its page.
pub open spec fn well_formed(items: Seq<ItemView>) -> bool
    decreases items.len(),
{
    if items.len() == 0 {
        true
    } else {
        let before = items.drop_last();
        well_formed(before) && match items.last() {
            ItemView::Dir(path) => is_entry_of(path, current_dir(before)),
            ItemView::File(path, kind) => is_entry_of(path, current_dir(before)) && kind !is Dir
                && !is_rendered(path, kind),
            ItemView::Page(path, _, _) => is_entry_of(path, current_dir(before)),
            ItemView::CloseDir => current_dir(before).len() > 0,
        }
    }
}

/// The build action for one item of the walk; leaving a directory gives
/// none.
pub open spec fn item_action(item: ItemView, root: Seq<Seq<char>>) -> Option<
    Result<OutputView, ErrorView>,
> {
    match item {
        ItemView::Dir(path) => Some(
            Ok(verdict_output(classified(path, EntryKind::Dir, EntryKind::Missing, false))),
        ),
        ItemView::File(path, kind) => Some(
            Ok(verdict_output(classified(path, kind, EntryKind::Missing, false))),
        ),
        ItemView::Page(path, page, template) => Some(
            match classified(path, EntryKind::File, EntryKind::Missing, false) {
                VerdictView::Markdown(source) => match page {
                    Ok(page) => rendered_page(page, source, root, template),
                    Err(e) => Err(e),
                },
                other => Ok(verdict_output(other)),
            },
        ),
        ItemView::CloseDir => None,
    }
}

/// The build actions for a walk, one for each entry in the order of the
/// walk, or the first render error.
pub open spec fn compiled(items: Seq<ItemView>, root: Seq<Seq<char>>) -> Result<
    Seq<OutputView>,
    ErrorView,
>
    decreases items.len(),
{
    if items.len() == 0 {
        Ok(Seq::empty())
    } else {
        match compiled(items.drop_last(), root) {
            Err(e) => Err(e),
            Ok(actions) => match item_action(items.last(), root) {
                None => Ok(actions),
                Some(Ok(output)) => Ok(actions.push(output)),
                Some(Err(e)) => Err(e),
            },
        }
    }
}

/// The record of a walk over the source tree.
#[derive(Debug)]
pub struct SourceTree {
    items: Vec<SourceItem>,
    current: SitePath,
}

impl View for SourceTree {
    type V = Seq<ItemView>;

    closed spec fn view(&self) -> Seq<ItemView> {
        items_view(self.items@)
    }
}

proof fn lemma_items_push(items: Seq<SourceItem>, item: SourceItem)
    ensures
        items_view(items.push(item)) == items_view(items).push(item@),
        items_view(items.push(item)).drop_last() == items_view(items),
        items_view(items.push(item)).last() == item@,
{
    assert(items_view(items.push(item)) =~= items_view(items).push(item@));
    assert(items_view(items).push(item@).drop_last() =~= items_view(items));
}

impl SourceTree {
    /// Whether this is the record of a walk that stands where it says.
    pub closed spec fn wf(&self) -> bool {
        well_formed(self@) && self.current@ == current_dir(self@)
    }

    /// The directory in which the walk stands, relative to the root.
    pub open spec fn dir(&self) -> Seq<Seq<char>> {
        current_dir(self@)
    }

    /// What a well-formed tree holds is the record of a walk.
    pub proof fn lemma_wf_is_well_formed(&self)
        requires
            self.wf(),
        ensures
            well_formed(self@),
    {
    }

    /// The record of a walk that has not seen anything yet.
    pub fn new() -> (tree: SourceTree)
        ensures
            tree.wf(),
            tree@ == Seq::<ItemView>::empty(),
    {
        let tree = SourceTree { items: Vec::new(), current: SitePath::new() };
        assert(tree@ =~= Seq::<ItemView>::empty());
        tree
    }

    /// The number of items recorded.
    pub fn len(&self) -> (n: usize)
        ensures
            n == self@.len(),
    {
        self.items.len()
    }

    /// The item at position `i`.
    pub fn item(&self, i: usize) -> (item: &SourceItem)
        requires
            i < self@.len(),
        ensures
            item@ == self@[i as int],
    {
        &self.items[i]
    }

    /// How many directories are entered and not left.
    pub fn depth(&self) -> (n: usize)
        requires
            self.wf(),
        ensures
            n == self.dir().len(),
    {
        self.current.len()
    }

    /// The path of the entry `name` of the directory in which the walk
    /// stands.
    pub fn path_of(&self, name: &str) -> (path: SitePath)
        requires
            self.wf(),
        ensures
            path@ == self.dir().push(name@),
    {
        self.current.child(name)
    }

    /// Whether the build renders the entry `name` of the current directory
    /// as Markdown, so that it has to be read and recorded as a page.
    pub fn wants_page(&self, name: &str, kind: EntryKind) -> (r: bool)
        requires
            self.wf(),
        ensures
            r == is_rendered(self.dir().push(name@), kind),
    {
        match classify(self.current.child(name), kind, EntryKind::Missing, false) {
            Verdict::Markdown(_) => true,
            _ => false,
        }
    }

    /// Records that the walk enters the directory `name`.
    pub fn enter_dir(&mut self, name: &str)
        requires
            old(self).wf(),
        ensures
            final(self).wf(),
            final(self)@ == old(self)@.push(ItemView::Dir(old(self).dir().push(name@))),
    {
        let path = self.current.child(name);
        let item = SourceItem::Dir(path.duplicate());
        proof {
            lemma_items_push(self.items@, item);
            assert(path@.drop_last() =~= self.dir());
        }
        self.items.push(item);
        self.current = path;
    }

    /// Records that the walk leaves the directory it stands in.
    pub fn leave_dir(&mut self)
        requires
            old(self).wf(),
            old(self).dir().len() > 0,
        ensures
            final(self).wf(),
            final(self)@ == old(self)@.push(ItemView::CloseDir),
    {
        let item = SourceItem::CloseDir;
        proof {
            lemma_items_push(self.items@, item);
        }
        self.items.push(item);
        self.current = self.current.parent();
    }

    /// Records an entry of the current directory that is not rendered.
    pub fn add_file(&mut self, name: &str, kind: EntryKind)
        requires
            old(self).wf(),
            kind !is Dir,
            !is_rendered(old(self).dir().push(name@), kind),
        ensures
            final(self).wf(),
            final(self)@ == old(self)@.push(ItemView::File(old(self).dir().push(name@), kind)),
    {
        let path = self.current.child(name);
        let item = SourceItem::File(path, kind);
        proof {
            lemma_items_push(self.items@, item);
            assert(self.dir().push(name@).drop_last() =~= self.dir());
        }
        self.items.push(item);
    }

    /// Records a Markdown source of the current directory: `page` is what
    /// parsing it gave, `template` what reading the layout it asks for gave.
    pub fn add_page(&mut self, name: &str, page: Result<Page, RenderError>, template: Result<
        String,
        String,
    >)
        requires
            old(self).wf(),
        ensures
            final(self).wf(),
            final(self)@ == old(self)@.push(
                ItemView::Page(old(self).dir().push(name@), page_view(page), read_view(template)),
            ),
    {
        let path = self.current.child(name);
        let item = SourceItem::Page(path, page, template);
        proof {
            lemma_items_push(self.items@, item);
            assert(self.dir().push(name@).drop_last() =~= self.dir());
        }
        self.items.push(item);
    }
}

/// The path that a build action touches under the target, if any.
pub open spec fn output_path(output: OutputView) -> Option<Seq<Seq<char>>> {
    match output {
        OutputView::Rendered(path, _) => Some(path),
        OutputView::Hidden(path, _) => Some(path),
        OutputView::RawFile(path) => Some(path),
        OutputView::Dir(path) => Some(path),
        OutputView::NoOutput => None,
    }
}

/// Whether one of the first `j` actions creates the directory `dir`.
pub open spec fn created_before(actions: Seq<OutputView>, j: int, dir: Seq<Seq<char>>) -> bool {
    exists|i: int| 0 <= i < j && #[trigger] actions[i] == OutputView::Dir(dir)
}

/// Whether every directory above the path of action `j` is created by an
/// earlier action.
pub open spec fn parents_created(actions: Seq<OutputView>, j: int) -> bool {
    match output_path(actions[j]) {
        Some(path) => forall|k: int|
            0 < k < path.len() ==> created_before(actions, j, #[trigger] path.take(k)),
        None => true,
    }
}

spec fn dirs_created(actions: Seq<OutputView>, dir: Seq<Seq<char>>) -> bool {
    forall|k: int|
        0 < k <= dir.len() && !is_skipped(#[trigger] dir.take(k)) ==> created_before(
            actions,
            actions.len() as int,
            dir.take(k),
        )
}

proof fn lemma_skipped_prefix(path: Seq<Seq<char>>, k: int)
    requires
        0 <= k <= path.len(),
        is_skipped(path.take(k)),
    ensures
        is_skipped(path),
{
    let i = choose|i: int| 0 <= i < path.take(k).len() && hides(#[trigger] path.take(k)[i]);
    assert(path.take(k)[i] == path[i]);
    assert(hides(path[i]));
}

proof fn lemma_with_extension_shape(path: Seq<Seq<char>>, ext: Seq<char>)
    ensures
        with_extension(path, ext).len() == path.len(),
        forall|k: int| 0 <= k < path.len() ==> #[trigger] with_extension(path, ext).take(k) == path.take(k),
{
    assert forall|k: int| 0 <= k < path.len() implies #[trigger] with_extension(path, ext).take(k)
        == path.take(k) by {
        assert(with_extension(path, ext).take(k) =~= path.take(k));
    }
}

proof fn lemma_created_push(actions: Seq<OutputView>, output: OutputView, j: int, dir: Seq<Seq<char>>)
    requires
        0 <= j <= actions.len(),
        created_before(actions, j, dir),
    ensures
        created_before(actions.push(output), j, dir),
{
    let i = choose|i: int| 0 <= i < j && #[trigger] actions[i] == OutputView::Dir(dir);
    assert(actions.push(output)[i] == OutputView::Dir(dir));
}

proof fn lemma_walk_invariant(items: Seq<ItemView>, root: Seq<Seq<char>>)
    requires
        well_formed(items),
        compiled(items, root) is Ok,
    ensures
        forall|j: int|
            0 <= j < compiled(items, root)->Ok_0.len() ==> parents_created(
                compiled(items, root)->Ok_0,
                j,
            ),
        dirs_created(compiled(items, root)->Ok_0, current_dir(items)),
    decreases items.len(),
{
    let actions = compiled(items, root)->Ok_0;
    if items.len() == 0 {
    } else {
        let before = items.drop_last();
        let earlier = compiled(before, root)->Ok_0;
        let dir = current_dir(before);
        lemma_walk_invariant(before, root);
        match item_action(items.last(), root) {
            None => {
                // A directory was left: the actions stay, the walk stands one level up.
                assert(actions == earlier);
                let up = current_dir(items);
                assert forall|k: int| 0 < k <= up.len() && !is_skipped(
                    #[trigger] up.take(k),
                ) implies created_before(actions, actions.len() as int, up.take(k)) by {
                    assert(up.take(k) =~= dir.take(k));
                }
            },
            Some(action) => {
                let output = action->Ok_0;
                let n = earlier.len() as int;
                assert(actions == earlier.push(output));
                let path = match items.last() {
                    ItemView::Dir(path) => path,
                    ItemView::File(path, _) => path,
                    ItemView::Page(path, _, _) => path,
                    ItemView::CloseDir => Seq::empty(),
                };
                assert(is_entry_of(path, dir));
                assert forall|j: int| 0 <= j < n implies parents_created(actions, j) by {
                    assert(parents_created(earlier, j));
                    assert(actions[j] == earlier[j]);
                    match output_path(earlier[j]) {
                        Some(at) => {
                            assert forall|k: int| 0 < k < at.len() implies created_before(
                                actions,
                                j,
                                #[trigger] at.take(k),
                            ) by {
                                assert(created_before(earlier, j, at.take(k)));
                                lemma_created_push(earlier, output, j, at.take(k));
                            }
                        },
                        None => {},
                    }
                }
                assert forall|k: int| 0 < k <= dir.len() && !is_skipped(
                    #[trigger] dir.take(k),
                ) implies created_before(actions, n, dir.take(k)) by {
                    assert(created_before(earlier, n, dir.take(k)));
                    lemma_created_push(earlier, output, n, dir.take(k));
                }
                // The new action: what lies above its path is what the walk stands in.
                match output_path(output) {
                    Some(at) => {
                        lemma_with_extension_shape(path, html());
                        assert(at.len() == path.len());
                        assert(!is_skipped(path));
                        assert forall|k: int| 0 < k < at.len() implies created_before(
                            actions,
                            n,
                            #[trigger] at.take(k),
                        ) by {
                            assert(at.take(k) == path.take(k));
                            assert(path.take(k) =~= dir.take(k));
                            if is_skipped(path.take(k)) {
                                lemma_skipped_prefix(path, k);
                            }
                        }
                    },
                    None => {},
                }
                assert(parents_created(actions, n));
                let now = current_dir(items);
                assert forall|k: int| 0 < k <= now.len() && !is_skipped(
                    #[trigger] now.take(k),
                ) implies created_before(actions, actions.len() as int, now.take(k)) by {
                    if items.last() is Dir {
                        assert(now == path);
                        if k < path.len() {
                            assert(path.take(k) =~= dir.take(k));
                            assert(created_before(actions, n, dir.take(k)));
                            let i = choose|i: int|
                                0 <= i < n && #[trigger] actions[i] == OutputView::Dir(dir.take(k));
                            assert(actions[i] == OutputView::Dir(now.take(k)));
                        } else {
                            assert(path.take(k) =~= path);
                            assert(output == OutputView::Dir(path));
                            assert(actions[n] == OutputView::Dir(now.take(k)));
                        }
                    } else {
                        assert(now == dir);
                        assert(created_before(actions, n, dir.take(k)));
                        let i = choose|i: int|
                            0 <= i < n && #[trigger] actions[i] == OutputView::Dir(dir.take(k));
                        assert(actions[i] == OutputView::Dir(now.take(k)));
                    }
                }
            },
        }
    }
}

/// A directory is created before anything is put into it: in the actions
/// of a build, every directory above the path of an action is created by
/// an earlier action. So no action ever writes into a directory that does
/// not exist yet.
pub proof fn lemma_directories_come_first(tree: SourceTree, root: Seq<Seq<char>>, j: int)
    requires
        tree.wf(),
        compiled(tree@, root) is Ok,
        0 <= j < compiled(tree@, root)->Ok_0.len(),
    ensures
        parents_created(compiled(tree@, root)->Ok_0, j),
{
    lemma_walk_invariant(tree@, root);
}

/// The path of the entry that an item of the walk records.
pub open spec fn item_path(item: ItemView) -> Option<Seq<Seq<char>>> {
    match item {
        ItemView::Dir(path) => Some(path),
        ItemView::File(path, _) => Some(path),
        ItemView::Page(path, _, _) => Some(path),
        ItemView::CloseDir => None,
    }
}

/// Whether the walk recorded an entry at `path`.
pub open spec fn recorded(items: Seq<ItemView>, path: Seq<Seq<char>>) -> bool {
    exists|i: int| 0 <= i < items.len() && item_path(#[trigger] items[i]) == Some(path)
}

/// Whether the build action `action` stems from an entry of the walk: a
/// directory or a raw file from the entry at its own path, and the raw
/// file is no Markdown source; a page, hidden or not, from a Markdown
/// source whose path differs from its own in the extension only.
pub open spec fn stems_from_entry(items: Seq<ItemView>, action: OutputView) -> bool {
    match action {
        OutputView::Dir(path) => recorded(items, path),
        OutputView::RawFile(path) => recorded(items, path) && extension(path) != Some(md()),
        OutputView::Rendered(path, _) => exists|source: Seq<Seq<char>>|
            #[trigger] recorded(items, source) && extension(source) == Some(md()) && path
                == with_extension(source, html()),
        OutputView::Hidden(path, _) => exists|source: Seq<Seq<char>>|
            #[trigger] recorded(items, source) && extension(source) == Some(md()) && path
                == with_extension(source, html()),
        OutputView::NoOutput => true,
    }
}

proof fn lemma_recorded_grows(items: Seq<ItemView>, path: Seq<Seq<char>>)
    requires
        items.len() > 0,
        recorded(items.drop_last(), path),
    ensures
        recorded(items, path),
{
    let i = choose|i: int|
        0 <= i < items.drop_last().len() && item_path(#[trigger] items.drop_last()[i]) == Some(
            path,
        );
    assert(items[i] == items.drop_last()[i]);
}

proof fn lemma_stems_grows(items: Seq<ItemView>, action: OutputView)
    requires
        items.len() > 0,
        stems_from_entry(items.drop_last(), action),
    ensures
        stems_from_entry(items, action),
{
    match action {
        OutputView::Dir(path) => {
            lemma_recorded_grows(items, path);
        },
        OutputView::RawFile(path) => {
            lemma_recorded_grows(items, path);
        },
        OutputView::Rendered(path, _) => {
            let source = choose|source: Seq<Seq<char>>|
                #[trigger] recorded(items.drop_last(), source) && extension(source) == Some(md())
                    && path == with_extension(source, html());
            lemma_recorded_grows(items, source);
        },
        OutputView::Hidden(path, _) => {
            let source = choose|source: Seq<Seq<char>>|
                #[trigger] recorded(items.drop_last(), source) && extension(source) == Some(md())
                    && path == with_extension(source, html());
            lemma_recorded_grows(items, source);
        },
        OutputView::NoOutput => {},
    }
}

proof fn lemma_all_stem(items: Seq<ItemView>, root: Seq<Seq<char>>)
    requires
        compiled(items, root) is Ok,
    ensures
        forall|j: int|
            0 <= j < compiled(items, root)->Ok_0.len() ==> stems_from_entry(
                items,
                #[trigger] compiled(items, root)->Ok_0[j],
            ),
    decreases items.len(),
{
    let actions = compiled(items, root)->Ok_0;
    if items.len() > 0 {
        let before = items.drop_last();
        let earlier = compiled(before, root)->Ok_0;
        lemma_all_stem(before, root);
        assert forall|j: int| 0 <= j < actions.len() implies stems_from_entry(
            items,
            #[trigger] actions[j],
        ) by {
            if j < earlier.len() {
                assert(actions[j] == earlier[j]);
                lemma_stems_grows(items, earlier[j]);
            } else {
                let output = item_action(items.last(), root)->0->Ok_0;
                assert(actions[j] == output);
                let path = item_path(items.last())->0;
                assert(item_path(items[items.len() - 1]) == Some(path));
                assert(recorded(items, path));
            }
        }
    }
}

/// Every action of a build stems from an entry of the source tree. So a
/// build copies a file to `index.html` only where the tree holds a file of
/// that name; a Markdown source is rendered, never copied.
pub proof fn lemma_actions_stem_from_entries(tree: SourceTree, root: Seq<Seq<char>>, j: int)
    requires
        compiled(tree@, root) is Ok,
        0 <= j < compiled(tree@, root)->Ok_0.len(),
    ensures
        stems_from_entry(tree@, compiled(tree@, root)->Ok_0[j]),
{
    lemma_all_stem(tree@, root);
}

/// Every page that a build renders, hidden or not, goes to a path with the
/// extension `html`, whatever the extension of its source.
pub proof fn lemma_rendered_paths_are_html(tree: SourceTree, root: Seq<Seq<char>>, j: int)
    requires
        compiled(tree@, root) is Ok,
        0 <= j < compiled(tree@, root)->Ok_0.len(),
    ensures
        match compiled(tree@, root)->Ok_0[j] {
            OutputView::Rendered(path, _) => extension(path) == Some(html()),
            OutputView::Hidden(path, _) => extension(path) == Some(html()),
            _ => true,
        },
{
    let action = compiled(tree@, root)->Ok_0[j];
    lemma_all_stem(tree@, root);
    assert(stems_from_entry(tree@, action));
    match action {
        OutputView::Rendered(path, _) => {
            let source = choose|source: Seq<Seq<char>>|
                #[trigger] recorded(tree@, source) && extension(source) == Some(md()) && path
                    == with_extension(source, html());
            lemma_last_dot_bound(source.last());
            lemma_pages_are_html(source);
        },
        OutputView::Hidden(path, _) => {
            let source = choose|source: Seq<Seq<char>>|
                #[trigger] recorded(tree@, source) && extension(source) == Some(md()) && path
                    == with_extension(source, html());
            lemma_last_dot_bound(source.last());
            lemma_pages_are_html(source);
        },
        _ => {},
    }
}

/// An entry of the source tree whose path is hidden gives nothing.
pub proof fn lemma_hidden_entries_give_nothing(item: ItemView, root: Seq<Seq<char>>)
    requires
        item_path(item) matches Some(path) && is_skipped(path),
    ensures
        item_action(item, root) == Some(Ok::<OutputView, ErrorView>(OutputView::NoOutput)),
{
}

} // verus!
