//! Small helpers: labels and ids of tree entries, names for pasted images,
//! the files of a new site, and the template of a new page.

use vstd::prelude::*;
use vstd::string::*;
use tinyrand::{Rand, Seeded, StdRand};
use crate::site_path::{file_name, written, SitePath};
use crate::text::chars_of;

verus! {

/// The label of a tree entry: the file name of its path.
pub fn label_for_path(path: &SitePath) -> (label: String)
    requires
        file_name(path@) is Some,
    ensures
        file_name(path@) == Some(label@),
{
    match path.file_name() {
        Some(name) => name,
        None => String::new(),
    }
}

/// The id of a tree entry: its path written out.
pub fn id_for_path(path: &SitePath) -> (id: String)
    ensures
        id@ == written(path@),
{
    path.to_text()
}

/// The random number generator of the `tinyrand` crate.
#[verifier::external_type_specification]
#[verifier::external_body]
pub struct ExWyrand(tinyrand::Wyrand);

/// Calls `tinyrand::Seeded::seed` for the standard generator.
#[verifier::external_body]
fn seed_rng(seed: u64) -> (rng: StdRand) {
    StdRand::seed(seed)
}

/// Calls `tinyrand::Rand::next_lim_usize`: a number below `lim`, which
/// must not be zero.
#[verifier::external_body]
fn next_below(rng: &mut StdRand, lim: usize) -> (n: usize)
    requires
        lim > 0,
    ensures
        n < lim,
{
    rng.next_lim_usize(lim)
}

/// A random number generator that starts from `seed`.
pub fn new_rng(seed: u64) -> (rng: StdRand) {
    seed_rng(seed)
}

/// The hexadecimal digits.
pub open spec fn hex_digits() -> Seq<char> {
    seq!['0', '1', '2', '3', '4', '5', '6', '7', '8', '9', 'a', 'b', 'c', 'd', 'e', 'f']
}

/// Whether `c` is a hexadecimal digit in lower case.
pub open spec fn is_hex(c: char) -> bool {
    exists|n: int| 0 <= n < 16 && hex_digits()[n] == c
}

/// The name that a sequence of numbers below 16 spells in hexadecimal.
pub open spec fn spelled(numbers: Seq<usize>) -> Seq<char> {
    Seq::new(numbers.len(), |i: int| hex_digits()[numbers[i] as int])
}

/// Spells numbers below 16 as hexadecimal digits.
pub fn hex_name(numbers: &Vec<usize>) -> (name: String)
    requires
        forall|i: int| 0 <= i < numbers.len() ==> numbers[i] < 16,
    ensures
        name@ == spelled(numbers@),
{
    let chs: [char; 16] = [
        '0',
        '1',
        '2',
        '3',
        '4',
        '5',
        '6',
        '7',
        '8',
        '9',
        'a',
        'b',
        'c',
        'd',
        'e',
        'f',
    ];
    proof {
        assert(chs@ =~= hex_digits());
    }
    let mut name = String::new();
    let mut i: usize = 0;
    while i < numbers.len()
        invariant
            i <= numbers.len(),
            chs@ == hex_digits(),
            forall|k: int| 0 <= k < numbers.len() ==> numbers[k] < 16,
            name@ == spelled(numbers@.take(i as int)),
        decreases numbers.len() - i,
    {
        let c = chs[numbers[i]];
        proof {
            assert(spelled(numbers@.take(i + 1)) =~= spelled(numbers@.take(i as int)).push(c));
        }
        name.push(c);
        i += 1;
    }
    proof {
        assert(numbers@.take(numbers.len() as int) =~= numbers@);
    }
    name
}

/// A random name of eight hexadecimal digits.
pub fn random_name(rng: &mut StdRand) -> (name: String)
    ensures
        name@.len() == 8,
        forall|i: int| 0 <= i < 8 ==> is_hex(#[trigger] name@[i]),
{
    let mut numbers: Vec<usize> = Vec::new();
    let mut i: usize = 0;
    while i < 8
        invariant
            i <= 8,
            numbers.len() == i,
            forall|k: int| 0 <= k < numbers.len() ==> numbers[k] < 16,
        decreases 8 - i,
    {
        let n = next_below(rng, 16);
        numbers.push(n);
        i += 1;
    }
    let name = hex_name(&numbers);
    proof {
        assert forall|k: int| 0 <= k < 8 implies is_hex(#[trigger] name@[k]) by {
            assert(hex_digits()[numbers[k] as int] == name@[k]);
        }
    }
    name
}

/// The file name of a pasted image with the given random part.
pub open spec fn image_name(random: Seq<char>) -> Seq<char> {
    "image_"@ + random + ".png"@
}

/// A candidate for the file name of a pasted image. The caller draws
/// again while a file of that name exists.
pub fn image_file_name(rng: &mut StdRand) -> (name: String)
    ensures
        exists|random: Seq<char>|
            name@ == image_name(random) && random.len() == 8 && forall|i: int|
                0 <= i < 8 ==> is_hex(#[trigger] random[i]),
{
    let random = random_name(rng);
    let mut name = "image_".to_owned();
    name.append(random.as_str());
    name.append(".png");
    proof {
        assert(name@ == image_name(random@));
    }
    name
}

/// The Markdown that shows the image saved under `file_name` in the image
/// directory.
pub fn image_markdown(file_name: &str) -> (markdown: String)
    ensures
        markdown@ == "![](/images/"@ + file_name@ + ")"@,
{
    let mut markdown = "![](/images/".to_owned();
    markdown.append(file_name);
    markdown.append(")");
    markdown
}

/// The texts that the program holds ready for new files.
#[derive(Clone, Copy, Debug, PartialEq, Eq)]
pub enum Template {
    /// The default layout.
    DefaultLayout,
    /// The deploy script.
    DeployScript,
    /// A new Markdown page.
    MarkdownPage,
    /// Nothing.
    Empty,
}

/// One step of setting up a new site.
#[derive(Clone, Debug, PartialEq, Eq)]
pub enum ScaffoldStep {
    /// Create the directory.
    CreateDir(SitePath),
    /// Write the template to the file.
    WriteFile(SitePath, Template),
}

/// A `ScaffoldStep` as plain values.
pub ghost enum ScaffoldView {
    CreateDir(Seq<Seq<char>>),
    WriteFile(Seq<Seq<char>>, Template),
}

impl View for ScaffoldStep {
    type V = ScaffoldView;

    open spec fn view(&self) -> ScaffoldView {
        match *self {
            ScaffoldStep::CreateDir(path) => ScaffoldView::CreateDir(path@),
            ScaffoldStep::WriteFile(path, template) => ScaffoldView::WriteFile(path@, template),
        }
    }
}

/// The views of a sequence of steps.
pub open spec fn steps_view(steps: Seq<ScaffoldStep>) -> Seq<ScaffoldView> {
    Seq::new(steps.len(), |i: int| steps[i]@)
}

/// What a new site under `root` starts with: the directories for layouts,
/// scripts, assets and images, the default layout, the deploy script, and
/// a placeholder in each of the two directories that would be empty.
pub open spec fn new_site(root: Seq<Seq<char>>) -> Seq<ScaffoldView> {
    seq![
        ScaffoldView::CreateDir(root.push("_layouts"@)),
        ScaffoldView::CreateDir(root.push("_scripts"@)),
        ScaffoldView::CreateDir(root.push("assets"@)),
        ScaffoldView::CreateDir(root.push("images"@)),
        ScaffoldView::WriteFile(
            root.push("_layouts"@).push("default.html"@),
            Template::DefaultLayout,
        ),
        ScaffoldView::WriteFile(
            root.push("_scripts"@).push("deploy.sh"@),
            Template::DeployScript,
        ),
        ScaffoldView::WriteFile(root.push("assets"@).push(".keep"@), Template::Empty),
        ScaffoldView::WriteFile(root.push("images"@).push(".keep"@), Template::Empty),
    ]
}

/// The steps that set up a new site under `root`, in order.
pub fn initialize_site(root: &SitePath) -> (steps: Vec<ScaffoldStep>)
    ensures
        steps_view(steps@) == new_site(root@),
{
    let mut steps: Vec<ScaffoldStep> = Vec::new();
    steps.push(ScaffoldStep::CreateDir(root.child("_layouts")));
    steps.push(ScaffoldStep::CreateDir(root.child("_scripts")));
    steps.push(ScaffoldStep::CreateDir(root.child("assets")));
    steps.push(ScaffoldStep::CreateDir(root.child("images")));
    steps.push(
        ScaffoldStep::WriteFile(
            root.child("_layouts").child("default.html"),
            Template::DefaultLayout,
        ),
    );
    steps.push(
        ScaffoldStep::WriteFile(root.child("_scripts").child("deploy.sh"), Template::DeployScript),
    );
    steps.push(ScaffoldStep::WriteFile(root.child("assets").child(".keep"), Template::Empty));
    steps.push(ScaffoldStep::WriteFile(root.child("images").child(".keep"), Template::Empty));
    proof {
        assert(steps_view(steps@) =~= new_site(root@));
    }
    steps
}

/// Whether `name` ends with `suffix`.
pub open spec fn ends_with(name: Seq<char>, suffix: Seq<char>) -> bool {
    suffix.len() <= name.len() && name.skip(name.len() - suffix.len()) == suffix
}

fn has_suffix(name: &Vec<char>, suffix: &str) -> (r: bool)
    ensures
        r == ends_with(name@, suffix@),
{
    let s = chars_of(suffix);
    if s.len() > name.len() {
        return false;
    }
    let from = name.len() - s.len();
    let mut k: usize = 0;
    while k < s.len()
        invariant
            k <= s.len(),
            from + s.len() == name.len(),
            s@ == suffix@,
            forall|j: int| 0 <= j < k ==> name@[from + j] == s@[j],
        decreases s.len() - k,
    {
        if name[from + k] != s[k] {
            proof {
                assert(name@.skip(from as int)[k as int] != s@[k as int]);
            }
            return false;
        }
        k += 1;
    }
    proof {
        assert(name@.skip(from as int) =~= s@);
    }
    true
}

/// The template for a new page of the given name: a Markdown page for
/// `.md`, the default layout for `.html`, nothing for any other name.
pub open spec fn template_for(name: Seq<char>) -> Template {
    if ends_with(name, ".md"@) {
        Template::MarkdownPage
    } else if ends_with(name, ".html"@) {
        Template::DefaultLayout
    } else {
        Template::Empty
    }
}

/// The template that a new page of the given name starts from.
pub fn page_template(name: &str) -> (template: Template)
    ensures
        template == template_for(name@),
{
    let n = chars_of(name);
    if has_suffix(&n, ".md") {
        Template::MarkdownPage
    } else if has_suffix(&n, ".html") {
        Template::DefaultLayout
    } else {
        Template::Empty
    }
}

} // verus!
