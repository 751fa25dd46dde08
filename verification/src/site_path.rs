//! Paths as the library sees them: a sequence of components, the way
//! `std::path::Path::components` reads a Unix path. A leading `/` is the
//! component `"/"`; empty pieces and `.` are dropped, except a `.` that
//! opens a relative path.

use vstd::prelude::*;
use vstd::string::*;
use crate::text::{chars_of, string_of};

verus! {

/// The texts of a sequence of strings.
pub open spec fn texts(v: Seq<String>) -> Seq<Seq<char>> {
    Seq::new(v.len(), |i: int| v[i]@)
}

/// The piece of `s` after its last separator: the component still being read.
pub open spec fn open_piece(s: Seq<char>) -> Seq<char>
    decreases s.len(),
{
    if s.len() == 0 || s.last() == '/' {
        Seq::empty()
    } else {
        open_piece(s.drop_last()).push(s.last())
    }
}

/// Whether a piece between separators counts as a component.
pub open spec fn keeps(piece: Seq<char>) -> bool {
    piece.len() > 0 && piece != seq!['.']
}

/// The components of `s` that a separator has closed, in order.
pub open spec fn closed_pieces(s: Seq<char>) -> Seq<Seq<char>>
    decreases s.len(),
{
    if s.len() == 0 {
        Seq::empty()
    } else if s.last() == '/' && keeps(open_piece(s.drop_last())) {
        closed_pieces(s.drop_last()).push(open_piece(s.drop_last()))
    } else {
        closed_pieces(s.drop_last())
    }
}

/// What opens the path: `"/"` for an absolute path, `"."` for a relative
/// path that starts with `.` alone, nothing otherwise.
pub open spec fn lead(s: Seq<char>) -> Seq<Seq<char>> {
    if s.len() > 0 && s[0] == '/' {
        seq![seq!['/']]
    } else if s.len() > 0 && s[0] == '.' && (s.len() == 1 || s[1] == '/') {
        seq![seq!['.']]
    } else {
        Seq::empty()
    }
}

/// The components of the path written as `s`.
pub open spec fn components(s: Seq<char>) -> Seq<Seq<char>> {
    let last = open_piece(s);
    let body = if keeps(last) {
        closed_pieces(s).push(last)
    } else {
        closed_pieces(s)
    };
    lead(s) + body
}

/// Whether a component names a file or directory (not the root, `.` or `..`).
pub open spec fn is_normal(seg: Seq<char>) -> bool {
    seg != seq!['/'] && seg != seq!['.'] && seg != seq!['.', '.']
}

/// The last component, where it names something.
pub open spec fn file_name(path: Seq<Seq<char>>) -> Option<Seq<char>> {
    if path.len() > 0 && is_normal(path.last()) {
        Some(path.last())
    } else {
        None
    }
}

/// The index of the last `.` in `name`, or -1.
pub open spec fn last_dot(name: Seq<char>) -> int
    decreases name.len(),
{
    if name.len() == 0 {
        -1
    } else if name.last() == '.' {
        name.len() - 1
    } else {
        last_dot(name.drop_last())
    }
}

/// The last `.` of a name lies in the name.
pub proof fn lemma_last_dot_bound(name: Seq<char>)
    ensures
        -1 <= last_dot(name) < name.len(),
    decreases name.len(),
{
    if name.len() > 0 && name.last() != '.' {
        lemma_last_dot_bound(name.drop_last());
    }
}

/// The extension of a file name: what follows its last `.`, unless that dot
/// opens the name.
pub open spec fn name_extension(name: Seq<char>) -> Option<Seq<char>> {
    if last_dot(name) > 0 {
        Some(name.skip(last_dot(name) + 1))
    } else {
        None
    }
}

/// The file name without its extension.
pub open spec fn name_stem(name: Seq<char>) -> Seq<char> {
    if last_dot(name) > 0 {
        name.take(last_dot(name))
    } else {
        name
    }
}

/// The extension of the path's file name.
pub open spec fn extension(path: Seq<Seq<char>>) -> Option<Seq<char>> {
    match file_name(path) {
        Some(name) => name_extension(name),
        None => None,
    }
}

/// The path with the extension of its file name replaced by `ext`. A path
/// without a file name stays as it is.
pub open spec fn with_extension(path: Seq<Seq<char>>, ext: Seq<char>) -> Seq<Seq<char>> {
    match file_name(path) {
        Some(name) => path.drop_last().push(
            if ext.len() == 0 {
                name_stem(name)
            } else {
                name_stem(name) + seq!['.'] + ext
            },
        ),
        None => path,
    }
}

/// Whether the path starts at the root.
pub open spec fn is_absolute(path: Seq<Seq<char>>) -> bool {
    path.len() > 0 && path[0] == seq!['/']
}

/// `base` followed by `rest`; an absolute `rest` stands alone.
pub open spec fn joined(base: Seq<Seq<char>>, rest: Seq<Seq<char>>) -> Seq<Seq<char>> {
    if is_absolute(rest) {
        rest
    } else {
        base + rest
    }
}

/// Whether `a` is `p` itself or one of the directories above it. The empty
/// path stands above relative paths only.
pub open spec fn is_ancestor(a: Seq<Seq<char>>, p: Seq<Seq<char>>) -> bool {
    a.is_prefix_of(p) && (a.len() > 0 || !is_absolute(p))
}

/// The path written out, components separated by `/`.
pub open spec fn written(path: Seq<Seq<char>>) -> Seq<char>
    decreases path.len(),
{
    if path.len() == 0 {
        Seq::empty()
    } else if path.len() == 1 {
        path[0]
    } else if path.len() == 2 && path[0] == seq!['/'] {
        path[0] + path[1]
    } else {
        written(path.drop_last()) + seq!['/'] + path.last()
    }
}

/// A path, held as its components.
#[derive(Clone, Debug, PartialEq, Eq)]
pub struct SitePath {
    segments: Vec<String>,
}

impl View for SitePath {
    type V = Seq<Seq<char>>;

    closed spec fn view(&self) -> Seq<Seq<char>> {
        texts(self.segments@)
    }
}

proof fn lemma_texts_push(v: Seq<String>, s: String)
    ensures
        texts(v.push(s)) == texts(v).push(s@),
{
    assert(texts(v.push(s)) =~= texts(v).push(s@));
}

fn last_dot_of(name: &Vec<char>) -> (r: Option<usize>)
    ensures
        match r {
            Some(i) => last_dot(name@) == i && i < name.len(),
            None => last_dot(name@) == -1,
        },
{
    let mut i: usize = name.len();
    proof {
        assert(name@.take(i as int) == name@);
    }
    while i > 0
        invariant
            i <= name.len(),
            last_dot(name@) == last_dot(name@.take(i as int)),
        decreases i,
    {
        if name[i - 1] == '.' {
            return Some(i - 1);
        }
        proof {
            assert(name@.take(i as int).drop_last() == name@.take(i - 1));
        }
        i -= 1;
    }
    None
}

fn normal_name(name: &Vec<char>) -> (r: bool)
    ensures
        r == is_normal(name@),
{
    let slash = name.len() == 1 && name[0] == '/';
    let dot = name.len() == 1 && name[0] == '.';
    let dots = name.len() == 2 && name[0] == '.' && name[1] == '.';
    proof {
        if slash {
            assert(name@ == seq!['/']);
        }
        if dot {
            assert(name@ == seq!['.']);
        }
        if dots {
            assert(name@ == seq!['.', '.']);
        }
        if name@ == seq!['/'] || name@ == seq!['.'] {
            assert(name@.len() == 1);
        }
        if name@ == seq!['.', '.'] {
            assert(name@.len() == 2);
        }
    }
    !slash && !dot && !dots
}

impl SitePath {
    /// The empty path.
    pub fn new() -> (p: SitePath)
        ensures
            p@ == Seq::<Seq<char>>::empty(),
    {
        let p = SitePath { segments: Vec::new() };
        assert(p@ =~= Seq::<Seq<char>>::empty());
        p
    }

    /// Reads a path written with `/` between its components.
    pub fn parse(text: &str) -> (p: SitePath)
        ensures
            p@ == components(text@),
    {
        let t = chars_of(text);
        let mut segments: Vec<String> = Vec::new();
        if t.len() > 0 && t[0] == '/' {
            segments.push(string_of(&t, 0, 1));
            proof {
                assert(t@.subrange(0, 1) =~= seq!['/']);
            }
        } else if t.len() > 0 && t[0] == '.' && (t.len() == 1 || t[1] == '/') {
            segments.push(string_of(&t, 0, 1));
            proof {
                assert(t@.subrange(0, 1) =~= seq!['.']);
            }
        }
        proof {
            assert(texts(segments@) =~= lead(t@));
            assert(t@.take(0) =~= Seq::<char>::empty());
            assert(t@.subrange(0, 0) =~= Seq::<char>::empty());
        }
        let mut start: usize = 0;
        let mut i: usize = 0;
        while i < t.len()
            invariant
                start <= i <= t.len(),
                t@ == text@,
                open_piece(t@.take(i as int)) == t@.subrange(start as int, i as int),
                texts(segments@) == lead(t@) + closed_pieces(t@.take(i as int)),
            decreases t.len() - i,
        {
            let ghost before = t@.take(i as int);
            let ghost after = t@.take(i + 1);
            proof {
                assert(after.drop_last() == before);
                assert(after.last() == t@[i as int]);
            }
            if t[i] == '/' {
                let keep = i > start && !(i - start == 1 && t[start] == '.');
                proof {
                    let piece = t@.subrange(start as int, i as int);
                    if i - start == 1 && t@[start as int] == '.' {
                        assert(piece =~= seq!['.']);
                    }
                    if piece == seq!['.'] {
                        assert(piece.len() == 1);
                        assert(piece[0] == '.');
                    }
                    assert(keep == keeps(piece));
                }
                if keep {
                    let piece = string_of(&t, start, i);
                    proof {
                        lemma_texts_push(segments@, piece);
                        assert((lead(t@) + closed_pieces(before)).push(piece@) =~= lead(t@)
                            + closed_pieces(before).push(piece@));
                    }
                    segments.push(piece);
                }
                start = i + 1;
                proof {
                    assert(t@.subrange(start as int, i + 1) =~= Seq::<char>::empty());
                }
            } else {
                proof {
                    assert(t@.subrange(start as int, i + 1) =~= t@.subrange(
                        start as int,
                        i as int,
                    ).push(t@[i as int]));
                }
            }
            i += 1;
        }
        proof {
            assert(t@.take(t.len() as int) == t@);
        }
        let keep = i > start && !(i - start == 1 && t[start] == '.');
        proof {
            let piece = t@.subrange(start as int, i as int);
            if i - start == 1 && t@[start as int] == '.' {
                assert(piece =~= seq!['.']);
            }
            if piece == seq!['.'] {
                assert(piece.len() == 1);
                assert(piece[0] == '.');
            }
            assert(keep == keeps(piece));
        }
        if keep {
            let piece = string_of(&t, start, i);
            proof {
                lemma_texts_push(segments@, piece);
                assert((lead(t@) + closed_pieces(t@)).push(piece@) =~= lead(t@) + closed_pieces(
                    t@,
                ).push(piece@));
            }
            segments.push(piece);
        }
        SitePath { segments }
    }

    /// The number of components.
    pub fn len(&self) -> (n: usize)
        ensures
            n == self@.len(),
    {
        self.segments.len()
    }

    /// The component at position `i`.
    pub fn segment(&self, i: usize) -> (s: &String)
        requires
            i < self@.len(),
        ensures
            s@ == self@[i as int],
    {
        &self.segments[i]
    }

    /// A copy of this path.
    pub fn duplicate(&self) -> (p: SitePath)
        ensures
            p@ == self@,
    {
        let mut segments: Vec<String> = Vec::new();
        let mut i: usize = 0;
        while i < self.segments.len()
            invariant
                i <= self.segments.len(),
                texts(segments@) == self@.take(i as int),
            decreases self.segments.len() - i,
        {
            let s = self.segments[i].clone();
            proof {
                lemma_texts_push(segments@, s);
                assert(self@.take(i + 1) =~= self@.take(i as int).push(self@[i as int]));
            }
            segments.push(s);
            i += 1;
        }
        proof {
            assert(self@.take(self@.len() as int) =~= self@);
        }
        SitePath { segments }
    }

    /// Whether both paths have the same components.
    pub fn same(&self, other: &SitePath) -> (r: bool)
        ensures
            r == (self@ == other@),
    {
        if self.segments.len() != other.segments.len() {
            return false;
        }
        let r = self.starts_with(other);
        proof {
            if r {
                assert(self@ =~= other@);
            }
        }
        r
    }

    /// Whether the components of `base` open this path.
    pub fn starts_with(&self, base: &SitePath) -> (r: bool)
        ensures
            r == base@.is_prefix_of(self@),
    {
        if base.segments.len() > self.segments.len() {
            return false;
        }
        let mut i: usize = 0;
        while i < base.segments.len()
            invariant
                i <= base.segments.len() <= self.segments.len(),
                forall|k: int| 0 <= k < i ==> self@[k] == base@[k],
            decreases base.segments.len() - i,
        {
            if self.segments[i] != base.segments[i] {
                assert(self@[i as int] != base@[i as int]);
                return false;
            }
            i += 1;
        }
        proof {
            assert(base@ =~= self@.subrange(0, base@.len() as int));
        }
        true
    }

    /// Whether the path starts at the root.
    pub fn is_absolute(&self) -> (r: bool)
        ensures
            r == is_absolute(self@),
    {
        if self.segments.len() == 0 {
            return false;
        }
        let first = chars_of(self.segments[0].as_str());
        let r = first.len() == 1 && first[0] == '/';
        proof {
            if r {
                assert(first@ =~= seq!['/']);
            }
            if first@ == seq!['/'] {
                assert(first@.len() == 1);
            }
        }
        r
    }

    /// Whether this path is `other` or a directory above it.
    pub fn is_ancestor_of(&self, other: &SitePath) -> (r: bool)
        ensures
            r == is_ancestor(self@, other@),
    {
        other.starts_with(self) && (self.segments.len() > 0 || !other.is_absolute())
    }

    /// This path with one more component.
    pub fn child(&self, name: &str) -> (p: SitePath)
        ensures
            p@ == self@.push(name@),
    {
        let mut p = self.duplicate();
        let s = name.to_owned();
        proof {
            lemma_texts_push(p.segments@, s);
        }
        p.segments.push(s);
        p
    }

    /// The directory that holds this path: the path without its last
    /// component. The empty path stays as it is.
    pub fn parent(&self) -> (p: SitePath)
        ensures
            p@ == if self@.len() > 0 {
                self@.drop_last()
            } else {
                self@
            },
    {
        let n = self.segments.len();
        let mut segments: Vec<String> = Vec::new();
        if n == 0 {
            assert(texts(segments@) =~= self@);
            return SitePath { segments };
        }
        let mut i: usize = 0;
        proof {
            assert(self@.take(0) =~= texts(segments@));
        }
        while i < n - 1
            invariant
                n == self.segments.len(),
                n > 0,
                i <= n - 1,
                texts(segments@) == self@.take(i as int),
            decreases n - i,
        {
            let s = self.segments[i].clone();
            proof {
                lemma_texts_push(segments@, s);
                assert(self@.take(i + 1) =~= self@.take(i as int).push(self@[i as int]));
            }
            segments.push(s);
            i += 1;
        }
        proof {
            assert(self@.take(n - 1) =~= self@.drop_last());
        }
        SitePath { segments }
    }

    /// This path followed by `rest`, as `std::path::Path::join` has it: an
    /// absolute `rest` replaces this path.
    pub fn join(&self, rest: &SitePath) -> (p: SitePath)
        ensures
            p@ == joined(self@, rest@),
    {
        if rest.is_absolute() {
            return rest.duplicate();
        }
        let mut p = self.duplicate();
        let mut i: usize = 0;
        proof {
            assert(rest@.take(0) =~= Seq::<Seq<char>>::empty());
            assert(self@ + rest@.take(0) =~= self@);
        }
        while i < rest.segments.len()
            invariant
                i <= rest.segments.len(),
                p@ == self@ + rest@.take(i as int),
            decreases rest.segments.len() - i,
        {
            let s = rest.segments[i].clone();
            proof {
                lemma_texts_push(p.segments@, s);
                assert(self@ + rest@.take(i + 1) =~= (self@ + rest@.take(i as int)).push(
                    rest@[i as int],
                ));
            }
            p.segments.push(s);
            i += 1;
        }
        proof {
            assert(rest@.take(rest@.len() as int) =~= rest@);
        }
        p
    }

    /// The last component, where it names a file or directory.
    pub fn file_name(&self) -> (r: Option<String>)
        ensures
            match r {
                Some(name) => file_name(self@) == Some(name@),
                None => file_name(self@) is None,
            },
    {
        let n = self.segments.len();
        if n == 0 {
            return None;
        }
        let name = chars_of(self.segments[n - 1].as_str());
        if normal_name(&name) {
            Some(self.segments[n - 1].clone())
        } else {
            None
        }
    }

    /// Whether the extension of the file name is `ext`.
    pub fn has_extension(&self, ext: &str) -> (r: bool)
        ensures
            r == (extension(self@) == Some(ext@)),
    {
        let n = self.segments.len();
        if n == 0 {
            return false;
        }
        let name = chars_of(self.segments[n - 1].as_str());
        if !normal_name(&name) {
            return false;
        }
        proof {
            assert(self@.last() == name@);
            assert(extension(self@) == name_extension(name@));
        }
        match last_dot_of(&name) {
            Some(dot) => {
                if dot == 0 {
                    return false;
                }
                let e = chars_of(ext);
                let m = name.len() - dot - 1;
                if e.len() != m {
                    assert(name@.skip(dot + 1).len() == m);
                    assert(e@.len() == ext@.len());
                    assert(name@.skip(dot + 1) != ext@);
                    return false;
                }
                let mut k: usize = 0;
                while k < m
                    invariant
                        k <= m,
                        m == name.len() - dot - 1,
                        e.len() == m,
                        e@ == ext@,
                        dot > 0,
                        last_dot(name@) == dot,
                        extension(self@) == name_extension(name@),
                        forall|j: int| 0 <= j < k ==> name@[dot + 1 + j] == e@[j],
                    decreases m - k,
                {
                    if name[dot + 1 + k] != e[k] {
                        assert(name@.skip(dot + 1)[k as int] != e@[k as int]);
                        return false;
                    }
                    k += 1;
                }
                proof {
                    assert(name@.skip(dot + 1) =~= e@);
                }
                true
            },
            None => false,
        }
    }

    /// The path with the extension of its file name replaced by `ext`.
    pub fn with_extension(&self, ext: &str) -> (p: SitePath)
        ensures
            p@ == with_extension(self@, ext@),
    {
        let n = self.segments.len();
        if n == 0 {
            return self.duplicate();
        }
        let name = chars_of(self.segments[n - 1].as_str());
        if !normal_name(&name) {
            return self.duplicate();
        }
        let end = match last_dot_of(&name) {
            Some(dot) => if dot > 0 {
                dot
            } else {
                name.len()
            },
            None => name.len(),
        };
        let mut renamed = string_of(&name, 0, end);
        proof {
            assert(name@.subrange(0, end as int) =~= name_stem(name@));
        }
        let e = chars_of(ext);
        if e.len() > 0 {
            renamed.push('.');
            renamed.append(ext);
            proof {
                assert(renamed@ =~= name_stem(name@) + seq!['.'] + ext@);
            }
        }
        let mut segments: Vec<String> = Vec::new();
        let mut i: usize = 0;
        while i < n - 1
            invariant
                i <= n - 1,
                n == self.segments.len(),
                texts(segments@) == self@.take(i as int),
            decreases n - 1 - i,
        {
            let s = self.segments[i].clone();
            proof {
                lemma_texts_push(segments@, s);
                assert(self@.take(i + 1) =~= self@.take(i as int).push(self@[i as int]));
            }
            segments.push(s);
            i += 1;
        }
        proof {
            lemma_texts_push(segments@, renamed);
            assert(self@.take(n - 1) =~= self@.drop_last());
        }
        segments.push(renamed);
        SitePath { segments }
    }

    /// The path written out, components separated by `/`.
    pub fn to_text(&self) -> (s: String)
        ensures
            s@ == written(self@),
    {
        let mut out = String::new();
        let mut i: usize = 0;
        let root = self.is_absolute();
        proof {
            assert(self@.take(0) =~= Seq::<Seq<char>>::empty());
        }
        while i < self.segments.len()
            invariant
                i <= self.segments.len(),
                root == is_absolute(self@),
                out@ == written(self@.take(i as int)),
            decreases self.segments.len() - i,
        {
            let ghost next = self@.take(i + 1);
            proof {
                assert(next.drop_last() =~= self@.take(i as int));
                assert(next.last() == self@[i as int]);
                if i >= 1 {
                    assert(next[0] == self@[0]);
                }
            }
            if i == 0 {
            } else if i == 1 && root {
                proof {
                    assert(self@.take(1)[0] == self@[0]);
                    assert(written(self@.take(1)) == self@[0]);
                }
            } else {
                out.push('/');
            }
            out.append(self.segments[i].as_str());
            proof {
                if i == 0 {
                    assert(out@ =~= self@[0]);
                }
            }
            i += 1;
        }
        proof {
            assert(self@.take(self@.len() as int) =~= self@);
        }
        out
    }
}

} // verus!
