//! Paths as plain component sequences, the hidden-file test, and relocation
//! of a source path under the output root.
use vstd::prelude::*;
use vstd::string::*;

verus! {

/// A file system path, held as its components in order, with no separators.
/// An absolute path and a relative path look alike here; which one a value is
/// follows from where it came from.
#[derive(Debug)]
pub struct FilePath {
    pub parts: Vec<String>,
}

impl View for FilePath {
    type V = Seq<Seq<char>>;

    open spec fn view(&self) -> Seq<Seq<char>> {
        self.parts.deep_view()
    }
}

impl Clone for FilePath {
    fn clone(&self) -> (r: Self)
        ensures
            r@ == self@,
    {
        let mut parts: Vec<String> = Vec::new();
        let mut i: usize = 0;
        while i < self.parts.len()
            invariant
                i <= self.parts.len(),
                parts@.len() == i,
                forall|j: int| 0 <= j < i ==> parts@[j]@ == self@[j],
            decreases self.parts.len() - i,
        {
            parts.push(self.parts[i].clone());
            proof {
                assert(self@[i as int] == self.parts@[i as int]@);
            }
            i = i + 1;
        }
        let r = FilePath { parts };
        proof {
            assert(r@ =~= self@);
        }
        r
    }
}

/// Whether two string slices hold the same characters.
pub fn str_eq(a: &str, b: &str) -> (r: bool)
    ensures
        r == (a@ == b@),
{
    let a_len = a.unicode_len();
    let b_len = b.unicode_len();
    if a_len != b_len {
        return false;
    }
    let mut i: usize = 0;
    while i < a_len
        invariant
            i <= a_len,
            a_len == a@.len(),
            a_len == b@.len(),
            forall|j: int| 0 <= j < i ==> a@[j] == b@[j],
        decreases a_len - i,
    {
        if a.get_char(i) != b.get_char(i) {
            return false;
        }
        i = i + 1;
    }
    proof {
        assert(a@ =~= b@);
    }
    true
}

/// Whether the paths hold the same components.
pub fn path_eq(a: &FilePath, b: &FilePath) -> (r: bool)
    ensures
        r == (a@ == b@),
{
    proof {
        assert(a@.len() == a.parts@.len());
        assert(b@.len() == b.parts@.len());
    }
    if a.parts.len() != b.parts.len() {
        return false;
    }
    let mut i: usize = 0;
    while i < a.parts.len()
        invariant
            i <= a.parts.len(),
            a.parts.len() == b.parts.len(),
            a@.len() == a.parts@.len(),
            b@.len() == b.parts@.len(),
            forall|j: int| 0 <= j < i ==> a@[j] == b@[j],
        decreases a.parts.len() - i,
    {
        proof {
            assert(a@[i as int] == a.parts@[i as int]@);
            assert(b@[i as int] == b.parts@[i as int]@);
        }
        if !str_eq(a.parts[i].as_str(), b.parts[i].as_str()) {
            return false;
        }
        i = i + 1;
    }
    proof {
        assert(a@ =~= b@);
    }
    true
}

/// A path is hidden when any of its components begins with a dot.
pub open spec fn hidden_spec(parts: Seq<Seq<char>>) -> bool {
    exists|i: int| 0 <= i < parts.len() && parts[i].len() > 0 && parts[i][0] == '.'
}

/// Whether the path or any of its parents, component by component, is hidden:
/// that is, whether any component's name begins with a dot.
pub fn is_hidden(path: &FilePath) -> (b: bool)
    ensures
        b == hidden_spec(path@),
{
    proof {
        assert(path@.len() == path.parts@.len());
    }
    let mut i: usize = 0;
    while i < path.parts.len()
        invariant
            i <= path.parts.len(),
            path@.len() == path.parts@.len(),
            forall|j: int| 0 <= j < i ==> !(path@[j].len() > 0 && path@[j][0] == '.'),
        decreases path.parts.len() - i,
    {
        proof {
            assert(path@[i as int] == path.parts@[i as int]@);
        }
        let p = path.parts[i].as_str();
        if p.unicode_len() > 0 && p.get_char(0) == '.' {
            return true;
        }
        i = i + 1;
    }
    false
}

/// `pre` is an initial run of `of`'s components.
pub open spec fn is_prefix(pre: Seq<Seq<char>>, of: Seq<Seq<char>>) -> bool {
    pre.len() <= of.len() && forall|i: int| 0 <= i < pre.len() ==> of[i] == pre[i]
}

impl FilePath {
    /// Whether `prefix` is an initial run of this path's components.
    pub fn starts_with(&self, prefix: &FilePath) -> (b: bool)
        ensures
            b == is_prefix(prefix@, self@),
    {
        proof {
            assert(self@.len() == self.parts@.len());
            assert(prefix@.len() == prefix.parts@.len());
        }
        if prefix.parts.len() > self.parts.len() {
            return false;
        }
        let mut i: usize = 0;
        while i < prefix.parts.len()
            invariant
                i <= prefix.parts.len(),
                prefix.parts.len() <= self.parts.len(),
                self@.len() == self.parts@.len(),
                prefix@.len() == prefix.parts@.len(),
                forall|j: int| 0 <= j < i ==> self@[j] == prefix@[j],
            decreases prefix.parts.len() - i,
        {
            proof {
                assert(self@[i as int] == self.parts@[i as int]@);
                assert(prefix@[i as int] == prefix.parts@[i as int]@);
            }
            if !str_eq(self.parts[i].as_str(), prefix.parts[i].as_str()) {
                return false;
            }
            i = i + 1;
        }
        true
    }

    /// The path left after removing the components of `prefix`, or `None`
    /// where `prefix` is not an initial run of this path.
    pub fn strip_prefix(&self, prefix: &FilePath) -> (r: Option<FilePath>)
        ensures
            match r {
                Some(rest) => is_prefix(prefix@, self@) && rest@ == self@.subrange(
                    prefix@.len() as int,
                    self@.len() as int,
                ),
                None => !is_prefix(prefix@, self@),
            },
    {
        if !self.starts_with(prefix) {
            return None;
        }
        let mut parts: Vec<String> = Vec::new();
        let mut i: usize = prefix.parts.len();
        proof {
            assert(self@.len() == self.parts@.len());
            assert(prefix@.len() == prefix.parts@.len());
        }
        while i < self.parts.len()
            invariant
                prefix.parts.len() <= i <= self.parts.len(),
                self@.len() == self.parts@.len(),
                prefix@.len() == prefix.parts@.len(),
                prefix.parts.len() == prefix@.len(),
                parts@.len() == i - prefix.parts.len(),
                forall|j: int|
                    0 <= j < parts@.len() ==> parts@[j]@ == self@[j + prefix@.len()],
            decreases self.parts.len() - i,
        {
            parts.push(self.parts[i].clone());
            proof {
                assert(self@[i as int] == self.parts@[i as int]@);
            }
            i = i + 1;
        }
        let rest = FilePath { parts };
        proof {
            assert(rest@ =~= self@.subrange(prefix@.len() as int, self@.len() as int));
        }
        Some(rest)
    }

    /// This path with `rest`'s components appended.
    pub fn join(&self, rest: &FilePath) -> (r: FilePath)
        ensures
            r@ == self@ + rest@,
    {
        let copy = self.clone();
        let mut parts: Vec<String> = copy.parts;
        proof {
            assert(self@.len() == self.parts@.len());
            assert(rest@.len() == rest.parts@.len());
            assert forall|j: int| 0 <= j < parts@.len() implies parts@[j]@ == self@[j] by {
                assert(parts.deep_view()[j] == parts@[j]@);
            }
        }
        let ghost base: Seq<Seq<char>> = self@;
        let mut i: usize = 0;
        while i < rest.parts.len()
            invariant
                i <= rest.parts.len(),
                rest@.len() == rest.parts@.len(),
                parts@.len() == base.len() + i,
                forall|j: int| 0 <= j < base.len() ==> parts@[j]@ == base[j],
                forall|j: int| base.len() <= j < parts@.len() ==> parts@[j]@ == rest@[j - base.len()],
            decreases rest.parts.len() - i,
        {
            parts.push(rest.parts[i].clone());
            proof {
                assert(rest@[i as int] == rest.parts@[i as int]@);
            }
            i = i + 1;
        }
        let r = FilePath { parts };
        proof {
            assert(r@ =~= self@ + rest@);
        }
        r
    }
}

/// The position of the last dot in a file name, if the name holds one.
pub open spec fn last_dot_index(name: Seq<char>) -> Option<int>
    decreases name.len(),
{
    if name.len() == 0 {
        None
    } else if name[name.len() - 1] == '.' {
        Some(name.len() - 1)
    } else {
        last_dot_index(name.subrange(0, name.len() - 1))
    }
}

pub proof fn lemma_last_dot_bounds(name: Seq<char>)
    ensures
        match last_dot_index(name) {
            Some(i) => 0 <= i < name.len() && name[i] == '.',
            None => true,
        },
    decreases name.len(),
{
    if name.len() > 0 && name[name.len() - 1] != '.' {
        lemma_last_dot_bounds(name.subrange(0, name.len() - 1));
    }
}

/// The extension of a file name: what follows its last dot.  A name with no
/// dot has no extension, and neither has a dotfile, whose leading dot is part
/// of the name, not a separator.
pub open spec fn extension_spec(name: Seq<char>) -> Option<Seq<char>> {
    match last_dot_index(name) {
        Some(i) => if i > 0 {
            Some(name.subrange(i + 1, name.len() as int))
        } else {
            None
        },
        None => None,
    }
}

fn find_last_dot(name: &str) -> (r: Option<usize>)
    ensures
        match r {
            Some(i) => last_dot_index(name@) == Some(i as int),
            None => last_dot_index(name@) is None,
        },
{
    let len = name.unicode_len();
    let mut j: usize = len;
    proof {
        assert(name@.subrange(0, name@.len() as int) =~= name@);
    }
    while j > 0
        invariant
            j <= len,
            len == name@.len(),
            last_dot_index(name@) == last_dot_index(name@.subrange(0, j as int)),
        decreases j,
    {
        let c = name.get_char(j - 1);
        proof {
            assert(name@.subrange(0, j as int)[j - 1] == name@[j - 1]);
        }
        if c == '.' {
            return Some(j - 1);
        }
        proof {
            assert(name@.subrange(0, j as int).subrange(0, j - 1) =~= name@.subrange(0, j - 1));
        }
        j = j - 1;
    }
    proof {
        assert(name@.subrange(0, 0).len() == 0);
    }
    None
}

/// The extension of a file name, as a fresh string, under the rules of
/// `extension_spec`.
pub fn extension_of(name: &str) -> (r: Option<String>)
    ensures
        match r {
            Some(e) => extension_spec(name@) == Some(e@),
            None => extension_spec(name@) is None,
        },
{
    match find_last_dot(name) {
        Some(i) => {
            if i > 0 {
                proof {
                    lemma_last_dot_bounds(name@);
                }
                let len = name.unicode_len();
                let e = name.substring_char(i + 1, len);
                Some(e.to_owned())
            } else {
                None
            }
        },
        None => None,
    }
}

pub open spec fn md_ext() -> Seq<char> {
    seq!['m', 'd']
}

pub open spec fn markdown_ext() -> Seq<char> {
    seq!['m', 'a', 'r', 'k', 'd', 'o', 'w', 'n']
}

/// A path names a post when its final component carries one of the two
/// recognized Markdown extensions, matched exactly and case-sensitively.
pub open spec fn post_path_spec(parts: Seq<Seq<char>>) -> bool {
    parts.len() > 0 && (extension_spec(parts.last()) == Some(md_ext()) || extension_spec(
        parts.last(),
    ) == Some(markdown_ext()))
}

/// Whether the path's final component has a recognized Markdown extension.
pub fn is_post_path(path: &FilePath) -> (b: bool)
    ensures
        b == post_path_spec(path@),
{
    proof {
        assert(path@.len() == path.parts@.len());
    }
    if path.parts.len() == 0 {
        return false;
    }
    let name = path.parts[path.parts.len() - 1].as_str();
    proof {
        assert(path@.last() == path.parts@[path.parts@.len() - 1]@);
    }
    match extension_of(name) {
        Some(e) => {
            proof {
                reveal_strlit("md");
                reveal_strlit("markdown");
                assert("md"@ =~= md_ext());
                assert("markdown"@ =~= markdown_ext());
            }
            str_eq(e.as_str(), "md") || str_eq(e.as_str(), "markdown")
        },
        None => false,
    }
}

/// A file name with its extension replaced (or, where it has none, appended).
pub open spec fn with_ext_spec(name: Seq<char>, ext: Seq<char>) -> Seq<char> {
    match last_dot_index(name) {
        Some(i) => if i > 0 {
            name.subrange(0, i + 1) + ext
        } else {
            name + seq!['.'] + ext
        },
        None => name + seq!['.'] + ext,
    }
}

impl FilePath {
    /// This path with the final component's extension replaced by `ext`.
    pub fn with_extension(&self, ext: &str) -> (r: FilePath)
        requires
            self@.len() > 0,
        ensures
            r@ == self@.update(self@.len() - 1, with_ext_spec(self@.last(), ext@)),
    {
        proof {
            assert(self@.len() == self.parts@.len());
        }
        let last = self.parts.len() - 1;
        let name = self.parts[last].as_str();
        proof {
            assert(self@.last() == self.parts@[last as int]@);
        }
        let mut newname: String;
        let dot = find_last_dot(name);
        let mut replaced = false;
        match dot {
            Some(i) => {
                if i > 0 {
                    proof {
                        lemma_last_dot_bounds(name@);
                    }
                    let len = name.unicode_len();
                    newname = name.substring_char(0, i + 1).to_owned();
                    replaced = true;
                } else {
                    newname = name.to_owned();
                }
            },
            None => {
                newname = name.to_owned();
            },
        }
        if !replaced {
            newname.append(".");
            proof {
                reveal_strlit(".");
                assert("."@ =~= seq!['.']);
            }
        }
        newname.append(ext);
        let mut parts: Vec<String> = Vec::new();
        let mut i: usize = 0;
        while i < last
            invariant
                i <= last,
                last < self.parts@.len(),
                parts@.len() == i,
                forall|j: int| 0 <= j < i ==> parts@[j]@ == self@[j],
                self@.len() == self.parts@.len(),
            decreases last - i,
        {
            parts.push(self.parts[i].clone());
            proof {
                assert(self@[i as int] == self.parts@[i as int]@);
            }
            i = i + 1;
        }
        parts.push(newname);
        let r = FilePath { parts };
        proof {
            assert(r@ =~= self@.update(self@.len() - 1, with_ext_spec(self@.last(), ext@)));
        }
        r
    }
}

pub open spec fn dot_name() -> Seq<char> {
    seq!['.']
}

pub open spec fn dotdot_name() -> Seq<char> {
    seq!['.', '.']
}

/// A relative remainder with its `.` and `..` components dropped: relocation
/// refuses to follow them rather than let a destination escape the output
/// root.
pub open spec fn sanitize_spec(parts: Seq<Seq<char>>) -> Seq<Seq<char>> {
    parts.filter(|c: Seq<char>| c != dot_name() && c != dotdot_name())
}

proof fn lemma_sanitize_push(s: Seq<Seq<char>>, x: Seq<char>)
    ensures
        sanitize_spec(s.push(x)) == if x != dot_name() && x != dotdot_name() {
            sanitize_spec(s).push(x)
        } else {
            sanitize_spec(s)
        },
{
    reveal(Seq::filter);
    assert(s.push(x).drop_last() =~= s);
}

impl FilePath {
    /// This path with its `.` and `..` components dropped.
    pub fn sanitize(&self) -> (r: FilePath)
        ensures
            r@ == sanitize_spec(self@),
    {
        proof {
            reveal(Seq::filter);
            assert(self@.len() == self.parts@.len());
            reveal_strlit(".");
            reveal_strlit("..");
            assert("."@ =~= dot_name());
            assert(".."@ =~= dotdot_name());
        }
        let mut parts: Vec<String> = Vec::new();
        let ghost mut acc: Seq<Seq<char>> = Seq::empty();
        proof {
            assert(self@.subrange(0, 0).len() == 0);
            assert(acc =~= sanitize_spec(self@.subrange(0, 0)));
        }
        let mut i: usize = 0;
        while i < self.parts.len()
            invariant
                i <= self.parts.len(),
                self@.len() == self.parts@.len(),
                acc == sanitize_spec(self@.subrange(0, i as int)),
                parts@.len() == acc.len(),
                forall|j: int| 0 <= j < parts@.len() ==> parts@[j]@ == acc[j],
                "."@ == dot_name(),
                ".."@ == dotdot_name(),
            decreases self.parts.len() - i,
        {
            proof {
                assert(self@[i as int] == self.parts@[i as int]@);
            }
            let p = self.parts[i].as_str();
            let keep = !(str_eq(p, ".") || str_eq(p, ".."));
            proof {
                lemma_sanitize_push(self@.subrange(0, i as int), self@[i as int]);
                assert(self@.subrange(0, i as int).push(self@[i as int]) =~= self@.subrange(
                    0,
                    i + 1,
                ));
            }
            if keep {
                parts.push(self.parts[i].clone());
                proof {
                    acc = acc.push(self@[i as int]);
                }
            }
            i = i + 1;
        }
        proof {
            assert(self@.subrange(0, self@.len() as int) =~= self@);
        }
        let r = FilePath { parts };
        proof {
            assert(r@ =~= acc);
        }
        r
    }
}

/// Whether some entry of `list` holds the same components as `p`.
pub open spec fn contains_path(list: Seq<FilePath>, p: Seq<Seq<char>>) -> bool {
    exists|k: int| 0 <= k < list.len() && list[k]@ == p
}

/// Whether a source file belongs to the compiled set: it must not lie under
/// the output root, must not be hidden (unless hidden files are read), and
/// must not match any entry of the ignore list.
pub open spec fn include_spec(
    src_root: Seq<Seq<char>>,
    path: Seq<Seq<char>>,
    out_root: Seq<Seq<char>>,
    ignored: Seq<FilePath>,
    read_hidden: bool,
) -> bool {
    &&& !is_prefix(out_root, path)
    &&& (read_hidden || !hidden_spec(path.subrange(src_root.len() as int, path.len() as int)))
    &&& !contains_path(ignored, path)
}

/// The destination of an included file: the output root followed by the
/// sanitized remainder of the source path past the source root.
pub open spec fn dest_spec(
    src_root: Seq<Seq<char>>,
    path: Seq<Seq<char>>,
    out_root: Seq<Seq<char>>,
) -> Seq<Seq<char>> {
    out_root + sanitize_spec(path.subrange(src_root.len() as int, path.len() as int))
}

/// Decides whether the file at `path` (under `src_root`) is part of the
/// compiled set and, where it is, computes its destination under `out_root`.
/// The ignore entries are expected in already-resolved form.  A file under the
/// output root, a hidden file under an excluding policy, and an ignored file
/// are each excluded on their own.
pub fn relocate(
    src_root: &FilePath,
    path: &FilePath,
    out_root: &FilePath,
    ignored: &Vec<FilePath>,
    read_hidden: bool,
) -> (r: Option<FilePath>)
    requires
        is_prefix(src_root@, path@),
    ensures
        r is Some <==> include_spec(src_root@, path@, out_root@, ignored@, read_hidden),
        match r {
            Some(d) => d@ == dest_spec(src_root@, path@, out_root@),
            None => true,
        },
        is_prefix(out_root@, path@) ==> r is None,
        contains_path(ignored@, path@) ==> r is None,
{
    if path.starts_with(out_root) {
        return None;
    }
    let rel = match path.strip_prefix(src_root) {
        Some(rel) => rel,
        None => {
            proof {
                assert(false);
            }
            FilePath { parts: Vec::new() }
        },
    };
    if !read_hidden && is_hidden(&rel) {
        return None;
    }
    let mut k: usize = 0;
    while k < ignored.len()
        invariant
            k <= ignored.len(),
            forall|j: int| 0 <= j < k ==> ignored@[j]@ != path@,
        decreases ignored.len() - k,
    {
        if path_eq(&ignored[k], path) {
            return None;
        }
        k = k + 1;
    }
    Some(out_root.join(&rel.sanitize()))
}

} // verus!

