//! Turning a request's URL path into the directory path it names.
use vstd::prelude::*;
use vstd::string::*;

use crate::text::{chars_eq, chars_of, push_chars};

verus! {

/// `u` without its leading run of `/`.
pub open spec fn strip_leading_slashes(u: Seq<char>) -> Seq<char>
    decreases u.len(),
{
    if u.len() > 0 && u[0] == '/' {
        strip_leading_slashes(u.drop_first())
    } else {
        u
    }
}

/// `root` followed by the URL path without its leading `/`, ending in `/`.
pub open spec fn dir_path_of(root: Seq<char>, url: Seq<char>) -> Seq<char> {
    let c = root + strip_leading_slashes(url);
    if c.len() > 0 && c.last() == '/' {
        c
    } else {
        c.push('/')
    }
}

/// The pieces of `u` between the `/` characters, as `str::split('/')` gives
/// them: one more than there are `/`, empty ones included.
pub open spec fn split_slash(u: Seq<char>) -> Seq<Seq<char>>
    decreases u.len(),
{
    if u.len() == 0 {
        seq![Seq::empty()]
    } else {
        let rest = split_slash(u.drop_last());
        if u.last() == '/' {
            rest.push(Seq::empty())
        } else {
            rest.update(rest.len() - 1, rest.last().push(u.last()))
        }
    }
}

/// Whether some piece of the path is `..`, a step up out of the directory.
pub open spec fn has_parent_segment(u: Seq<char>) -> bool {
    exists|k: int| 0 <= k < split_slash(u).len() && #[trigger] split_slash(u)[k] == seq!['.', '.']
}

/// The characters of each piece.
pub open spec fn seg_views(v: Seq<Vec<char>>) -> Seq<Seq<char>> {
    v.map_values(|s: Vec<char>| s@)
}

/// The pieces of a path between its `/` characters.
pub fn split_path(u: &Vec<char>) -> (r: Vec<Vec<char>>)
    ensures
        seg_views(r@) == split_slash(u@),
{
    let mut done: Vec<Vec<char>> = Vec::new();
    let mut cur: Vec<char> = Vec::new();
    let mut i: usize = 0;
    assert(u@.subrange(0, 0) =~= Seq::<char>::empty());
    assert(seg_views(done@).push(cur@) =~= seq![Seq::<char>::empty()]);
    while i < u.len()
        invariant
            i <= u@.len(),
            split_slash(u@.subrange(0, i as int)) == seg_views(done@).push(cur@),
        decreases u@.len() - i,
    {
        let ghost prev = u@.subrange(0, i as int);
        let ghost next = u@.subrange(0, i + 1);
        assert(next.drop_last() =~= prev);
        let c = u[i];
        if c == '/' {
            let ghost old_done = done@;
            let ghost old_cur = cur@;
            done.push(cur);
            cur = Vec::new();
            assert(seg_views(done@) =~= seg_views(old_done).push(old_cur));
            assert(split_slash(next) =~= seg_views(done@).push(cur@));
        } else {
            let ghost old_cur = cur@;
            cur.push(c);
            assert(split_slash(next) =~= seg_views(done@).push(cur@));
        }
        i = i + 1;
    }
    assert(u@.subrange(0, u@.len() as int) =~= u@);
    let ghost old_done = done@;
    let ghost last = cur@;
    done.push(cur);
    assert(seg_views(done@) =~= seg_views(old_done).push(last));
    done
}

/// Whether some piece of the path is `..`.
pub fn has_parent_step(url_path: &str) -> (r: bool)
    ensures
        r == has_parent_segment(url_path@),
{
    let u = chars_of(url_path);
    let segs = split_path(&u);
    let up: Vec<char> = vec!['.', '.'];
    let mut k: usize = 0;
    while k < segs.len()
        invariant
            k <= segs@.len(),
            seg_views(segs@) == split_slash(url_path@),
            up@ == seq!['.', '.'],
            forall|j: int| 0 <= j < k ==> split_slash(url_path@)[j] != seq!['.', '.'],
        decreases segs@.len() - k,
    {
        if chars_eq(&segs[k], &up) {
            assert(split_slash(url_path@)[k as int] == segs@[k as int]@);
            return true;
        }
        assert(split_slash(url_path@)[k as int] == segs@[k as int]@);
        k = k + 1;
    }
    false
}

/// A request's URL path together with the directory path that it names under
/// the served root.
#[derive(Clone, Debug)]
pub struct CombinePath {
    root_path: String,
    url_path: String,
    dir_path: String,
}

/// What a `CombinePath` stands for.
pub struct CombinePathView {
    pub root_path: Seq<char>,
    pub url_path: Seq<char>,
    pub dir_path: Seq<char>,
}

impl View for CombinePath {
    type V = CombinePathView;

    closed spec fn view(&self) -> CombinePathView {
        CombinePathView {
            root_path: self.root_path@,
            url_path: self.url_path@,
            dir_path: self.dir_path@,
        }
    }
}

impl CombinePath {
    /// Joins the root and the URL path (its leading `/` dropped) and makes the
    /// result end in `/`, so that it always names a directory.
    pub fn new(root_path: String, url_path: String) -> (r: CombinePath)
        ensures
            r@.root_path == root_path@,
            r@.url_path == url_path@,
            r@.dir_path == dir_path_of(root_path@, url_path@),
    {
        let u = chars_of(url_path.as_str());
        let mut i: usize = 0;
        assert(u@.skip(0) =~= u@);
        while i < u.len() && u[i] == '/'
            invariant
                i <= u@.len(),
                u@ == url_path@,
                strip_leading_slashes(u@) == strip_leading_slashes(u@.skip(i as int)),
            decreases u@.len() - i,
        {
            assert(u@.skip(i as int).drop_first() =~= u@.skip(i + 1));
            i = i + 1;
        }
        let ghost rest = u@.skip(i as int);
        assert(strip_leading_slashes(rest) == rest);
        let mut tail: Vec<char> = Vec::new();
        let mut j: usize = i;
        while j < u.len()
            invariant
                i <= j <= u@.len(),
                tail@ == u@.subrange(i as int, j as int),
            decreases u@.len() - j,
        {
            tail.push(u[j]);
            j = j + 1;
        }
        assert(tail@ =~= rest);
        let mut dir_path = root_path.clone();
        push_chars(&mut dir_path, &tail);
        let n = dir_path.as_str().unicode_len();
        if n == 0 || dir_path.as_str().get_char(n - 1) != '/' {
            dir_path.push('/');
        }
        CombinePath { root_path, url_path, dir_path }
    }

    pub fn url_path(&self) -> (r: &str)
        ensures
            r@ == self@.url_path,
    {
        self.url_path.as_str()
    }

    pub fn dir_path(&self) -> (r: &str)
        ensures
            r@ == self@.dir_path,
    {
        self.dir_path.as_str()
    }

    pub fn root_path(&self) -> (r: &str)
        ensures
            r@ == self@.root_path,
    {
        self.root_path.as_str()
    }

    /// Whether the URL path is the root, `/`.
    pub fn is_root_url(&self) -> (r: bool)
        ensures
            r == (self@.url_path == seq!['/']),
    {
        let u = chars_of(self.url_path.as_str());
        if u.len() == 1 && u[0] == '/' {
            assert(u@ =~= seq!['/']);
            true
        } else {
            false
        }
    }

    /// Whether the path may be served as a directory, given what the file
    /// system said of `dir_path`: never when the URL path steps up with `..`,
    /// whatever the file system said.
    pub fn admits_directory(&self, stat_says_dir: bool) -> (r: bool)
        ensures
            r == (!has_parent_segment(self@.url_path) && stat_says_dir),
    {
        !has_parent_step(self.url_path.as_str()) && stat_says_dir
    }
}

/// A name that stays inside the directory it is joined to: not empty, no `/`,
/// and neither `.` nor `..`.
pub open spec fn plain_file_name(name: Seq<char>) -> bool {
    name.len() > 0 && !name.contains('/') && name != seq!['.'] && name != seq!['.', '.']
}

/// Whether `name` names a file inside a directory rather than a path.
pub fn is_plain_file_name(name: &str) -> (r: bool)
    ensures
        r == plain_file_name(name@),
{
    let c = chars_of(name);
    if c.len() == 0 {
        return false;
    }
    let mut i: usize = 0;
    while i < c.len()
        invariant
            i <= c@.len(),
            c@ == name@,
            forall|j: int| 0 <= j < i ==> c@[j] != '/',
        decreases c@.len() - i,
    {
        if c[i] == '/' {
            assert(c@[i as int] == '/');
            return false;
        }
        i = i + 1;
    }
    if c.len() == 1 && c[0] == '.' {
        assert(c@ =~= seq!['.']);
        return false;
    }
    if c.len() == 2 && c[0] == '.' && c[1] == '.' {
        assert(c@ =~= seq!['.', '.']);
        return false;
    }
    true
}

impl CombinePath {
    /// Where an upload named `file_name` is written: inside the directory. A
    /// name that would reach elsewhere gives `None`.
    pub fn upload_path(&self, file_name: &str) -> (r: Option<String>)
        ensures
            r is Some <==> plain_file_name(file_name@),
            r is Some ==> r->0@ == self@.dir_path + file_name@,
    {
        if !is_plain_file_name(file_name) {
            return None;
        }
        let mut r = self.dir_path.clone();
        r.append(file_name);
        Some(r)
    }
}

} // verus!
