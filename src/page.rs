//! Rendering a listing and the path it was reached by into an HTML page.
use vstd::prelude::*;
use vstd::string::*;

use crate::dir::{views, Directory, EntryView, MetaFile};
use crate::path::{seg_views, split_path, split_slash, CombinePath};
use crate::text::chars_of;

verus! {

/// The route under which the raw bytes of files are served.
pub const SERVE_DIR_ROUTE: &'static str = "/httpdir";

/// One character as it may stand in HTML text or in a quoted attribute.
pub open spec fn html_char(c: char) -> Seq<char> {
    if c == '&' {
        "&amp;"@
    } else if c == '<' {
        "&lt;"@
    } else if c == '>' {
        "&gt;"@
    } else if c == '"' {
        "&quot;"@
    } else if c == '\'' {
        "&#39;"@
    } else {
        seq![c]
    }
}

/// `s` with the characters that HTML treats specially written as entities.
pub open spec fn html_escape(s: Seq<char>) -> Seq<char>
    decreases s.len(),
{
    if s.len() == 0 {
        Seq::empty()
    } else {
        html_escape(s.drop_last()) + html_char(s.last())
    }
}

/// ASCII characters that stand for themselves in a path segment.
pub open spec fn url_safe(c: char) -> bool {
    ('a' <= c && c <= 'z') || ('A' <= c && c <= 'Z') || ('0' <= c && c <= '9') || c == '-' || c
        == '.' || c == '_' || c == '~'
}

/// The upper-case hexadecimal digit of `n`, below 16.
pub open spec fn hex_digit(n: u32) -> char {
    if n < 10 {
        ((n + 48) as u8) as char
    } else {
        ((n + 55) as u8) as char
    }
}

/// One character of a name as it stands in a link: an ASCII character that is
/// not safe becomes `%` and two hexadecimal digits; any other stays.
pub open spec fn url_char(c: char) -> Seq<char> {
    if (c as u32) < 128 && !url_safe(c) {
        seq!['%', hex_digit((c as u32) / 16), hex_digit((c as u32) % 16)]
    } else {
        seq![c]
    }
}

/// A name as it stands in a link.
pub open spec fn url_escape(s: Seq<char>) -> Seq<char>
    decreases s.len(),
{
    if s.len() == 0 {
        Seq::empty()
    } else {
        url_escape(s.drop_last()) + url_char(s.last())
    }
}

/// Where the link of an entry leads: a directory to its listing, a file to its
/// bytes under the download route.
pub open spec fn entry_href(url_path: Seq<char>, e: EntryView) -> Seq<char> {
    if e.is_dir {
        let sep = if url_path == seq!['/'] { Seq::empty() } else { seq!['/'] };
        url_path + sep + url_escape(e.name)
    } else {
        SERVE_DIR_ROUTE@ + url_path + seq!['/'] + url_escape(e.name)
    }
}

/// The CSS class of an entry's list item.
pub open spec fn entry_class(e: EntryView) -> Seq<char> {
    if e.is_dir {
        "directory"@
    } else {
        "file"@
    }
}

/// The list item of one entry.
pub open spec fn entry_item(url_path: Seq<char>, e: EntryView) -> Seq<char> {
    "<li class=\""@ + entry_class(e) + "\"><a href=\""@ + html_escape(entry_href(url_path, e))
        + "\">"@ + html_escape(e.name) + "</a></li>"@
}

/// The list items of all entries, in their order.
pub open spec fn entries_html(url_path: Seq<char>, es: Seq<EntryView>) -> Seq<char>
    decreases es.len(),
{
    if es.len() == 0 {
        Seq::empty()
    } else {
        entries_html(url_path, es.drop_last()) + entry_item(url_path, es.last())
    }
}

/// Appends `s`, escaped for HTML.
fn push_html_escaped(out: &mut String, s: &Vec<char>)
    ensures
        final(out)@ == old(out)@ + html_escape(s@),
{
    let ghost start = out@;
    let mut i: usize = 0;
    while i < s.len()
        invariant
            i <= s@.len(),
            out@ == start + html_escape(s@.subrange(0, i as int)),
        decreases s@.len() - i,
    {
        let c = s[i];
        let ghost before = out@;
        if c == '&' {
            out.append("&amp;");
        } else if c == '<' {
            out.append("&lt;");
        } else if c == '>' {
            out.append("&gt;");
        } else if c == '"' {
            out.append("&quot;");
        } else if c == '\'' {
            out.append("&#39;");
        } else {
            out.push(c);
        }
        assert(out@ == before + html_char(c));
        assert(s@.subrange(0, i + 1).drop_last() =~= s@.subrange(0, i as int));
        assert(out@ =~= start + html_escape(s@.subrange(0, i + 1)));
        i = i + 1;
    }
    assert(s@.subrange(0, s@.len() as int) =~= s@);
}

fn hex(n: u32) -> (c: char)
    requires
        n < 16,
    ensures
        c == hex_digit(n),
{
    if n < 10 {
        ((n + 48) as u8) as char
    } else {
        ((n + 55) as u8) as char
    }
}

/// Appends `s`, escaped for a link.
fn push_url_escaped(out: &mut Vec<char>, s: &Vec<char>)
    ensures
        final(out)@ == old(out)@ + url_escape(s@),
{
    let ghost start = out@;
    let mut i: usize = 0;
    while i < s.len()
        invariant
            i <= s@.len(),
            out@ == start + url_escape(s@.subrange(0, i as int)),
        decreases s@.len() - i,
    {
        let c = s[i];
        let ghost before = out@;
        let code = c as u32;
        if code < 128 && !(('a' <= c && c <= 'z') || ('A' <= c && c <= 'Z') || ('0' <= c && c <= '9')
            || c == '-' || c == '.' || c == '_' || c == '~') {
            out.push('%');
            out.push(hex(code / 16));
            out.push(hex(code % 16));
        } else {
            out.push(c);
        }
        assert(out@ =~= before + url_char(c));
        assert(s@.subrange(0, i + 1).drop_last() =~= s@.subrange(0, i as int));
        assert(out@ =~= start + url_escape(s@.subrange(0, i + 1)));
        i = i + 1;
    }
    assert(s@.subrange(0, s@.len() as int) =~= s@);
}

/// Appends the characters of `t`.
fn extend_chars(v: &mut Vec<char>, t: &Vec<char>)
    ensures
        final(v)@ == old(v)@ + t@,
{
    let ghost start = v@;
    let mut i: usize = 0;
    while i < t.len()
        invariant
            i <= t@.len(),
            v@ == start + t@.subrange(0, i as int),
        decreases t@.len() - i,
    {
        v.push(t[i]);
        assert(t@.subrange(0, i + 1) =~= t@.subrange(0, i as int).push(t[i as int]));
        i = i + 1;
    }
    assert(t@ =~= t@.subrange(0, t@.len() as int));
}

/// Appends the list item of one entry.
fn push_entry_item(out: &mut String, url_path: &Vec<char>, file: &MetaFile)
    ensures
        final(out)@ == old(out)@ + entry_item(url_path@, file@),
{
    let ghost start = out@;
    let name = chars_of(file.name());
    let mut href: Vec<char> = Vec::new();
    if file.is_dir() {
        extend_chars(&mut href, url_path);
        if !(url_path.len() == 1 && url_path[0] == '/') {
            href.push('/');
        } else {
            assert(url_path@ =~= seq!['/']);
        }
    } else {
        let route = chars_of(SERVE_DIR_ROUTE);
        extend_chars(&mut href, &route);
        extend_chars(&mut href, url_path);
        href.push('/');
    }
    push_url_escaped(&mut href, &name);
    assert(href@ =~= entry_href(url_path@, file@));
    out.append("<li class=\"");
    if file.is_dir() {
        out.append("directory");
    } else {
        out.append("file");
    }
    out.append("\"><a href=\"");
    push_html_escaped(out, &href);
    out.append("\">");
    push_html_escaped(out, &name);
    out.append("</a></li>");
    assert(out@ =~= start + entry_item(url_path@, file@));
}

/// The list items of the entries of `dir`, in listing order, linked from the
/// directory reached by `url_path`.
pub fn directory_to_html(dir: &Directory, url_path: &str) -> (r: String)
    ensures
        r@ == entries_html(url_path@, dir@.entries),
{
    let u = chars_of(url_path);
    let files = dir.files();
    let mut out = String::new();
    let mut i: usize = 0;
    while i < files.len()
        invariant
            i <= files@.len(),
            u@ == url_path@,
            views(files@) == dir@.entries,
            out@ == entries_html(url_path@, views(files@).subrange(0, i as int)),
        decreases files@.len() - i,
    {
        let ghost before = out@;
        push_entry_item(&mut out, &u, &files[i]);
        let ghost es = views(files@).subrange(0, i + 1);
        assert(es.drop_last() =~= views(files@).subrange(0, i as int));
        assert(es.last() == files@[i as int]@);
        i = i + 1;
    }
    assert(views(files@).subrange(0, files@.len() as int) =~= views(files@));
    out
}

/// The pieces of a path that are not empty, in order.
pub open spec fn nonempty_segments(segs: Seq<Seq<char>>) -> Seq<Seq<char>>
    decreases segs.len(),
{
    if segs.len() == 0 {
        Seq::empty()
    } else {
        let r = nonempty_segments(segs.drop_last());
        if segs.last().len() > 0 {
            r.push(segs.last())
        } else {
            r
        }
    }
}

/// The path made of `segs`, each after a `/`.
pub open spec fn joined(segs: Seq<Seq<char>>) -> Seq<char>
    decreases segs.len(),
{
    if segs.len() == 0 {
        Seq::empty()
    } else {
        joined(segs.drop_last()) + seq!['/'] + segs.last()
    }
}

/// One link of the breadcrumb.
pub open spec fn crumb(href: Seq<char>, label: Seq<char>) -> Seq<char> {
    " > <a href=\""@ + html_escape(href) + "\">"@ + html_escape(label) + "</a>"@
}

/// The links to each of the directories `segs` leads through, labelled with
/// their own names.
pub open spec fn crumbs(segs: Seq<Seq<char>>) -> Seq<char>
    decreases segs.len(),
{
    if segs.len() == 0 {
        Seq::empty()
    } else {
        crumbs(segs.drop_last()) + crumb(joined(segs), segs.last())
    }
}

/// The breadcrumb of a URL path: a link to `/`, then one link for each
/// non-empty piece of the path, to the path up to and including it.
pub open spec fn path_menu_html(url_path: Seq<char>) -> Seq<char> {
    "<a href=\"/\">/</a>"@ + crumbs(nonempty_segments(split_slash(url_path)))
}

/// The breadcrumb of a URL path.
pub fn path_menu(url_path: &str) -> (r: String)
    ensures
        r@ == path_menu_html(url_path@),
{
    let u = chars_of(url_path);
    let segs = split_path(&u);
    let mut out = String::new();
    out.append("<a href=\"/\">/</a>");
    let ghost head = out@;
    let mut acc: Vec<char> = Vec::new();
    let ghost mut kept: Seq<Seq<char>> = Seq::empty();
    let mut k: usize = 0;
    assert(seg_views(segs@).subrange(0, 0) =~= Seq::<Seq<char>>::empty());
    while k < segs.len()
        invariant
            k <= segs@.len(),
            seg_views(segs@) == split_slash(url_path@),
            kept == nonempty_segments(seg_views(segs@).subrange(0, k as int)),
            acc@ == joined(kept),
            out@ == head + crumbs(kept),
            head == "<a href=\"/\">/</a>"@,
        decreases segs@.len() - k,
    {
        let ghost sub = seg_views(segs@).subrange(0, k + 1);
        assert(sub.drop_last() =~= seg_views(segs@).subrange(0, k as int));
        assert(sub.last() == segs@[k as int]@);
        if segs[k].len() > 0 {
            let ghost before = out@;
            acc.push('/');
            extend_chars(&mut acc, &segs[k]);
            proof {
                kept = kept.push(segs@[k as int]@);
                assert(kept.drop_last() =~= nonempty_segments(seg_views(segs@).subrange(0, k as int)));
            }
            assert(acc@ =~= joined(kept));
            out.append(" > <a href=\"");
            push_html_escaped(&mut out, &acc);
            out.append("\">");
            push_html_escaped(&mut out, &segs[k]);
            out.append("</a>");
            assert(out@ =~= before + crumb(acc@, segs@[k as int]@));
            assert(out@ =~= head + crumbs(kept));
        }
        k = k + 1;
    }
    assert(seg_views(segs@).subrange(0, segs@.len() as int) =~= seg_views(segs@));
    out
}

/// Whether `t` begins with `p`.
pub open spec fn starts_with(t: Seq<char>, p: Seq<char>) -> bool {
    p.len() <= t.len() && t.subrange(0, p.len() as int) == p
}

/// `t` read from the start, with each occurrence of a token replaced by its
/// value; what a value brings in is not read again.
pub open spec fn fill_template(
    t: Seq<char>,
    list_token: Seq<char>,
    list: Seq<char>,
    menu_token: Seq<char>,
    menu: Seq<char>,
) -> Seq<char>
    decreases t.len(),
{
    if t.len() == 0 {
        Seq::empty()
    } else if list_token.len() > 0 && starts_with(t, list_token) {
        list + fill_template(t.skip(list_token.len() as int), list_token, list, menu_token, menu)
    } else if menu_token.len() > 0 && starts_with(t, menu_token) {
        menu + fill_template(t.skip(menu_token.len() as int), list_token, list, menu_token, menu)
    } else {
        seq![t[0]] + fill_template(t.drop_first(), list_token, list, menu_token, menu)
    }
}

/// Whether `p` stands in `t` at position `i`.
fn matches_at(t: &Vec<char>, i: usize, p: &Vec<char>) -> (r: bool)
    requires
        i <= t@.len(),
    ensures
        r == starts_with(t@.skip(i as int), p@),
{
    if p.len() > t.len() - i {
        return false;
    }
    let n = t.len();
    let mut k: usize = 0;
    while k < p.len()
        invariant
            n == t@.len(),
            k <= p@.len(),
            i + p@.len() <= t@.len(),
            forall|j: int| 0 <= j < k ==> t@[i + j] == p@[j],
        decreases p@.len() - k,
    {
        if t[i + k] != p[k] {
            assert(t@.skip(i as int).subrange(0, p@.len() as int)[k as int] != p@[k as int]);
            return false;
        }
        k = k + 1;
    }
    assert(t@.skip(i as int).subrange(0, p@.len() as int) =~= p@);
    true
}

/// Whether a URL path asks for raw bytes under the download route.
pub fn is_download_route(url_path: &str) -> (r: bool)
    ensures
        r == starts_with(url_path@, SERVE_DIR_ROUTE@),
{
    let u = chars_of(url_path);
    let route = chars_of(SERVE_DIR_ROUTE);
    assert(u@.skip(0) =~= u@);
    matches_at(&u, 0, &route)
}

/// Copies `template`, writing `list` for each `list_token` and `menu` for each
/// `menu_token`.
pub fn substitute(template: &str, list_token: &str, list: &str, menu_token: &str, menu: &str) -> (r:
    String)
    ensures
        r@ == fill_template(template@, list_token@, list@, menu_token@, menu@),
{
    let t = chars_of(template);
    let lt = chars_of(list_token);
    let mt = chars_of(menu_token);
    let lv = chars_of(list);
    let mv = chars_of(menu);
    let mut out = String::new();
    let mut i: usize = 0;
    let ghost full = fill_template(t@, lt@, lv@, mt@, mv@);
    assert(t@.skip(0) =~= t@);
    assert(out@ + full =~= full);
    while i < t.len()
        invariant
            i <= t@.len(),
            full == fill_template(t@, lt@, lv@, mt@, mv@),
            out@ + fill_template(t@.skip(i as int), lt@, lv@, mt@, mv@) == full,
        decreases t@.len() - i,
    {
        let ghost rest = t@.skip(i as int);
        let ghost before = out@;
        if lt.len() > 0 && matches_at(&t, i, &lt) {
            crate::text::push_chars(&mut out, &lv);
            assert(rest.skip(lt@.len() as int) =~= t@.skip(i + lt@.len()));
            i = i + lt.len();
        } else if mt.len() > 0 && matches_at(&t, i, &mt) {
            crate::text::push_chars(&mut out, &mv);
            assert(rest.skip(mt@.len() as int) =~= t@.skip(i + mt@.len()));
            i = i + mt.len();
        } else {
            out.push(t[i]);
            assert(rest.drop_first() =~= t@.skip(i + 1));
            assert(rest[0] == t@[i as int]);
            i = i + 1;
        }
        let ghost after = fill_template(t@.skip(i as int), lt@, lv@, mt@, mv@);
        assert(out@ + after =~= before + (out@.skip(before.len() as int) + after));
    }
    assert(t@.skip(i as int) =~= Seq::<char>::empty());
    assert(out@ =~= out@ + Seq::<char>::empty());
    out
}

/// Where the entry list goes in the page.
pub const LIST_TOKEN: &'static str = "{LIST}";

/// Where the breadcrumb goes in the page.
pub const MENU_TOKEN: &'static str = "{PATHMENU}";

/// The page that a listing is shown in.
pub const INDEX_HTML: &'static str = "<!DOCTYPE html>
<html>
<head>
<meta charset=\"utf-8\">
<title>httpdir</title>
<style>
body { font-family: sans-serif; margin: 2em; }
li.directory a { font-weight: bold; }
li.file a { color: #333; }
</style>
</head>
<body>
<nav>{PATHMENU}</nav>
<ul>{LIST}</ul>
<form id=\"upload\">
<input type=\"file\" id=\"upload-file\">
<button type=\"submit\">Upload</button>
</form>
<script>
document.getElementById('upload').addEventListener('submit', function (ev) {
  ev.preventDefault();
  var file = document.getElementById('upload-file').files[0];
  if (!file) { return; }
  fetch(window.location.pathname, {
    method: 'POST',
    headers: { 'file-name': file.name },
    body: file
  }).then(function () { window.location.reload(); });
});
</script>
</body>
</html>
";

/// The page holding the entry list `list` and the breadcrumb `menu`.
pub open spec fn page_html(list: Seq<char>, menu: Seq<char>) -> Seq<char> {
    fill_template(INDEX_HTML@, LIST_TOKEN@, list, MENU_TOKEN@, menu)
}

/// The page of a listing: its entries linked from `list_url`, and the
/// breadcrumb of `menu_url`.
pub fn render_page(dir: Option<&Directory>, list_url: &str, menu_url: &str) -> (r: String)
    ensures
        r@ == page_html(
            match dir {
                Some(d) => entries_html(list_url@, d@.entries),
                None => Seq::empty(),
            },
            path_menu_html(menu_url@),
        ),
{
    let list = match dir {
        Some(d) => directory_to_html(d, list_url),
        None => String::new(),
    };
    let menu = path_menu(menu_url);
    substitute(INDEX_HTML, LIST_TOKEN, list.as_str(), MENU_TOKEN, menu.as_str())
}

/// The page of a listing, for the directory that `cpath` names.
pub fn render(dir: &Directory, cpath: &CombinePath) -> (r: Page)
    ensures
        r@ == page_html(
            entries_html(cpath@.url_path, dir@.entries),
            path_menu_html(cpath@.url_path),
        ),
{
    Page { html: render_page(Some(dir), cpath.url_path(), cpath.url_path()) }
}

/// A rendered page.
pub struct Page {
    html: String,
}

impl View for Page {
    type V = Seq<char>;

    closed spec fn view(&self) -> Seq<char> {
        self.html@
    }
}

/// What a `PageBuilder` stands for.
pub struct PageBuilderView {
    pub url_path: Seq<char>,
    pub cpath: crate::path::CombinePathView,
    pub file_upload: bool,
    pub dir: Option<crate::dir::DirectoryView>,
}

/// Collects what a page shows before it is rendered.
pub struct PageBuilder {
    url_path: String,
    cpath: CombinePath,
    file_upload: bool,
    dir: Option<Directory>,
}

impl View for PageBuilder {
    type V = PageBuilderView;

    closed spec fn view(&self) -> PageBuilderView {
        PageBuilderView {
            url_path: self.url_path@,
            cpath: self.cpath@,
            file_upload: self.file_upload,
            dir: match self.dir {
                Some(d) => Some(d@),
                None => None,
            },
        }
    }
}

impl Page {
    /// Starts a page for the request with URL path `url_path`, whose directory
    /// `cpath` names; uploads are offered and no listing is set yet.
    pub fn build(url_path: String, cpath: CombinePath) -> (r: PageBuilder)
        ensures
            r@ == (PageBuilderView { url_path: url_path@, cpath: cpath@, file_upload: true, dir: None }),
    {
        PageBuilder { url_path, cpath, file_upload: true, dir: None }
    }

    pub fn html(&self) -> (r: &str)
        ensures
            r@ == self@,
    {
        self.html.as_str()
    }
}

impl PageBuilder {
    pub fn combine_path(self, cpath: CombinePath) -> (r: PageBuilder)
        ensures
            r@ == (PageBuilderView { cpath: cpath@, ..self@ }),
    {
        PageBuilder { cpath, ..self }
    }

    /// Sets the URL path that the breadcrumb follows.
    pub fn url_path(self, url_path: String) -> (r: PageBuilder)
        ensures
            r@ == (PageBuilderView { url_path: url_path@, ..self@ }),
    {
        PageBuilder { url_path, ..self }
    }

    /// Records whether the page offers uploads.
    pub fn with_file_upload(self, b: bool) -> (r: PageBuilder)
        ensures
            r@ == (PageBuilderView { file_upload: b, ..self@ }),
    {
        PageBuilder { file_upload: b, ..self }
    }

    pub fn with_directory(self, dir: Directory) -> (r: PageBuilder)
        ensures
            r@ == (PageBuilderView { dir: Some(dir@), ..self@ }),
    {
        PageBuilder { dir: Some(dir), ..self }
    }

    /// Whether the page offers uploads.
    pub fn file_upload(&self) -> (r: bool)
        ensures
            r == self@.file_upload,
    {
        self.file_upload
    }

    /// Renders the page; the listing is used up, an absent one gives an empty
    /// list.
    pub fn build(&mut self) -> (r: Page)
        ensures
            r@ == page_html(
                match old(self)@.dir {
                    Some(d) => entries_html(old(self)@.cpath.url_path, d.entries),
                    None => Seq::empty(),
                },
                path_menu_html(old(self)@.url_path),
            ),
            final(self)@ == (PageBuilderView { dir: None, ..old(self)@ }),
    {
        let dir = self.dir.take();
        let html = match &dir {
            Some(d) => render_page(Some(d), self.cpath.url_path(), self.url_path.as_str()),
            None => render_page(None, self.cpath.url_path(), self.url_path.as_str()),
        };
        Page { html }
    }
}

} // verus!
