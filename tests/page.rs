use httpdir::dir::{Directory, FileGrouping, FileSort, MetaFile};
use httpdir::page::{directory_to_html, is_download_route, path_menu, render, substitute, Page, INDEX_HTML};
use httpdir::path::{has_parent_step, is_plain_file_name, CombinePath};

fn cpath(root: &str, url: &str) -> CombinePath {
    CombinePath::new(root.to_string(), url.to_string())
}

#[test]
fn resolve_adds_trailing_separator() {
    let p = cpath("/srv/", "/a/b");
    assert_eq!(p.dir_path(), "/srv/a/b/");
    assert_eq!(p.url_path(), "/a/b");
    assert_eq!(p.root_path(), "/srv/");
}

#[test]
fn resolve_root_url() {
    let p = cpath("/srv/", "/");
    assert_eq!(p.dir_path(), "/srv/");
    assert!(p.is_root_url());
    assert!(!cpath("/srv/", "/a").is_root_url());
}

#[test]
fn resolve_keeps_trailing_slash_and_strips_leading_ones() {
    assert_eq!(cpath("./", "/docs/").dir_path(), "./docs/");
    assert_eq!(cpath("/srv/", "//x").dir_path(), "/srv/x/");
    assert_eq!(cpath("", "/").dir_path(), "/");
    assert_eq!(cpath("root", "/a").dir_path(), "roota/");
}

#[test]
fn parent_steps_are_refused() {
    assert!(has_parent_step("/a/../b"));
    assert!(has_parent_step("/.."));
    assert!(!has_parent_step("/a/..b/c"));
    assert!(!has_parent_step("/a/b"));
    assert!(!cpath("/srv/", "/a/../../etc").admits_directory(true));
    assert!(cpath("/srv/", "/a").admits_directory(true));
    assert!(!cpath("/srv/", "/a").admits_directory(false));
}

#[test]
fn upload_goes_into_the_directory() {
    assert_eq!(cpath("/srv/", "/a").upload_path("report.txt"), Some("/srv/a/report.txt".to_string()));
    assert_eq!(cpath("/srv/", "/").upload_path("r.txt"), Some("/srv/r.txt".to_string()));
    assert_eq!(cpath("/srv/", "/").upload_path(".hidden"), Some("/srv/.hidden".to_string()));
}

#[test]
fn breadcrumb_links_every_ancestor() {
    assert_eq!(
        path_menu("/a/b/c"),
        "<a href=\"/\">/</a> > <a href=\"/a\">a</a> > <a href=\"/a/b\">b</a> > <a href=\"/a/b/c\">c</a>"
    );
}

#[test]
fn breadcrumb_of_root_and_empty_segments() {
    assert_eq!(path_menu("/"), "<a href=\"/\">/</a>");
    assert_eq!(path_menu("/a//b/"), "<a href=\"/\">/</a> > <a href=\"/a\">a</a> > <a href=\"/a/b\">b</a>");
    assert_eq!(path_menu("/x&y"), "<a href=\"/\">/</a> > <a href=\"/x&amp;y\">x&amp;y</a>");
}

#[test]
fn entry_links_for_directories_and_files() {
    let mut d = Directory::new(FileGrouping::DirectoriesFirst, FileSort::Alphabetical, false);
    d.push(MetaFile::new("notes.txt".to_string(), false));
    d.push(MetaFile::new("sub".to_string(), true));
    assert_eq!(
        directory_to_html(&d, "/a"),
        "<li class=\"directory\"><a href=\"/a/sub\">sub</a></li><li class=\"file\"><a href=\"/httpdir/a/notes.txt\">notes.txt</a></li>"
    );
    assert_eq!(
        directory_to_html(&d, "/"),
        "<li class=\"directory\"><a href=\"/sub\">sub</a></li><li class=\"file\"><a href=\"/httpdir//notes.txt\">notes.txt</a></li>"
    );
}

#[test]
fn entry_names_are_escaped() {
    let mut d = Directory::new(FileGrouping::Mixed, FileSort::Alphabetical, false);
    d.push(MetaFile::new("<b>&\"x' y".to_string(), false));
    assert_eq!(
        directory_to_html(&d, "/d"),
        "<li class=\"file\"><a href=\"/httpdir/d/%3Cb%3E%26%22x%27%20y\">&lt;b&gt;&amp;&quot;x&#39; y</a></li>"
    );
}

#[test]
fn empty_listing_renders_no_items() {
    let d = Directory::new(FileGrouping::Mixed, FileSort::Alphabetical, true);
    assert_eq!(directory_to_html(&d, "/"), "");
}

#[test]
fn substitution_is_literal_and_single_pass() {
    assert_eq!(substitute("<{A}|{B}|{A}>", "{A}", "1", "{B}", "2"), "<1|2|1>");
    assert_eq!(substitute("{A}", "{A}", "{B}", "{B}", "x"), "{B}");
    assert_eq!(substitute("no tokens", "{A}", "1", "{B}", "2"), "no tokens");
    assert_eq!(substitute("", "{A}", "1", "{B}", "2"), "");
}

#[test]
fn page_scenario_lists_in_order() {
    let mut d = Directory::new(FileGrouping::DirectoriesFirst, FileSort::Alphabetical, false);
    d.push(MetaFile::new("zeta".to_string(), false));
    d.push(MetaFile::new("Alpha".to_string(), true));
    d.push(MetaFile::new(".hidden".to_string(), false));
    let p = cpath("/srv/", "/");
    let page = render(&d, &p);
    let html = page.html();
    let list = "<li class=\"directory\"><a href=\"/Alpha\">Alpha</a></li><li class=\"file\"><a href=\"/httpdir//zeta\">zeta</a></li>";
    assert!(html.contains(list));
    assert!(!html.contains(".hidden"));
    assert!(!html.contains("{LIST}"));
    assert!(!html.contains("{PATHMENU}"));
    assert!(html.contains("<a href=\"/\">/</a>"));
    let expected = INDEX_HTML.replace("{LIST}", list).replace("{PATHMENU}", "<a href=\"/\">/</a>");
    assert_eq!(html, expected);
}

#[test]
fn builder_renders_listing_and_breadcrumb() {
    let mut d = Directory::new(FileGrouping::DirectoriesFirst, FileSort::Alphabetical, false);
    d.push(MetaFile::new("f".to_string(), false));
    let mut b = Page::build("/a/b".to_string(), cpath("/srv/", "/a/b")).with_file_upload(false).with_directory(d);
    assert!(!b.file_upload());
    let page = b.build();
    assert!(page.html().contains("<li class=\"file\"><a href=\"/httpdir/a/b/f\">f</a></li>"));
    assert!(page.html().contains("<a href=\"/\">/</a> > <a href=\"/a\">a</a> > <a href=\"/a/b\">b</a>"));
    let again = b.build();
    assert!(!again.html().contains("<li"));
}

#[test]
fn builder_setters_replace_paths() {
    let b = Page::build("/x".to_string(), cpath("/srv/", "/x"))
        .url_path("/y".to_string())
        .combine_path(cpath("/srv/", "/z"));
    let mut b = b.with_directory(Directory::new(FileGrouping::Mixed, FileSort::Alphabetical, false));
    let page = b.build();
    assert!(page.html().contains("<a href=\"/y\">y</a>"));
    assert!(!page.html().contains(">x<"));
}

#[test]
fn upload_names_that_leave_the_directory_are_refused() {
    let p = cpath("/srv/", "/a");
    assert_eq!(p.upload_path("../x"), None);
    assert_eq!(p.upload_path("a/b"), None);
    assert_eq!(p.upload_path(".."), None);
    assert_eq!(p.upload_path("."), None);
    assert_eq!(p.upload_path(""), None);
    assert!(is_plain_file_name("..x"));
    assert!(is_plain_file_name("report.txt"));
    assert!(!is_plain_file_name("/etc"));
}

#[test]
fn download_route_is_recognised() {
    assert!(is_download_route("/httpdir/a/b.txt"));
    assert!(is_download_route("/httpdir"));
    assert!(!is_download_route("/"));
    assert!(!is_download_route("/http"));
    assert!(!is_download_route("/a/httpdir"));
}
