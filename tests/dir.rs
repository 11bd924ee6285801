use std::cmp::Ordering;

use httpdir::dir::{compare, Directory, FileGrouping, FileSort, MetaFile};

fn meta(name: &str, is_dir: bool) -> MetaFile {
    MetaFile::new(name.to_string(), is_dir)
}

fn names(d: &Directory) -> Vec<String> {
    let mut out = Vec::new();
    for i in 0..d.len() {
        out.push(d.get(i).unwrap().name().to_string());
    }
    out
}

fn listing(order: FileGrouping, sort: FileSort, dotfiles: bool, entries: &[(&str, bool)]) -> Directory {
    let mut d = Directory::new(order, sort, dotfiles);
    for (name, is_dir) in entries {
        d.push(meta(name, *is_dir));
    }
    d
}

#[test]
fn test_compare_alpha() {
    let a = meta("AAA", false);
    let b = meta("AAB", false);
    let order = FileGrouping::FilesFirst;
    let sort = FileSort::Alphabetical;
    assert_eq!(compare(&a, &b, &order, &sort), Ordering::Less);
    assert_eq!(compare(&b, &a, &order, &sort), Ordering::Greater);
}

#[test]
fn test_compare_rev_alpha() {
    let a = meta("AAA", false);
    let b = meta("AAB", false);
    let order = FileGrouping::FilesFirst;
    let sort = FileSort::RevAlphabetical;
    assert_eq!(compare(&a, &b, &order, &sort), Ordering::Greater);
    assert_eq!(compare(&b, &a, &order, &sort), Ordering::Less);
}

#[test]
fn test_compare_mixed() {
    let a = meta("AAA", false);
    let b = meta("AAB", true);
    let order = FileGrouping::Mixed;
    let sort = FileSort::Alphabetical;
    assert_eq!(compare(&a, &b, &order, &sort), Ordering::Less);
    assert_eq!(compare(&b, &a, &order, &sort), Ordering::Greater);
}

#[test]
fn test_compare_directory_first() {
    let a = meta("AAA", false);
    let b = meta("BBB", true);
    let order = FileGrouping::DirectoriesFirst;
    let sort = FileSort::Alphabetical;
    assert_eq!(compare(&a, &b, &order, &sort), Ordering::Greater);
    assert_eq!(compare(&b, &a, &order, &sort), Ordering::Less);
}

#[test]
fn test_compare_file_first() {
    let a = meta("AAA", false);
    let b = meta("BBB", true);
    let order = FileGrouping::FilesFirst;
    let sort = FileSort::Alphabetical;
    assert_eq!(compare(&a, &b, &order, &sort), Ordering::Less);
    assert_eq!(compare(&b, &a, &order, &sort), Ordering::Greater);
}

#[test]
fn compare_equal_names_are_equal() {
    let a = meta("same", false);
    let b = meta("same", true);
    assert_eq!(compare(&a, &b, &FileGrouping::Mixed, &FileSort::Alphabetical), Ordering::Equal);
    assert_eq!(compare(&a, &a.clone(), &FileGrouping::DirectoriesFirst, &FileSort::RevAlphabetical), Ordering::Equal);
}

#[test]
fn compare_is_case_sensitive_and_by_code_point() {
    let upper = meta("Zeta", false);
    let lower = meta("alpha", false);
    assert_eq!(compare(&upper, &lower, &FileGrouping::Mixed, &FileSort::Alphabetical), Ordering::Less);
    let short = meta("ab", false);
    let long = meta("abc", false);
    assert_eq!(compare(&short, &long, &FileGrouping::Mixed, &FileSort::Alphabetical), Ordering::Less);
    let accented = meta("é", false);
    assert_eq!(compare(&lower, &accented, &FileGrouping::Mixed, &FileSort::Alphabetical), Ordering::Less);
}

#[test]
fn directories_come_first_whatever_the_sort() {
    for sort in [FileSort::Alphabetical, FileSort::RevAlphabetical] {
        let d = listing(
            FileGrouping::DirectoriesFirst,
            sort,
            false,
            &[("a.txt", false), ("zdir", true), ("b.txt", false), ("adir", true)],
        );
        let got = names(&d);
        assert!(d.get(0).unwrap().is_dir() && d.get(1).unwrap().is_dir());
        assert!(!d.get(2).unwrap().is_dir() && !d.get(3).unwrap().is_dir());
        if sort == FileSort::Alphabetical {
            assert_eq!(got, vec!["adir", "zdir", "a.txt", "b.txt"]);
        } else {
            assert_eq!(got, vec!["zdir", "adir", "b.txt", "a.txt"]);
        }
    }
}

#[test]
fn files_come_first() {
    let d = listing(
        FileGrouping::FilesFirst,
        FileSort::Alphabetical,
        false,
        &[("adir", true), ("b.txt", false), ("a.txt", false)],
    );
    assert_eq!(names(&d), vec!["a.txt", "b.txt", "adir"]);
}

#[test]
fn mixed_orders_by_name_only() {
    let entries = [("b", true), ("c", false), ("a", false), ("d", true)];
    let up = listing(FileGrouping::Mixed, FileSort::Alphabetical, false, &entries);
    assert_eq!(names(&up), vec!["a", "b", "c", "d"]);
    let down = listing(FileGrouping::Mixed, FileSort::RevAlphabetical, false, &entries);
    assert_eq!(names(&down), vec!["d", "c", "b", "a"]);
}

#[test]
fn insertion_order_does_not_matter() {
    let one = [("zeta", false), ("Alpha", true), ("beta", false), ("gamma", true), (".x", false)];
    let two = [(".x", false), ("gamma", true), ("beta", false), ("zeta", false), ("Alpha", true)];
    for order in [FileGrouping::DirectoriesFirst, FileGrouping::FilesFirst, FileGrouping::Mixed] {
        for sort in [FileSort::Alphabetical, FileSort::RevAlphabetical] {
            for dotfiles in [false, true] {
                let a = listing(order, sort, dotfiles, &one);
                let b = listing(order, sort, dotfiles, &two);
                assert_eq!(names(&a), names(&b));
            }
        }
    }
}

#[test]
fn dotfiles_hidden_are_dropped() {
    let d = listing(
        FileGrouping::DirectoriesFirst,
        FileSort::Alphabetical,
        false,
        &[(".hidden", false), (".config", true), ("visible", false)],
    );
    assert_eq!(names(&d), vec!["visible"]);
    assert_eq!(d.len(), 1);
}

#[test]
fn dotfiles_shown_are_sorted_in_place() {
    let d = listing(
        FileGrouping::DirectoriesFirst,
        FileSort::Alphabetical,
        true,
        &[("b", false), (".hidden", false), ("dir", true), (".config", true)],
    );
    assert_eq!(names(&d), vec![".config", "dir", ".hidden", "b"]);
}

#[test]
fn dotfile_setting_applies_to_later_pushes() {
    let mut d = Directory::new(FileGrouping::Mixed, FileSort::Alphabetical, false);
    d.push(meta(".a", false));
    d.include_dotfiles(true);
    d.push(meta(".b", false));
    assert_eq!(names(&d), vec![".b"]);
}

#[test]
fn listing_scenario_hides_dotfile_and_puts_directory_first() {
    let d = listing(
        FileGrouping::DirectoriesFirst,
        FileSort::Alphabetical,
        false,
        &[("zeta", false), ("Alpha", true), (".hidden", false)],
    );
    assert_eq!(names(&d), vec!["Alpha", "zeta"]);
}

#[test]
fn get_out_of_range_is_none() {
    let d = listing(FileGrouping::Mixed, FileSort::Alphabetical, false, &[("a", false)]);
    assert!(d.get(1).is_none());
    assert_eq!(d.get(0).unwrap().name(), "a");
    assert!(Directory::new(FileGrouping::Mixed, FileSort::Alphabetical, true).get(0).is_none());
}

#[test]
fn default_listing_hides_dotfiles_directories_first() {
    let mut d = Directory::default();
    d.push(meta(".h", true));
    d.push(meta("f", false));
    d.push(meta("d", true));
    assert_eq!(names(&d), vec!["d", "f"]);
}

#[test]
fn equal_names_do_not_crash() {
    let d = listing(FileGrouping::Mixed, FileSort::Alphabetical, false, &[("x", false), ("x", true), ("x", false)]);
    assert_eq!(d.len(), 3);
}

#[test]
fn meta_file_keeps_name_and_kind() {
    let m = meta("report.txt", false);
    assert_eq!(m.name(), "report.txt");
    assert!(!m.is_dir());
    assert!(meta("sub", true).is_dir());
}

#[test]
fn grouping_and_sort_words() {
    assert_eq!(FileGrouping::parse("directories"), Some(FileGrouping::DirectoriesFirst));
    assert_eq!(FileGrouping::parse("files"), Some(FileGrouping::FilesFirst));
    assert_eq!(FileGrouping::parse("none"), Some(FileGrouping::Mixed));
    assert_eq!(FileGrouping::parse("dirs"), None);
    assert_eq!(FileSort::parse("atoz"), Some(FileSort::Alphabetical));
    assert_eq!(FileSort::parse("ztoa"), Some(FileSort::RevAlphabetical));
    assert_eq!(FileSort::parse("AtoZ"), None);
    assert_eq!("files".parse::<FileGrouping>(), Ok(FileGrouping::FilesFirst));
    assert!("x".parse::<FileGrouping>().is_err());
    assert_eq!("ztoa".parse::<FileSort>(), Ok(FileSort::RevAlphabetical));
    assert!("".parse::<FileSort>().is_err());
    assert_eq!("directories".parse::<FileGrouping>(), Ok(FileGrouping::DirectoriesFirst));
    assert_eq!("none".parse::<FileGrouping>(), Ok(FileGrouping::Mixed));
    assert_eq!("atoz".parse::<FileSort>(), Ok(FileSort::Alphabetical));
    assert!("Files".parse::<FileGrouping>().is_err());
}
