//! Directory entries and the ordered listing that holds them.
use std::cmp::Ordering;
use vstd::prelude::*;
use vstd::string::*;

use crate::text::{chars_lt, chars_of, lex_lt};

verus! {

/// Meta information about one entry of a directory: its base name and
/// whether it is a directory.
#[derive(Clone, Debug)]
pub struct MetaFile {
    file_name: String,
    is_dir: bool,
}

/// What a `MetaFile` stands for.
pub struct EntryView {
    pub name: Seq<char>,
    pub is_dir: bool,
}

impl View for MetaFile {
    type V = EntryView;

    closed spec fn view(&self) -> EntryView {
        EntryView { name: self.file_name@, is_dir: self.is_dir }
    }
}

impl MetaFile {
    pub fn new(name: String, is_dir: bool) -> (r: MetaFile)
        ensures
            r@ == (EntryView { name: name@, is_dir }),
    {
        MetaFile { file_name: name, is_dir }
    }

    pub fn name(&self) -> (r: &str)
        ensures
            r@ == self@.name,
    {
        self.file_name.as_str()
    }

    pub fn is_dir(&self) -> (r: bool)
        ensures
            r == self@.is_dir,
    {
        self.is_dir
    }
}

/// Which kind of entry is listed first.
#[derive(Clone, Copy, Debug, PartialEq, Eq, Structural)]
pub enum FileGrouping {
    DirectoriesFirst,
    FilesFirst,
    Mixed,
}

/// How names are ordered within a group.
#[derive(Clone, Copy, Debug, PartialEq, Eq, Structural)]
pub enum FileSort {
    Alphabetical,
    RevAlphabetical,
}

/// The group an entry falls in: lower groups are listed first.
pub open spec fn group_rank(is_dir: bool, g: FileGrouping) -> int {
    match g {
        FileGrouping::DirectoriesFirst => if is_dir { 0 } else { 1 },
        FileGrouping::FilesFirst => if is_dir { 1 } else { 0 },
        FileGrouping::Mixed => 0,
    }
}

/// Whether name `a` comes strictly before name `b` under the sort policy.
pub open spec fn name_before(a: Seq<char>, b: Seq<char>, s: FileSort) -> bool {
    match s {
        FileSort::Alphabetical => lex_lt(a, b),
        FileSort::RevAlphabetical => lex_lt(b, a),
    }
}

/// Whether entry `a` is listed strictly before entry `b`: the group decides
/// first, then the name.
pub open spec fn precedes(a: EntryView, b: EntryView, g: FileGrouping, s: FileSort) -> bool {
    group_rank(a.is_dir, g) < group_rank(b.is_dir, g) || (group_rank(a.is_dir, g)
        == group_rank(b.is_dir, g) && name_before(a.name, b.name, s))
}

/// The three-way comparison of two entries.
pub open spec fn spec_compare(a: EntryView, b: EntryView, g: FileGrouping, s: FileSort) -> Ordering {
    if precedes(a, b, g, s) {
        Ordering::Less
    } else if precedes(b, a, g, s) {
        Ordering::Greater
    } else {
        Ordering::Equal
    }
}

/// No entry is listed after one that should come after it.
pub open spec fn sorted_by(s: Seq<EntryView>, g: FileGrouping, t: FileSort) -> bool {
    forall|i: int, j: int| 0 <= i < j < s.len() ==> !precedes(#[trigger] s[j], #[trigger] s[i], g, t)
}

/// A name that marks a hidden entry.
pub open spec fn is_dotname(n: Seq<char>) -> bool {
    n.len() > 0 && n[0] == '.'
}

/// Where a new entry goes: before the first entry that it precedes.
pub open spec fn insert_pos(s: Seq<EntryView>, e: EntryView, g: FileGrouping, t: FileSort) -> int
    decreases s.len(),
{
    if s.len() == 0 {
        0
    } else if precedes(e, s[0], g, t) {
        0
    } else {
        1 + insert_pos(s.drop_first(), e, g, t)
    }
}

/// `s` with `e` put in its place.
pub open spec fn insert_sorted(s: Seq<EntryView>, e: EntryView, g: FileGrouping, t: FileSort) -> Seq<
    EntryView,
> {
    s.insert(insert_pos(s, e, g, t), e)
}

/// What a `Directory` stands for.
pub struct DirectoryView {
    pub entries: Seq<EntryView>,
    pub grouping: FileGrouping,
    pub sort: FileSort,
    pub include_dotfiles: bool,
}

/// The listing after one more entry is offered to it.
pub open spec fn pushed(v: DirectoryView, e: EntryView) -> DirectoryView {
    if !v.include_dotfiles && is_dotname(e.name) {
        v
    } else {
        DirectoryView { entries: insert_sorted(v.entries, e, v.grouping, v.sort), ..v }
    }
}

/// The listing after each of `es` is offered to it, in order.
pub open spec fn pushed_all(v: DirectoryView, es: Seq<EntryView>) -> DirectoryView
    decreases es.len(),
{
    if es.len() == 0 {
        v
    } else {
        pushed(pushed_all(v, es.drop_last()), es.last())
    }
}

/// A fresh, empty listing.
pub open spec fn empty_listing(g: FileGrouping, t: FileSort, include_dotfiles: bool) -> DirectoryView {
    DirectoryView { entries: Seq::empty(), grouping: g, sort: t, include_dotfiles }
}

/// The entries of one directory, kept in the order that the grouping and
/// sort policies give.
#[derive(Clone, Debug)]
pub struct Directory {
    files: Vec<MetaFile>,
    order: FileGrouping,
    sort: FileSort,
    include_dotfiles: bool,
}

/// What each of a sequence of entries stands for.
pub open spec fn views(s: Seq<MetaFile>) -> Seq<EntryView> {
    s.map_values(|f: MetaFile| f@)
}

impl View for Directory {
    type V = DirectoryView;

    closed spec fn view(&self) -> DirectoryView {
        DirectoryView {
            entries: views(self.files@),
            grouping: self.order,
            sort: self.sort,
            include_dotfiles: self.include_dotfiles,
        }
    }
}

fn rank(is_dir: bool, g: FileGrouping) -> (r: u8)
    ensures
        r as int == group_rank(is_dir, g),
{
    match g {
        FileGrouping::DirectoriesFirst => if is_dir { 0 } else { 1 },
        FileGrouping::FilesFirst => if is_dir { 1 } else { 0 },
        FileGrouping::Mixed => 0,
    }
}

/// Compares two entries: the group first, then the name under the sort policy.
pub fn compare(a: &MetaFile, b: &MetaFile, order: &FileGrouping, sort: &FileSort) -> (r: Ordering)
    ensures
        r == spec_compare(a@, b@, *order, *sort),
{
    let ra = rank(a.is_dir(), *order);
    let rb = rank(b.is_dir(), *order);
    if ra < rb {
        return Ordering::Less;
    }
    if rb < ra {
        return Ordering::Greater;
    }
    let an = chars_of(a.name());
    let bn = chars_of(b.name());
    let (a_first, b_first) = match sort {
        FileSort::Alphabetical => (chars_lt(&an, &bn), chars_lt(&bn, &an)),
        FileSort::RevAlphabetical => (chars_lt(&bn, &an), chars_lt(&an, &bn)),
    };
    if a_first {
        Ordering::Less
    } else if b_first {
        Ordering::Greater
    } else {
        Ordering::Equal
    }
}

/// Whether `a` is listed strictly before `b`.
fn goes_before(a: &MetaFile, b: &MetaFile, order: FileGrouping, sort: FileSort) -> (r: bool)
    ensures
        r == precedes(a@, b@, order, sort),
{
    match compare(a, b, &order, &sort) {
        Ordering::Less => true,
        _ => false,
    }
}

pub proof fn lemma_precedes_irreflexive(a: EntryView, g: FileGrouping, t: FileSort)
    ensures
        !precedes(a, a, g, t),
{
    crate::text::lemma_lex_irreflexive(a.name);
}

pub proof fn lemma_precedes_asymmetric(a: EntryView, b: EntryView, g: FileGrouping, t: FileSort)
    ensures
        !(precedes(a, b, g, t) && precedes(b, a, g, t)),
{
    crate::text::lemma_lex_asymmetric(a.name, b.name);
}

pub proof fn lemma_precedes_transitive(
    a: EntryView,
    b: EntryView,
    c: EntryView,
    g: FileGrouping,
    t: FileSort,
)
    requires
        precedes(a, b, g, t),
        precedes(b, c, g, t),
    ensures
        precedes(a, c, g, t),
{
    if group_rank(a.is_dir, g) == group_rank(b.is_dir, g) && group_rank(b.is_dir, g) == group_rank(
        c.is_dir,
        g,
    ) {
        match t {
            FileSort::Alphabetical => crate::text::lemma_lex_transitive(a.name, b.name, c.name),
            FileSort::RevAlphabetical => crate::text::lemma_lex_transitive(c.name, b.name, a.name),
        }
    }
}

/// `insert_pos` is the one position before which no entry is preceded by the
/// new one, and at which (if any) the first such entry stands.
pub proof fn lemma_insert_pos(s: Seq<EntryView>, e: EntryView, g: FileGrouping, t: FileSort, p: int)
    requires
        0 <= p <= s.len(),
        forall|k: int| 0 <= k < p ==> !precedes(e, #[trigger] s[k], g, t),
        p == s.len() || precedes(e, s[p], g, t),
    ensures
        insert_pos(s, e, g, t) == p,
    decreases s.len(),
{
    if s.len() > 0 && p > 0 {
        assert forall|k: int| 0 <= k < p - 1 implies !precedes(e, #[trigger] s.drop_first()[k], g, t) by {
            assert(s.drop_first()[k] == s[k + 1]);
        }
        lemma_insert_pos(s.drop_first(), e, g, t, p - 1);
    }
}

/// Putting an entry in its place keeps a sorted sequence sorted.
pub proof fn lemma_insert_sorted(s: Seq<EntryView>, e: EntryView, g: FileGrouping, t: FileSort)
    requires
        sorted_by(s, g, t),
    ensures
        sorted_by(insert_sorted(s, e, g, t), g, t),
        0 <= insert_pos(s, e, g, t) <= s.len(),
    decreases s.len(),
{
    let p = insert_pos(s, e, g, t);
    if s.len() > 0 {
        let tail = s.drop_first();
        assert forall|i: int, j: int| 0 <= i < j < tail.len() implies !precedes(
            #[trigger] tail[j],
            #[trigger] tail[i],
            g,
            t,
        ) by {
            assert(tail[i] == s[i + 1] && tail[j] == s[j + 1]);
        }
        lemma_insert_sorted(tail, e, g, t);
    }
    let r = insert_sorted(s, e, g, t);
    lemma_insert_pos_before(s, e, g, t, 0);
    assert forall|k: int| 0 <= k < p implies !precedes(e, #[trigger] s[k], g, t) by {
        lemma_insert_pos_before(s, e, g, t, k);
    }
    assert forall|i: int, j: int| 0 <= i < j < r.len() implies !precedes(
        #[trigger] r[j],
        #[trigger] r[i],
        g,
        t,
    ) by {
        if j == p {
            assert(r[i] == s[i]);
        } else if i == p {
            assert(r[j] == s[j - 1]);
            assert(precedes(e, s[p], g, t));
            lemma_precedes_asymmetric(e, s[p], g, t);
            if precedes(s[j - 1], e, g, t) {
                lemma_precedes_transitive(s[j - 1], e, s[p], g, t);
            }
        } else {
            let si = if i < p { i } else { i - 1 };
            let sj = if j < p { j } else { j - 1 };
            assert(r[i] == s[si] && r[j] == s[sj]);
        }
    }
}

/// Before `insert_pos` the new entry precedes nothing, and it precedes what
/// stands there.
pub proof fn lemma_insert_pos_before(s: Seq<EntryView>, e: EntryView, g: FileGrouping, t: FileSort, k: int)
    ensures
        0 <= insert_pos(s, e, g, t) <= s.len(),
        0 <= k < insert_pos(s, e, g, t) ==> !precedes(e, s[k], g, t),
        insert_pos(s, e, g, t) < s.len() ==> precedes(e, s[insert_pos(s, e, g, t)], g, t),
    decreases s.len(),
{
    if s.len() > 0 && !precedes(e, s[0], g, t) {
        lemma_insert_pos_before(s.drop_first(), e, g, t, k - 1);
        if 1 <= k < s.len() {
            assert(s.drop_first()[k - 1] == s[k]);
        }
        let q = insert_pos(s.drop_first(), e, g, t);
        if q < s.len() - 1 {
            assert(s.drop_first()[q] == s[q + 1]);
        }
    }
}

impl Directory {
    /// The entries are in order.
    pub open spec fn wf(&self) -> bool {
        sorted_by(self@.entries, self@.grouping, self@.sort)
    }

    pub fn new(order: FileGrouping, sort: FileSort, include_dotfiles: bool) -> (r: Directory)
        ensures
            r@ == empty_listing(order, sort, include_dotfiles),
            r.wf(),
    {
        let r = Directory { files: Vec::new(), order, sort, include_dotfiles };
        assert(r@.entries =~= Seq::<EntryView>::empty());
        r
    }

    /// Offers an entry to the listing: a hidden entry is dropped unless dotfiles
    /// are shown; any other goes in its place, before the first entry that it
    /// precedes.
    pub fn push(&mut self, file: MetaFile)
        requires
            old(self).wf(),
        ensures
            final(self).wf(),
            final(self)@ == pushed(old(self)@, file@),
    {
        if !self.include_dotfiles && starts_with_dot(file.name()) {
            return;
        }
        let ghost s = self@.entries;
        let mut p: usize = 0;
        while p < self.files.len() && !goes_before(&file, &self.files[p], self.order, self.sort)
            invariant
                p <= self.files@.len(),
                s == views(self.files@),
                forall|k: int| 0 <= k < p ==> !precedes(file@, #[trigger] s[k], self.order, self.sort),
            decreases self.files@.len() - p,
        {
            p = p + 1;
        }
        proof {
            lemma_insert_pos(s, file@, self.order, self.sort, p as int);
            lemma_insert_sorted(s, file@, self.order, self.sort);
        }
        let ghost f = file@;
        self.files.insert(p, file);
        assert(views(self.files@) =~= s.insert(p as int, f));
    }

    /// The entry at `index`, in listing order.
    pub fn get(&self, index: usize) -> (r: Option<&MetaFile>)
        ensures
            index < self@.entries.len() ==> r is Some && r->0@ == self@.entries[index as int],
            index >= self@.entries.len() ==> r is None,
    {
        if index < self.files.len() {
            Some(&self.files[index])
        } else {
            None
        }
    }

    pub fn len(&self) -> (r: usize)
        ensures
            r == self@.entries.len(),
    {
        self.files.len()
    }

    /// Sets whether hidden entries offered from now on are kept.
    pub fn include_dotfiles(&mut self, b: bool)
        requires
            old(self).wf(),
        ensures
            final(self).wf(),
            final(self)@ == (DirectoryView { include_dotfiles: b, ..old(self)@ }),
    {
        self.include_dotfiles = b;
    }

    /// The entries, in listing order.
    pub fn files(&self) -> (r: &Vec<MetaFile>)
        ensures
            views(r@) == self@.entries,
    {
        &self.files
    }
}

/// Whether a name starts with `.`.
pub fn starts_with_dot(name: &str) -> (r: bool)
    ensures
        r == is_dotname(name@),
{
    let n = name.unicode_len();
    n > 0 && name.get_char(0) == '.'
}

/// The grouping policy a configuration word names.
pub open spec fn grouping_named(s: Seq<char>) -> Option<FileGrouping> {
    if s == "directories"@ {
        Some(FileGrouping::DirectoriesFirst)
    } else if s == "files"@ {
        Some(FileGrouping::FilesFirst)
    } else if s == "none"@ {
        Some(FileGrouping::Mixed)
    } else {
        None
    }
}

/// The sort policy a configuration word names.
pub open spec fn sort_named(s: Seq<char>) -> Option<FileSort> {
    if s == "atoz"@ {
        Some(FileSort::Alphabetical)
    } else if s == "ztoa"@ {
        Some(FileSort::RevAlphabetical)
    } else {
        None
    }
}

/// Whether `s` holds the same characters as `word`.
fn is_word(s: &Vec<char>, word: &str) -> (r: bool)
    ensures
        r == (s@ == word@),
{
    let w = chars_of(word);
    crate::text::chars_eq(s, &w)
}

impl FileGrouping {
    /// Reads `directories`, `files` or `none`.
    pub fn parse(s: &str) -> (r: Option<FileGrouping>)
        ensures
            r == grouping_named(s@),
    {
        let c = chars_of(s);
        if is_word(&c, "directories") {
            Some(FileGrouping::DirectoriesFirst)
        } else if is_word(&c, "files") {
            Some(FileGrouping::FilesFirst)
        } else if is_word(&c, "none") {
            Some(FileGrouping::Mixed)
        } else {
            None
        }
    }
}

impl FileSort {
    /// Reads `atoz` or `ztoa`.
    pub fn parse(s: &str) -> (r: Option<FileSort>)
        ensures
            r == sort_named(s@),
    {
        let c = chars_of(s);
        if is_word(&c, "atoz") {
            Some(FileSort::Alphabetical)
        } else if is_word(&c, "ztoa") {
            Some(FileSort::RevAlphabetical)
        } else {
            None
        }
    }
}

impl std::str::FromStr for FileGrouping {
    type Err = String;

    fn from_str(s: &str) -> (r: Result<FileGrouping, String>)
        ensures
            r is Ok <==> grouping_named(s@) is Some,
            r is Ok ==> grouping_named(s@) == Some(r->Ok_0),
    {
        match FileGrouping::parse(s) {
            Some(g) => Ok(g),
            None => Err("Could not parse value".to_string()),
        }
    }
}

impl std::str::FromStr for FileSort {
    type Err = String;

    fn from_str(s: &str) -> (r: Result<FileSort, String>)
        ensures
            r is Ok <==> sort_named(s@) is Some,
            r is Ok ==> sort_named(s@) == Some(r->Ok_0),
    {
        match FileSort::parse(s) {
            Some(t) => Ok(t),
            None => Err("Could not parse value".to_string()),
        }
    }
}

impl Default for Directory {
    fn default() -> (r: Directory)
        ensures
            r@ == empty_listing(FileGrouping::DirectoriesFirst, FileSort::Alphabetical, false),
            r.wf(),
    {
        Directory::new(FileGrouping::DirectoriesFirst, FileSort::Alphabetical, false)
    }
}

impl Directory {
    /// The listing that offering each of `entries`, in order, to an empty one
    /// gives: what a directory read folds into.
    pub fn from_entries(
        order: FileGrouping,
        sort: FileSort,
        include_dotfiles: bool,
        entries: Vec<MetaFile>,
    ) -> (r: Directory)
        ensures
            r.wf(),
            r@ == pushed_all(empty_listing(order, sort, include_dotfiles), views(entries@)),
    {
        let mut d = Directory::new(order, sort, include_dotfiles);
        let mut rest = entries;
        let ghost all = views(rest@);
        assert(all.subrange(0, 0) =~= Seq::<EntryView>::empty());
        assert(all.subrange(0, all.len() as int) =~= all);
        let mut i: usize = 0;
        let n = rest.len();
        while rest.len() > 0
            invariant
                d.wf(),
                n == all.len(),
                i + rest@.len() == n,
                views(rest@) == all.subrange(i as int, n as int),
                d@ == pushed_all(empty_listing(order, sort, include_dotfiles), all.subrange(0, i as int)),
            decreases rest@.len(),
        {
            let ghost before = rest@;
            let f = rest.remove(0);
            assert(f@ == views(before)[0]);
            assert forall|k: int| 0 <= k < rest@.len() implies views(rest@)[k] == all[i + 1 + k] by {
                assert(rest@[k] == before[k + 1]);
                assert(views(before)[k + 1] == all.subrange(i as int, n as int)[k + 1]);
            }
            assert(views(rest@) =~= all.subrange(i + 1, n as int));
            assert(all.subrange(0, i + 1).drop_last() =~= all.subrange(0, i as int));
            d.push(f);
            i = i + 1;
        }
        assert(all.subrange(0, n as int) =~= all);
        d
    }
}

} // verus!
