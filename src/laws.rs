//! What holds of every listing: the order that grouping and sort give, which
//! entries a listing keeps, and that the order in which entries arrive does
//! not matter.
use vstd::prelude::*;

use crate::dir::{
    empty_listing, group_rank, insert_pos, insert_sorted, is_dotname, lemma_insert_sorted,
    lemma_precedes_irreflexive, precedes, pushed, pushed_all, sorted_by, spec_compare,
    DirectoryView, EntryView, FileGrouping, FileSort,
};
use crate::page::{entries_html, entry_item, html_char, html_escape};
use crate::text::{lemma_lex_asymmetric, lemma_lex_irreflexive, lemma_lex_total, lex_lt};

verus! {

broadcast use vstd::seq_lib::group_to_multiset_ensures;

/// The entries of `es` that a listing keeps: all of them when dotfiles are
/// shown, else those whose names do not start with `.`.
pub open spec fn visible(es: Seq<EntryView>, include_dotfiles: bool) -> Seq<EntryView>
    decreases es.len(),
{
    if es.len() == 0 {
        Seq::empty()
    } else {
        let r = visible(es.drop_last(), include_dotfiles);
        if !include_dotfiles && is_dotname(es.last().name) {
            r
        } else {
            r.push(es.last())
        }
    }
}

/// With directories first, a directory is compared as coming before a file,
/// whatever the sort policy.
pub proof fn lemma_compare_directories_first(a: EntryView, b: EntryView, t: FileSort)
    requires
        a.is_dir && !b.is_dir,
    ensures
        spec_compare(a, b, FileGrouping::DirectoriesFirst, t) == std::cmp::Ordering::Less,
        spec_compare(b, a, FileGrouping::DirectoriesFirst, t) == std::cmp::Ordering::Greater,
{
}

/// In a listing with directories first, every directory stands before every
/// file.
pub proof fn lemma_listing_directories_first(v: DirectoryView, i: int, j: int)
    requires
        v.grouping == FileGrouping::DirectoriesFirst,
        sorted_by(v.entries, v.grouping, v.sort),
        0 <= i < v.entries.len(),
        0 <= j < v.entries.len(),
        v.entries[i].is_dir,
        !v.entries[j].is_dir,
    ensures
        i < j,
{
    if j < i {
        assert(!precedes(v.entries[i], v.entries[j], v.grouping, v.sort));
    }
}

/// Entries of one kind, or of any kind when nothing is grouped, are compared
/// by name: ascending for `Alphabetical`, descending for `RevAlphabetical`.
pub proof fn lemma_compare_by_name(a: EntryView, b: EntryView, g: FileGrouping, t: FileSort)
    requires
        a.is_dir == b.is_dir || g == FileGrouping::Mixed,
    ensures
        t == FileSort::Alphabetical ==> spec_compare(a, b, g, t) == (if lex_lt(a.name, b.name) {
            std::cmp::Ordering::Less
        } else if lex_lt(b.name, a.name) {
            std::cmp::Ordering::Greater
        } else {
            std::cmp::Ordering::Equal
        }),
        t == FileSort::RevAlphabetical ==> spec_compare(a, b, g, t) == (if lex_lt(b.name, a.name) {
            std::cmp::Ordering::Less
        } else if lex_lt(a.name, b.name) {
            std::cmp::Ordering::Greater
        } else {
            std::cmp::Ordering::Equal
        }),
        lex_lt(a.name, b.name) || lex_lt(b.name, a.name) || a.name == b.name,
{
    lemma_lex_total(a.name, b.name);
}

/// In a listing, entries of one kind (of any kind when nothing is grouped)
/// stand in ascending name order under `Alphabetical` and in descending order
/// under `RevAlphabetical`.
pub proof fn lemma_listing_by_name(v: DirectoryView, i: int, j: int)
    requires
        sorted_by(v.entries, v.grouping, v.sort),
        0 <= i < j < v.entries.len(),
        v.entries[i].is_dir == v.entries[j].is_dir || v.grouping == FileGrouping::Mixed,
    ensures
        v.sort == FileSort::Alphabetical ==> v.entries[i].name == v.entries[j].name || lex_lt(
            v.entries[i].name,
            v.entries[j].name,
        ),
        v.sort == FileSort::RevAlphabetical ==> v.entries[i].name == v.entries[j].name || lex_lt(
            v.entries[j].name,
            v.entries[i].name,
        ),
{
    assert(!precedes(v.entries[j], v.entries[i], v.grouping, v.sort));
    lemma_lex_total(v.entries[i].name, v.entries[j].name);
}

/// Putting `x` anywhere adds it once to what a sequence holds.
pub proof fn lemma_insert_multiset(s: Seq<EntryView>, p: int, x: EntryView)
    requires
        0 <= p <= s.len(),
    ensures
        s.insert(p, x).to_multiset() =~= s.to_multiset().insert(x),
{
    let t = s.insert(p, x);
    assert(t.remove(p) =~= s);
    assert(t[p] == x);
    assert(t.contains(x));
    assert(s.to_multiset() =~= t.to_multiset().remove(x));
}

/// How many times a listing keeps an entry: as often as it was offered, or
/// never when it is hidden.
pub proof fn lemma_visible_count(es: Seq<EntryView>, include_dotfiles: bool, x: EntryView)
    ensures
        visible(es, include_dotfiles).to_multiset().count(x) == if !include_dotfiles && is_dotname(
            x.name,
        ) {
            0
        } else {
            es.to_multiset().count(x)
        },
    decreases es.len(),
{
    if es.len() == 0 {
        assert(visible(es, include_dotfiles) =~= Seq::<EntryView>::empty());
    } else {
        lemma_visible_count(es.drop_last(), include_dotfiles, x);
        assert(es.drop_last().push(es.last()) =~= es);
    }
}

/// What the listing keeps was offered to it.
pub proof fn lemma_visible_from(es: Seq<EntryView>, include_dotfiles: bool, x: EntryView)
    requires
        visible(es, include_dotfiles).contains(x),
    ensures
        es.contains(x),
{
    lemma_visible_count(es, include_dotfiles, x);
}

/// A listing made by offering `es` to an empty one keeps its policies, is in
/// order, and holds exactly the entries of `es` that it keeps.
pub proof fn lemma_pushed_all_contents(
    g: FileGrouping,
    t: FileSort,
    include_dotfiles: bool,
    es: Seq<EntryView>,
)
    ensures
        pushed_all(empty_listing(g, t, include_dotfiles), es).grouping == g,
        pushed_all(empty_listing(g, t, include_dotfiles), es).sort == t,
        pushed_all(empty_listing(g, t, include_dotfiles), es).include_dotfiles == include_dotfiles,
        sorted_by(pushed_all(empty_listing(g, t, include_dotfiles), es).entries, g, t),
        pushed_all(empty_listing(g, t, include_dotfiles), es).entries.to_multiset()
            == visible(es, include_dotfiles).to_multiset(),
    decreases es.len(),
{
    let v0 = empty_listing(g, t, include_dotfiles);
    if es.len() == 0 {
        assert(v0.entries.to_multiset() =~= visible(es, include_dotfiles).to_multiset());
    } else {
        lemma_pushed_all_contents(g, t, include_dotfiles, es.drop_last());
        let prev = pushed_all(v0, es.drop_last());
        let e = es.last();
        if !(!include_dotfiles && is_dotname(e.name)) {
            lemma_insert_sorted(prev.entries, e, g, t);
            lemma_insert_multiset(prev.entries, insert_pos(prev.entries, e, g, t), e);
        }
    }
}

/// With dotfiles hidden, no entry whose name starts with `.` is ever listed,
/// whatever was offered.
pub proof fn lemma_hidden_never_listed(g: FileGrouping, t: FileSort, es: Seq<EntryView>, k: int)
    requires
        0 <= k < pushed_all(empty_listing(g, t, false), es).entries.len(),
    ensures
        !is_dotname(pushed_all(empty_listing(g, t, false), es).entries[k].name),
{
    lemma_pushed_all_contents(g, t, false, es);
    let s = pushed_all(empty_listing(g, t, false), es).entries;
    let x = s[k];
    assert(s.contains(x));
    lemma_visible_count(es, false, x);
}

/// With dotfiles shown, the listing holds every entry offered, hidden ones
/// included, each in its place in the order.
pub proof fn lemma_shown_all_listed(g: FileGrouping, t: FileSort, es: Seq<EntryView>)
    ensures
        pushed_all(empty_listing(g, t, true), es).entries.to_multiset() == es.to_multiset(),
        sorted_by(pushed_all(empty_listing(g, t, true), es).entries, g, t),
{
    lemma_pushed_all_contents(g, t, true, es);
    assert forall|x: EntryView|
        visible(es, true).to_multiset().count(x) == es.to_multiset().count(x) by {
        lemma_visible_count(es, true, x);
    }
    assert(visible(es, true).to_multiset() =~= es.to_multiset());
}

/// Two sequences in order that hold the same entries are the same, where no
/// two different entries are tied.
pub proof fn lemma_sorted_unique(s1: Seq<EntryView>, s2: Seq<EntryView>, g: FileGrouping, t: FileSort)
    requires
        sorted_by(s1, g, t),
        sorted_by(s2, g, t),
        s1.to_multiset() == s2.to_multiset(),
        forall|x: EntryView, y: EntryView|
            #![trigger s1.contains(x), s1.contains(y)]
            s1.contains(x) && s1.contains(y) && !precedes(x, y, g, t) && !precedes(y, x, g, t)
                ==> x == y,
    ensures
        s1 == s2,
    decreases s1.len(),
{
    assert(s1.len() == s1.to_multiset().len());
    assert(s2.len() == s2.to_multiset().len());
    if s1.len() == 0 {
        assert(s1 =~= s2);
    } else {
        let a = s1[0];
        let b = s2[0];
        assert(s1.contains(a));
        assert(s2.contains(b));
        assert(s2.to_multiset().count(a) > 0);
        assert(s1.to_multiset().count(b) > 0);
        let m = choose|m: int| 0 <= m < s2.len() && s2[m] == a;
        let n = choose|n: int| 0 <= n < s1.len() && s1[n] == b;
        lemma_precedes_irreflexive(a, g, t);
        lemma_precedes_irreflexive(b, g, t);
        if m > 0 {
            assert(!precedes(s2[m], s2[0], g, t));
        }
        if n > 0 {
            assert(!precedes(s1[n], s1[0], g, t));
        }
        assert(a == b);
        let r1 = s1.remove(0);
        let r2 = s2.remove(0);
        assert(r1.to_multiset() == s1.to_multiset().remove(a));
        assert(r2.to_multiset() == s2.to_multiset().remove(b));
        assert forall|i: int, j: int| 0 <= i < j < r1.len() implies !precedes(
            #[trigger] r1[j],
            #[trigger] r1[i],
            g,
            t,
        ) by {
            assert(r1[i] == s1[i + 1] && r1[j] == s1[j + 1]);
        }
        assert forall|i: int, j: int| 0 <= i < j < r2.len() implies !precedes(
            #[trigger] r2[j],
            #[trigger] r2[i],
            g,
            t,
        ) by {
            assert(r2[i] == s2[i + 1] && r2[j] == s2[j + 1]);
        }
        assert forall|x: EntryView, y: EntryView|
            #![trigger r1.contains(x), r1.contains(y)]
            r1.contains(x) && r1.contains(y) && !precedes(x, y, g, t) && !precedes(y, x, g, t)
                implies x == y by {
            let i = choose|i: int| 0 <= i < r1.len() && r1[i] == x;
            let j = choose|j: int| 0 <= j < r1.len() && r1[j] == y;
            assert(s1[i + 1] == x && s1[j + 1] == y);
            assert(s1.contains(x) && s1.contains(y));
        }
        lemma_sorted_unique(r1, r2, g, t);
        assert forall|i: int| 0 <= i < s1.len() implies s1[i] == s2[i] by {
            if i > 0 {
                assert(s1[i] == r1[i - 1] && s2[i] == r2[i - 1]);
            }
        }
        assert(s1 =~= s2);
    }
}

/// Offering the same entries to an empty listing in any order gives the same
/// listing. Where nothing is grouped, two entries of one name but different
/// kinds are tied and keep the order they came in, so such a pair is left
/// out.
pub proof fn lemma_insertion_order_irrelevant(
    g: FileGrouping,
    t: FileSort,
    include_dotfiles: bool,
    es1: Seq<EntryView>,
    es2: Seq<EntryView>,
)
    requires
        es1.to_multiset() == es2.to_multiset(),
        g == FileGrouping::Mixed ==> forall|i: int, j: int|
            0 <= i < es1.len() && 0 <= j < es1.len() && #[trigger] es1[i].name == #[trigger] es1[j].name
                ==> es1[i].is_dir == es1[j].is_dir,
    ensures
        pushed_all(empty_listing(g, t, include_dotfiles), es1) == pushed_all(
            empty_listing(g, t, include_dotfiles),
            es2,
        ),
{
    let v1 = pushed_all(empty_listing(g, t, include_dotfiles), es1);
    let v2 = pushed_all(empty_listing(g, t, include_dotfiles), es2);
    lemma_pushed_all_contents(g, t, include_dotfiles, es1);
    lemma_pushed_all_contents(g, t, include_dotfiles, es2);
    assert forall|x: EntryView|
        visible(es1, include_dotfiles).to_multiset().count(x) == visible(
            es2,
            include_dotfiles,
        ).to_multiset().count(x) by {
        lemma_visible_count(es1, include_dotfiles, x);
        lemma_visible_count(es2, include_dotfiles, x);
    }
    assert(visible(es1, include_dotfiles).to_multiset() =~= visible(
        es2,
        include_dotfiles,
    ).to_multiset());
    let s1 = v1.entries;
    assert forall|x: EntryView, y: EntryView|
        #![trigger s1.contains(x), s1.contains(y)]
        s1.contains(x) && s1.contains(y) && !precedes(x, y, g, t) && !precedes(y, x, g, t)
            implies x == y by {
        lemma_visible_count(es1, include_dotfiles, x);
        lemma_visible_count(es1, include_dotfiles, y);
        assert(es1.contains(x) && es1.contains(y));
        let i = choose|i: int| 0 <= i < es1.len() && es1[i] == x;
        let j = choose|j: int| 0 <= j < es1.len() && es1[j] == y;
        lemma_lex_total(x.name, y.name);
        lemma_lex_asymmetric(x.name, y.name);
        assert(x.name == y.name);
        assert(es1[i].name == es1[j].name);
        assert(x.is_dir == y.is_dir);
    }
    lemma_sorted_unique(v1.entries, v2.entries, g, t);
}

/// An escaped name starts with `.` exactly when the name does.
pub proof fn lemma_escaped_starts_like_name(n: Seq<char>)
    ensures
        is_dotname(html_escape(n)) == is_dotname(n),
    decreases n.len(),
{
    reveal_strlit("&amp;");
    reveal_strlit("&lt;");
    reveal_strlit("&gt;");
    reveal_strlit("&quot;");
    reveal_strlit("&#39;");
    if n.len() > 0 {
        let c = n.last();
        assert(html_char(c).len() > 0);
        assert(html_char(c)[0] == '.' <==> c == '.');
        if n.len() == 1 {
            assert(html_escape(n.drop_last()) =~= Seq::<char>::empty());
            assert(html_escape(n) =~= html_char(c));
            assert(n[0] == c);
        } else {
            lemma_escaped_starts_like_name(n.drop_last());
            assert(n.drop_last()[0] == n[0]);
            assert(html_escape(n)[0] == html_escape(n.drop_last())[0]);
        }
    }
}

/// The list of two runs of entries is the list of the first, then that of the
/// second.
pub proof fn lemma_entries_html_concat(u: Seq<char>, a: Seq<EntryView>, b: Seq<EntryView>)
    ensures
        entries_html(u, a + b) == entries_html(u, a) + entries_html(u, b),
    decreases b.len(),
{
    if b.len() == 0 {
        assert(a + b =~= a);
        assert(entries_html(u, a) + entries_html(u, b) =~= entries_html(u, a));
    } else {
        lemma_entries_html_concat(u, a, b.drop_last());
        assert((a + b).drop_last() =~= a + b.drop_last());
        assert((a + b).last() == b.last());
        assert(entries_html(u, a + b) =~= entries_html(u, a) + entries_html(u, b));
    }
}

/// With dotfiles hidden, the rendered list is one item per listed entry, in
/// order, and no item's label starts with `.`, whatever was offered.
pub proof fn lemma_hidden_never_rendered(
    g: FileGrouping,
    t: FileSort,
    es: Seq<EntryView>,
    url_path: Seq<char>,
    k: int,
)
    requires
        0 <= k < pushed_all(empty_listing(g, t, false), es).entries.len(),
    ensures
        ({
            let s = pushed_all(empty_listing(g, t, false), es).entries;
            &&& entries_html(url_path, s) == entries_html(url_path, s.take(k)) + entry_item(
                url_path,
                s[k],
            ) + entries_html(url_path, s.skip(k + 1))
            &&& !is_dotname(html_escape(s[k].name))
        }),
{
    let s = pushed_all(empty_listing(g, t, false), es).entries;
    lemma_hidden_never_listed(g, t, es, k);
    lemma_escaped_starts_like_name(s[k].name);
    assert(s =~= s.take(k) + seq![s[k]] + s.skip(k + 1));
    lemma_entries_html_concat(url_path, s.take(k) + seq![s[k]], s.skip(k + 1));
    lemma_entries_html_concat(url_path, s.take(k), seq![s[k]]);
    let one = seq![s[k]];
    assert(one.drop_last() =~= Seq::<EntryView>::empty());
    assert(one.last() == s[k]);
    assert(entries_html(url_path, one.drop_last()) =~= Seq::<char>::empty());
    assert(entries_html(url_path, one) =~= entry_item(url_path, s[k]));
}

} // verus!
