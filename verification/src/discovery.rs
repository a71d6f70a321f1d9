//! The decisions of keyboard discovery under a QMK home: which directories
//! hold keyboard definitions, which are skipped, how keyboards are named, and
//! in what order they are listed. The directory reads themselves are made by
//! the caller, which reports each directory's entries back.

use vstd::prelude::*;

use crate::qmk::{
    join_path, join_path_seq, views_of, Keyboard, KeyboardSource, KeyboardView, QmkError,
    QmkErrorView,
};
use crate::text::{
    chars_of, lemma_text_less_asymmetric, lemma_text_less_irreflexive, lemma_text_less_total,
    lemma_text_less_transitive, same_text, text_less, text_less_seq,
};

verus! {

/// One entry of a directory listing.
pub struct DirEntryInfo {
    pub name: String,
    pub is_dir: bool,
    pub is_file: bool,
}

pub struct DirEntryView {
    pub name: Seq<char>,
    pub is_dir: bool,
    pub is_file: bool,
}

impl View for DirEntryInfo {
    type V = DirEntryView;

    open spec fn view(&self) -> DirEntryView {
        DirEntryView { name: self.name@, is_dir: self.is_dir, is_file: self.is_file }
    }
}

pub open spec fn entry_views(v: Seq<DirEntryInfo>) -> Seq<DirEntryView> {
    v.map_values(|e: DirEntryInfo| e@)
}

/// Directory names that discovery never descends into.
pub open spec fn is_ignored_dir_seq(name: Seq<char>) -> bool {
    ||| name == ".git"@
    ||| name == ".build"@
    ||| name == "build"@
    ||| name == "keymaps"@
    ||| name == "node_modules"@
    ||| name == "target"@
}

pub fn is_ignored_dir(name: &str) -> (r: bool)
    ensures
        r == is_ignored_dir_seq(name@),
{
    same_text(name, ".git") || same_text(name, ".build") || same_text(name, "build") || same_text(
        name,
        "keymaps",
    ) || same_text(name, "node_modules") || same_text(name, "target")
}

/// Whether an entry is a keyboard definition file.
pub open spec fn is_definition_file(e: DirEntryView) -> bool {
    e.is_file && (e.name == "keyboard.json"@ || e.name == "info.json"@)
}

/// A directory holds a keyboard when it has a `keyboard.json` or an
/// `info.json` file.
pub open spec fn is_keyboard_dir_seq(entries: Seq<DirEntryView>) -> bool {
    exists|i: int| 0 <= i < entries.len() && #[trigger] is_definition_file(entries[i])
}

pub fn is_keyboard_dir(entries: &Vec<DirEntryInfo>) -> (r: bool)
    ensures
        r == is_keyboard_dir_seq(entry_views(entries@)),
{
    let ghost ev = entry_views(entries@);
    let mut i: usize = 0;
    while i < entries.len()
        invariant
            i <= entries.len(),
            ev == entry_views(entries@),
            forall|k: int| 0 <= k < i ==> !#[trigger] is_definition_file(ev[k]),
        decreases entries.len() - i,
    {
        let e = &entries[i];
        if e.is_file && (same_text(e.name.as_str(), "keyboard.json") || same_text(
            e.name.as_str(),
            "info.json",
        )) {
            assert(is_definition_file(ev[i as int]));
            return true;
        }
        i = i + 1;
    }
    false
}

/// The keyboard name of a directory at `relative` below a keyboards root:
/// the relative path with `/` separators, or none for the root itself.
pub open spec fn keyboard_name_seq(relative: Seq<char>) -> Option<Seq<char>> {
    if relative.len() == 0 {
        None
    } else {
        Some(relative.map_values(|c: char| if c == '\\' { '/' } else { c }))
    }
}

pub fn keyboard_name(relative: &str) -> (r: Option<String>)
    ensures
        crate::qmk::opt_text(r) == keyboard_name_seq(relative@),
{
    let chars = chars_of(relative);
    if chars.len() == 0 {
        return None;
    }
    let ghost mapped = relative@.map_values(|c: char| if c == '\\' { '/' } else { c });
    let mut name = String::new();
    let mut i: usize = 0;
    while i < chars.len()
        invariant
            i <= chars.len(),
            chars@ == relative@,
            mapped == relative@.map_values(|c: char| if c == '\\' { '/' } else { c }),
            name@ == mapped.take(i as int),
        decreases chars.len() - i,
    {
        let c = chars[i];
        if c == '\\' {
            name.push('/');
        } else {
            name.push(c);
        }
        assert(name@ =~= mapped.take(i + 1));
        i = i + 1;
    }
    assert(mapped.take(chars.len() as int) =~= mapped);
    Some(name)
}

/// The path of a child directory `name` of the directory at `relative`.
pub open spec fn child_relative_seq(relative: Seq<char>, name: Seq<char>) -> Seq<char> {
    if relative.len() == 0 {
        name
    } else {
        relative + seq!['/'] + name
    }
}

/// The subdirectories of the directory at `relative` that discovery descends
/// into, in the order of `entries`.
pub open spec fn child_dirs_seq(relative: Seq<char>, entries: Seq<DirEntryView>) -> Seq<Seq<char>>
    decreases entries.len(),
{
    if entries.len() == 0 {
        Seq::empty()
    } else {
        let rest = child_dirs_seq(relative, entries.drop_last());
        let e = entries.last();
        if e.is_dir && !is_ignored_dir_seq(e.name) {
            rest.push(child_relative_seq(relative, e.name))
        } else {
            rest
        }
    }
}

fn child_relative(relative: &str, name: &str) -> (r: String)
    ensures
        r@ == child_relative_seq(relative@, name@),
{
    if relative.is_empty() {
        name.to_owned()
    } else {
        let mut out = relative.to_owned();
        out.push('/');
        out.append(name);
        out
    }
}

/// Strict string order of a list of names.
pub open spec fn strictly_sorted(s: Seq<Seq<char>>) -> bool {
    forall|i: int, j: int| 0 <= i < j < s.len() ==> text_less_seq(#[trigger] s[i], #[trigger] s[j])
}

/// A list in strict string order is fixed by the names it holds: two such
/// lists with the same names are the same list.
pub proof fn law_sorted_listing_is_unique(a: Seq<Seq<char>>, b: Seq<Seq<char>>)
    requires
        strictly_sorted(a),
        strictly_sorted(b),
        forall|t: Seq<char>| a.contains(t) <==> b.contains(t),
    ensures
        a == b,
    decreases a.len(),
{
    if a.len() == 0 {
        if b.len() > 0 {
            assert(b.contains(b[0]));
        }
        assert(a =~= b);
    } else {
        assert(a.contains(a[0]));
        let j = choose|j: int| 0 <= j < b.len() && b[j] == a[0];
        assert(b.contains(b[0]));
        let i = choose|i: int| 0 <= i < a.len() && a[i] == b[0];
        if j > 0 {
            assert(text_less_seq(b[0], b[j]));
            if i > 0 {
                assert(text_less_seq(a[0], a[i]));
                lemma_text_less_asymmetric(a[0], b[0]);
            } else {
                lemma_text_less_irreflexive(b[0]);
            }
        }
        assert(a[0] == b[0]);
        let a2 = a.drop_first();
        let b2 = b.drop_first();
        assert forall|t: Seq<char>| a2.contains(t) <==> b2.contains(t) by {
            if a2.contains(t) {
                let k = choose|k: int| 0 <= k < a2.len() && a2[k] == t;
                assert(a[k + 1] == t);
                assert(text_less_seq(a[0], a[k + 1]));
                lemma_text_less_irreflexive(t);
                assert(a.contains(t));
                let m = choose|m: int| 0 <= m < b.len() && b[m] == t;
                assert(m != 0);
                assert(b2[m - 1] == t);
            }
            if b2.contains(t) {
                let k = choose|k: int| 0 <= k < b2.len() && b2[k] == t;
                assert(b[k + 1] == t);
                assert(text_less_seq(b[0], b[k + 1]));
                lemma_text_less_irreflexive(t);
                assert(b.contains(t));
                let m = choose|m: int| 0 <= m < a.len() && a[m] == t;
                assert(m != 0);
                assert(a2[m - 1] == t);
            }
        }
        assert(strictly_sorted(a2)) by {
            assert forall|x: int, y: int| 0 <= x < y < a2.len() implies text_less_seq(
                #[trigger] a2[x],
                #[trigger] a2[y],
            ) by {
                assert(a2[x] == a[x + 1] && a2[y] == a[y + 1]);
            }
        }
        assert(strictly_sorted(b2)) by {
            assert forall|x: int, y: int| 0 <= x < y < b2.len() implies text_less_seq(
                #[trigger] b2[x],
                #[trigger] b2[y],
            ) by {
                assert(b2[x] == b[x + 1] && b2[y] == b[y + 1]);
            }
        }
        law_sorted_listing_is_unique(a2, b2);
        assert(a =~= seq![a[0]] + a2);
        assert(b =~= seq![b[0]] + b2);
    }
}

/// Each string of `q` comes no earlier in string order than the ones after it.
pub open spec fn non_increasing(q: Seq<Seq<char>>) -> bool {
    forall|i: int, j: int| 0 <= i < j < q.len() ==> !text_less_seq(#[trigger] q[i], #[trigger] q[j])
}

/// `q` holds the strings of `c`, from the last in string order to the first.
pub open spec fn descending_arrangement(q: Seq<Seq<char>>, c: Seq<Seq<char>>) -> bool {
    q.to_multiset() == c.to_multiset() && non_increasing(q)
}

/// Two arrangements of the same strings from the last to the first in string
/// order are the same sequence.
pub proof fn law_descending_arrangement_unique(a: Seq<Seq<char>>, b: Seq<Seq<char>>)
    requires
        non_increasing(a),
        non_increasing(b),
        a.to_multiset() == b.to_multiset(),
    ensures
        a == b,
    decreases a.len(),
{
    broadcast use vstd::seq_lib::group_to_multiset_ensures;

    if a.len() == 0 {
        assert(b.to_multiset().len() == 0);
        assert(a =~= b);
    } else {
        assert(a.to_multiset().len() == a.len());
        assert(b.to_multiset().len() == b.len());
        assert(b.len() == a.len());
        assert(a.contains(a[0]));
        assert(b.to_multiset().count(a[0]) > 0);
        assert(b.contains(a[0]));
        let j = choose|j: int| 0 <= j < b.len() && b[j] == a[0];
        assert(b.contains(b[0]));
        assert(a.to_multiset().count(b[0]) > 0);
        assert(a.contains(b[0]));
        let i = choose|i: int| 0 <= i < a.len() && a[i] == b[0];
        if j > 0 {
            assert(!text_less_seq(b[0], b[j]));
        }
        if i > 0 {
            assert(!text_less_seq(a[0], a[i]));
        }
        lemma_text_less_total(a[0], b[0]);
        assert(a[0] == b[0]);
        let a2 = a.drop_first();
        let b2 = b.drop_first();
        assert(a.remove(0) =~= a2);
        assert(b.remove(0) =~= b2);
        assert(a2.to_multiset() =~= b2.to_multiset());
        assert(non_increasing(a2)) by {
            assert forall|x: int, y: int| 0 <= x < y < a2.len() implies !text_less_seq(
                #[trigger] a2[x],
                #[trigger] a2[y],
            ) by {
                assert(a2[x] == a[x + 1] && a2[y] == a[y + 1]);
            }
        }
        assert(non_increasing(b2)) by {
            assert forall|x: int, y: int| 0 <= x < y < b2.len() implies !text_less_seq(
                #[trigger] b2[x],
                #[trigger] b2[y],
            ) by {
                assert(b2[x] == b[x + 1] && b2[y] == b[y + 1]);
            }
        }
        law_descending_arrangement_unique(a2, b2);
        assert(a =~= seq![a[0]] + a2);
        assert(b =~= seq![b[0]] + b2);
    }
}

/// Inserts `x` into `out`, which runs from the last string to the first in
/// string order, keeping that order.
fn insert_descending(out: &mut Vec<String>, x: String)
    requires
        non_increasing(views_of(old(out)@)),
    ensures
        non_increasing(views_of(final(out)@)),
        views_of(final(out)@).to_multiset() == views_of(old(out)@).to_multiset().insert(x@),
{
    broadcast use vstd::seq_lib::group_to_multiset_ensures;

    let ghost before = views_of(out@);
    let mut p: usize = 0;
    while p < out.len() && !text_less(out[p].as_str(), x.as_str())
        invariant
            p <= out.len(),
            before == views_of(out@),
            out@ == old(out)@,
            non_increasing(before),
            forall|k: int| 0 <= k < p ==> !text_less_seq(#[trigger] before[k], x@),
        decreases out.len() - p,
    {
        p = p + 1;
    }
    let ghost xv = x@;
    out.insert(p, x);
    let ghost after = views_of(out@);
    assert(after =~= before.insert(p as int, xv));
    assert forall|i: int, j: int| 0 <= i < j < after.len() implies !text_less_seq(
        #[trigger] after[i],
        #[trigger] after[j],
    ) by {
        if j < p {
            assert(after[i] == before[i] && after[j] == before[j]);
        } else if j == p {
            assert(after[i] == before[i]);
        } else if i == p {
            assert(after[j] == before[j - 1]);
            assert(text_less_seq(before[p as int], xv));
            if text_less_seq(xv, before[j - 1]) {
                lemma_text_less_transitive(before[p as int], xv, before[j - 1]);
                if j - 1 == p {
                    lemma_text_less_irreflexive(before[p as int]);
                }
            }
        } else if i < p {
            assert(after[i] == before[i] && after[j] == before[j - 1]);
        } else {
            assert(after[i] == before[i - 1] && after[j] == before[j - 1]);
        }
    }
    assert(after.remove(p as int) =~= before);
    assert(after[p as int] == xv);
    assert(after.to_multiset() =~= before.to_multiset().insert(xv));
}

/// `paths` from the last to the first in string order.
fn sort_descending(paths: Vec<String>) -> (r: Vec<String>)
    ensures
        descending_arrangement(views_of(r@), views_of(paths@)),
{
    broadcast use vstd::seq_lib::group_to_multiset_ensures;

    let ghost all = views_of(paths@);
    let mut out: Vec<String> = Vec::new();
    let mut i: usize = 0;
    assert(views_of(out@) =~= Seq::empty());
    assert(all.take(0) =~= Seq::empty());
    while i < paths.len()
        invariant
            i <= paths.len(),
            all == views_of(paths@),
            non_increasing(views_of(out@)),
            views_of(out@).to_multiset() == all.take(i as int).to_multiset(),
        decreases paths.len() - i,
    {
        let x = paths[i].clone();
        insert_descending(&mut out, x);
        assert(all.take(i + 1) =~= all.take(i as int).push(all[i as int]));
        proof {
            all.take(i as int).to_multiset_ensures();
        }
        assert(all.take(i as int).push(all[i as int]).to_multiset() =~= all.take(i as int).to_multiset().insert(all[i as int]));
        i = i + 1;
    }
    assert(all.take(paths.len() as int) =~= all);
    out
}

/// Inserts `x` into the strictly sorted `out` unless it is there already.
fn insert_sorted_unique(out: &mut Vec<String>, x: String)
    requires
        strictly_sorted(views_of(old(out)@)),
    ensures
        strictly_sorted(views_of(final(out)@)),
        forall|t: Seq<char>|
            views_of(final(out)@).contains(t) <==> (views_of(old(out)@).contains(t) || t == x@),
{
    let ghost before = views_of(out@);
    let mut p: usize = 0;
    while p < out.len() && text_less(out[p].as_str(), x.as_str())
        invariant
            p <= out.len(),
            before == views_of(out@),
            out@ == old(out)@,
            strictly_sorted(before),
            forall|k: int| 0 <= k < p ==> text_less_seq(#[trigger] before[k], x@),
        decreases out.len() - p,
    {
        p = p + 1;
    }
    if p < out.len() && same_text(out[p].as_str(), x.as_str()) {
        assert(before[p as int] == x@);
        assert(before.contains(x@));
        return;
    }
    let ghost xv = x@;
    proof {
        if p < before.len() {
            lemma_text_less_total(before[p as int], xv);
        }
    }
    out.insert(p, x);
    let ghost after = views_of(out@);
    assert(after =~= before.insert(p as int, xv));
    assert forall|i: int, j: int| 0 <= i < j < after.len() implies text_less_seq(
        #[trigger] after[i],
        #[trigger] after[j],
    ) by {
        if j < p {
            assert(after[i] == before[i] && after[j] == before[j]);
        } else if j == p {
            assert(after[i] == before[i]);
        } else if i == p {
            assert(after[j] == before[j - 1]);
            if j - 1 > p {
                lemma_text_less_transitive(xv, before[p as int], before[j - 1]);
            }
        } else if i < p {
            assert(after[i] == before[i] && after[j] == before[j - 1]);
        } else {
            assert(after[i] == before[i - 1] && after[j] == before[j - 1]);
        }
    }
    assert forall|t: Seq<char>| after.contains(t) <==> (before.contains(t) || t == xv) by {
        if after.contains(t) {
            let k = choose|k: int| 0 <= k < after.len() && after[k] == t;
            if k < p {
                assert(before[k] == t);
            } else if k > p {
                assert(before[k - 1] == t);
            }
        }
        if before.contains(t) {
            let k = choose|k: int| 0 <= k < before.len() && before[k] == t;
            if k < p {
                assert(after[k] == t);
            } else {
                assert(after[k + 1] == t);
            }
        }
        if t == xv {
            assert(after[p as int] == t);
        }
    }
}

/// `names` in strict string order with repeated names dropped.
pub fn sort_and_dedup(names: Vec<String>) -> (r: Vec<String>)
    ensures
        strictly_sorted(views_of(r@)),
        forall|t: Seq<char>| views_of(r@).contains(t) <==> views_of(names@).contains(t),
{
    let ghost all = views_of(names@);
    let mut out: Vec<String> = Vec::new();
    let mut taken: usize = 0;
    while taken < names.len()
        invariant
            taken <= names.len(),
            all == views_of(names@),
            strictly_sorted(views_of(out@)),
            forall|t: Seq<char>|
                views_of(out@).contains(t) <==> all.take(taken as int).contains(t),
        decreases names.len() - taken,
    {
        let x = names[taken].clone();
        insert_sorted_unique(&mut out, x);
        proof {
            let prev = all.take(taken as int);
            let next = all.take(taken + 1);
            assert(next =~= prev.push(all[taken as int]));
            assert forall|t: Seq<char>| views_of(out@).contains(t) <==> next.contains(t) by {
                if next.contains(t) {
                    let k = choose|k: int| 0 <= k < next.len() && next[k] == t;
                    if k < taken {
                        assert(prev[k] == t);
                    }
                }
                if prev.contains(t) {
                    let k = choose|k: int| 0 <= k < prev.len() && prev[k] == t;
                    assert(next[k] == t);
                }
                if t == all[taken as int] {
                    assert(next[taken as int] == t);
                }
            }
        }
        taken = taken + 1;
    }
    let ghost total = all.len();
    assert(all.take(total as int) =~= all);
    out
}


/// The names of the directories among `entries`, in their order.
pub open spec fn dir_names_seq(entries: Seq<DirEntryView>) -> Seq<Seq<char>>
    decreases entries.len(),
{
    if entries.len() == 0 {
        Seq::empty()
    } else {
        let rest = dir_names_seq(entries.drop_last());
        if entries.last().is_dir {
            rest.push(entries.last().name)
        } else {
            rest
        }
    }
}

/// The user directories of a listing of the `users` directory: its entries
/// that are directories.
pub fn user_dir_names(entries: &Vec<DirEntryInfo>) -> (r: Vec<String>)
    ensures
        views_of(r@) == dir_names_seq(entry_views(entries@)),
{
    let ghost ev = entry_views(entries@);
    let mut names: Vec<String> = Vec::new();
    let mut i: usize = 0;
    while i < entries.len()
        invariant
            i <= entries.len(),
            ev == entry_views(entries@),
            views_of(names@) == dir_names_seq(ev.take(i as int)),
        decreases entries.len() - i,
    {
        assert(ev.take(i + 1).drop_last() =~= ev.take(i as int));
        assert(ev.take(i + 1).last() == entries@[i as int]@);
        if entries[i].is_dir {
            let name = entries[i].name.clone();
            let ghost prev = views_of(names@);
            names.push(name);
            assert(views_of(names@) =~= prev.push(name@));
        }
        i = i + 1;
    }
    assert(ev.take(entries.len() as int) =~= ev);
    names
}

/// The path of the directory at `relative` below `root`: the root itself for
/// the empty relative path.
pub fn walk_dir_path(root: &str, relative: &str) -> (r: String)
    ensures
        r@ == if relative@.len() == 0 {
            root@
        } else {
            join_path_seq(root@, relative@)
        },
{
    if relative.is_empty() {
        root.to_owned()
    } else {
        join_path(root, relative)
    }
}

/// The directories under which userspace keyboards are looked for, for a QMK
/// home and the names of the user directories under its `users` directory.
pub open spec fn userspace_roots_seq(qmk_home: Seq<char>, user_dirs: Seq<Seq<char>>) -> Seq<Seq<char>> {
    seq![
        join_path_seq(join_path_seq(qmk_home, "userspace"@), "keyboards"@),
        join_path_seq(join_path_seq(qmk_home, "user_space"@), "keyboards"@),
    ] + user_dirs.map_values(
        |u: Seq<char>| join_path_seq(join_path_seq(join_path_seq(qmk_home, "users"@), u), "keyboards"@),
    )
}

pub fn userspace_keyboard_roots(qmk_home: &str, user_dirs: &Vec<String>) -> (r: Vec<String>)
    ensures
        views_of(r@) == userspace_roots_seq(qmk_home@, views_of(user_dirs@)),
{
    let ghost users = views_of(user_dirs@);
    let mut roots: Vec<String> = Vec::new();
    let a = join_path(qmk_home, "userspace");
    roots.push(join_path(a.as_str(), "keyboards"));
    let b = join_path(qmk_home, "user_space");
    roots.push(join_path(b.as_str(), "keyboards"));
    let users_dir = join_path(qmk_home, "users");
    let ghost f = |u: Seq<char>|
        join_path_seq(join_path_seq(join_path_seq(qmk_home@, "users"@), u), "keyboards"@);
    let ghost fixed = views_of(roots@);
    let mut i: usize = 0;
    while i < user_dirs.len()
        invariant
            i <= user_dirs.len(),
            users == views_of(user_dirs@),
            users_dir@ == join_path_seq(qmk_home@, "users"@),
            f == (|u: Seq<char>|
                join_path_seq(join_path_seq(join_path_seq(qmk_home@, "users"@), u), "keyboards"@)),
            fixed.len() == 2,
            views_of(roots@) == fixed + users.take(i as int).map_values(f),
        decreases user_dirs.len() - i,
    {
        let user = join_path(users_dir.as_str(), user_dirs[i].as_str());
        let root = join_path(user.as_str(), "keyboards");
        let ghost prev = views_of(roots@);
        roots.push(root);
        assert(views_of(roots@) =~= prev.push(root@));
        assert(users[i as int] == user_dirs@[i as int]@);
        assert(users.take(i + 1).map_values(f) =~= users.take(i as int).map_values(f).push(
            f(users[i as int]),
        ));
        assert(views_of(roots@) =~= fixed + users.take(i + 1).map_values(f));
        i = i + 1;
    }
    assert(users.take(user_dirs.len() as int) =~= users);
    assert(views_of(roots@) =~= userspace_roots_seq(qmk_home@, users));
    roots
}

/// The directory under which the QMK repository keeps its keyboards.
pub fn repo_keyboard_root(qmk_home: &str) -> (r: String)
    ensures
        r@ == join_path_seq(qmk_home@, "keyboards"@),
{
    join_path(qmk_home, "keyboards")
}

/// Discovery needs its QMK home to be an existing directory; `home_is_dir`
/// tells whether it is.
pub fn check_discovery_home(qmk_home: &str, home_is_dir: bool) -> (r: Result<(), QmkError>)
    ensures
        home_is_dir ==> r is Ok,
        !home_is_dir ==> (r matches Err(e) && e@ == QmkErrorView::InvalidQmkHome(qmk_home@)),
{
    if home_is_dir {
        Ok(())
    } else {
        Err(QmkError::InvalidQmkHome(qmk_home.to_owned()))
    }
}

/// A walk over the directory trees below keyboard roots. The caller pops
/// the next directory with `next_dir`, lists it, and reports the listing with
/// `visit`; the walk decides what is a keyboard and where to descend.
pub struct KeyboardWalk {
    stack: Vec<String>,
    names: Vec<String>,
}

pub struct KeyboardWalkView {
    /// Directories still to visit, relative to their root; the last is next.
    pub stack: Seq<Seq<char>>,
    /// Names of the keyboards found so far.
    pub names: Seq<Seq<char>>,
}

impl View for KeyboardWalk {
    type V = KeyboardWalkView;

    closed spec fn view(&self) -> KeyboardWalkView {
        KeyboardWalkView { stack: views_of(self.stack@), names: views_of(self.names@) }
    }
}

/// The names found by a visit of the directory at `relative` with `entries`.
pub open spec fn visit_names(
    names: Seq<Seq<char>>,
    relative: Seq<char>,
    entries: Seq<DirEntryView>,
) -> Seq<Seq<char>> {
    if is_keyboard_dir_seq(entries) && keyboard_name_seq(relative) is Some {
        names.push(keyboard_name_seq(relative)->0)
    } else {
        names
    }
}

impl KeyboardWalk {
    pub fn new() -> (r: KeyboardWalk)
        ensures
            r@.stack.len() == 0,
            r@.names.len() == 0,
    {
        let r = KeyboardWalk { stack: Vec::new(), names: Vec::new() };
        assert(views_of(r.stack@) =~= Seq::empty());
        assert(views_of(r.names@) =~= Seq::empty());
        r
    }

    /// Starts the walk of a root directory when it is an existing directory;
    /// a root that is not one is skipped.
    pub fn begin_root(&mut self, root_is_dir: bool)
        ensures
            final(self)@.stack == if root_is_dir {
                old(self)@.stack.push(Seq::empty())
            } else {
                old(self)@.stack
            },
            final(self)@.names == old(self)@.names,
    {
        if root_is_dir {
            let ghost before = views_of(self.stack@);
            self.stack.push(String::new());
            assert(views_of(self.stack@) =~= before.push(Seq::empty()));
        }
    }

    /// The next directory to list, relative to its root, if any.
    pub fn next_dir(&mut self) -> (r: Option<String>)
        ensures
            old(self)@.stack.len() == 0 ==> r is None && final(self)@ == old(self)@,
            old(self)@.stack.len() > 0 ==> r is Some && r->0@ == old(self)@.stack.last()
                && final(self)@.stack == old(self)@.stack.drop_last() && final(self)@.names
                == old(self)@.names,
    {
        let ghost before = views_of(self.stack@);
        let r = self.stack.pop();
        assert(views_of(self.stack@) =~= if before.len() > 0 {
            before.drop_last()
        } else {
            before
        });
        r
    }

    /// Takes in the listing of the directory at `relative`: records it as a
    /// keyboard when it holds a definition file, and queues its
    /// subdirectories that are not skipped.
    pub fn visit(&mut self, relative: &str, entries: &Vec<DirEntryInfo>)
        ensures
            final(self)@.names == visit_names(old(self)@.names, relative@, entry_views(entries@)),
            final(self)@.stack.len() >= old(self)@.stack.len(),
            final(self)@.stack.take(old(self)@.stack.len() as int) == old(self)@.stack,
            descending_arrangement(
                final(self)@.stack.skip(old(self)@.stack.len() as int),
                child_dirs_seq(relative@, entry_views(entries@)),
            ),
    {
        let ghost ev = entry_views(entries@);
        let ghost names_before = views_of(self.names@);
        if is_keyboard_dir(entries) {
            match keyboard_name(relative) {
                Some(name) => {
                    self.names.push(name);
                },
                None => {},
            }
        }
        assert(views_of(self.names@) =~= visit_names(names_before, relative@, ev));
        let mut children: Vec<String> = Vec::new();
        let mut i: usize = 0;
        while i < entries.len()
            invariant
                i <= entries.len(),
                ev == entry_views(entries@),
                views_of(children@) == child_dirs_seq(relative@, ev.take(i as int)),
            decreases entries.len() - i,
        {
            let e = &entries[i];
            assert(ev.take(i + 1).drop_last() =~= ev.take(i as int));
            assert(ev.take(i + 1).last() == e@);
            if e.is_dir && !is_ignored_dir(e.name.as_str()) {
                let child = child_relative(relative, e.name.as_str());
                let ghost prev = views_of(children@);
                children.push(child);
                assert(views_of(children@) =~= prev.push(child@));
            }
            i = i + 1;
        }
        assert(ev.take(entries.len() as int) =~= ev);
        let mut sorted = sort_descending(children);
        let ghost start = views_of(self.stack@);
        let ghost queued = views_of(sorted@);
        self.stack.append(&mut sorted);
        assert(views_of(self.stack@) =~= start + queued);
        assert(views_of(self.stack@).take(start.len() as int) =~= start);
        assert(views_of(self.stack@).skip(start.len() as int) =~= queued);
    }

    /// The keyboards found, all from `source`, in strict name order with
    /// repeated names dropped.
    pub fn into_keyboards(self, source: KeyboardSource) -> (r: Vec<Keyboard>)
        ensures
            forall|i: int| 0 <= i < r.len() ==> (#[trigger] r@[i]).source == source,
            strictly_sorted(keyboard_names(r@)),
            forall|t: Seq<char>| keyboard_names(r@).contains(t) <==> self@.names.contains(t),
    {
        let sorted = sort_and_dedup(self.names);
        let ghost sv = views_of(sorted@);
        let mut out: Vec<Keyboard> = Vec::new();
        let mut i: usize = 0;
        while i < sorted.len()
            invariant
                i <= sorted.len(),
                sv == views_of(sorted@),
                out.len() == i,
                forall|k: int| 0 <= k < i ==> (#[trigger] out@[k]).source == source,
                keyboard_names(out@) == sv.take(i as int),
            decreases sorted.len() - i,
        {
            out.push(Keyboard { name: sorted[i].clone(), source });
            assert(keyboard_names(out@) =~= sv.take(i + 1));
            i = i + 1;
        }
        assert(sv.take(sorted.len() as int) =~= sv);
        out
    }
}

/// The names of a list of keyboards.
pub open spec fn keyboard_names(v: Seq<Keyboard>) -> Seq<Seq<char>> {
    v.map_values(|k: Keyboard| k.name@)
}

/// The keyboards of a discovery: the userspace ones, then those of the QMK
/// repository, each group in strict name order without repeats.
pub fn discovered_keyboards(userspace: KeyboardWalk, repo: KeyboardWalk) -> (r: Vec<Keyboard>)
    ensures
        exists|k: int|
            0 <= k <= r.len() && (forall|i: int|
                0 <= i < r.len() ==> (#[trigger] r@[i]).source == if i < k {
                    KeyboardSource::Userspace
                } else {
                    KeyboardSource::QmkRepo
                }) && strictly_sorted(keyboard_names(r@.take(k))) && strictly_sorted(
                keyboard_names(r@.skip(k)),
            ) && (forall|t: Seq<char>|
                keyboard_names(r@.take(k)).contains(t) <==> userspace@.names.contains(t)) && (
            forall|t: Seq<char>|
                keyboard_names(r@.skip(k)).contains(t) <==> repo@.names.contains(t)),
{
    let mut first = userspace.into_keyboards(KeyboardSource::Userspace);
    let mut second = repo.into_keyboards(KeyboardSource::QmkRepo);
    let ghost a = first@;
    let ghost b = second@;
    first.append(&mut second);
    assert(first@.take(a.len() as int) =~= a);
    assert(first@.skip(a.len() as int) =~= b);
    assert(forall|i: int| 0 <= i < first.len() ==> (#[trigger] first@[i]).source == if i < a.len() {
        KeyboardSource::Userspace
    } else {
        KeyboardSource::QmkRepo
    }) by {
        assert forall|i: int| 0 <= i < first.len() implies (#[trigger] first@[i]).source == if i
            < a.len() {
            KeyboardSource::Userspace
        } else {
            KeyboardSource::QmkRepo
        } by {
            if i < a.len() {
                assert(first@[i] == a[i]);
            } else {
                assert(first@[i] == b[i - a.len()]);
            }
        }
    }
    first
}

} // verus!
