//! Directory listing renderer: entry names with subdirectories suffixed by a
//! separator, sorted lexicographically for a deterministic document, rendered
//! as a minimal HTML index with one anchor per entry.

use vstd::prelude::*;
use vstd::seq_lib::to_multiset_insert;
use vstd::seq_lib::to_multiset_build;

verus! {

/// One immediate child of a listed directory: its bare name and whether it
/// is itself a directory.
pub struct DirEntry {
    pub name: String,
    pub is_dir: bool,
}

/// Mathematical model of a directory entry.
pub struct EntryModel {
    pub name: Seq<char>,
    pub is_dir: bool,
}

impl View for DirEntry {
    type V = EntryModel;

    open spec fn view(&self) -> EntryModel {
        EntryModel { name: self.name@, is_dir: self.is_dir }
    }
}

impl DeepView for DirEntry {
    type V = EntryModel;

    open spec fn deep_view(&self) -> EntryModel {
        self@
    }
}

/// The name under which an entry appears in a listing: subdirectory names
/// carry a trailing separator.
pub open spec fn spec_display_name(e: EntryModel) -> Seq<char> {
    if e.is_dir {
        e.name + seq!['/']
    } else {
        e.name
    }
}

/// Returns the display name of an entry: the bare name, with a trailing
/// separator appended for a subdirectory.
pub fn display_name(e: &DirEntry) -> (r: String)
    ensures
        r@ == spec_display_name(e@),
{
    if e.is_dir {
        let mut r = e.name.clone();
        r.append("/");
        proof {
            reveal_strlit("/");
            assert("/"@ =~= seq!['/']);
        }
        r
    } else {
        e.name.clone()
    }
}

/// Lexicographic order on character sequences by code point: the empty
/// sequence comes first, equal heads defer to the tails, and unequal heads
/// order by their code points.
pub open spec fn lex_leq(a: Seq<char>, b: Seq<char>) -> bool
    decreases a.len(),
{
    if a.len() == 0 {
        true
    } else if b.len() == 0 {
        false
    } else if a[0] == b[0] {
        lex_leq(a.drop_first(), b.drop_first())
    } else {
        a[0] < b[0]
    }
}

/// The lexicographic order is total.
pub proof fn lemma_lex_leq_total(a: Seq<char>, b: Seq<char>)
    ensures
        lex_leq(a, b) || lex_leq(b, a),
    decreases a.len(),
{
    if a.len() == 0 {
    } else if b.len() == 0 {
        assert(lex_leq(b, a));
    } else if a[0] == b[0] {
        lemma_lex_leq_total(a.drop_first(), b.drop_first());
    } else {
        assert(lex_leq(a, b) == (a[0] < b[0]));
        assert(lex_leq(b, a) == (b[0] < a[0]));
    }
}

/// The lexicographic order is transitive.
pub proof fn lemma_lex_leq_trans(a: Seq<char>, b: Seq<char>, c: Seq<char>)
    requires
        lex_leq(a, b),
        lex_leq(b, c),
    ensures
        lex_leq(a, c),
    decreases a.len(),
{
    if a.len() == 0 {
    } else {
        if a[0] == b[0] && b[0] == c[0] {
            lemma_lex_leq_trans(a.drop_first(), b.drop_first(), c.drop_first());
        }
    }
}

/// Compares two names in the lexicographic order of `lex_leq`.
pub fn str_lex_leq(a: &str, b: &str) -> (r: bool)
    ensures
        r == lex_leq(a@, b@),
{
    let na = a.unicode_len();
    let nb = b.unicode_len();
    let mut i: usize = 0;
    proof {
        assert(a@.skip(0) =~= a@);
        assert(b@.skip(0) =~= b@);
    }
    while i < na && i < nb
        invariant
            i <= na,
            i <= nb,
            na == a@.len(),
            nb == b@.len(),
            lex_leq(a@, b@) == lex_leq(a@.skip(i as int), b@.skip(i as int)),
        decreases na - i,
    {
        let ca = a.get_char(i);
        let cb = b.get_char(i);
        proof {
            assert(a@.skip(i as int)[0] == a@[i as int]);
            assert(b@.skip(i as int)[0] == b@[i as int]);
        }
        if ca != cb {
            return ca < cb;
        }
        proof {
            assert(a@.skip(i as int).drop_first() =~= a@.skip(i as int + 1));
            assert(b@.skip(i as int).drop_first() =~= b@.skip(i as int + 1));
        }
        i = i + 1;
    }
    proof {
        if i == na {
            assert(a@.skip(i as int).len() == 0);
        } else {
            assert(b@.skip(i as int).len() == 0);
            assert(a@.skip(i as int).len() > 0);
        }
    }
    i >= na
}

/// Inserting a name into a sorted sequence places it before the first
/// element it precedes.
pub open spec fn spec_insert_sorted(x: Seq<char>, s: Seq<Seq<char>>) -> Seq<Seq<char>>
    decreases s.len(),
{
    if s.len() == 0 {
        seq![x]
    } else if lex_leq(x, s[0]) {
        seq![x] + s
    } else {
        seq![s[0]] + spec_insert_sorted(x, s.drop_first())
    }
}

/// Sorting a sequence of names lexicographically, by insertion from the
/// right.
pub open spec fn spec_sort_lex(s: Seq<Seq<char>>) -> Seq<Seq<char>>
    decreases s.len(),
{
    if s.len() == 0 {
        Seq::<Seq<char>>::empty()
    } else {
        spec_insert_sorted(s.last(), spec_sort_lex(s.drop_last()))
    }
}

/// A sequence of names is sorted when every pair of positions is ordered.
pub open spec fn lex_sorted(s: Seq<Seq<char>>) -> bool {
    forall|i: int, j: int| 0 <= i < j < s.len() ==> lex_leq(s[i], s[j])
}

/// Where the first `j` elements of `s` precede `x` strictly and the element
/// at `j`, if any, does not, the sorted insertion of `x` into `s` is the
/// insertion at position `j`.
proof fn lemma_insert_sorted_at(x: Seq<char>, s: Seq<Seq<char>>, j: int)
    requires
        0 <= j <= s.len(),
        forall|k: int| 0 <= k < j ==> !lex_leq(x, s[k]),
        j < s.len() ==> lex_leq(x, s[j]),
    ensures
        spec_insert_sorted(x, s) == s.insert(j, x),
    decreases s.len(),
{
    if s.len() == 0 {
        assert(spec_insert_sorted(x, s) =~= s.insert(0, x));
    } else if j == 0 {
        assert(lex_leq(x, s[0]));
        assert(seq![x] + s =~= s.insert(0, x));
    } else {
        assert(!lex_leq(x, s[0]));
        lemma_insert_sorted_at(x, s.drop_first(), j - 1);
        assert(seq![s[0]] + s.drop_first().insert(j - 1, x) =~= s.insert(j, x));
    }
}

/// Sorted insertion keeps a sorted sequence sorted and adds exactly the
/// inserted name to its contents.
proof fn lemma_insert_sorted_ensures(x: Seq<char>, s: Seq<Seq<char>>)
    requires
        lex_sorted(s),
    ensures
        lex_sorted(spec_insert_sorted(x, s)),
        spec_insert_sorted(x, s).to_multiset() == s.to_multiset().insert(x),
        spec_insert_sorted(x, s).len() == s.len() + 1,
    decreases s.len(),
{
    broadcast use to_multiset_insert;

    if s.len() == 0 {
        assert(spec_insert_sorted(x, s) =~= s.insert(0, x));
        assert(lex_sorted(seq![x]));
    } else if lex_leq(x, s[0]) {
        let r = seq![x] + s;
        assert(r =~= s.insert(0, x));
        assert forall|i: int, j: int| 0 <= i < j < r.len() implies lex_leq(r[i], r[j]) by {
            if i == 0 {
                assert(r[0] == x);
                assert(r[j] == s[j - 1]);
                if j == 1 {
                } else {
                    assert(lex_leq(s[0], s[j - 1]));
                    lemma_lex_leq_trans(x, s[0], s[j - 1]);
                }
            } else {
                assert(r[i] == s[i - 1]);
                assert(r[j] == s[j - 1]);
            }
        }
    } else {
        let t = s.drop_first();
        assert(lex_sorted(t)) by {
            assert(forall|i: int, j: int|
                0 <= i < j < t.len() ==> t[i] == s[i + 1] && t[j] == s[j + 1]);
        }
        lemma_insert_sorted_ensures(x, t);
        let u = spec_insert_sorted(x, t);
        let r = seq![s[0]] + u;
        assert(spec_insert_sorted(x, s) == r);
        // contents: r is u with s[0] inserted at the front
        assert(r =~= u.insert(0, s[0]));
        assert(r.to_multiset() == u.to_multiset().insert(s[0]));
        assert(s =~= t.insert(0, s[0]));
        assert(s.to_multiset() == t.to_multiset().insert(s[0]));
        assert(r.to_multiset() =~= s.to_multiset().insert(x));
        // order: s[0] precedes everything in u
        lemma_lex_leq_total(x, s[0]);
        assert(lex_leq(s[0], x));
        assert forall|i: int, j: int| 0 <= i < j < r.len() implies lex_leq(r[i], r[j]) by {
            if i == 0 {
                assert(r[j] == u[j - 1]);
                assert(u.to_multiset().count(u[j - 1]) > 0) by {
                    broadcast use vstd::seq_lib::group_to_multiset_ensures;

                    assert(u.contains(u[j - 1]));
                }
                assert(t.to_multiset().insert(x).count(u[j - 1]) > 0);
                if u[j - 1] == x {
                    assert(lex_leq(s[0], u[j - 1]));
                } else {
                    assert(t.to_multiset().count(u[j - 1]) > 0);
                    assert(t.contains(u[j - 1])) by {
                        broadcast use vstd::seq_lib::group_to_multiset_ensures;

                    }
                    let k = choose|k: int| 0 <= k < t.len() && t[k] == u[j - 1];
                    assert(lex_leq(s[0], s[k + 1]));
                }
            } else {
                assert(r[i] == u[i - 1]);
                assert(r[j] == u[j - 1]);
            }
        }
    }
}

/// Lexicographic sorting yields a sorted sequence with exactly the contents
/// of its input: the listing order is deterministic whatever order the
/// filesystem enumerated the entries in.
pub proof fn lemma_sort_lex_ensures(s: Seq<Seq<char>>)
    ensures
        lex_sorted(spec_sort_lex(s)),
        spec_sort_lex(s).to_multiset() == s.to_multiset(),
        spec_sort_lex(s).len() == s.len(),
    decreases s.len(),
{
    broadcast use to_multiset_insert;
    broadcast use to_multiset_build;

    if s.len() == 0 {
        assert(spec_sort_lex(s) =~= s);
    } else {
        let t = s.drop_last();
        lemma_sort_lex_ensures(t);
        lemma_insert_sorted_ensures(s.last(), spec_sort_lex(t));
        assert(s =~= t.push(s.last()));
        assert(s.to_multiset() == t.to_multiset().insert(s.last()));
    }
}

/// The lexicographic order is antisymmetric.
pub proof fn lemma_lex_leq_antisym(a: Seq<char>, b: Seq<char>)
    requires
        lex_leq(a, b),
        lex_leq(b, a),
    ensures
        a == b,
    decreases a.len(),
{
    if a.len() == 0 {
        assert(b.len() == 0);
        assert(a =~= b);
    } else {
        assert(b.len() > 0);
        if a[0] == b[0] {
            lemma_lex_leq_antisym(a.drop_first(), b.drop_first());
            assert(a =~= b) by {
                assert(a.drop_first().len() == b.drop_first().len());
                assert(forall|k: int|
                    1 <= k < a.len() ==> a[k] == a.drop_first()[k - 1] && b[k] == b.drop_first()[k
                        - 1]);
            }
        } else {
            assert(lex_leq(a, b) == (a[0] < b[0]));
            assert(lex_leq(b, a) == (b[0] < a[0]));
        }
    }
}

/// Two lexicographically sorted sequences with the same contents are the
/// same sequence: the sorted order of a multiset of names is unique.
pub proof fn lemma_sorted_unique(s: Seq<Seq<char>>, t: Seq<Seq<char>>)
    requires
        lex_sorted(s),
        lex_sorted(t),
        s.to_multiset() == t.to_multiset(),
    ensures
        s == t,
    decreases s.len(),
{
    broadcast use vstd::seq_lib::group_to_multiset_ensures;

    s.to_multiset_ensures();
    t.to_multiset_ensures();
    if s.len() == 0 {
        assert(t.len() == 0);
        assert(s =~= t);
    } else {
        assert(t.len() > 0);
        // each head occurs in the other sequence, and heads are minimal, so
        // the heads are equal
        assert(s[0] == t[0]) by {
            assert(s.contains(s[0]));
            assert(t.to_multiset().count(s[0]) > 0);
            assert(t.contains(s[0]));
            let k = choose|k: int| 0 <= k < t.len() && t[k] == s[0];
            assert(t.contains(t[0]));
            assert(s.to_multiset().count(t[0]) > 0);
            assert(s.contains(t[0]));
            let m = choose|m: int| 0 <= m < s.len() && s[m] == t[0];
            if k == 0 {
            } else if m == 0 {
            } else {
                assert(lex_leq(t[0], t[k]));
                assert(lex_leq(s[0], s[m]));
                lemma_lex_leq_antisym(s[0], t[0]);
            }
        }
        // equal heads leave equal contents in the tails
        assert(s.remove(0) =~= s.drop_first());
        assert(t.remove(0) =~= t.drop_first());
        vstd::seq_lib::to_multiset_remove(s, 0);
        vstd::seq_lib::to_multiset_remove(t, 0);
        assert(s.drop_first().to_multiset() == t.drop_first().to_multiset());
        assert(lex_sorted(s.drop_first())) by {
            assert(forall|i: int, j: int|
                0 <= i < j < s.drop_first().len() ==> s.drop_first()[i] == s[i + 1]
                    && s.drop_first()[j] == s[j + 1]);
        }
        assert(lex_sorted(t.drop_first())) by {
            assert(forall|i: int, j: int|
                0 <= i < j < t.drop_first().len() ==> t.drop_first()[i] == t[i + 1]
                    && t.drop_first()[j] == t[j + 1]);
        }
        lemma_sorted_unique(s.drop_first(), t.drop_first());
        assert(s =~= t) by {
            assert(forall|k: int|
                1 <= k < s.len() ==> s[k] == s.drop_first()[k - 1] && t[k] == t.drop_first()[k
                    - 1]);
        }
    }
}

/// Sorts a vector of names in the lexicographic order, by insertion.
pub fn sort_names(names: &Vec<String>) -> (r: Vec<String>)
    ensures
        r.deep_view() == spec_sort_lex(names.deep_view()),
{
    let ghost all = names.deep_view();
    let mut out: Vec<String> = Vec::new();
    let mut i: usize = 0;
    proof {
        assert(out.deep_view() =~= spec_sort_lex(all.take(0)));
        assert(all.take(0) =~= Seq::<Seq<char>>::empty());
    }
    while i < names.len()
        invariant
            i <= names.len(),
            all == names.deep_view(),
            names@.len() == all.len(),
            out.deep_view() == spec_sort_lex(all.take(i as int)),
        decreases names.len() - i,
    {
        let x = names[i].clone();
        proof {
            assert(x@ == all[i as int]);
        }
        let ghost prev = out.deep_view();
        let mut j: usize = 0;
        while j < out.len() && !str_lex_leq(x.as_str(), out[j].as_str())
            invariant
                j <= out.len(),
                out.deep_view() == prev,
                x@ == all[i as int],
                forall|k: int| 0 <= k < j ==> !lex_leq(x@, prev[k]),
            decreases out.len() - j,
        {
            proof {
                assert(out.deep_view()[j as int] == out@[j as int]@);
            }
            j = j + 1;
        }
        proof {
            if j < out@.len() {
                assert(out.deep_view()[j as int] == out@[j as int]@);
            }
            lemma_insert_sorted_at(x@, prev, j as int);
        }
        out.insert(j, x);
        proof {
            assert(out.deep_view() =~= prev.insert(j as int, x@));
            assert(all.take(i as int + 1).drop_last() =~= all.take(i as int));
            assert(all.take(i as int + 1).last() == all[i as int]);
        }
        i = i + 1;
    }
    proof {
        assert(all.take(names@.len() as int) =~= all);
    }
    out
}

/// One listing item: an anchor whose target and text both equal the display
/// name of the entry.
pub open spec fn spec_list_item(name: Seq<char>) -> Seq<char> {
    "<li><a href=\""@ + name + "\">"@ + name + "</a></li>"@
}

/// The listing items of a sequence of display names, in order.
pub open spec fn spec_list_items(names: Seq<Seq<char>>) -> Seq<char>
    decreases names.len(),
{
    if names.len() == 0 {
        Seq::<char>::empty()
    } else {
        spec_list_item(names[0]) + spec_list_items(names.drop_first())
    }
}

/// Everything of the document before the listing items: the document type,
/// the head with the title "Index of /<label>", and the opening of the body
/// with the same heading.
pub open spec fn spec_listing_header(label: Seq<char>) -> Seq<char> {
    "<!DOCTYPE html><html><head><meta charset=\"utf-8\"><title>Index of /"@ + label
        + "</title></head><body><h1>Index of /"@ + label + "</h1><hr><ul>"@
}

/// The rendered listing document for a path label and a sequence of display
/// names, in the order given.
pub open spec fn spec_render_listing(label: Seq<char>, names: Seq<Seq<char>>) -> Seq<char> {
    spec_listing_header(label) + spec_list_items(names) + "</ul></body></html>"@
}

/// Appending one more name appends exactly its listing item.
proof fn lemma_list_items_push(names: Seq<Seq<char>>, x: Seq<char>)
    ensures
        spec_list_items(names.push(x)) == spec_list_items(names) + spec_list_item(x),
    decreases names.len(),
{
    if names.len() == 0 {
        assert(names.push(x)[0] == x);
        assert(names.push(x).drop_first() =~= Seq::<Seq<char>>::empty());
        assert(spec_list_items(Seq::<Seq<char>>::empty()) == Seq::<char>::empty());
        assert(spec_list_items(names.push(x)) == spec_list_item(x) + Seq::<char>::empty());
        assert(spec_list_item(x) + Seq::<char>::empty() =~= Seq::<char>::empty() + spec_list_item(
            x,
        ));
    } else {
        lemma_list_items_push(names.drop_first(), x);
        assert(names.push(x).drop_first() =~= names.drop_first().push(x));
        assert(names.push(x)[0] == names[0]);
        assert(spec_list_items(names.push(x)) == spec_list_item(names[0]) + (spec_list_items(
            names.drop_first(),
        ) + spec_list_item(x)));
        assert(spec_list_item(names[0]) + (spec_list_items(names.drop_first()) + spec_list_item(
            x,
        )) =~= spec_list_items(names) + spec_list_item(x));
    }
}

/// Renders the listing document for a path label and display names, in the
/// order given.
pub fn render_listing(label: &str, names: &Vec<String>) -> (r: String)
    ensures
        r@ == spec_render_listing(label@, names.deep_view()),
{
    let ghost all = names.deep_view();
    let mut r = String::from_str(
        "<!DOCTYPE html><html><head><meta charset=\"utf-8\"><title>Index of /",
    );
    r.append(label);
    r.append("</title></head><body><h1>Index of /");
    r.append(label);
    r.append("</h1><hr><ul>");
    proof {
        assert(r@ =~= spec_listing_header(label@) + spec_list_items(all.take(0)));
        assert(all.take(0) =~= Seq::<Seq<char>>::empty());
    }
    let mut i: usize = 0;
    while i < names.len()
        invariant
            i <= names.len(),
            all == names.deep_view(),
            names@.len() == all.len(),
            r@ == spec_listing_header(label@) + spec_list_items(all.take(i as int)),
        decreases names.len() - i,
    {
        r.append("<li><a href=\"");
        r.append(names[i].as_str());
        r.append("\">");
        r.append(names[i].as_str());
        r.append("</a></li>");
        proof {
            assert(names@[i as int]@ == all[i as int]);
            assert(all.take(i as int + 1) =~= all.take(i as int).push(all[i as int]));
            lemma_list_items_push(all.take(i as int), all[i as int]);
            assert(r@ =~= spec_listing_header(label@) + spec_list_items(all.take(i as int + 1)));
        }
        i = i + 1;
    }
    proof {
        assert(all.take(names@.len() as int) =~= all);
    }
    r.append("</ul></body></html>");
    proof {
        assert(r@ =~= spec_render_listing(label@, all));
    }
    r
}

/// Listing determinism law: the rendered document depends only on the label
/// and on which display names the directory holds — two enumerations of the
/// same names, in any two orders, render the identical document.
pub proof fn lemma_listing_order_independent(
    label: Seq<char>,
    names1: Seq<Seq<char>>,
    names2: Seq<Seq<char>>,
)
    requires
        names1.to_multiset() == names2.to_multiset(),
    ensures
        spec_render_listing(label, spec_sort_lex(names1)) == spec_render_listing(
            label,
            spec_sort_lex(names2),
        ),
{
    lemma_sort_lex_ensures(names1);
    lemma_sort_lex_ensures(names2);
    lemma_sorted_unique(spec_sort_lex(names1), spec_sort_lex(names2));
}

/// The display names of a sequence of entries, in enumeration order.
pub open spec fn spec_display_names(entries: Seq<EntryModel>) -> Seq<Seq<char>> {
    Seq::new(entries.len(), |i: int| spec_display_name(entries[i]))
}

/// Renders the listing document for a directory: the display names of its
/// immediate children (subdirectories suffixed with a separator), sorted
/// lexicographically, one anchor per entry, under the title and heading
/// "Index of /<label>". The result is the same whatever order the entries
/// were enumerated in.
pub fn render_directory(label: &str, entries: &Vec<DirEntry>) -> (r: String)
    ensures
        r@ == spec_render_listing(
            label@,
            spec_sort_lex(spec_display_names(entries.deep_view())),
        ),
{
    let ghost all = spec_display_names(entries.deep_view());
    let mut names: Vec<String> = Vec::new();
    proof {
        assert(names.deep_view() =~= all.take(0));
    }
    let mut i: usize = 0;
    while i < entries.len()
        invariant
            i <= entries.len(),
            all == spec_display_names(entries.deep_view()),
            entries@.len() == all.len(),
            names.deep_view() == all.take(i as int),
        decreases entries.len() - i,
    {
        let n = display_name(&entries[i]);
        proof {
            assert(entries.deep_view()[i as int] == entries@[i as int]@);
            assert(n@ == all[i as int]);
        }
        let ghost prevv = names@;
        let ghost prevdv = names.deep_view();
        names.push(n);
        proof {
            assert(prevdv.len() == prevv.len());
            assert(prevv.len() == i as int);
            assert(names@.len() == i as int + 1);
            assert forall|k: int| 0 <= k < i as int + 1 implies names.deep_view()[k] == all.take(
                i as int + 1,
            )[k] by {
                assert(names.deep_view()[k] == names@[k]@);
                if k < i as int {
                    assert(names@[k] == prevv[k]);
                    assert(prevdv[k] == prevv[k]@);
                } else {
                    assert(names@[k] == n);
                }
            }
            assert(names.deep_view() =~= all.take(i as int + 1));
        }
        i = i + 1;
    }
    proof {
        assert(all.take(entries@.len() as int) =~= all);
    }
    let sorted = sort_names(&names);
    render_listing(label, &sorted)
}

} // verus!
