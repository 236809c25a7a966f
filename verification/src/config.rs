//! Configuration values and the snippet book: named texts kept in the order
//! in which their names were first saved.
use vstd::prelude::*;
use indexmap::IndexMap;
use crate::cli::text_view;

verus! {

broadcast use vstd::string::group_string_axioms;

/// The insertion-ordered map of the `indexmap` crate.
#[verifier::external_type_specification]
#[verifier::external_body]
#[verifier::reject_recursive_types(K)]
#[verifier::reject_recursive_types(V)]
#[verifier::reject_recursive_types(S)]
pub struct ExIndexMap<K, V, S>(IndexMap<K, V, S>);

/// Saved text snippets, name to content, in insertion order.
pub type Snippets = IndexMap<String, String>;

/// The entries of a snippet map, (name, content), in the map's order. The
/// order is the order of insertion, which does not depend on the hasher.
pub uninterp spec fn snippet_entries(m: IndexMap<String, String>) -> Seq<(Seq<char>, Seq<char>)>;

/// Position of the first entry whose name is `k`.
pub open spec fn key_index(e: Seq<(Seq<char>, Seq<char>)>, k: Seq<char>) -> Option<int>
    decreases e.len(),
{
    if e.len() == 0 {
        None
    } else if e[0].0 == k {
        Some(0)
    } else {
        match key_index(e.drop_first(), k) {
            Some(i) => Some(i + 1),
            None => None,
        }
    }
}

/// The content saved under `k`.
pub open spec fn lookup(e: Seq<(Seq<char>, Seq<char>)>, k: Seq<char>) -> Option<Seq<char>> {
    match key_index(e, k) {
        Some(i) => Some(e[i].1),
        None => None,
    }
}

/// The entries after saving `v` under `k`: an entry already named `k` keeps
/// its place and takes the new content; a new name goes last.
pub open spec fn inserted(e: Seq<(Seq<char>, Seq<char>)>, k: Seq<char>, v: Seq<char>) -> Seq<
    (Seq<char>, Seq<char>),
> {
    match key_index(e, k) {
        Some(i) => e.update(i, (k, v)),
        None => e.push((k, v)),
    }
}

/// The entries after removing the one named `k`; the others keep their order.
pub open spec fn removed(e: Seq<(Seq<char>, Seq<char>)>, k: Seq<char>) -> Seq<
    (Seq<char>, Seq<char>),
> {
    match key_index(e, k) {
        Some(i) => e.remove(i),
        None => e,
    }
}

/// The entries after saving every entry of `incoming`, in its order.
pub open spec fn merged(e: Seq<(Seq<char>, Seq<char>)>, incoming: Seq<(Seq<char>, Seq<char>)>) -> Seq<
    (Seq<char>, Seq<char>),
>
    decreases incoming.len(),
{
    if incoming.len() == 0 {
        e
    } else {
        inserted(merged(e, incoming.drop_last()), incoming.last().0, incoming.last().1)
    }
}

/// No two entries share a name.
pub open spec fn distinct_names(e: Seq<(Seq<char>, Seq<char>)>) -> bool {
    forall|i: int, j: int| 0 <= i < j < e.len() ==> #[trigger] e[i].0 != #[trigger] e[j].0
}

/// The names, in order.
pub open spec fn names(e: Seq<(Seq<char>, Seq<char>)>) -> Seq<Seq<char>> {
    e.map_values(|p: (Seq<char>, Seq<char>)| p.0)
}

pub open spec fn ref_text_view(o: Option<&String>) -> Option<Seq<char>> {
    match o {
        Some(s) => Some(s@),
        None => None,
    }
}

pub open spec fn entry_ref_view(o: Option<(&String, &String)>) -> Option<(Seq<char>, Seq<char>)> {
    match o {
        Some(p) => Some((p.0@, p.1@)),
        None => None,
    }
}

/// `IndexMap::new`: an empty map.
#[verifier::external_body]
fn index_map_new() -> (m: Snippets)
    ensures
        snippet_entries(m) == Seq::<(Seq<char>, Seq<char>)>::empty(),
{
    IndexMap::new()
}

/// `IndexMap::insert`: an entry with an equal key keeps its position and
/// takes the new value, whose previous value is returned; otherwise the pair
/// goes last and nothing is returned.
#[verifier::external_body]
fn index_map_insert(m: &mut Snippets, k: String, v: String) -> (r: Option<String>)
    ensures
        snippet_entries(*final(m)) == inserted(snippet_entries(*old(m)), k@, v@),
        text_view(r) == lookup(snippet_entries(*old(m)), k@),
{
    m.insert(k, v)
}

/// `IndexMap::shift_remove`: removes the entry with an equal key, shifting
/// the later ones down, and returns its value. The keys of an `IndexMap` are
/// unique.
#[verifier::external_body]
fn index_map_shift_remove(m: &mut Snippets, k: &str) -> (r: Option<String>)
    ensures
        distinct_names(snippet_entries(*old(m))),
        snippet_entries(*final(m)) == removed(snippet_entries(*old(m)), k@),
        text_view(r) == lookup(snippet_entries(*old(m)), k@),
{
    m.shift_remove(k)
}

/// `IndexMap::get`: the value stored under an equal key.
#[verifier::external_body]
fn index_map_get<'a>(m: &'a Snippets, k: &str) -> (r: Option<&'a String>)
    ensures
        ref_text_view(r) == lookup(snippet_entries(*m), k@),
{
    m.get(k)
}

/// `IndexMap::len`: the number of entries.
#[verifier::external_body]
fn index_map_len(m: &Snippets) -> (n: usize)
    ensures
        n == snippet_entries(*m).len(),
{
    m.len()
}

/// `IndexMap::get_index`: the entry at a position.
#[verifier::external_body]
fn index_map_get_index<'a>(m: &'a Snippets, i: usize) -> (r: Option<(&'a String, &'a String)>)
    ensures
        entry_ref_view(r) == (if i < snippet_entries(*m).len() {
            Some(snippet_entries(*m)[i as int])
        } else {
            None
        }),
{
    m.get_index(i)
}

/// An empty snippet book.
pub fn empty_snippets() -> (m: Snippets)
    ensures
        snippet_entries(m) == Seq::<(Seq<char>, Seq<char>)>::empty(),
{
    index_map_new()
}

/// Number of saved snippets.
pub fn snippet_count(m: &Snippets) -> (n: usize)
    ensures
        n == snippet_entries(*m).len(),
{
    index_map_len(m)
}

/// The entry at position `i`, as (name, content).
pub fn snippet_at(m: &Snippets, i: usize) -> (r: (String, String))
    requires
        i < snippet_entries(*m).len(),
    ensures
        (r.0@, r.1@) == snippet_entries(*m)[i as int],
{
    match index_map_get_index(m, i) {
        Some(p) => (p.0.clone(), p.1.clone()),
        None => {
            assert(false);
            (String::new(), String::new())
        },
    }
}

/// The content saved under `name`.
pub fn get_snippet(m: &Snippets, name: &str) -> (r: Option<String>)
    ensures
        text_view(r) == lookup(snippet_entries(*m), name@),
{
    match index_map_get(m, name) {
        Some(v) => Some(v.clone()),
        None => None,
    }
}

/// Saves `content` under `name`: a name already present keeps its place in
/// the order and takes the new content; a new name goes last.
pub fn add_snippet(m: &mut Snippets, name: &str, content: &str)
    ensures
        snippet_entries(*final(m)) == inserted(snippet_entries(*old(m)), name@, content@),
{
    let _ = index_map_insert(m, String::from_str(name), String::from_str(content));
}

/// Removes the snippet named `name`; `false` when there is none. The name is
/// gone afterwards.
pub fn remove_snippet(m: &mut Snippets, name: &str) -> (r: bool)
    ensures
        r == (lookup(snippet_entries(*old(m)), name@) is Some),
        snippet_entries(*final(m)) == removed(snippet_entries(*old(m)), name@),
        lookup(snippet_entries(*final(m)), name@) is None,
{
    let r = index_map_shift_remove(m, name);
    proof {
        law_removed_snippet_is_gone(snippet_entries(*old(m)), name@);
    }
    r.is_some()
}

/// Saves every snippet of `incoming` into `m`, in the order of `incoming`.
pub fn import_snippets(m: &mut Snippets, incoming: &Snippets)
    ensures
        snippet_entries(*final(m)) == merged(snippet_entries(*old(m)), snippet_entries(*incoming)),
{
    let n = index_map_len(incoming);
    let ghost inc = snippet_entries(*incoming);
    let mut i: usize = 0;
    assert(inc.take(0) == Seq::<(Seq<char>, Seq<char>)>::empty());
    while i < n
        invariant
            n == inc.len(),
            inc == snippet_entries(*incoming),
            i <= n,
            snippet_entries(*m) == merged(snippet_entries(*old(m)), inc.take(i as int)),
        decreases n - i,
    {
        let (k, v) = snippet_at(incoming, i);
        let _ = index_map_insert(m, k, v);
        assert(inc.take(i + 1).drop_last() == inc.take(i as int));
        i = i + 1;
    }
    assert(inc.take(n as int) == inc);
}

/// The countdown, in seconds, when the configuration does not give one.
pub fn default_countdown() -> (r: i64)
    ensures
        r == 5,
{
    5
}

/// Whether the emergency stop is on when the configuration does not say.
pub fn default_failsafe() -> (r: bool)
    ensures
        r,
{
    true
}

/// What loading the configuration file leads to.
#[derive(Clone, Copy, Debug, PartialEq, Eq, Structural)]
pub enum LoadOutcome {
    /// The file's settings are used.
    UseFile,
    /// The defaults are used and written to the file.
    UseDefaultsAndSave,
    /// The defaults are used and the file is left as it is.
    UseDefaults,
}

/// A missing file gives the defaults, which are written back; a file that
/// cannot be read or parsed gives the defaults and is left untouched.
pub fn load_outcome(file_exists: bool, parsed: bool) -> (r: LoadOutcome)
    ensures
        !file_exists ==> r == LoadOutcome::UseDefaultsAndSave,
        file_exists && parsed ==> r == LoadOutcome::UseFile,
        file_exists && !parsed ==> r == LoadOutcome::UseDefaults,
{
    if !file_exists {
        LoadOutcome::UseDefaultsAndSave
    } else if parsed {
        LoadOutcome::UseFile
    } else {
        LoadOutcome::UseDefaults
    }
}

proof fn lemma_key_index(e: Seq<(Seq<char>, Seq<char>)>, k: Seq<char>)
    ensures
        key_index(e, k) matches Some(i) ==> 0 <= i < e.len() && e[i].0 == k && forall|j: int|
            0 <= j < i ==> #[trigger] e[j].0 != k,
        key_index(e, k) is None ==> forall|j: int| 0 <= j < e.len() ==> #[trigger] e[j].0 != k,
    decreases e.len(),
{
    if e.len() > 0 && e[0].0 != k {
        lemma_key_index(e.drop_first(), k);
        assert forall|j: int| 0 < j < e.len() implies e[j] == e.drop_first()[j - 1] by {}
    }
}

/// The first index holding `k` is `i` when `i` holds it and none before does.
proof fn lemma_key_index_is(e: Seq<(Seq<char>, Seq<char>)>, k: Seq<char>, i: int)
    requires
        0 <= i < e.len(),
        e[i].0 == k,
        forall|j: int| 0 <= j < i ==> #[trigger] e[j].0 != k,
    ensures
        key_index(e, k) == Some(i),
{
    lemma_key_index(e, k);
    if key_index(e, k) is None {
        assert(e[i].0 != k);
    } else {
        let m = key_index(e, k)->0;
        if m < i {
            assert(e[m].0 != k);
        } else if m > i {
            assert(e[i].0 != k);
        }
    }
}

/// No entry holds `k`.
proof fn lemma_key_index_none(e: Seq<(Seq<char>, Seq<char>)>, k: Seq<char>)
    requires
        forall|j: int| 0 <= j < e.len() ==> #[trigger] e[j].0 != k,
    ensures
        key_index(e, k) is None,
{
    lemma_key_index(e, k);
    if key_index(e, k) is Some {
        let m = key_index(e, k)->0;
        assert(e[m].0 != k);
    }
}

/// After saving a content under a name, looking the name up gives that content.
pub proof fn law_saved_snippet_is_found(e: Seq<(Seq<char>, Seq<char>)>, k: Seq<char>, v: Seq<char>)
    ensures
        lookup(inserted(e, k, v), k) == Some(v),
{
    lemma_key_index(e, k);
    let e2 = inserted(e, k, v);
    match key_index(e, k) {
        Some(i) => {
            lemma_key_index_is(e2, k, i);
        },
        None => {
            lemma_key_index_is(e2, k, e.len() as int);
        },
    }
}

/// Saving under one name leaves what every other name gives unchanged.
pub proof fn law_other_snippets_unchanged(
    e: Seq<(Seq<char>, Seq<char>)>,
    k: Seq<char>,
    v: Seq<char>,
    other: Seq<char>,
)
    requires
        other != k,
    ensures
        lookup(inserted(e, k, v), other) == lookup(e, other),
        lookup(removed(e, k), other) == lookup(e, other),
{
    lemma_key_index(e, k);
    lemma_key_index(e, other);
    let e2 = inserted(e, k, v);
    match key_index(e, other) {
        Some(m) => {
            lemma_key_index_is(e2, other, m);
        },
        None => {
            lemma_key_index_none(e2, other);
        },
    }
    let e3 = removed(e, k);
    match key_index(e, k) {
        Some(i) => {
            match key_index(e, other) {
                Some(m) => {
                    if m < i {
                        lemma_key_index_is(e3, other, m);
                    } else {
                        assert(m != i);
                        assert(e3[m - 1] == e[m]);
                        assert forall|j: int| 0 <= j < m - 1 implies #[trigger] e3[j].0 != other by {
                            if j < i {
                                assert(e3[j] == e[j]);
                            } else {
                                assert(e3[j] == e[j + 1]);
                            }
                        }
                        lemma_key_index_is(e3, other, m - 1);
                    }
                },
                None => {
                    assert forall|j: int| 0 <= j < e3.len() implies #[trigger] e3[j].0 != other by {
                        if j < i {
                            assert(e3[j] == e[j]);
                        } else {
                            assert(e3[j] == e[j + 1]);
                        }
                    }
                    lemma_key_index_none(e3, other);
                },
            }
        },
        None => {},
    }
}

/// Saving keeps the order of the names: a name already present keeps its
/// place, and a new name goes last.
pub proof fn law_insertion_order(e: Seq<(Seq<char>, Seq<char>)>, k: Seq<char>, v: Seq<char>)
    ensures
        names(inserted(e, k, v)) == (if lookup(e, k) is Some {
            names(e)
        } else {
            names(e).push(k)
        }),
{
    lemma_key_index(e, k);
    match key_index(e, k) {
        Some(i) => {
            assert(names(inserted(e, k, v)) =~= names(e));
        },
        None => {
            assert(names(inserted(e, k, v)) =~= names(e).push(k));
        },
    }
}

/// Removing a name that is absent changes nothing, and reports nothing
/// removed.
pub proof fn law_remove_absent(e: Seq<(Seq<char>, Seq<char>)>, k: Seq<char>)
    requires
        lookup(e, k) is None,
    ensures
        removed(e, k) == e,
{
}

/// In a book whose names are distinct, a removed name is gone.
pub proof fn law_removed_snippet_is_gone(e: Seq<(Seq<char>, Seq<char>)>, k: Seq<char>)
    requires
        distinct_names(e),
    ensures
        lookup(removed(e, k), k) is None,
{
    lemma_key_index(e, k);
    let e3 = removed(e, k);
    match key_index(e, k) {
        Some(i) => {
            assert forall|j: int| 0 <= j < e3.len() implies #[trigger] e3[j].0 != k by {
                if j < i {
                    assert(e3[j] == e[j]);
                } else {
                    assert(e3[j] == e[j + 1]);
                    assert(e[i].0 != e[j + 1].0);
                }
            }
            lemma_key_index_none(e3, k);
        },
        None => {},
    }
}

/// Saving, removing and importing keep the names of a book distinct.
pub proof fn law_names_stay_distinct(
    e: Seq<(Seq<char>, Seq<char>)>,
    k: Seq<char>,
    v: Seq<char>,
    incoming: Seq<(Seq<char>, Seq<char>)>,
)
    requires
        distinct_names(e),
    ensures
        distinct_names(inserted(e, k, v)),
        distinct_names(removed(e, k)),
        distinct_names(merged(e, incoming)),
    decreases incoming.len(),
{
    lemma_key_index(e, k);
    let e2 = inserted(e, k, v);
    match key_index(e, k) {
        Some(i) => {
            assert forall|a: int, b: int| 0 <= a < b < e2.len() implies #[trigger] e2[a].0
                != #[trigger] e2[b].0 by {
                assert(e2[a].0 == e[a].0);
                assert(e2[b].0 == e[b].0);
            }
        },
        None => {
            assert forall|a: int, b: int| 0 <= a < b < e2.len() implies #[trigger] e2[a].0
                != #[trigger] e2[b].0 by {
                if b == e.len() {
                    assert(e2[a] == e[a]);
                } else {
                    assert(e2[a] == e[a] && e2[b] == e[b]);
                }
            }
        },
    }
    let e3 = removed(e, k);
    match key_index(e, k) {
        Some(i) => {
            assert forall|a: int, b: int| 0 <= a < b < e3.len() implies #[trigger] e3[a].0
                != #[trigger] e3[b].0 by {
                let a2 = if a < i {
                    a
                } else {
                    a + 1
                };
                let b2 = if b < i {
                    b
                } else {
                    b + 1
                };
                assert(e3[a] == e[a2]);
                assert(e3[b] == e[b2]);
            }
        },
        None => {},
    }
    if incoming.len() > 0 {
        law_names_stay_distinct(e, k, v, incoming.drop_last());
        let m = merged(e, incoming.drop_last());
        law_names_stay_distinct(m, incoming.last().0, incoming.last().1, Seq::empty());
    }
}

/// Importing a book with distinct names into an empty book gives exactly
/// that book: its entries, in its order.
pub proof fn law_import_into_empty(incoming: Seq<(Seq<char>, Seq<char>)>)
    requires
        distinct_names(incoming),
    ensures
        merged(Seq::empty(), incoming) == incoming,
    decreases incoming.len(),
{
    if incoming.len() > 0 {
        let front = incoming.drop_last();
        assert(distinct_names(front)) by {
            assert forall|a: int, b: int| 0 <= a < b < front.len() implies #[trigger] front[a].0
                != #[trigger] front[b].0 by {
                assert(front[a] == incoming[a] && front[b] == incoming[b]);
            }
        }
        law_import_into_empty(front);
        let last = incoming.last();
        assert forall|j: int| 0 <= j < front.len() implies #[trigger] front[j].0 != last.0 by {
            assert(front[j] == incoming[j]);
        }
        lemma_key_index_none(front, last.0);
        assert(front.push(last) =~= incoming);
    }
}

} // verus!
