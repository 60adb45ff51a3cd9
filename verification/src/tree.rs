//! The deterministic content digest of a directory tree.
//!
//! A tree is a list of entries (relative path, raw bytes). The digest covers
//! every entry whose path is not on the ignore-list, in lexicographic path
//! order, each entry framed with length-prefixed fields, hashed once. The
//! listing is canonical, so the digest depends only on which entries the tree
//! holds, never on traversal order.

use crate::bytes::bytes_eq;
use crate::bytes::le64;
use crate::bytes::lemma_le_bytes_injective;
use crate::bytes::lemma_le_bytes_len;
use crate::bytes::pow256;
use crate::bytes::lemma_lex_le_antisymmetric;
use crate::bytes::lemma_lex_le_connected;
use crate::bytes::lemma_lex_le_reflexive;
use crate::bytes::lemma_lex_le_transitive;
use crate::bytes::lex_le;
use crate::bytes::lex_le_bytes;
use crate::bytes::push_bytes;
use crate::bytes::push_le64;
use crate::hashing::blake2b_of;
use crate::hashing::Digest;
use vstd::multiset::Multiset;
use vstd::prelude::*;
use vstd::relations::*;
use vstd::seq_lib::*;

verus! {

/// One file of a tree: its relative path and its raw content.
pub struct TreeEntry {
    pub path: Vec<u8>,
    pub content: Vec<u8>,
}

impl View for TreeEntry {
    type V = (Seq<u8>, Seq<u8>);

    open spec fn view(&self) -> (Seq<u8>, Seq<u8>) {
        (self.path@, self.content@)
    }
}

/// The mathematical tree behind a vector of entries.
pub open spec fn entries_view(s: Seq<TreeEntry>) -> Seq<(Seq<u8>, Seq<u8>)> {
    s.map_values(|e: TreeEntry| e@)
}

/// Order on entries: by path, ties broken by content. A total order (proved
/// in `lemma_entry_le_total_ordering`).
pub open spec fn entry_le(a: (Seq<u8>, Seq<u8>), b: (Seq<u8>, Seq<u8>)) -> bool {
    if a.0 == b.0 {
        lex_le(a.1, b.1)
    } else {
        lex_le(a.0, b.0)
    }
}

/// `entry_le` as a relation value, for `sort_by` and the ordering lemmas.
pub open spec fn entry_le_fn() -> spec_fn((Seq<u8>, Seq<u8>), (Seq<u8>, Seq<u8>)) -> bool {
    |a: (Seq<u8>, Seq<u8>), b: (Seq<u8>, Seq<u8>)| entry_le(a, b)
}

pub proof fn lemma_entry_le_total_ordering()
    ensures
        total_ordering(entry_le_fn()),
{
    let leq = entry_le_fn();
    assert forall|a: (Seq<u8>, Seq<u8>)| #[trigger] leq(a, a) by {
        lemma_lex_le_reflexive(a.1);
    }
    assert forall|a: (Seq<u8>, Seq<u8>), b: (Seq<u8>, Seq<u8>)|
        #[trigger] leq(a, b) && #[trigger] leq(b, a) implies a == b by {
        if a.0 == b.0 {
            lemma_lex_le_antisymmetric(a.1, b.1);
            assert(a =~= b);
        } else {
            lemma_lex_le_antisymmetric(a.0, b.0);
        }
    }
    assert forall|a: (Seq<u8>, Seq<u8>), b: (Seq<u8>, Seq<u8>), c: (Seq<u8>, Seq<u8>)|
        #[trigger] leq(a, b) && #[trigger] leq(b, c) implies leq(a, c) by {
        if a.0 == b.0 && b.0 == c.0 {
            lemma_lex_le_transitive(a.1, b.1, c.1);
        } else if a.0 == b.0 {
            assert(lex_le(a.0, c.0));
        } else if b.0 == c.0 {
            assert(lex_le(a.0, c.0));
        } else {
            lemma_lex_le_transitive(a.0, b.0, c.0);
            if a.0 == c.0 {
                lemma_lex_le_antisymmetric(a.0, b.0);
            }
        }
    }
    assert forall|a: (Seq<u8>, Seq<u8>), b: (Seq<u8>, Seq<u8>)|
        #[trigger] leq(a, b) || #[trigger] leq(b, a) by {
        if a.0 == b.0 {
            lemma_lex_le_connected(a.1, b.1);
        } else {
            lemma_lex_le_connected(a.0, b.0);
        }
    }
}

/// The set of relative paths that an ignore-list names.
pub open spec fn ignore_view(ignore: Seq<Vec<u8>>) -> Set<Seq<u8>> {
    Set::new(|p: Seq<u8>| exists|i: int| 0 <= i < ignore.len() && ignore[i]@ == p)
}

/// Keep an entry when its path is not ignored.
pub open spec fn include_pred(ignore: Set<Seq<u8>>) -> spec_fn((Seq<u8>, Seq<u8>)) -> bool {
    |p: (Seq<u8>, Seq<u8>)| !ignore.contains(p.0)
}

/// The entries a digest covers: those whose path is not on the ignore-list,
/// in tree order.
pub open spec fn included(t: Seq<(Seq<u8>, Seq<u8>)>, ignore: Set<Seq<u8>>) -> Seq<
    (Seq<u8>, Seq<u8>),
> {
    t.filter(include_pred(ignore))
}

/// The canonical listing: included entries in lexicographic order.
pub open spec fn canonical_entries(t: Seq<(Seq<u8>, Seq<u8>)>, ignore: Set<Seq<u8>>) -> Seq<
    (Seq<u8>, Seq<u8>),
> {
    included(t, ignore).sort_by(entry_le_fn())
}

/// Unambiguous framing of one entry: length-prefixed path, then
/// length-prefixed content.
pub open spec fn encode_entry(p: (Seq<u8>, Seq<u8>)) -> Seq<u8> {
    le64(p.0.len() as int) + p.0 + le64(p.1.len() as int) + p.1
}

/// The concatenated framing of a listing.
pub open spec fn encode_entries(s: Seq<(Seq<u8>, Seq<u8>)>) -> Seq<u8>
    decreases s.len(),
{
    if s.len() == 0 {
        Seq::empty()
    } else {
        encode_entry(s[0]) + encode_entries(s.drop_first())
    }
}

/// The byte string a tree digest hashes.
pub open spec fn digest_input(t: Seq<(Seq<u8>, Seq<u8>)>, ignore: Set<Seq<u8>>) -> Seq<u8> {
    encode_entries(canonical_entries(t, ignore))
}

/// The content digest of a tree under an ignore-list.
pub open spec fn tree_digest(t: Seq<(Seq<u8>, Seq<u8>)>, ignore: Set<Seq<u8>>) -> Seq<u8> {
    blake2b_of(digest_input(t, ignore))
}

/// Decides membership of a path in the ignore-list (exact match).
pub fn path_ignored(ignore: &Vec<Vec<u8>>, path: &Vec<u8>) -> (r: bool)
    ensures
        r == ignore_view(ignore@).contains(path@),
{
    let mut i: usize = 0;
    while i < ignore.len()
        invariant
            i <= ignore@.len(),
            forall|k: int| 0 <= k < i ==> ignore@[k]@ != path@,
        decreases ignore@.len() - i,
    {
        if bytes_eq(&ignore[i], path) {
            proof {
                assert(ignore@[i as int]@ == path@);
            }
            return true;
        }
        i = i + 1;
    }
    false
}

fn clone_bytes(v: &Vec<u8>) -> (r: Vec<u8>)
    ensures
        r@ == v@,
{
    let mut out: Vec<u8> = Vec::new();
    push_bytes(&mut out, v);
    out
}

fn clone_entry(e: &TreeEntry) -> (r: TreeEntry)
    ensures
        r@ == e@,
{
    TreeEntry { path: clone_bytes(&e.path), content: clone_bytes(&e.content) }
}

fn entry_le_exec(a: &TreeEntry, b: &TreeEntry) -> (r: bool)
    ensures
        r == entry_le(a@, b@),
{
    if bytes_eq(&a.path, &b.path) {
        lex_le_bytes(&a.content, &b.content)
    } else {
        lex_le_bytes(&a.path, &b.path)
    }
}

/// Inserts an entry into a listing kept in lexicographic order.
fn sorted_insert(out: &mut Vec<TreeEntry>, e: TreeEntry)
    requires
        sorted_by(entries_view(old(out)@), entry_le_fn()),
    ensures
        sorted_by(entries_view(final(out)@), entry_le_fn()),
        entries_view(final(out)@).to_multiset() == entries_view(old(out)@).to_multiset().insert(
            e@,
        ),
{
    proof {
        lemma_entry_le_total_ordering();
    }
    let ghost w = entries_view(out@);
    let mut j: usize = 0;
    while j < out.len() && entry_le_exec(&out[j], &e)
        invariant
            j <= out@.len(),
            out@ == old(out)@,
            forall|k: int| 0 <= k < j ==> entry_le(#[trigger] entries_view(out@)[k], e@),
        decreases out@.len() - j,
    {
        j = j + 1;
    }
    proof {
        if j < out@.len() {
            assert(!entry_le(entries_view(out@)[j as int], e@));
            let a = e@;
            let b = entries_view(out@)[j as int];
            if a.0 == b.0 {
                lemma_lex_le_connected(a.1, b.1);
            } else {
                lemma_lex_le_connected(a.0, b.0);
            }
            assert(entry_le_fn()(e@, entries_view(out@)[j as int]));
        }
    }
    out.insert(j, e);
    proof {
        let leq = entry_le_fn();
        let w2 = entries_view(out@);
        assert(w2 =~= w.insert(j as int, e@)) by {
            assert forall|i: int| 0 <= i < w2.len() implies w2[i] == w.insert(j as int, e@)[i] by {
                assert(w2[i] == out@[i]@);
                if i < j {
                    assert(out@[i] == old(out)@[i]);
                } else if i == j {
                } else {
                    assert(out@[i] == old(out)@[i - 1]);
                }
            }
        }
        assert(sorted_by(w2, leq)) by {
            assert forall|i1: int, i2: int| 0 <= i1 < i2 < w2.len() implies #[trigger] leq(
                w2[i1],
                w2[i2],
            ) by {
                if i1 < j && i2 < j {
                    assert(leq(w[i1], w[i2]));
                } else if i1 < j && i2 == j {
                    assert(leq(w[i1], e@));
                } else if i1 < j && i2 > j {
                    assert(leq(w[i1], w[i2 - 1]));
                } else if i1 == j {
                    // every element at or past the insertion point is >= e
                    if j < w.len() {
                        assert(leq(e@, w[j as int]));
                        assert(i2 - 1 >= j);
                        if i2 - 1 > j {
                            assert(leq(w[j as int], w[i2 - 1]));
                        }
                        assert(leq(e@, w[i2 - 1]));
                    }
                } else {
                    assert(leq(w[i1 - 1], w[i2 - 1]));
                }
            }
        }
        // multiset: inserting one entry adds exactly that entry
        let s1 = w.subrange(0, j as int);
        let s2 = w.subrange(j as int, w.len() as int);
        assert(w =~= s1 + s2);
        assert(w2 =~= s1 + (seq![e@] + s2));
        lemma_multiset_commutative(s1, s2);
        lemma_multiset_commutative(s1, seq![e@] + s2);
        lemma_multiset_commutative(seq![e@], s2);
        assert(seq![e@].to_multiset() =~= Multiset::<(Seq<u8>, Seq<u8>)>::empty().insert(e@)) by {
            broadcast use group_to_multiset_ensures;

            assert(seq![e@] =~= Seq::<(Seq<u8>, Seq<u8>)>::empty().push(e@));
            assert(Seq::<(Seq<u8>, Seq<u8>)>::empty().to_multiset().len() == 0);
            assert(Seq::<(Seq<u8>, Seq<u8>)>::empty().to_multiset()
                =~= Multiset::<(Seq<u8>, Seq<u8>)>::empty()) by {
                vstd::multiset::lemma_multiset_empty_len(
                    Seq::<(Seq<u8>, Seq<u8>)>::empty().to_multiset(),
                );
            }
        }
        assert(w2.to_multiset() =~= w.to_multiset().insert(e@));
    }
}

/// Appends the framing of one entry to the digest input.
fn push_entry(input: &mut Vec<u8>, e: &TreeEntry)
    ensures
        final(input)@ == old(input)@ + encode_entry(e@),
{
    push_le64(input, e.path.len() as u64);
    push_bytes(input, &e.path);
    push_le64(input, e.content.len() as u64);
    push_bytes(input, &e.content);
    proof {
        assert(final(input)@ =~= old(input)@ + encode_entry(e@));
    }
}

proof fn lemma_encode_entries_push(s: Seq<(Seq<u8>, Seq<u8>)>, x: (Seq<u8>, Seq<u8>))
    ensures
        encode_entries(s.push(x)) == encode_entries(s) + encode_entry(x),
    decreases s.len(),
{
    if s.len() == 0 {
        assert(s.push(x)[0] == x);
        assert(s.push(x).drop_first() =~= Seq::<(Seq<u8>, Seq<u8>)>::empty());
        assert(encode_entries(Seq::<(Seq<u8>, Seq<u8>)>::empty()) =~= Seq::<u8>::empty());
        assert(encode_entries(s.push(x)) == encode_entry(x) + encode_entries(
            Seq::<(Seq<u8>, Seq<u8>)>::empty(),
        ));
        assert(encode_entries(s.push(x)) =~= encode_entries(s) + encode_entry(x));
    } else {
        assert(s.push(x).drop_first() =~= s.drop_first().push(x));
        lemma_encode_entries_push(s.drop_first(), x);
        assert(s.push(x)[0] == s[0]);
        assert(encode_entries(s.push(x)) == encode_entry(s[0]) + encode_entries(
            s.drop_first().push(x),
        ));
        assert(encode_entries(s) == encode_entry(s[0]) + encode_entries(s.drop_first()));
        assert(encode_entry(s[0]) + (encode_entries(s.drop_first()) + encode_entry(x)) =~= (
        encode_entry(s[0]) + encode_entries(s.drop_first())) + encode_entry(x));
        assert(encode_entries(s.push(x)) =~= encode_entries(s) + encode_entry(x));
    }
}

/// Computes the content digest of a tree under an ignore-list: included
/// entries are listed in canonical order, framed, and hashed once.
pub fn content_digest(tree: &Vec<TreeEntry>, ignore: &Vec<Vec<u8>>) -> (d: Digest)
    ensures
        d@ == tree_digest(entries_view(tree@), ignore_view(ignore@)),
        d.wf(),
{
    let ghost iv = ignore_view(ignore@);
    let ghost pred = include_pred(iv);
    // collect the included entries
    let mut incl: Vec<TreeEntry> = Vec::new();
    let mut i: usize = 0;
    proof {
        assert(entries_view(tree@.subrange(0, 0)).filter(pred) =~= entries_view(incl@)) by {
            assert(tree@.subrange(0, 0) =~= Seq::<TreeEntry>::empty());
            assert(entries_view(Seq::<TreeEntry>::empty()) =~= Seq::<(Seq<u8>, Seq<u8>)>::empty());
            reveal(Seq::filter);
        }
    }
    while i < tree.len()
        invariant
            i <= tree@.len(),
            iv == ignore_view(ignore@),
            pred == include_pred(iv),
            entries_view(incl@) == entries_view(tree@.subrange(0, i as int)).filter(pred),
        decreases tree@.len() - i,
    {
        let ghost prefix = entries_view(tree@.subrange(0, i as int));
        let keep = !path_ignored(ignore, &tree[i].path);
        if keep {
            let e = clone_entry(&tree[i]);
            incl.push(e);
        }
        proof {
            let prefix2 = entries_view(tree@.subrange(0, i as int + 1));
            assert(tree@.subrange(0, i as int + 1).drop_last() =~= tree@.subrange(0, i as int));
            assert(prefix2 =~= prefix.push(tree@[i as int]@)) by {
                assert forall|k: int| 0 <= k < prefix2.len() implies prefix2[k] == prefix.push(
                    tree@[i as int]@,
                )[k] by {}
            }
            reveal(Seq::filter);
            assert(prefix2.drop_last() =~= prefix);
            assert(prefix2.filter(pred) == if pred(tree@[i as int]@) {
                prefix.filter(pred).push(tree@[i as int]@)
            } else {
                prefix.filter(pred)
            });
            assert(keep == pred(tree@[i as int]@));
            if keep {
                assert(entries_view(incl@) =~= prefix.filter(pred).push(tree@[i as int]@)) by {
                    assert forall|k: int| 0 <= k < entries_view(incl@).len() implies entries_view(
                        incl@,
                    )[k] == prefix.filter(pred).push(tree@[i as int]@)[k] by {}
                }
            }
        }
        i = i + 1;
    }
    proof {
        assert(tree@.subrange(0, tree@.len() as int) =~= tree@);
        assert(entries_view(incl@) == included(entries_view(tree@), iv));
    }
    // canonical order
    let mut sorted: Vec<TreeEntry> = Vec::new();
    let mut k: usize = 0;
    proof {
        broadcast use group_to_multiset_ensures;

        assert(entries_view(sorted@) =~= Seq::<(Seq<u8>, Seq<u8>)>::empty());
        assert(entries_view(incl@.subrange(0, 0)) =~= Seq::<(Seq<u8>, Seq<u8>)>::empty());
    }
    while k < incl.len()
        invariant
            k <= incl@.len(),
            sorted_by(entries_view(sorted@), entry_le_fn()),
            entries_view(sorted@).to_multiset() == entries_view(
                incl@.subrange(0, k as int),
            ).to_multiset(),
        decreases incl@.len() - k,
    {
        let e = clone_entry(&incl[k]);
        let ghost before = entries_view(incl@.subrange(0, k as int));
        sorted_insert(&mut sorted, e);
        proof {
            broadcast use group_to_multiset_ensures;

            let after = entries_view(incl@.subrange(0, k as int + 1));
            assert(after =~= before.push(incl@[k as int]@)) by {
                assert forall|t: int| 0 <= t < after.len() implies after[t] == before.push(
                    incl@[k as int]@,
                )[t] by {}
            }
            assert(after.to_multiset() =~= before.to_multiset().insert(incl@[k as int]@));
        }
        k = k + 1;
    }
    proof {
        assert(incl@.subrange(0, incl@.len() as int) =~= incl@);
    }
    // frame the listing
    let mut input: Vec<u8> = Vec::new();
    let mut m: usize = 0;
    proof {
        assert(entries_view(sorted@.subrange(0, 0)) =~= Seq::<(Seq<u8>, Seq<u8>)>::empty());
        assert(input@ =~= encode_entries(entries_view(sorted@.subrange(0, 0))));
    }
    while m < sorted.len()
        invariant
            m <= sorted@.len(),
            sorted@.len() == sorted.len(),
            input@ == encode_entries(entries_view(sorted@.subrange(0, m as int))),
        decreases sorted@.len() - m,
    {
        push_entry(&mut input, &sorted[m]);
        proof {
            let before = entries_view(sorted@.subrange(0, m as int));
            let after = entries_view(sorted@.subrange(0, m as int + 1));
            assert(after =~= before.push(sorted@[m as int]@)) by {
                assert forall|t: int| 0 <= t < after.len() implies after[t] == before.push(
                    sorted@[m as int]@,
                )[t] by {}
            }
            lemma_encode_entries_push(before, sorted@[m as int]@);
        }
        m = m + 1;
    }
    proof {
        assert(sorted@.subrange(0, sorted@.len() as int) =~= sorted@);
        // the sorted listing is exactly the canonical one
        lemma_entry_le_total_ordering();
        let inc = included(entries_view(tree@), iv);
        inc.lemma_sort_by_ensures(entry_le_fn());
        lemma_sorted_unique(entries_view(sorted@), inc.sort_by(entry_le_fn()), entry_le_fn());
        assert(entries_view(sorted@) =~= canonical_entries(entries_view(tree@), iv));
        assert(input@ == digest_input(entries_view(tree@), iv));
    }
    Digest::of_bytes(&input)
}

/// Removing one entry from a listing removes exactly its contribution to the
/// filtered multiset.
proof fn lemma_filter_remove_one<A>(s: Seq<A>, j: int, pred: spec_fn(A) -> bool)
    requires
        0 <= j < s.len(),
    ensures
        s.filter(pred).to_multiset() == if pred(s[j]) {
            s.remove(j).filter(pred).to_multiset().insert(s[j])
        } else {
            s.remove(j).filter(pred).to_multiset()
        },
{
    broadcast use group_to_multiset_ensures;
    broadcast use vstd::multiset::group_multiset_axioms;
    broadcast use Seq::filter_distributes_over_add;

    let a = s.subrange(0, j);
    let b = s.subrange(j + 1, s.len() as int);
    let mid = seq![s[j]];
    assert(s =~= (a + mid) + b);
    assert(s.remove(j) =~= a + b);
    reveal(Seq::filter);
    assert(mid.drop_last() =~= Seq::<A>::empty());
    assert(Seq::<A>::empty().filter(pred) =~= Seq::<A>::empty());
    assert(mid.filter(pred) == if pred(s[j]) {
        seq![s[j]]
    } else {
        Seq::<A>::empty()
    });
    lemma_multiset_commutative(a.filter(pred) + mid.filter(pred), b.filter(pred));
    lemma_multiset_commutative(a.filter(pred), mid.filter(pred));
    lemma_multiset_commutative(a.filter(pred), b.filter(pred));
    if pred(s[j]) {
        assert(seq![s[j]].to_multiset() =~= Multiset::<A>::empty().insert(s[j])) by {
            assert(seq![s[j]] =~= Seq::<A>::empty().push(s[j]));
            vstd::multiset::lemma_multiset_empty_len(Seq::<A>::empty().to_multiset());
        }
        assert(s.filter(pred).to_multiset() =~= s.remove(j).filter(pred).to_multiset().insert(
            s[j],
        ));
    } else {
        assert(mid.filter(pred).to_multiset().len() == 0);
        vstd::multiset::lemma_multiset_empty_len(mid.filter(pred).to_multiset());
        assert(s.filter(pred).to_multiset() =~= s.remove(j).filter(pred).to_multiset());
    }
}

/// Two listings with the same entries have the same included entries,
/// whatever their order.
proof fn lemma_filter_multiset<A>(s1: Seq<A>, s2: Seq<A>, pred: spec_fn(A) -> bool)
    requires
        s1.to_multiset() == s2.to_multiset(),
    ensures
        s1.filter(pred).to_multiset() == s2.filter(pred).to_multiset(),
    decreases s1.len(),
{
    broadcast use group_to_multiset_ensures;
    broadcast use vstd::multiset::group_multiset_axioms;

    if s1.len() == 0 {
        assert(s1.to_multiset().len() == 0);
        assert(s2.len() == 0);
        assert(s2 =~= s1);
    } else {
        let x = s1.last();
        assert(s1.contains(x));
        assert(s2.to_multiset().count(x) > 0);
        assert(s2.contains(x));
        let j = choose|j: int| 0 <= j < s2.len() && s2[j] == x;
        assert(s1.drop_last().to_multiset() =~= s1.to_multiset().remove(x)) by {
            assert(s1 =~= s1.drop_last().push(x));
            assert(s1.drop_last().push(x).to_multiset() =~= s1.drop_last().to_multiset().insert(
                x,
            ));
        }
        assert(s2.remove(j).to_multiset() =~= s2.to_multiset().remove(x));
        lemma_filter_multiset(s1.drop_last(), s2.remove(j), pred);
        lemma_filter_remove_one(s1, s1.len() - 1, pred);
        assert(s1.remove(s1.len() - 1) =~= s1.drop_last());
        lemma_filter_remove_one(s2, j, pred);
    }
}

/// Determinism: two trees that list the same entries, in whatever traversal
/// order, have the same content digest under the same ignore-list.
pub proof fn lemma_digest_deterministic(
    t1: Seq<(Seq<u8>, Seq<u8>)>,
    t2: Seq<(Seq<u8>, Seq<u8>)>,
    ignore: Set<Seq<u8>>,
)
    requires
        t1.to_multiset() == t2.to_multiset(),
    ensures
        tree_digest(t1, ignore) == tree_digest(t2, ignore),
{
    lemma_filter_multiset(t1, t2, include_pred(ignore));
    lemma_same_included_same_digest(t1, t2, ignore);
}

/// Trees including the same entries have the same digest: together with
/// `lemma_digest_input_characterizes_tree`, the digest input changes exactly
/// when a non-ignored entry's path or content changes.
pub proof fn lemma_same_included_same_digest(
    t1: Seq<(Seq<u8>, Seq<u8>)>,
    t2: Seq<(Seq<u8>, Seq<u8>)>,
    ignore: Set<Seq<u8>>,
)
    requires
        included(t1, ignore).to_multiset() == included(t2, ignore).to_multiset(),
    ensures
        tree_digest(t1, ignore) == tree_digest(t2, ignore),
{
    lemma_entry_le_total_ordering();
    included(t1, ignore).lemma_sort_by_ensures(entry_le_fn());
    included(t2, ignore).lemma_sort_by_ensures(entry_le_fn());
    lemma_sorted_unique(canonical_entries(t1, ignore), canonical_entries(t2, ignore), entry_le_fn());
    assert(canonical_entries(t1, ignore) == canonical_entries(t2, ignore));
}

/// Changing only entries whose paths are ignored leaves the digest unchanged.
pub proof fn lemma_ignored_entries_irrelevant(
    t1: Seq<(Seq<u8>, Seq<u8>)>,
    t2: Seq<(Seq<u8>, Seq<u8>)>,
    ignore: Set<Seq<u8>>,
)
    requires
        t1.len() == t2.len(),
        forall|i: int|
            0 <= i < t1.len() ==> (#[trigger] t1[i]) == t2[i] || (ignore.contains(t1[i].0)
                && ignore.contains(t2[i].0)),
    ensures
        tree_digest(t1, ignore) == tree_digest(t2, ignore),
{
    lemma_filter_included_equal(t1, t2, ignore);
    assert(included(t1, ignore) == included(t2, ignore));
}

proof fn lemma_filter_included_equal(
    t1: Seq<(Seq<u8>, Seq<u8>)>,
    t2: Seq<(Seq<u8>, Seq<u8>)>,
    ignore: Set<Seq<u8>>,
)
    requires
        t1.len() == t2.len(),
        forall|i: int|
            0 <= i < t1.len() ==> (#[trigger] t1[i]) == t2[i] || (ignore.contains(t1[i].0)
                && ignore.contains(t2[i].0)),
    ensures
        included(t1, ignore) == included(t2, ignore),
    decreases t1.len(),
{
    reveal(Seq::filter);
    if t1.len() == 0 {
        assert(t1 =~= t2);
    } else {
        assert(forall|i: int|
            0 <= i < t1.drop_last().len() ==> (#[trigger] t1.drop_last()[i]) == t2.drop_last()[i]
                || (ignore.contains(t1.drop_last()[i].0) && ignore.contains(t2.drop_last()[i].0)));
        lemma_filter_included_equal(t1.drop_last(), t2.drop_last(), ignore);
        let pred = include_pred(ignore);
        assert(t1[t1.len() - 1] == t2[t2.len() - 1] || (!pred(t1.last()) && !pred(t2.last())));
    }
}

/// All paths and contents short enough for the eight-byte length framing.
pub open spec fn bounded_entries(s: Seq<(Seq<u8>, Seq<u8>)>) -> bool {
    forall|i: int|
        0 <= i < s.len() ==> (#[trigger] s[i]).0.len() < pow256(8) && s[i].1.len() < pow256(8)
}

proof fn lemma_encode_entry_len(p: (Seq<u8>, Seq<u8>))
    ensures
        encode_entry(p).len() == 16 + p.0.len() + p.1.len(),
{
    lemma_le_bytes_len(p.0.len() as int, 8);
    lemma_le_bytes_len(p.1.len() as int, 8);
}

/// A length-framed field is recovered exactly from the front of a byte string.
proof fn lemma_frame_field(p1: Seq<u8>, r1: Seq<u8>, p2: Seq<u8>, r2: Seq<u8>)
    requires
        p1.len() < pow256(8),
        p2.len() < pow256(8),
        le64(p1.len() as int) + p1 + r1 == le64(p2.len() as int) + p2 + r2,
    ensures
        p1 == p2,
        r1 == r2,
{
    let t = le64(p1.len() as int) + p1 + r1;
    lemma_le_bytes_len(p1.len() as int, 8);
    lemma_le_bytes_len(p2.len() as int, 8);
    assert(le64(p1.len() as int) =~= t.subrange(0, 8));
    assert(le64(p2.len() as int) =~= t.subrange(0, 8));
    lemma_le_bytes_injective(p1.len() as int, p2.len() as int, 8);
    let n = p1.len() as int;
    assert(p1 =~= t.subrange(8, 8 + n));
    assert(p2 =~= t.subrange(8, 8 + n));
    assert(r1 =~= t.subrange(8 + n, t.len() as int));
    assert(r2 =~= t.subrange(8 + n, t.len() as int));
}

/// An entry's framing is recovered exactly from the front of a byte string.
proof fn lemma_frame_entry(
    e1: (Seq<u8>, Seq<u8>),
    r1: Seq<u8>,
    e2: (Seq<u8>, Seq<u8>),
    r2: Seq<u8>,
)
    requires
        e1.0.len() < pow256(8),
        e1.1.len() < pow256(8),
        e2.0.len() < pow256(8),
        e2.1.len() < pow256(8),
        encode_entry(e1) + r1 == encode_entry(e2) + r2,
    ensures
        e1 == e2,
        r1 == r2,
{
    assert(encode_entry(e1) + r1 =~= le64(e1.0.len() as int) + e1.0 + (le64(e1.1.len() as int)
        + e1.1 + r1));
    assert(encode_entry(e2) + r2 =~= le64(e2.0.len() as int) + e2.0 + (le64(e2.1.len() as int)
        + e2.1 + r2));
    lemma_frame_field(
        e1.0,
        le64(e1.1.len() as int) + e1.1 + r1,
        e2.0,
        le64(e2.1.len() as int) + e2.1 + r2,
    );
    lemma_frame_field(e1.1, r1, e2.1, r2);
    assert(e1 =~= e2);
}

/// The framing of a listing is injective: equal digest inputs can only come
/// from equal canonical listings.
proof fn lemma_encode_entries_injective(s1: Seq<(Seq<u8>, Seq<u8>)>, s2: Seq<(Seq<u8>, Seq<u8>)>)
    requires
        bounded_entries(s1),
        bounded_entries(s2),
        encode_entries(s1) == encode_entries(s2),
    ensures
        s1 == s2,
    decreases s1.len(),
{
    if s1.len() == 0 && s2.len() == 0 {
        assert(s1 =~= s2);
    } else if s1.len() == 0 {
        lemma_encode_entry_len(s2[0]);
        assert(encode_entries(s2).len() >= 16);
        assert(false);
    } else if s2.len() == 0 {
        lemma_encode_entry_len(s1[0]);
        assert(encode_entries(s1).len() >= 16);
        assert(false);
    } else {
        lemma_frame_entry(
            s1[0],
            encode_entries(s1.drop_first()),
            s2[0],
            encode_entries(s2.drop_first()),
        );
        assert(bounded_entries(s1.drop_first())) by {
            assert(forall|i: int|
                0 <= i < s1.drop_first().len() ==> #[trigger] s1.drop_first()[i] == s1[i + 1]);
        }
        assert(bounded_entries(s2.drop_first())) by {
            assert(forall|i: int|
                0 <= i < s2.drop_first().len() ==> #[trigger] s2.drop_first()[i] == s2[i + 1]);
        }
        lemma_encode_entries_injective(s1.drop_first(), s2.drop_first());
        assert forall|i: int| 0 <= i < s1.len() implies s1[i] == s2[i] by {
            if i >= 1 {
                assert(s1[i] == s1.drop_first()[i - 1]);
                assert(s2[i] == s2.drop_first()[i - 1]);
            }
        }
        assert(s1.len() == s2.len());
        assert(s1 =~= s2);
    }
}

/// The digest input characterizes exactly the included entries: two trees
/// give the same input if and only if they include the same multiset of
/// (path, content) entries. The digest itself therefore changes only when a
/// non-ignored entry changes, and collides only where the hash collides.
pub proof fn lemma_digest_input_characterizes_tree(
    t1: Seq<(Seq<u8>, Seq<u8>)>,
    t2: Seq<(Seq<u8>, Seq<u8>)>,
    ignore: Set<Seq<u8>>,
)
    requires
        bounded_entries(t1),
        bounded_entries(t2),
    ensures
        digest_input(t1, ignore) == digest_input(t2, ignore) <==> included(
            t1,
            ignore,
        ).to_multiset() == included(t2, ignore).to_multiset(),
{
    lemma_entry_le_total_ordering();
    let c1 = canonical_entries(t1, ignore);
    let c2 = canonical_entries(t2, ignore);
    included(t1, ignore).lemma_sort_by_ensures(entry_le_fn());
    included(t2, ignore).lemma_sort_by_ensures(entry_le_fn());
    lemma_canonical_bounded(t1, ignore);
    lemma_canonical_bounded(t2, ignore);
    if digest_input(t1, ignore) == digest_input(t2, ignore) {
        lemma_encode_entries_injective(c1, c2);
        assert(included(t1, ignore).to_multiset() =~= included(t2, ignore).to_multiset());
    }
    if included(t1, ignore).to_multiset() == included(t2, ignore).to_multiset() {
        lemma_sorted_unique(c1, c2, entry_le_fn());
        assert(c1 == c2);
    }
}

proof fn lemma_canonical_bounded(t: Seq<(Seq<u8>, Seq<u8>)>, ignore: Set<Seq<u8>>)
    requires
        bounded_entries(t),
    ensures
        bounded_entries(canonical_entries(t, ignore)),
{
    broadcast use group_to_multiset_ensures;

    lemma_entry_le_total_ordering();
    let inc = included(t, ignore);
    inc.lemma_sort_by_ensures(entry_le_fn());
    let c = canonical_entries(t, ignore);
    assert forall|i: int| 0 <= i < c.len() implies (#[trigger] c[i]).0.len() < pow256(8)
        && c[i].1.len() < pow256(8) by {
        let e = c[i];
        assert(c.contains(e));
        assert(c.to_multiset().count(e) > 0);
        assert(inc.contains(e));
        t.lemma_filter_contains_rev(include_pred(ignore), e);
        let j = choose|j: int| 0 <= j < t.len() && t[j] == e;
        assert(t[j].0.len() < pow256(8) && t[j].1.len() < pow256(8));
    }
}

/// The default ignore-list for extracted package trees: the extraction
/// marker, the lockfile artifact, and the build-output directory.
pub fn cargo_ignore_list() -> (r: Vec<Vec<u8>>)
    ensures
        r@.len() == 3,
        r@[0]@ == cargo_ok_name(),
        r@[1]@ == cargo_lock_name(),
        r@[2]@ == target_dir_name(),
{
    let mut a: Vec<u8> = Vec::new();
    a.push(46u8);
    a.push(99u8);
    a.push(97u8);
    a.push(114u8);
    a.push(103u8);
    a.push(111u8);
    a.push(45u8);
    a.push(111u8);
    a.push(107u8);
    proof {
        assert(a@ =~= cargo_ok_name());
    }
    let mut b: Vec<u8> = Vec::new();
    b.push(67u8);
    b.push(97u8);
    b.push(114u8);
    b.push(103u8);
    b.push(111u8);
    b.push(46u8);
    b.push(108u8);
    b.push(111u8);
    b.push(99u8);
    b.push(107u8);
    proof {
        assert(b@ =~= cargo_lock_name());
    }
    let mut c: Vec<u8> = Vec::new();
    c.push(116u8);
    c.push(97u8);
    c.push(114u8);
    c.push(103u8);
    c.push(101u8);
    c.push(116u8);
    proof {
        assert(c@ =~= target_dir_name());
    }
    let mut r: Vec<Vec<u8>> = Vec::new();
    r.push(a);
    r.push(b);
    r.push(c);
    r
}

/// The extraction marker's file name, as bytes.
pub open spec fn cargo_ok_name() -> Seq<u8> {
    seq![46u8, 99u8, 97u8, 114u8, 103u8, 111u8, 45u8, 111u8, 107u8]
}

/// The lockfile artifact's file name, as bytes.
pub open spec fn cargo_lock_name() -> Seq<u8> {
    seq![67u8, 97u8, 114u8, 103u8, 111u8, 46u8, 108u8, 111u8, 99u8, 107u8]
}

/// The build-output directory's name, as bytes.
pub open spec fn target_dir_name() -> Seq<u8> {
    seq![116u8, 97u8, 114u8, 103u8, 101u8, 116u8]
}

} // verus!
