use vstd::prelude::*;
use crate::result::{sat64, sat_add, TraversalResult};
use crate::tree::{
    FsDir, FsEntry, walk_count, walk_size, own_size_sum, subtree_count_sum, subtree_size_sum,
    all_entries, flatten_entries, entries_all_readable, all_readable, failure_paths,
    entries_failure_paths, child_path,
};

verus! {

// ----- sums and concatenations over a directory's entries, generically -----

/// The values of `f` over the entries of `s`, summed in order.
pub open spec fn sum_by(s: Seq<FsEntry>, f: spec_fn(FsEntry) -> nat) -> nat
    decreases s.len(),
{
    if s.len() == 0 {
        0
    } else {
        sum_by(s.drop_last(), f) + f(s.last())
    }
}

/// The sequences `g` yields over the entries of `s`, concatenated in order.
pub open spec fn cat_by(s: Seq<FsEntry>, g: spec_fn(FsEntry) -> Seq<Seq<char>>) -> Seq<Seq<char>>
    decreases s.len(),
{
    if s.len() == 0 {
        Seq::empty()
    } else {
        cat_by(s.drop_last(), g) + g(s.last())
    }
}

/// What one entry adds to a walk's entry count: itself, counted by its
/// parent, is left to the parent's tally; this is what lies beneath it.
pub open spec fn entry_count_fn() -> spec_fn(FsEntry) -> nat {
    |e: FsEntry|
        match e.subtree {
            Some(sub) => walk_count(*sub),
            None => 0nat,
        }
}

/// What one entry reports as its own size.
pub open spec fn entry_size_fn() -> spec_fn(FsEntry) -> nat {
    |e: FsEntry| e.size as nat
}

/// What one entry adds to a walk's byte total from beneath it.
pub open spec fn entry_subsize_fn() -> spec_fn(FsEntry) -> nat {
    |e: FsEntry|
        match e.subtree {
            Some(sub) => walk_size(*sub),
            None => 0nat,
        }
}

/// The per-entry sums a walk takes over a listing are instances of `sum_by`.
pub proof fn lemma_walk_sums_are_sum_by(s: Seq<FsEntry>)
    ensures
        subtree_count_sum(s) == sum_by(s, entry_count_fn()),
        own_size_sum(s) == sum_by(s, entry_size_fn()),
        subtree_size_sum(s) == sum_by(s, entry_subsize_fn()),
    decreases s.len(),
{
    if s.len() > 0 {
        lemma_walk_sums_are_sum_by(s.drop_last());
    }
}

/// Summing skips nothing: any one entry can be split off the sum.
pub proof fn lemma_sum_by_remove(s: Seq<FsEntry>, f: spec_fn(FsEntry) -> nat, j: int)
    requires
        0 <= j < s.len(),
    ensures
        sum_by(s, f) == f(s[j]) + sum_by(s.remove(j), f),
    decreases s.len(),
{
    if j == s.len() - 1 {
        assert(s.remove(j) =~= s.drop_last());
    } else {
        let t = s.drop_last();
        lemma_sum_by_remove(t, f, j);
        assert(s.remove(j).drop_last() =~= t.remove(j));
        assert(s.remove(j).last() == s.last());
    }
}

/// Two listings that hold the same entries, in whatever order, sum alike.
pub proof fn lemma_sum_by_permutation(
    s1: Seq<FsEntry>,
    s2: Seq<FsEntry>,
    f: spec_fn(FsEntry) -> nat,
)
    requires
        s1.to_multiset() == s2.to_multiset(),
    ensures
        sum_by(s1, f) == sum_by(s2, f),
    decreases s1.len(),
{
    s1.to_multiset_ensures();
    s2.to_multiset_ensures();
    if s1.len() == 0 {
        assert(s2.len() == 0);
    } else {
        let e = s1.last();
        assert(s1[s1.len() - 1] == e);
        assert(s1.contains(e));
        assert(s2.to_multiset().count(e) > 0);
        assert(s2.contains(e));
        let j = choose|j: int| 0 <= j < s2.len() && s2[j] == e;
        assert(s1.drop_last() =~= s1.remove(s1.len() - 1));
        assert(s1.drop_last().to_multiset() =~= s2.remove(j).to_multiset());
        lemma_sum_by_permutation(s1.drop_last(), s2.remove(j), f);
        lemma_sum_by_remove(s2, f, j);
    }
}

/// Entries that all yield nothing concatenate to nothing.
pub proof fn lemma_cat_by_all_empty(s: Seq<FsEntry>, g: spec_fn(FsEntry) -> Seq<Seq<char>>)
    requires
        forall|k: int| 0 <= k < s.len() ==> #[trigger] g(s[k]) == Seq::<Seq<char>>::empty(),
    ensures
        cat_by(s, g) == Seq::<Seq<char>>::empty(),
    decreases s.len(),
{
    if s.len() > 0 {
        assert forall|k: int| 0 <= k < s.drop_last().len() implies #[trigger] g(
            s.drop_last()[k],
        ) == Seq::<Seq<char>>::empty() by {
            assert(s.drop_last()[k] == s[k]);
        }
        lemma_cat_by_all_empty(s.drop_last(), g);
        assert(cat_by(s, g) =~= Seq::<Seq<char>>::empty());
    }
}

/// When a single entry yields anything, the concatenation is exactly its yield.
pub proof fn lemma_cat_by_single(s: Seq<FsEntry>, g: spec_fn(FsEntry) -> Seq<Seq<char>>, j: int)
    requires
        0 <= j < s.len(),
        forall|k: int| 0 <= k < s.len() && k != j ==> #[trigger] g(s[k]) == Seq::<Seq<char>>::empty(),
    ensures
        cat_by(s, g) == g(s[j]),
    decreases s.len(),
{
    if j == s.len() - 1 {
        assert forall|k: int| 0 <= k < s.drop_last().len() implies #[trigger] g(
            s.drop_last()[k],
        ) == Seq::<Seq<char>>::empty() by {
            assert(s.drop_last()[k] == s[k]);
        }
        lemma_cat_by_all_empty(s.drop_last(), g);
        assert(cat_by(s, g) =~= g(s[j]));
    } else {
        assert forall|k: int| 0 <= k < s.drop_last().len() && k != j implies #[trigger] g(
            s.drop_last()[k],
        ) == Seq::<Seq<char>>::empty() by {
            assert(s.drop_last()[k] == s[k]);
        }
        lemma_cat_by_single(s.drop_last(), g, j);
        assert(s.drop_last()[j] == s[j]);
        assert(g(s.last()) == Seq::<Seq<char>>::empty());
        assert(cat_by(s, g) =~= g(s[j]));
    }
}

// ----- the walk accounts exactly for what it can reach -----

/// A sum over a flattened listing splits over concatenation.
pub proof fn lemma_own_size_sum_concat(a: Seq<FsEntry>, b: Seq<FsEntry>)
    ensures
        own_size_sum(a + b) == own_size_sum(a) + own_size_sum(b),
    decreases b.len(),
{
    if b.len() == 0 {
        assert(a + b =~= a);
    } else {
        assert((a + b).drop_last() =~= a + b.drop_last());
        assert((a + b).last() == b.last());
        lemma_own_size_sum_concat(a, b.drop_last());
    }
}

/// The walk's count is the number of entries it reaches, and its byte total
/// is the sum of the sizes those entries report. On a tree with no
/// unreadable directory, those are all the entries there are.
pub proof fn lemma_walk_counts_reachable_entries(d: FsDir)
    ensures
        walk_count(d) == all_entries(d).len(),
        walk_size(d) == own_size_sum(all_entries(d)),
    decreases d,
{
    match d {
        FsDir::Unreadable => {
        },
        FsDir::Readable { entries } => {
            lemma_flatten_matches_walk(entries@);
        },
    }
}

/// Flattening a listing keeps exactly the entries and sizes the walk sums.
pub proof fn lemma_flatten_matches_walk(s: Seq<FsEntry>)
    ensures
        flatten_entries(s).len() == s.len() + subtree_count_sum(s),
        own_size_sum(flatten_entries(s)) == own_size_sum(s) + subtree_size_sum(s),
    decreases s,
{
    if s.len() > 0 {
        lemma_flatten_matches_walk(s.drop_last());
        let e = s.last();
        let below = match e.subtree {
            Some(sub) => all_entries(*sub),
            None => Seq::<FsEntry>::empty(),
        };
        match e.subtree {
            Some(sub) => {
                lemma_walk_counts_reachable_entries(*sub);
            },
            None => {
            },
        }
        assert(seq![e].drop_last() =~= Seq::<FsEntry>::empty());
        assert(seq![e].last() == e);
        assert(own_size_sum(Seq::<FsEntry>::empty()) == 0);
        assert(own_size_sum(seq![e]) == own_size_sum(seq![e].drop_last()) + seq![e].last().size as nat);
        lemma_own_size_sum_concat(flatten_entries(s.drop_last()), seq![e]);
        lemma_own_size_sum_concat(flatten_entries(s.drop_last()) + seq![e], below);
    }
}

// ----- folding is insensitive to the order of siblings -----

/// One fold step is commutative in value.
pub proof fn lemma_fold_step_commutative(a: nat, b: nat)
    ensures
        sat_add(a, b) == sat_add(b, a),
{
}

/// One fold step is associative in value, so folding children one by one
/// from a seed gives the same pair as combining them in any grouping.
pub proof fn lemma_fold_step_associative(a: nat, b: nat, c: nat)
    ensures
        sat_add(sat_add(a, b), c) == sat_add(a, sat_add(b, c)),
{
}

/// Two readable directories that list the same sibling entries, in whatever
/// order, walk to the same count and the same byte total.
pub proof fn lemma_sibling_order_irrelevant(d1: FsDir, d2: FsDir)
    requires
        d1 is Readable,
        d2 is Readable,
        d1->entries@.to_multiset() == d2->entries@.to_multiset(),
    ensures
        walk_count(d1) == walk_count(d2),
        walk_size(d1) == walk_size(d2),
{
    let s1 = d1->entries@;
    let s2 = d2->entries@;
    s1.to_multiset_ensures();
    s2.to_multiset_ensures();
    lemma_walk_sums_are_sum_by(s1);
    lemma_walk_sums_are_sum_by(s2);
    lemma_sum_by_permutation(s1, s2, entry_count_fn());
    lemma_sum_by_permutation(s1, s2, entry_size_fn());
    lemma_sum_by_permutation(s1, s2, entry_subsize_fn());
}

/// `d2` is `d1` with the listing of the directory at `path` permuted: the
/// two trees agree entry for entry along `path`, and the directory `path`
/// leads to lists the same sibling entries, in whatever order.
pub open spec fn permuted_variant_at(d1: FsDir, d2: FsDir, path: Seq<int>) -> bool
    decreases path.len(),
{
    if path.len() == 0 {
        &&& d1 is Readable
        &&& d2 is Readable
        &&& d1->entries@.to_multiset() == d2->entries@.to_multiset()
    } else {
        &&& d1 is Readable
        &&& d2 is Readable
        &&& d1->entries@.len() == d2->entries@.len()
        &&& 0 <= path[0] < d1->entries@.len()
        &&& forall|k: int|
            0 <= k < d1->entries@.len() && k != path[0] ==> d2->entries@[k] == d1->entries@[k]
        &&& d1->entries@[path[0]].subtree is Some
        &&& d2->entries@[path[0]].subtree is Some
        &&& d2->entries@[path[0]].name == d1->entries@[path[0]].name
        &&& d2->entries@[path[0]].size == d1->entries@[path[0]].size
        &&& permuted_variant_at(
            *d1->entries@[path[0]].subtree->0,
            *d2->entries@[path[0]].subtree->0,
            path.drop_first(),
        )
    }
}

/// Permuting the physical layout of sibling subtrees anywhere in the tree,
/// without changing their contents, leaves the walk's value unchanged.
pub proof fn lemma_sibling_order_irrelevant_anywhere(d1: FsDir, d2: FsDir, path: Seq<int>)
    requires
        permuted_variant_at(d1, d2, path),
    ensures
        walk_count(d1) == walk_count(d2),
        walk_size(d1) == walk_size(d2),
    decreases path.len(),
{
    if path.len() == 0 {
        lemma_sibling_order_irrelevant(d1, d2);
    } else {
        let j = path[0];
        let s1 = d1->entries@;
        let s2 = d2->entries@;
        lemma_sibling_order_irrelevant_anywhere(
            *s1[j].subtree->0,
            *s2[j].subtree->0,
            path.drop_first(),
        );
        assert(s1.remove(j) =~= s2.remove(j));
        lemma_walk_sums_are_sum_by(s1);
        lemma_walk_sums_are_sum_by(s2);
        lemma_sum_by_remove(s1, entry_count_fn(), j);
        lemma_sum_by_remove(s2, entry_count_fn(), j);
        lemma_sum_by_remove(s1, entry_size_fn(), j);
        lemma_sum_by_remove(s2, entry_size_fn(), j);
        lemma_sum_by_remove(s1, entry_subsize_fn(), j);
        lemma_sum_by_remove(s2, entry_subsize_fn(), j);
    }
}

// ----- repeated walks of one tree agree -----

/// Any two results that satisfy the traversal's contract on the same tree
/// are the same pair: walking an unchanged tree again changes nothing.
pub proof fn lemma_traversal_idempotent(d: FsDir, r1: TraversalResult, r2: TraversalResult)
    requires
        r1.count as nat == sat64(walk_count(d)),
        r1.size as nat == sat64(walk_size(d)),
        r2.count as nat == sat64(walk_count(d)),
        r2.size as nat == sat64(walk_size(d)),
    ensures
        r1 == r2,
{
}

// ----- a failure is contained in the subtree where it occurs -----

/// What one entry, reached under `p`, adds to the walk's diagnostics.
pub open spec fn entry_failures_fn(p: Seq<char>) -> spec_fn(FsEntry) -> Seq<Seq<char>> {
    |e: FsEntry|
        match e.subtree {
            Some(sub) => failure_paths(*sub, child_path(p, e.name@)),
            None => Seq::<Seq<char>>::empty(),
        }
}

/// The diagnostics of a listing are an instance of `cat_by`.
pub proof fn lemma_failures_are_cat_by(s: Seq<FsEntry>, p: Seq<char>)
    ensures
        entries_failure_paths(s, p) == cat_by(s, entry_failures_fn(p)),
    decreases s.len(),
{
    if s.len() > 0 {
        lemma_failures_are_cat_by(s.drop_last(), p);
    }
}

/// In a listing with no unreadable directory anywhere beneath it, every
/// entry's subtree is itself free of unreadable directories.
pub proof fn lemma_readable_entry(s: Seq<FsEntry>, k: int)
    requires
        entries_all_readable(s),
        0 <= k < s.len(),
    ensures
        s[k].subtree is Some ==> all_readable(*s[k].subtree->0),
    decreases s.len(),
{
    if k < s.len() - 1 {
        assert(s.drop_last()[k] == s[k]);
        lemma_readable_entry(s.drop_last(), k);
    }
}

/// A tree with no unreadable directory emits no diagnostic.
pub proof fn lemma_no_failures(d: FsDir, p: Seq<char>)
    requires
        all_readable(d),
    ensures
        failure_paths(d, p) == Seq::<Seq<char>>::empty(),
    decreases d,
{
    match d {
        FsDir::Unreadable => {
        },
        FsDir::Readable { entries } => {
            lemma_entries_no_failures(entries@, p);
        },
    }
}

/// A listing with no unreadable directory beneath it emits no diagnostic.
pub proof fn lemma_entries_no_failures(s: Seq<FsEntry>, p: Seq<char>)
    requires
        entries_all_readable(s),
    ensures
        entries_failure_paths(s, p) == Seq::<Seq<char>>::empty(),
    decreases s,
{
    if s.len() > 0 {
        lemma_entries_no_failures(s.drop_last(), p);
        match s.last().subtree {
            Some(sub) => {
                lemma_no_failures(*sub, child_path(p, s.last().name@));
            },
            None => {
            },
        }
        assert(entries_failure_paths(s, p) =~= Seq::<Seq<char>>::empty());
    }
}

/// `d2` is `d1` with exactly the directory at `path` made unreadable: the
/// two trees agree entry for entry, except that following `path` (a chain
/// of listing positions, each naming a directory entry) ends in a readable
/// directory in `d1` and an unreadable one in `d2`.
pub open spec fn unreadable_variant_at(d1: FsDir, d2: FsDir, path: Seq<int>) -> bool
    decreases path.len(),
{
    if path.len() == 0 {
        d2 is Unreadable
    } else {
        &&& d1 is Readable
        &&& d2 is Readable
        &&& d1->entries@.len() == d2->entries@.len()
        &&& 0 <= path[0] < d1->entries@.len()
        &&& forall|k: int|
            0 <= k < d1->entries@.len() && k != path[0] ==> d2->entries@[k] == d1->entries@[k]
        &&& d1->entries@[path[0]].subtree is Some
        &&& d2->entries@[path[0]].subtree is Some
        &&& d2->entries@[path[0]].name == d1->entries@[path[0]].name
        &&& d2->entries@[path[0]].size == d1->entries@[path[0]].size
        &&& unreadable_variant_at(
            *d1->entries@[path[0]].subtree->0,
            *d2->entries@[path[0]].subtree->0,
            path.drop_first(),
        )
    }
}

/// The directory `path` leads to.
pub open spec fn subtree_at(d: FsDir, path: Seq<int>) -> FsDir
    decreases path.len(),
{
    if path.len() == 0 {
        d
    } else {
        subtree_at(*d->entries@[path[0]].subtree->0, path.drop_first())
    }
}

/// The path string a walk reports for the directory `path` leads to.
pub open spec fn diag_path(d: FsDir, path: Seq<int>, root: Seq<char>) -> Seq<char>
    decreases path.len(),
{
    if path.len() == 0 {
        root
    } else {
        diag_path(
            *d->entries@[path[0]].subtree->0,
            path.drop_first(),
            child_path(root, d->entries@[path[0]].name@),
        )
    }
}

/// Making exactly one directory unreadable removes exactly that subtree's
/// own contribution from the walk's count and byte total, and emits exactly
/// one diagnostic, naming that directory's path.
pub proof fn lemma_failure_isolation(d1: FsDir, d2: FsDir, path: Seq<int>, root: Seq<char>)
    requires
        all_readable(d1),
        unreadable_variant_at(d1, d2, path),
    ensures
        walk_count(d2) + walk_count(subtree_at(d1, path)) == walk_count(d1),
        walk_size(d2) + walk_size(subtree_at(d1, path)) == walk_size(d1),
        failure_paths(d2, root) == seq![diag_path(d1, path, root)],
    decreases path.len(),
{
    if path.len() == 0 {
    } else {
        let j = path[0];
        let s1 = d1->entries@;
        let s2 = d2->entries@;
        let sub1 = *s1[j].subtree->0;
        let sub2 = *s2[j].subtree->0;
        let name = s1[j].name@;
        lemma_readable_entry(s1, j);
        lemma_failure_isolation(sub1, sub2, path.drop_first(), child_path(root, name));
        assert(s1.remove(j) =~= s2.remove(j));

        lemma_walk_sums_are_sum_by(s1);
        lemma_walk_sums_are_sum_by(s2);
        lemma_sum_by_remove(s1, entry_count_fn(), j);
        lemma_sum_by_remove(s2, entry_count_fn(), j);
        lemma_sum_by_remove(s1, entry_size_fn(), j);
        lemma_sum_by_remove(s2, entry_size_fn(), j);
        lemma_sum_by_remove(s1, entry_subsize_fn(), j);
        lemma_sum_by_remove(s2, entry_subsize_fn(), j);

        let g = entry_failures_fn(root);
        lemma_failures_are_cat_by(s2, root);
        assert forall|k: int| 0 <= k < s2.len() && k != j implies #[trigger] g(s2[k]) == Seq::<
            Seq<char>,
        >::empty() by {
            assert(s2[k] == s1[k]);
            lemma_readable_entry(s1, k);
            match s1[k].subtree {
                Some(sub) => {
                    lemma_no_failures(*sub, child_path(root, s1[k].name@));
                },
                None => {
                },
            }
        }
        lemma_cat_by_single(s2, g, j);
    }
}

// ----- boundaries -----

/// An empty readable directory walks to (0, 0) with no diagnostic; an
/// unreadable root walks to (0, 0) with exactly one diagnostic, naming it.
pub proof fn lemma_boundary(d: FsDir, root: Seq<char>)
    ensures
        (d is Readable && d->entries@.len() == 0) ==> (walk_count(d) == 0 && walk_size(d) == 0
            && failure_paths(d, root) == Seq::<Seq<char>>::empty()),
        d is Unreadable ==> (walk_count(d) == 0 && walk_size(d) == 0 && failure_paths(d, root)
            == seq![root]),
{
}

} // verus!
