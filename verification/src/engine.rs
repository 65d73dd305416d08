use vstd::prelude::*;
use vstd::string::StringExecFns;
use crate::result::{sat64, TraversalResult, lemma_sat_add_absorb, lemma_sat64_add_congruence};
use crate::tree::{
    FsDir, walk_count, walk_size, own_size_sum, subtree_count_sum, subtree_size_sum,
    failure_paths, entries_failure_paths, child_path,
};

verus! {

/// One entry as the directory reader delivers it: a name, the byte size its
/// metadata reports, and whether the entry is itself a directory.
pub struct DirEntry {
    pub name: String,
    pub size: u64,
    pub is_dir: bool,
}

/// The views of a vector of strings, in order.
pub open spec fn views_of(s: Seq<String>) -> Seq<Seq<char>> {
    s.map_values(|p: String| p@)
}

/// The reported sizes of the listed entries, summed.
pub open spec fn listed_size_sum(s: Seq<DirEntry>) -> nat
    decreases s.len(),
{
    if s.len() == 0 {
        0
    } else {
        listed_size_sum(s.drop_last()) + s.last().size as nat
    }
}

/// The names of the listed entries that are directories, in listing order.
pub open spec fn subdir_names(s: Seq<DirEntry>) -> Seq<Seq<char>>
    decreases s.len(),
{
    if s.len() == 0 {
        Seq::empty()
    } else {
        subdir_names(s.drop_last()) + if s.last().is_dir {
            seq![s.last().name@]
        } else {
            Seq::<Seq<char>>::empty()
        }
    }
}

/// The counts held by a sequence of child results, summed exactly.
pub open spec fn results_count_sum(rs: Seq<TraversalResult>) -> nat
    decreases rs.len(),
{
    if rs.len() == 0 {
        0
    } else {
        results_count_sum(rs.drop_last()) + rs.last().count as nat
    }
}

/// The sizes held by a sequence of child results, summed exactly.
pub open spec fn results_size_sum(rs: Seq<TraversalResult>) -> nat
    decreases rs.len(),
{
    if rs.len() == 0 {
        0
    } else {
        results_size_sum(rs.drop_last()) + rs.last().size as nat
    }
}

/// What one model entry looks like in a directory reader's listing.
pub open spec fn listing_fn() -> spec_fn(crate::tree::FsEntry) -> DirEntry {
    |e: crate::tree::FsEntry| DirEntry { name: e.name, size: e.size, is_dir: e.subtree is Some }
}

/// A readable directory of the model, listed by the reader, tallies under
/// `summarize` to exactly the model walk's local values: as many entries as
/// the listing holds, their reported sizes summed, and the model's
/// subdirectories scheduled by name in listing order.
pub proof fn lemma_listing_matches_model(s: Seq<crate::tree::FsEntry>)
    ensures
        s.map_values(listing_fn()).len() == s.len(),
        listed_size_sum(s.map_values(listing_fn())) == own_size_sum(s),
        subdir_names(s.map_values(listing_fn())) == crate::tree::subdir_name_seq(s),
    decreases s.len(),
{
    let m = s.map_values(listing_fn());
    if s.len() > 0 {
        assert(m.drop_last() =~= s.drop_last().map_values(listing_fn()));
        assert(m.last() == listing_fn()(s.last()));
        lemma_listing_matches_model(s.drop_last());
    }
}

/// Tally one directory's listing: count every entry, sum every entry's
/// reported size, and collect the names of the subdirectories in the order
/// they were listed, so the caller can schedule their traversals.
pub fn summarize(entries: &Vec<DirEntry>) -> (r: (TraversalResult, Vec<String>))
    ensures
        r.0.count == entries@.len(),
        r.0.size as nat == sat64(listed_size_sum(entries@)),
        views_of(r.1@) == subdir_names(entries@),
{
    let mut count: u64 = 0;
    let mut size: u64 = 0;
    let mut subdirs: Vec<String> = Vec::new();
    let mut i: usize = 0;
    while i < entries.len()
        invariant
            i <= entries@.len(),
            count as nat == i as nat,
            size as nat == sat64(listed_size_sum(entries@.take(i as int))),
            views_of(subdirs@) == subdir_names(entries@.take(i as int)),
        decreases entries@.len() - i,
    {
        let e = &entries[i];
        proof {
            assert(entries@.take(i + 1 as int).drop_last() =~= entries@.take(i as int));
            assert(entries@.take(i + 1 as int).last() == entries@[i as int]);
            lemma_sat_add_absorb(listed_size_sum(entries@.take(i as int)), e.size as nat);
        }
        count = count + 1;
        size = if size <= u64::MAX - e.size {
            size + e.size
        } else {
            u64::MAX
        };
        if e.is_dir {
            let ghost before = subdirs@;
            subdirs.push(e.name.clone());
            proof {
                assert(views_of(before.push(e.name)) =~= views_of(before).push(e.name@));
                assert(subdir_names(entries@.take(i + 1 as int)) =~= views_of(before).push(e.name@));
            }
        } else {
            proof {
                assert(subdir_names(entries@.take(i + 1 as int)) =~= subdir_names(entries@.take(i as int)));
            }
        }
        i = i + 1;
    }
    proof {
        assert(entries@.take(entries@.len() as int) =~= entries@);
    }
    (TraversalResult { count, size }, subdirs)
}

/// Fold child results into the folding directory's own tally, first child
/// first, by pairwise saturating addition of counts and of sizes.
pub fn fold_results(seed: TraversalResult, children: &Vec<TraversalResult>) -> (r: TraversalResult)
    ensures
        r.count as nat == sat64(seed.count as nat + results_count_sum(children@)),
        r.size as nat == sat64(seed.size as nat + results_size_sum(children@)),
{
    let mut acc = seed;
    let mut i: usize = 0;
    while i < children.len()
        invariant
            i <= children@.len(),
            acc.count as nat == sat64(seed.count as nat + results_count_sum(children@.take(i as int))),
            acc.size as nat == sat64(seed.size as nat + results_size_sum(children@.take(i as int))),
        decreases children@.len() - i,
    {
        let c = children[i];
        proof {
            assert(children@.take(i + 1 as int).drop_last() =~= children@.take(i as int));
            assert(children@.take(i + 1 as int).last() == children@[i as int]);
            lemma_sat_add_absorb(
                seed.count as nat + results_count_sum(children@.take(i as int)),
                c.count as nat,
            );
            lemma_sat_add_absorb(
                seed.size as nat + results_size_sum(children@.take(i as int)),
                c.size as nat,
            );
        }
        acc = acc.combine(c);
        i = i + 1;
    }
    proof {
        assert(children@.take(children@.len() as int) =~= children@);
    }
    acc
}

/// Traverse a tree of directory listings, exactly as the runtime walk does
/// per directory: tally the directory's own entries, traverse each
/// subdirectory, and fold the child results into the local tally in
/// discovery order. An unreadable directory contributes nothing and reports
/// its path in `diags`, and the walk goes on elsewhere.
#[verifier::loop_isolation(false)]
pub fn traverse_dir(d: &FsDir, path: &str, diags: &mut Vec<String>) -> (r: TraversalResult)
    ensures
        r.count as nat == sat64(walk_count(*d)),
        r.size as nat == sat64(walk_size(*d)),
        views_of(final(diags)@) == views_of(old(diags)@) + failure_paths(*d, path@),
    decreases *d,
{
    match d {
        FsDir::Unreadable => {
            let ghost before = diags@;
            let owned = path.to_owned();
            diags.push(owned);
            proof {
                assert(views_of(diags@) =~= views_of(before).push(path@));
                assert(views_of(before) + failure_paths(*d, path@) =~= views_of(before).push(
                    path@,
                ));
            }
            TraversalResult::zero()
        },
        FsDir::Readable { entries } => {
            let mut local_count: u64 = 0;
            let mut local_size: u64 = 0;
            let mut children: Vec<TraversalResult> = Vec::new();
            let mut i: usize = 0;
            while i < entries.len()
                invariant
                    i <= entries@.len(),
                    local_count as nat == i as nat,
                    local_size as nat == sat64(own_size_sum(entries@.take(i as int))),
                    sat64(results_count_sum(children@)) == sat64(
                        subtree_count_sum(entries@.take(i as int)),
                    ),
                    sat64(results_size_sum(children@)) == sat64(
                        subtree_size_sum(entries@.take(i as int)),
                    ),
                    views_of(diags@) == views_of(old(diags)@) + entries_failure_paths(
                        entries@.take(i as int),
                        path@,
                    ),
                decreases entries@.len() - i,
            {
                let e = &entries[i];
                proof {
                    assert(entries@.take(i + 1 as int).drop_last() =~= entries@.take(i as int));
                    assert(entries@.take(i + 1 as int).last() == entries@[i as int]);
                    lemma_sat_add_absorb(own_size_sum(entries@.take(i as int)), e.size as nat);
                }
                local_count = local_count + 1;
                local_size = if local_size <= u64::MAX - e.size {
                    local_size + e.size
                } else {
                    u64::MAX
                };
                match &e.subtree {
                    Some(sub) => {
                        let mut cp = path.to_owned();
                        cp.append("/");
                        cp.append(e.name.as_str());
                        proof {
                            reveal_strlit("/");
                            assert(cp@ =~= child_path(path@, e.name@));
                        }
                        let ghost children_before = children@;
                        proof {
                            assert(d->entries == *entries);
                            assert(decreases_to!(*d => d->entries));
                            assert(decreases_to!(d->entries => d->entries@));
                            assert(decreases_to!(entries@ => entries@[i as int]));
                            assert(decreases_to!(entries@[i as int] => entries@[i as int].subtree));
                            assert(decreases_to!(entries@[i as int].subtree => **sub));
                        }
                        let c = traverse_dir(&**sub, cp.as_str(), diags);
                        children.push(c);
                        proof {
                            assert(children_before.push(c).drop_last() =~= children_before);
                            lemma_sat_add_absorb(
                                results_count_sum(children_before),
                                walk_count(**sub),
                            );
                            lemma_sat_add_absorb(
                                results_size_sum(children_before),
                                walk_size(**sub),
                            );
                            lemma_sat64_add_congruence(
                                results_count_sum(children_before),
                                subtree_count_sum(entries@.take(i as int)),
                                walk_count(**sub),
                            );
                            lemma_sat64_add_congruence(
                                results_size_sum(children_before),
                                subtree_size_sum(entries@.take(i as int)),
                                walk_size(**sub),
                            );
                        }
                    },
                    None => {
                        proof {
                            assert(entries_failure_paths(entries@.take(i + 1 as int), path@)
                                =~= entries_failure_paths(entries@.take(i as int), path@));
                        }
                    },
                }
                i = i + 1;
            }
            proof {
                assert(entries@.take(entries@.len() as int) =~= entries@);
                lemma_sat64_add_congruence(
                    results_count_sum(children@),
                    subtree_count_sum(entries@),
                    local_count as nat,
                );
                lemma_sat64_add_congruence(
                    results_size_sum(children@),
                    subtree_size_sum(entries@),
                    local_size as nat,
                );
                lemma_sat_add_absorb(subtree_size_sum(entries@), own_size_sum(entries@));
            }
            let local = TraversalResult { count: local_count, size: local_size };
            fold_results(local, &children)
        },
    }
}

} // verus!
