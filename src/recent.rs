use vstd::prelude::*;

verus! {

/// Largest number of entries the list of recent repositories keeps.
pub const MAX_RECENT_REPOS: usize = 10;

/// The text of each entry.
pub open spec fn names(v: Seq<String>) -> Seq<Seq<char>> {
    v.map_values(|s: String| s@)
}

/// `s` without the entries equal to `p`, in order.
pub open spec fn without(s: Seq<Seq<char>>, p: Seq<char>) -> Seq<Seq<char>>
    decreases s.len(),
{
    if s.len() == 0 {
        s
    } else {
        let rest = without(s.drop_last(), p);
        if s.last() == p {
            rest
        } else {
            rest.push(s.last())
        }
    }
}

/// `s` cut down to the first `MAX_RECENT_REPOS` entries.
pub open spec fn capped<T>(s: Seq<T>) -> Seq<T> {
    if s.len() > MAX_RECENT_REPOS {
        s.take(MAX_RECENT_REPOS as int)
    } else {
        s
    }
}

/// Where an entry moved from `from_idx` to before the entry at `to_idx` lands
/// once it is out of the list.
pub open spec fn reorder_target(from_idx: usize, to_idx: usize) -> int {
    if to_idx > from_idx {
        to_idx - 1
    } else {
        to_idx as int
    }
}

/// Puts `path` at the front of the list, drops its other occurrences, and
/// keeps at most `MAX_RECENT_REPOS` entries.
pub fn add_recent_repo(repos: Vec<String>, path: &str) -> (r: Vec<String>)
    ensures
        names(r@) == capped(seq![path@] + without(names(repos@), path@)),
{
    let first = path.to_owned();
    let mut r: Vec<String> = Vec::new();
    r.push(path.to_owned());
    let mut i: usize = 0;
    while i < repos.len()
        invariant
            i <= repos@.len(),
            first@ == path@,
            names(r@) == seq![path@] + without(names(repos@.take(i as int)), path@),
        decreases repos@.len() - i,
    {
        proof {
            assert(names(repos@.take(i + 1)).drop_last() =~= names(repos@.take(i as int)));
            assert(names(repos@.take(i + 1)).last() == repos@[i as int]@);
        }
        if !(repos[i] == first) {
            let ghost before = r@;
            r.push(repos[i].clone());
            proof {
                assert(names(r@) =~= names(before).push(repos@[i as int]@));
                assert(names(r@) =~= seq![path@] + without(names(repos@.take(i + 1)), path@));
            }
        }
        i = i + 1;
    }
    proof {
        assert(repos@.take(repos@.len() as int) =~= repos@);
    }
    let ghost full = r@;
    r.truncate(MAX_RECENT_REPOS);
    proof {
        if full.len() > MAX_RECENT_REPOS {
            assert(names(r@) =~= names(full).take(MAX_RECENT_REPOS as int));
        } else {
            assert(r@ =~= full);
        }
    }
    r
}

/// Drops the entry at `index`; the list is unchanged when there is none.
pub fn remove_recent_repo(repos: Vec<String>, index: usize) -> (r: Vec<String>)
    ensures
        r@ == if index < repos@.len() {
            repos@.remove(index as int)
        } else {
            repos@
        },
{
    let mut repos = repos;
    if index < repos.len() {
        repos.remove(index);
    }
    repos
}

/// Moves the entry at `from_idx` to just before the entry that was at
/// `to_idx` (to the end when `to_idx` is the length). The list is unchanged
/// when `from_idx` is no entry, `to_idx` is past the end, or the two are equal.
pub fn reorder_recent_repos(repos: Vec<String>, from_idx: usize, to_idx: usize) -> (r: Vec<String>)
    ensures
        r@ == if from_idx < repos@.len() && to_idx <= repos@.len() && from_idx != to_idx {
            repos@.remove(from_idx as int).insert(reorder_target(from_idx, to_idx), repos@[from_idx as int])
        } else {
            repos@
        },
{
    let mut repos = repos;
    if from_idx < repos.len() && to_idx <= repos.len() && from_idx != to_idx {
        let item = repos.remove(from_idx);
        let insert_idx = if to_idx > from_idx {
            to_idx - 1
        } else {
            to_idx
        };
        let insert_idx = if insert_idx < repos.len() {
            insert_idx
        } else {
            repos.len()
        };
        repos.insert(insert_idx, item);
    }
    repos
}

} // verus!
