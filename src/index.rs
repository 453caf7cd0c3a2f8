use vstd::prelude::*;

verus! {

/// The map that a list of (path, hash) entries describes; a later entry for
/// the same path takes the place of an earlier one.
pub open spec fn entries_map(s: Seq<(String, String)>) -> Map<Seq<char>, Seq<char>>
    decreases s.len(),
{
    if s.len() == 0 {
        Map::empty()
    } else {
        entries_map(s.drop_last()).insert(s.last().0@, s.last().1@)
    }
}

/// No path occurs twice among the entries.
pub open spec fn keys_unique(s: Seq<(String, String)>) -> bool {
    forall|i: int, j: int|
        0 <= i < s.len() && 0 <= j < s.len() && i != j ==> #[trigger] s[i].0@ != #[trigger] s[j].0@
}

/// The paths that a client holding `local` must fetch to match `remote`:
/// those of `remote` whose hash `local` lacks or holds differently.
pub open spec fn diff_set(local: Map<Seq<char>, Seq<char>>, remote: Map<Seq<char>, Seq<char>>) -> Set<
    Seq<char>,
> {
    Set::new(|p: Seq<char>| remote.contains_key(p) && !(local.contains_key(p) && local[p] == remote[p]))
}

proof fn lemma_entries_map_domain(s: Seq<(String, String)>, k: Seq<char>)
    ensures
        entries_map(s).contains_key(k) <==> exists|i: int| 0 <= i < s.len() && #[trigger] s[i].0@ == k,
    decreases s.len(),
{
    if s.len() > 0 {
        lemma_entries_map_domain(s.drop_last(), k);
        if entries_map(s.drop_last()).contains_key(k) {
            let i = choose|i: int| 0 <= i < s.drop_last().len() && #[trigger] s.drop_last()[i].0@ == k;
            assert(s[i].0@ == k);
        }
        if exists|i: int| 0 <= i < s.len() && #[trigger] s[i].0@ == k {
            let i = choose|i: int| 0 <= i < s.len() && #[trigger] s[i].0@ == k;
            if i < s.len() - 1 {
                assert(s.drop_last()[i].0@ == k);
            }
        }
    }
}

proof fn lemma_entries_map_value(s: Seq<(String, String)>, i: int)
    requires
        keys_unique(s),
        0 <= i < s.len(),
    ensures
        entries_map(s).contains_key(s[i].0@),
        entries_map(s)[s[i].0@] == s[i].1@,
    decreases s.len(),
{
    if i < s.len() - 1 {
        assert(keys_unique(s.drop_last())) by {
            assert forall|a: int, b: int|
                0 <= a < s.drop_last().len() && 0 <= b < s.drop_last().len() && a != b implies
                #[trigger] s.drop_last()[a].0@ != #[trigger] s.drop_last()[b].0@ by {
                assert(s[a].0@ != s[b].0@);
            }
        }
        lemma_entries_map_value(s.drop_last(), i);
        assert(s[i].0@ != s[s.len() - 1].0@);
        assert(s.drop_last()[i] == s[i]);
    }
}

proof fn lemma_entries_map_push(s: Seq<(String, String)>, e: (String, String))
    ensures
        entries_map(s.push(e)) == entries_map(s).insert(e.0@, e.1@),
{
    assert(s.push(e).drop_last() =~= s);
}

proof fn lemma_entries_map_update(s: Seq<(String, String)>, i: int, e: (String, String))
    requires
        keys_unique(s),
        0 <= i < s.len(),
        s[i].0@ == e.0@,
    ensures
        keys_unique(s.update(i, e)),
        entries_map(s.update(i, e)) == entries_map(s).insert(e.0@, e.1@),
    decreases s.len(),
{
    let t = s.update(i, e);
    assert(keys_unique(t)) by {
        assert forall|a: int, b: int| 0 <= a < t.len() && 0 <= b < t.len() && a != b implies #[trigger] t[a].0@
            != #[trigger] t[b].0@ by {
            assert(s[a].0@ != s[b].0@);
        }
    }
    if i == s.len() - 1 {
        assert(t.drop_last() =~= s.drop_last());
    } else {
        assert(keys_unique(s.drop_last())) by {
            assert forall|a: int, b: int|
                0 <= a < s.drop_last().len() && 0 <= b < s.drop_last().len() && a != b implies
                #[trigger] s.drop_last()[a].0@ != #[trigger] s.drop_last()[b].0@ by {
                assert(s[a].0@ != s[b].0@);
            }
        }
        lemma_entries_map_update(s.drop_last(), i, e);
        assert(t.drop_last() =~= s.drop_last().update(i, e));
        assert(s[s.len() - 1].0@ != e.0@);
        assert(entries_map(t) =~= entries_map(s).insert(e.0@, e.1@));
    }
}

/// The fingerprint index of a tree: for each relative path of a regular
/// file, the hexadecimal digest of its contents.
pub struct FileHashIndex {
    entries: Vec<(String, String)>,
}

impl View for FileHashIndex {
    type V = Map<Seq<char>, Seq<char>>;

    closed spec fn view(&self) -> Map<Seq<char>, Seq<char>> {
        entries_map(self.entries@)
    }
}

impl FileHashIndex {
    /// Each path is held once.
    pub closed spec fn wf(&self) -> bool {
        keys_unique(self.entries@)
    }

    /// An index with no entries.
    pub fn new() -> (r: Self)
        ensures
            r.wf(),
            r@ == Map::<Seq<char>, Seq<char>>::empty(),
    {
        FileHashIndex { entries: Vec::new() }
    }

    /// An index holding exactly the given entries, whose paths are distinct.
    pub fn from_entries(entries: Vec<(String, String)>) -> (r: Self)
        requires
            keys_unique(entries@),
        ensures
            r.wf(),
            r@ == entries_map(entries@),
    {
        FileHashIndex { entries }
    }

    /// The entries of the index, each path once, in no particular order.
    pub fn to_entries(&self) -> (r: Vec<(String, String)>)
        requires
            self.wf(),
        ensures
            keys_unique(r@),
            entries_map(r@) == self@,
    {
        let mut r: Vec<(String, String)> = Vec::new();
        let mut i: usize = 0;
        while i < self.entries.len()
            invariant
                i <= self.entries@.len(),
                r@ == self.entries@.subrange(0, i as int),
            decreases self.entries@.len() - i,
        {
            let e = &self.entries[i];
            r.push((e.0.clone(), e.1.clone()));
            proof {
                assert(r@ =~= self.entries@.subrange(0, i + 1));
            }
            i = i + 1;
        }
        proof {
            assert(r@ =~= self.entries@);
        }
        r
    }

    /// The number of paths in the index.
    pub fn len(&self) -> (r: usize)
        requires
            self.wf(),
        ensures
            r == self@.len(),
    {
        proof {
            self.lemma_len();
        }
        self.entries.len()
    }

    proof fn lemma_len(&self)
        requires
            self.wf(),
        ensures
            self@.dom().finite(),
            self@.len() == self.entries@.len(),
    {
        lemma_entries_map_len(self.entries@);
    }

    /// Position of `path` among the entries, if it is there.
    fn find(&self, path: &String) -> (r: Option<usize>)
        requires
            self.wf(),
        ensures
            r is None ==> !self@.contains_key(path@),
            r is Some ==> r->0 < self.entries@.len() && self.entries@[r->0 as int].0@ == path@,
    {
        let mut i: usize = 0;
        while i < self.entries.len()
            invariant
                i <= self.entries@.len(),
                forall|j: int| 0 <= j < i ==> (#[trigger] self.entries@[j]).0@ != path@,
            decreases self.entries@.len() - i,
        {
            if self.entries[i].0 == *path {
                return Some(i);
            }
            i = i + 1;
        }
        proof {
            lemma_entries_map_domain(self.entries@, path@);
        }
        None
    }

    /// The hash recorded for `path`, if the index holds it.
    pub fn get(&self, path: &String) -> (r: Option<String>)
        requires
            self.wf(),
        ensures
            r is None <==> !self@.contains_key(path@),
            r is Some ==> r->0@ == self@[path@],
    {
        match self.find(path) {
            Some(i) => {
                proof {
                    lemma_entries_map_value(self.entries@, i as int);
                }
                Some(self.entries[i].1.clone())
            },
            None => None,
        }
    }

    /// Records `hash` for `path`, replacing what was recorded for it before.
    pub fn insert(&mut self, path: String, hash: String)
        requires
            old(self).wf(),
        ensures
            final(self).wf(),
            final(self)@ == old(self)@.insert(path@, hash@),
    {
        match self.find(&path) {
            Some(i) => {
                proof {
                    lemma_entries_map_update(self.entries@, i as int, (path, hash));
                }
                self.entries.set(i, (path, hash));
            },
            None => {
                proof {
                    lemma_entries_map_push(self.entries@, (path, hash));
                    assert forall|j: int| 0 <= j < self.entries@.len() implies #[trigger] self.entries@[j].0@
                        != path@ by {
                        if self.entries@[j].0@ == path@ {
                            lemma_entries_map_domain(self.entries@, path@);
                        }
                    }
                }
                self.entries.push((path, hash));
            },
        }
    }
}

/// Whether one of `r` spells the path `p`.
pub open spec fn lists_path(r: Seq<String>, p: Seq<char>) -> bool {
    exists|a: int| 0 <= a < r.len() && #[trigger] r[a]@ == p
}

/// Whether one of the first `n` entries has the path `p`.
spec fn among_first(e: Seq<(String, String)>, n: int, p: Seq<char>) -> bool {
    exists|j: int| 0 <= j < n && #[trigger] e[j].0@ == p
}

/// No path is spelled twice in `r`.
pub open spec fn paths_distinct(r: Seq<String>) -> bool {
    forall|i: int, j: int| 0 <= i < r.len() && 0 <= j < r.len() && i != j ==> #[trigger] r[i]@ != #[trigger] r[j]@
}

/// The paths of `remote` that a client holding `local` must fetch, each
/// once: those whose hash `local` lacks or records differently. Paths that
/// only `local` holds are never listed.
pub fn diff(local: &FileHashIndex, remote: &FileHashIndex) -> (r: Vec<String>)
    requires
        local.wf(),
        remote.wf(),
    ensures
        forall|p: Seq<char>| #[trigger] lists_path(r@, p) <==> diff_set(local@, remote@).contains(p),
        paths_distinct(r@),
{
    let ghost d = diff_set(local@, remote@);
    let mut r: Vec<String> = Vec::new();
    let mut i: usize = 0;
    while i < remote.entries.len()
        invariant
            i <= remote.entries@.len(),
            local.wf(),
            remote.wf(),
            d == diff_set(local@, remote@),
            forall|p: Seq<char>| #[trigger] lists_path(r@, p) <==> (among_first(remote.entries@, i as int, p) && d.contains(p)),
            paths_distinct(r@),
        decreases remote.entries@.len() - i,
    {
        let path = &remote.entries[i].0;
        let hash = &remote.entries[i].1;
        let held = local.get(path);
        let same = match &held {
            Some(h) => *h == *hash,
            None => false,
        };
        proof {
            lemma_entries_map_value(remote.entries@, i as int);
            assert(same <==> !d.contains(path@));
        }
        let ghost old_r = r@;
        if !same {
            proof {
                assert forall|a: int| 0 <= a < r@.len() implies #[trigger] r@[a]@ != path@ by {
                    let p = r@[a]@;
                    assert(lists_path(r@, p));
                    let j = choose|j: int| 0 <= j < i && #[trigger] remote.entries@[j].0@ == p;
                    assert(remote.entries@[j].0@ != remote.entries@[i as int].0@);
                }
            }
            r.push(path.clone());
        }
        proof {
            assert forall|p: Seq<char>| #[trigger] lists_path(r@, p) <==> (among_first(remote.entries@, i + 1, p) && d.contains(p)) by {
                if lists_path(r@, p) {
                    let a = choose|a: int| 0 <= a < r@.len() && #[trigger] r@[a]@ == p;
                    if a < old_r.len() {
                        assert(old_r[a]@ == p);
                        assert(lists_path(old_r, p));
                    } else {
                        assert(remote.entries@[i as int].0@ == p);
                    }
                }
                if among_first(remote.entries@, i + 1, p) && d.contains(p) {
                    let j = choose|j: int| 0 <= j < i + 1 && #[trigger] remote.entries@[j].0@ == p;
                    if j == i {
                        assert(!same);
                        assert(r@[old_r.len() as int]@ == p);
                    } else {
                        assert(among_first(remote.entries@, i as int, p));
                        assert(lists_path(old_r, p));
                        let a = choose|a: int| 0 <= a < old_r.len() && #[trigger] old_r[a]@ == p;
                        assert(r@[a]@ == p);
                    }
                }
            }
        }
        i = i + 1;
    }
    proof {
        assert forall|p: Seq<char>| #[trigger] lists_path(r@, p) <==> d.contains(p) by {
            lemma_entries_map_domain(remote.entries@, p);
            if d.contains(p) {
                let j = choose|j: int| 0 <= j < remote.entries@.len() && #[trigger] remote.entries@[j].0@ == p;
                assert(among_first(remote.entries@, remote.entries@.len() as int, p));
            }
        }
    }
    r
}

/// What `diff` lists is exactly the paths of the remote index whose hash the
/// local index lacks or records differently; a path held only locally is
/// never listed.
pub proof fn law_diff_is_remote_mismatch(local: Map<Seq<char>, Seq<char>>, remote: Map<Seq<char>, Seq<char>>)
    ensures
        forall|p: Seq<char>| #[trigger] diff_set(local, remote).contains(p) <==> (remote.contains_key(p) && (
            !local.contains_key(p) || local[p] != remote[p])),
        forall|p: Seq<char>| local.contains_key(p) && !remote.contains_key(p) ==> !#[trigger] diff_set(local, remote).contains(p),
{
}

/// Once every path of the diff has been stored locally with the remote
/// hash, a second comparison against the unchanged remote index calls for
/// no fetch.
pub proof fn law_sync_converges(local: Map<Seq<char>, Seq<char>>, remote: Map<Seq<char>, Seq<char>>)
    ensures
        diff_set(local.union_prefer_right(remote.restrict(diff_set(local, remote))), remote) == Set::<
            Seq<char>,
        >::empty(),
{
    let after = local.union_prefer_right(remote.restrict(diff_set(local, remote)));
    assert forall|p: Seq<char>| !#[trigger] diff_set(after, remote).contains(p) by {
        if remote.contains_key(p) && diff_set(local, remote).contains(p) {
            assert(after[p] == remote[p]);
        }
    }
    assert(diff_set(after, remote) =~= Set::<Seq<char>>::empty());
}

proof fn lemma_entries_map_len(s: Seq<(String, String)>)
    requires
        keys_unique(s),
    ensures
        entries_map(s).dom().finite(),
        entries_map(s).len() == s.len(),
    decreases s.len(),
{
    if s.len() > 0 {
        let t = s.drop_last();
        assert(keys_unique(t)) by {
            assert forall|a: int, b: int| 0 <= a < t.len() && 0 <= b < t.len() && a != b implies #[trigger] t[a].0@
                != #[trigger] t[b].0@ by {
                assert(s[a].0@ != s[b].0@);
            }
        }
        lemma_entries_map_len(t);
        lemma_entries_map_domain(t, s.last().0@);
        if entries_map(t).contains_key(s.last().0@) {
            let i = choose|i: int| 0 <= i < t.len() && #[trigger] t[i].0@ == s.last().0@;
            assert(s[i].0@ != s[s.len() - 1].0@);
        }
    }
}

} // verus!
