use vstd::prelude::*;
use vstd::string::StringExecFns;
use crate::digest::{blake3_hex, content_hash};
use crate::index::FileHashIndex;

verus! {

/// A directory tree as read from disk: regular files with their contents,
/// directories with their entries, and anything else (which is never
/// indexed).
pub enum Node {
    File { name: String, content: Vec<u8> },
    Dir { name: String, children: Vec<Node> },
    Other { name: String },
}

/// The index entries contributed by `n`, whose parent directory's relative
/// path (empty, or ending in `/`) is `prefix`.
pub open spec fn node_index(prefix: Seq<char>, n: Node) -> Map<Seq<char>, Seq<char>>
    decreases n,
{
    match n {
        Node::File { name, content } => map![prefix + name@ => blake3_hex(content@)],
        Node::Dir { name, children } => {
            proof {
                assert(decreases_to!(children => children@));
            }
            nodes_index(prefix + name@ + seq!['/'], children@)
        },
        Node::Other { .. } => Map::empty(),
    }
}

/// The index entries contributed by the entries `nodes` of the directory
/// whose relative path is `prefix`; a later entry's path wins over an
/// earlier one's.
pub open spec fn nodes_index(prefix: Seq<char>, nodes: Seq<Node>) -> Map<Seq<char>, Seq<char>>
    decreases nodes,
{
    if nodes.len() == 0 {
        Map::empty()
    } else {
        nodes_index(prefix, nodes.subrange(0, nodes.len() - 1)).union_prefer_right(
            node_index(prefix, nodes[nodes.len() - 1]),
        )
    }
}

/// The fingerprint index of a tree whose top-level entries are `root`.
pub open spec fn tree_index(root: Seq<Node>) -> Map<Seq<char>, Seq<char>> {
    nodes_index(Seq::empty(), root)
}

/// Records the digest of a file's contents under its relative path.
fn index_file(prefix: &String, name: &String, content: &Vec<u8>, index: &mut FileHashIndex)
    requires
        old(index).wf(),
    ensures
        final(index).wf(),
        final(index)@ == old(index)@.insert(prefix@ + name@, blake3_hex(content@)),
{
    let mut path = prefix.clone();
    path.append(name.as_str());
    let hash = content_hash(content.as_slice());
    index.insert(path, hash);
}

/// Adds to `index` every regular file reachable from the entries `nodes` of
/// the directory whose relative path is `prefix`, keyed by its path relative
/// to the root with `/` between the names.
pub fn visit_dirs(prefix: &String, nodes: &Vec<Node>, index: &mut FileHashIndex)
    requires
        old(index).wf(),
    ensures
        final(index).wf(),
        final(index)@ == old(index)@.union_prefer_right(nodes_index(prefix@, nodes@)),
    decreases nodes,
{
    let mut i: usize = 0;
    while i < nodes.len()
        invariant
            i <= nodes@.len(),
            index.wf(),
            index@ == old(index)@.union_prefer_right(nodes_index(prefix@, nodes@.subrange(0, i as int))),
        decreases nodes@.len() - i,
    {
        let ghost before = index@;
        match &nodes[i] {
            Node::File { name, content } => {
                index_file(prefix, name, content, index);
            },
            Node::Dir { name, children } => {
                let mut sub = prefix.clone();
                sub.append(name.as_str());
                sub.append("/");
                proof {
                    reveal_strlit("/");
                    assert("/"@ =~= seq!['/']);
                    assert(sub@ =~= prefix@ + name@ + seq!['/']);
                    assert(decreases_to!(nodes => nodes@));
                    assert(decreases_to!(nodes@ => nodes@[i as int]));
                    assert(decreases_to!(nodes@[i as int] => children));
                }
                visit_dirs(&sub, children, index);
            },
            Node::Other { .. } => {},
        }
        proof {
            assert(index@ =~= before.union_prefer_right(node_index(prefix@, nodes@[i as int])));
            let s = nodes@.subrange(0, i + 1);
            assert(s.subrange(0, s.len() - 1) =~= nodes@.subrange(0, i as int));
            assert(s[s.len() - 1] == nodes@[i as int]);
            assert(index@ =~= old(index)@.union_prefer_right(nodes_index(prefix@, s)));
        }
        i = i + 1;
    }
    proof {
        assert(nodes@.subrange(0, nodes@.len() as int) =~= nodes@);
    }
}

/// Builds the fingerprint index of the tree whose top-level entries are
/// `root`.
pub fn build_index(root: &Vec<Node>) -> (r: FileHashIndex)
    ensures
        r.wf(),
        r@ == tree_index(root@),
{
    let mut index = FileHashIndex::new();
    let prefix = String::new();
    visit_dirs(&prefix, root, &mut index);
    proof {
        assert(index@ =~= tree_index(root@));
    }
    index
}

/// `b` is `a` with the contents of exactly one regular file changed, the file
/// whose path relative to the root is `k`. `prefix` is the relative path of
/// the directory that holds the entries `a`, and `route` gives the position
/// of the file among each directory's entries on the way down to it.
pub open spec fn one_file_changed(prefix: Seq<char>, a: Seq<Node>, b: Seq<Node>, route: Seq<int>, k: Seq<char>) -> bool
    decreases route.len(),
{
    if route.len() == 0 {
        false
    } else {
        let j = route[0];
        &&& a.len() == b.len()
        &&& 0 <= j < a.len()
        &&& forall|i: int| 0 <= i < a.len() && i != j ==> #[trigger] a[i] == b[i]
        &&& match (a[j], b[j]) {
            (Node::File { name, .. }, Node::File { name: name2, .. }) => route.len() == 1 && name@ == name2@
                && prefix + name@ == k,
            (Node::Dir { name, children }, Node::Dir { name: name2, children: children2 }) => name@ == name2@
                && one_file_changed(prefix + name@ + seq!['/'], children@, children2@, route.drop_first(), k),
            _ => false,
        }
    }
}

proof fn lemma_one_file_changed(prefix: Seq<char>, a: Seq<Node>, b: Seq<Node>, route: Seq<int>, k: Seq<char>)
    requires
        one_file_changed(prefix, a, b, route, k),
    ensures
        nodes_index(prefix, a).contains_key(k),
        nodes_index(prefix, b).contains_key(k),
        nodes_index(prefix, a).remove(k) == nodes_index(prefix, b).remove(k),
    decreases route.len(), a.len(),
{
    let j = route[0];
    let n = a.len() - 1;
    let a0 = a.subrange(0, n);
    let b0 = b.subrange(0, n);
    if j == n {
        assert(a0 =~= b0);
        match (a[n], b[n]) {
            (Node::File { .. }, Node::File { .. }) => {
                assert(node_index(prefix, a[n]).remove(k) =~= node_index(prefix, b[n]).remove(k));
            },
            (Node::Dir { name, children }, Node::Dir { name: name2, children: children2 }) => {
                lemma_one_file_changed(prefix + name@ + seq!['/'], children@, children2@, route.drop_first(), k);
                assert(node_index(prefix, a[n]) == nodes_index(prefix + name@ + seq!['/'], children@));
                assert(node_index(prefix, b[n]) == nodes_index(prefix + name@ + seq!['/'], children2@));
            },
            _ => {},
        }
    } else {
        assert(a[n] == b[n]);
        assert forall|i: int| 0 <= i < a0.len() && i != j implies #[trigger] a0[i] == b0[i] by {
            assert(a[i] == b[i]);
        }
        assert(a0[j] == a[j] && b0[j] == b[j]);
        lemma_one_file_changed(prefix, a0, b0, route, k);
    }
    let ma = nodes_index(prefix, a0);
    let mb = nodes_index(prefix, b0);
    let na = node_index(prefix, a[n]);
    let nb = node_index(prefix, b[n]);
    assert(nodes_index(prefix, a) == ma.union_prefer_right(na));
    assert(nodes_index(prefix, b) == mb.union_prefer_right(nb));
    assert(ma.union_prefer_right(na).remove(k) =~= mb.union_prefer_right(nb).remove(k)) by {
        if j == n {
            assert(ma == mb);
            assert(na.remove(k) == nb.remove(k));
            assert forall|q: Seq<char>| q != k && #[trigger] na.contains_key(q) implies nb.contains_key(q) && na[q] == nb[q] by {
                assert(na.remove(k).contains_key(q));
                assert(na.remove(k)[q] == na[q]);
                assert(nb.remove(k)[q] == nb[q]);
            }
            assert forall|q: Seq<char>| q != k && #[trigger] nb.contains_key(q) implies na.contains_key(q) by {
                assert(nb.remove(k).contains_key(q));
            }
        } else {
            assert(na == nb);
            assert(ma.remove(k) == mb.remove(k));
            assert forall|q: Seq<char>| q != k && #[trigger] ma.contains_key(q) implies mb.contains_key(q) && ma[q] == mb[q] by {
                assert(ma.remove(k).contains_key(q));
                assert(ma.remove(k)[q] == ma[q]);
                assert(mb.remove(k)[q] == mb[q]);
            }
            assert forall|q: Seq<char>| q != k && #[trigger] mb.contains_key(q) implies ma.contains_key(q) by {
                assert(mb.remove(k).contains_key(q));
            }
        }
    }
}

/// The contents of the regular file reached by following `route` down from
/// the entries `nodes`.
pub open spec fn content_at(nodes: Seq<Node>, route: Seq<int>) -> Seq<u8>
    decreases route.len(),
{
    if route.len() == 0 || !(0 <= route[0] < nodes.len()) {
        Seq::empty()
    } else {
        match nodes[route[0]] {
            Node::File { content, .. } => content@,
            Node::Dir { children, .. } => content_at(children@, route.drop_first()),
            Node::Other { .. } => Seq::empty(),
        }
    }
}

/// No entry met on the way down `route` from the entries `nodes`, other than
/// the ones the route passes through, yields an index entry for path `k`.
pub open spec fn sole_source(prefix: Seq<char>, nodes: Seq<Node>, route: Seq<int>, k: Seq<char>) -> bool
    decreases route.len(),
{
    if route.len() == 0 {
        true
    } else {
        let j = route[0];
        &&& forall|i: int| 0 <= i < nodes.len() && i != j ==> !(#[trigger] node_index(prefix, nodes[i])).contains_key(k)
        &&& 0 <= j < nodes.len() ==> match nodes[j] {
            Node::Dir { name, children } => sole_source(prefix + name@ + seq!['/'], children@, route.drop_first(), k),
            _ => true,
        }
    }
}

proof fn lemma_changed_entry(prefix: Seq<char>, a: Seq<Node>, b: Seq<Node>, route: Seq<int>, k: Seq<char>)
    requires
        one_file_changed(prefix, a, b, route, k),
        sole_source(prefix, a, route, k),
    ensures
        nodes_index(prefix, b).contains_key(k),
        nodes_index(prefix, b)[k] == blake3_hex(content_at(b, route)),
    decreases route.len(), a.len(),
{
    lemma_one_file_changed(prefix, a, b, route, k);
    let j = route[0];
    let n = a.len() - 1;
    let a0 = a.subrange(0, n);
    let b0 = b.subrange(0, n);
    let nb = node_index(prefix, b[n]);
    assert(nodes_index(prefix, b) == nodes_index(prefix, b0).union_prefer_right(nb));
    if j == n {
        match (a[n], b[n]) {
            (Node::File { .. }, Node::File { .. }) => {},
            (Node::Dir { name, children }, Node::Dir { name: name2, children: children2 }) => {
                lemma_changed_entry(prefix + name@ + seq!['/'], children@, children2@, route.drop_first(), k);
                assert(nb == nodes_index(prefix + name@ + seq!['/'], children2@));
            },
            _ => {},
        }
        assert(nb.contains_key(k));
    } else {
        assert(a[n] == b[n]);
        assert(!node_index(prefix, a[n]).contains_key(k));
        assert forall|i: int| 0 <= i < a0.len() && i != j implies #[trigger] a0[i] == b0[i] by {
            assert(a[i] == b[i]);
        }
        assert(a0[j] == a[j] && b0[j] == b[j]);
        assert forall|i: int| 0 <= i < a0.len() && i != j implies !(#[trigger] node_index(prefix, a0[i])).contains_key(k) by {
            assert(a0[i] == a[i]);
            assert(!node_index(prefix, a[i]).contains_key(k));
        }
        assert(one_file_changed(prefix, a0, b0, route, k));
        assert(sole_source(prefix, a0, route, k));
        lemma_changed_entry(prefix, a0, b0, route, k);
        assert(content_at(b0, route) == content_at(b, route));
    }
}

/// Changing the contents of one regular file of a tree, the one at relative
/// path `k`, leaves every other entry of the tree's index as it was: the same
/// paths are indexed, and every path but `k` keeps its hash. Where no other
/// entry of the tree yields path `k`, the index then records for `k` the
/// digest of the new contents.
pub proof fn law_one_file_change_is_local(a: Seq<Node>, b: Seq<Node>, route: Seq<int>, k: Seq<char>)
    requires
        one_file_changed(Seq::empty(), a, b, route, k),
    ensures
        tree_index(a).contains_key(k),
        tree_index(b).dom() == tree_index(a).dom(),
        forall|q: Seq<char>| q != k && #[trigger] tree_index(a).contains_key(q) ==> tree_index(b)[q] == tree_index(a)[q],
        sole_source(Seq::empty(), a, route, k) ==> tree_index(b)[k] == blake3_hex(content_at(b, route)),
{
    if sole_source(Seq::empty(), a, route, k) {
        lemma_changed_entry(Seq::empty(), a, b, route, k);
    }
    lemma_one_file_changed(Seq::empty(), a, b, route, k);
    let ma = tree_index(a);
    let mb = tree_index(b);
    assert(ma.remove(k).contains_key(k) == false);
    assert forall|q: Seq<char>| #[trigger] mb.dom().contains(q) <==> ma.dom().contains(q) by {
        if q != k {
            assert(ma.remove(k).contains_key(q) == ma.contains_key(q));
            assert(mb.remove(k).contains_key(q) == mb.contains_key(q));
        }
    }
    assert(mb.dom() =~= ma.dom());
    assert forall|q: Seq<char>| q != k && #[trigger] ma.contains_key(q) implies mb[q] == ma[q] by {
        assert(ma.remove(k)[q] == ma[q]);
        assert(mb.remove(k)[q] == mb[q]);
    }
}

/// A tree compared with itself yields nothing to fetch.
pub proof fn law_same_tree_needs_nothing(root: Seq<Node>)
    ensures
        crate::index::diff_set(tree_index(root), tree_index(root)) == Set::<Seq<char>>::empty(),
{
    assert(crate::index::diff_set(tree_index(root), tree_index(root)) =~= Set::<Seq<char>>::empty());
}

} // verus!
