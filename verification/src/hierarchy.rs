//! The bone hierarchy: a tree view derived from the flat, parent-indexed
//! bone list.
//!
//! [`build`] reconstructs the forest under a virtual root (identity `-1`)
//! from the flat list. A parent reference that is out of range or equal
//! to the bone's own identity is recovered as `-1`, and a bone whose
//! recovered parent chain never reaches the root (a cycle among several
//! bones) is attached directly under the root as well; every such repair
//! is reported as a diagnostic. The built tree therefore always holds
//! every bone exactly once, and [`traverse`] walks it depth first.

use crate::model::BoneRecord;
use vstd::prelude::*;

verus! {

// ---------------------------------------------------------------------
// Effective parents: the per-bone fix-up of raw parent references.
// ---------------------------------------------------------------------

/// The parent reference of bone `i` after the local fix-up: a reference
/// that is out of range or equal to `i` itself counts as `-1`.
pub open spec fn spec_eff_parent(bones: Seq<BoneRecord>, i: int) -> int {
    let p = bones[i].parent as int;
    if 0 <= p && p < bones.len() && p != i {
        p
    } else {
        -1
    }
}

/// The effective parent of every bone of the list.
pub open spec fn parents_of(bones: Seq<BoneRecord>) -> Seq<int> {
    Seq::new(bones.len(), |i: int| spec_eff_parent(bones, i))
}

/// A parent sequence is well formed when every entry is `-1` or the
/// identity of another bone.
pub open spec fn wf_parents(ps: Seq<int>) -> bool {
    forall|i: int| 0 <= i < ps.len() ==> #[trigger] ps[i] == -1 || (0 <= ps[i] < ps.len() && ps[i] != i)
}

pub proof fn lemma_parents_of_wf(bones: Seq<BoneRecord>)
    ensures
        wf_parents(parents_of(bones)),
        parents_of(bones).len() == bones.len(),
{
}

// ---------------------------------------------------------------------
// Reachability of the root along a parent sequence.
// ---------------------------------------------------------------------

/// Whether the chain `i`, `ps[i]`, `ps[ps[i]]`, ... arrives at `-1`
/// within `fuel` steps.
pub open spec fn reaches_root(ps: Seq<int>, i: int, fuel: nat) -> bool
    decreases fuel,
{
    if i == -1 {
        true
    } else if fuel == 0 {
        false
    } else if 0 <= i < ps.len() {
        reaches_root(ps, ps[i], (fuel - 1) as nat)
    } else {
        false
    }
}

/// The number of steps the chain from `i` takes before arriving at `-1`,
/// counted with at most `fuel` steps.
pub open spec fn chain_len(ps: Seq<int>, i: int, fuel: nat) -> nat
    decreases fuel,
{
    if i == -1 || fuel == 0 {
        0
    } else if 0 <= i < ps.len() {
        (1 + chain_len(ps, ps[i], (fuel - 1) as nat)) as nat
    } else {
        0
    }
}

/// Reaching the root with little fuel implies reaching it with more.
pub proof fn lemma_reaches_mono(ps: Seq<int>, i: int, f1: nat, f2: nat)
    requires
        reaches_root(ps, i, f1),
        f1 <= f2,
    ensures
        reaches_root(ps, i, f2),
    decreases f1,
{
    if i != -1 {
        lemma_reaches_mono(ps, ps[i], (f1 - 1) as nat, (f2 - 1) as nat);
    }
}

/// Once the chain reaches the root, extra fuel changes neither the
/// reachability verdict nor the measured chain length.
pub proof fn lemma_chain_len_stable(ps: Seq<int>, i: int, f1: nat, f2: nat)
    requires
        reaches_root(ps, i, f1),
        f1 <= f2,
    ensures
        chain_len(ps, i, f2) == chain_len(ps, i, f1),
        chain_len(ps, i, f1) <= f1,
    decreases f1,
{
    if i != -1 {
        lemma_chain_len_stable(ps, ps[i], (f1 - 1) as nat, (f2 - 1) as nat);
    }
}

/// The depth of node `i`: the length of its chain to the root, measured
/// with the fuel that suffices for every rooted chain.
pub open spec fn depth(ps: Seq<int>, i: int) -> nat {
    chain_len(ps, i, ps.len() as nat)
}

/// A parent sequence is rooted when the chain of every node arrives at
/// the root within `len` steps.
pub open spec fn rooted(ps: Seq<int>) -> bool {
    forall|i: int| 0 <= i < ps.len() ==> reaches_root(ps, i, ps.len() as nat)
}

/// In a rooted sequence, stepping to the parent lowers the depth by
/// exactly one.
pub proof fn lemma_depth_step(ps: Seq<int>, i: int)
    requires
        wf_parents(ps),
        0 <= i < ps.len(),
        reaches_root(ps, i, ps.len() as nat),
    ensures
        reaches_root(ps, ps[i], ps.len() as nat),
        depth(ps, i) == 1 + depth(ps, ps[i]),
        depth(ps, i) <= ps.len(),
{
    let n = ps.len() as nat;
    lemma_reaches_mono(ps, ps[i], (n - 1) as nat, n);
    lemma_chain_len_stable(ps, ps[i], (n - 1) as nat, n);
    lemma_chain_len_stable(ps, i, n, n);
}

// ---------------------------------------------------------------------
// Final parents: the global fix-up that breaks multi-bone cycles.
// ---------------------------------------------------------------------

/// The parent reference used by the tree: a bone whose chain of
/// effective parents never reaches the root is reattached to it.
pub open spec fn final_parents(ps: Seq<int>) -> Seq<int> {
    Seq::new(
        ps.len(),
        |i: int|
            if reaches_root(ps, i, ps.len() as nat) {
                ps[i]
            } else {
                -1
            },
    )
}

proof fn lemma_final_parents_preserve(ps: Seq<int>, i: int, f: nat)
    requires
        wf_parents(ps),
        f <= ps.len(),
        reaches_root(ps, i, f),
        i == -1 || 0 <= i < ps.len(),
    ensures
        reaches_root(final_parents(ps), i, f),
    decreases f,
{
    if i != -1 {
        lemma_reaches_mono(ps, i, f, ps.len() as nat);
        assert(final_parents(ps)[i] == ps[i]);
        lemma_final_parents_preserve(ps, ps[i], (f - 1) as nat);
        lemma_reaches_mono(final_parents(ps), ps[i], (f - 1) as nat, (f - 1) as nat);
    }
}

/// The final parent sequence is well formed and rooted, whatever the
/// input was.
pub proof fn lemma_final_parents_rooted(ps: Seq<int>)
    requires
        wf_parents(ps),
    ensures
        wf_parents(final_parents(ps)),
        rooted(final_parents(ps)),
        final_parents(ps).len() == ps.len(),
{
    let fp = final_parents(ps);
    let n = ps.len() as nat;
    assert forall|i: int| 0 <= i < fp.len() implies reaches_root(fp, i, n) by {
        if reaches_root(ps, i, n) {
            lemma_final_parents_preserve(ps, i, n);
        } else {
            assert(fp[i] == -1);
            assert(reaches_root(fp, fp[i], (n - 1) as nat));
        }
    }
}

/// A sequence that is already rooted is its own final parent sequence:
/// the global fix-up changes nothing on well-formed input.
pub proof fn lemma_final_parents_identity(ps: Seq<int>)
    requires
        rooted(ps),
    ensures
        final_parents(ps) =~= ps,
{
}

// ---------------------------------------------------------------------
// Ancestors and descendants.
// ---------------------------------------------------------------------

/// The `k`-th ancestor of `x`: `k` parent steps from `x`, absorbed at
/// the root once the chain leaves the bone range.
pub open spec fn anc(ps: Seq<int>, x: int, k: nat) -> int
    decreases k,
{
    if k == 0 {
        x
    } else if 0 <= x < ps.len() {
        anc(ps, ps[x], (k - 1) as nat)
    } else {
        -1
    }
}

/// Ancestor steps compose.
pub proof fn lemma_anc_add(ps: Seq<int>, x: int, j: nat, k: nat)
    ensures
        anc(ps, x, (j + k) as nat) == anc(ps, anc(ps, x, j), k),
    decreases j,
{
    if j != 0 {
        if 0 <= x < ps.len() {
            lemma_anc_add(ps, ps[x], (j - 1) as nat, k);
        } else {
            assert(anc(ps, x, j) == -1);
            if k != 0 {
                assert(anc(ps, -1, k) == -1);
            }
        }
    }
}

/// Along a rooted chain, the `k`-th ancestor exists while `k` is below
/// the depth, sits `k` levels higher, and is the root exactly at the
/// depth.
pub proof fn lemma_anc_depth(ps: Seq<int>, x: int, k: nat)
    requires
        wf_parents(ps),
        x == -1 || (0 <= x < ps.len() && reaches_root(ps, x, ps.len() as nat)),
        k <= depth(ps, x),
    ensures
        anc(ps, x, k) == -1 || (0 <= anc(ps, x, k) < ps.len() && reaches_root(
            ps,
            anc(ps, x, k),
            ps.len() as nat,
        )),
        depth(ps, anc(ps, x, k)) == depth(ps, x) - k,
        k < depth(ps, x) ==> 0 <= anc(ps, x, k) < ps.len(),
        anc(ps, x, k) == -1 ==> k == depth(ps, x),
    decreases k,
{
    if k != 0 {
        assert(x != -1);
        lemma_depth_step(ps, x);
        lemma_anc_depth(ps, ps[x], (k - 1) as nat);
    } else {
        if x == -1 {
            assert(depth(ps, x) == 0);
        }
    }
}

/// After at least one step, an ancestor is `-1` or a bone identity.
pub proof fn lemma_anc_range(ps: Seq<int>, x: int, k: nat)
    requires
        wf_parents(ps),
        1 <= k,
    ensures
        anc(ps, x, k) == -1 || 0 <= anc(ps, x, k) < ps.len(),
    decreases k,
{
    if 0 <= x < ps.len() {
        if k == 1 {
            assert(anc(ps, ps[x], 0) == ps[x]);
        } else {
            lemma_anc_range(ps, ps[x], (k - 1) as nat);
        }
    }
}

/// Whether `x` is a strict descendant of `a`: some positive number of
/// parent steps leads from `x` to `a`.
pub open spec fn is_desc(ps: Seq<int>, x: int, a: int) -> bool {
    &&& 0 <= x < ps.len()
    &&& exists|k: nat| 1 <= k && anc(ps, x, k) == a
}

/// Every bone descends from the virtual root of a rooted sequence.
pub proof fn lemma_all_desc_root(ps: Seq<int>, x: int)
    requires
        wf_parents(ps),
        rooted(ps),
        0 <= x < ps.len(),
    ensures
        is_desc(ps, x, -1),
{
    lemma_depth_step(ps, x);
    let d = depth(ps, x);
    lemma_anc_depth(ps, x, d);
    assert(anc(ps, x, d) == -1 || depth(ps, anc(ps, x, d)) == 0);
    if anc(ps, x, d) != -1 {
        lemma_anc_depth(ps, anc(ps, x, d), 0);
        assert(reaches_root(ps, anc(ps, x, d), ps.len() as nat));
        assert(chain_len(ps, anc(ps, x, d), ps.len() as nat) == 0);
        assert(false);
    }
    assert(1 <= d && anc(ps, x, d) == -1);
}

/// A descendant sits strictly deeper than the node it descends from.
pub proof fn lemma_desc_deeper(ps: Seq<int>, x: int, a: int)
    requires
        wf_parents(ps),
        rooted(ps),
        is_desc(ps, x, a),
        a == -1 || 0 <= a < ps.len(),
    ensures
        depth(ps, x) > depth(ps, a),
{
    let k = choose|k: nat| 1 <= k && anc(ps, x, k) == a;
    if k <= depth(ps, x) {
        lemma_anc_depth(ps, x, k);
    } else {
        let d = depth(ps, x);
        lemma_anc_depth(ps, x, d);
        assert(anc(ps, x, d) == -1);
        lemma_anc_add(ps, x, d, (k - d) as nat);
        assert(anc(ps, -1, (k - d) as nat) == -1);
        assert(a == -1);
        assert(depth(ps, x) >= 1) by {
            lemma_depth_step(ps, x);
        }
    }
}

/// Descendant of a descendant: composing the two chains.
pub proof fn lemma_desc_trans(ps: Seq<int>, x: int, c: int, a: int)
    requires
        is_desc(ps, x, c),
        is_desc(ps, c, a),
    ensures
        is_desc(ps, x, a),
{
    let j = choose|j: nat| 1 <= j && anc(ps, x, j) == c;
    let k = choose|k: nat| 1 <= k && anc(ps, c, k) == a;
    lemma_anc_add(ps, x, j, k);
    assert(anc(ps, x, (j + k) as nat) == a);
}

/// A descendant of `a` is either a direct child of `a` or a descendant
/// of one.
pub proof fn lemma_desc_decompose(ps: Seq<int>, x: int, a: int)
    requires
        wf_parents(ps),
        is_desc(ps, x, a),
    ensures
        exists|c: int|
            0 <= c < ps.len() && #[trigger] ps[c] == a && (x == c || is_desc(ps, x, c)),
{
    let k = choose|k: nat| 1 <= k && anc(ps, x, k) == a;
    lemma_desc_decompose_at(ps, x, a, k);
}

proof fn lemma_desc_decompose_at(ps: Seq<int>, x: int, a: int, k: nat)
    requires
        wf_parents(ps),
        0 <= x < ps.len(),
        1 <= k,
        anc(ps, x, k) == a,
    ensures
        exists|c: int|
            0 <= c < ps.len() && #[trigger] ps[c] == a && (x == c || is_desc(ps, x, c)),
    decreases k,
{
    if k == 1 {
        assert(anc(ps, ps[x], 0) == ps[x]);
        assert(anc(ps, x, 1) == ps[x]);
        assert(0 <= x < ps.len() && ps[x] == a && (x == x || is_desc(ps, x, x)));
    } else {
        let c = anc(ps, x, (k - 1) as nat);
        lemma_anc_range(ps, x, (k - 1) as nat);
        if 0 <= c < ps.len() {
            lemma_anc_add(ps, x, (k - 1) as nat, 1);
            assert(anc(ps, ps[c], 0) == ps[c]);
            assert(anc(ps, c, 1) == ps[c]);
            assert(ps[c] == a);
            assert(is_desc(ps, x, c)) by {
                assert(1 <= (k - 1) as nat && anc(ps, x, (k - 1) as nat) == c);
            }
            assert(0 <= c < ps.len() && ps[c] == a && (x == c || is_desc(ps, x, c)));
        } else {
            // The chain was already absorbed at the root: a shorter
            // witness exists.
            assert(c == -1);
            lemma_anc_add(ps, x, (k - 1) as nat, 1);
            assert(anc(ps, c, 1) == -1);
            assert(a == -1);
            lemma_desc_decompose_at(ps, x, a, (k - 1) as nat);
        }
    }
}

/// A node never descends from itself in a rooted sequence.
pub proof fn lemma_no_self_desc(ps: Seq<int>, x: int)
    requires
        wf_parents(ps),
        rooted(ps),
        0 <= x < ps.len(),
    ensures
        !is_desc(ps, x, x),
{
    if is_desc(ps, x, x) {
        lemma_desc_deeper(ps, x, x);
    }
}

/// Two distinct children of one node head disjoint subtrees: no node is
/// below (or equal to) both.
pub proof fn lemma_sibling_disjoint(ps: Seq<int>, c1: int, c2: int, x: int)
    requires
        wf_parents(ps),
        rooted(ps),
        0 <= c1 < ps.len(),
        0 <= c2 < ps.len(),
        c1 != c2,
        ps[c1] == ps[c2],
        x == c1 || is_desc(ps, x, c1),
    ensures
        !(x == c2 || is_desc(ps, x, c2)),
{
    if x == c2 || is_desc(ps, x, c2) {
        lemma_depth_step(ps, c1);
        lemma_depth_step(ps, c2);
        assert(depth(ps, c1) == depth(ps, c2));
        if x == c1 {
            // then c1 descends from c2
            lemma_desc_deeper(ps, c1, c2);
        } else if x == c2 {
            lemma_desc_deeper(ps, c2, c1);
        } else {
            // x below both: its chain meets c1 and c2 at different
            // heights, so one is an ancestor of the other and strictly
            // higher.
            let k1 = choose|k: nat| 1 <= k && anc(ps, x, k) == c1;
            let k2 = choose|k: nat| 1 <= k && anc(ps, x, k) == c2;
            lemma_desc_deeper(ps, x, c1);
            lemma_desc_deeper(ps, x, c2);
            assert(k1 != k2) by {
                if k1 == k2 {
                    assert(c1 == c2);
                }
            }
            if k1 < k2 {
                lemma_anc_add(ps, x, k1, (k2 - k1) as nat);
                assert(anc(ps, c1, (k2 - k1) as nat) == c2);
                assert(is_desc(ps, c1, c2));
                lemma_desc_deeper(ps, c1, c2);
            } else {
                lemma_anc_add(ps, x, k2, (k1 - k2) as nat);
                assert(anc(ps, c2, (k1 - k2) as nat) == c1);
                assert(is_desc(ps, c2, c1));
                lemma_desc_deeper(ps, c2, c1);
            }
        }
    }
}

// ---------------------------------------------------------------------
// Children lists: the ordered-by-identity mapping under each node.
// ---------------------------------------------------------------------

/// The children of `parent` among the first `n` bones, in ascending
/// order of identity.
pub open spec fn kids_upto(ps: Seq<int>, parent: int, n: int) -> Seq<int>
    decreases n,
{
    if n <= 0 {
        Seq::empty()
    } else if ps[n - 1] == parent {
        kids_upto(ps, parent, n - 1).push(n - 1)
    } else {
        kids_upto(ps, parent, n - 1)
    }
}

/// The children of `parent`: every bone whose final parent is `parent`,
/// in ascending order of identity.
pub open spec fn spec_kids(ps: Seq<int>, parent: int) -> Seq<int> {
    kids_upto(ps, parent, ps.len() as int)
}

/// What the children list holds: exactly the bones below `n` whose
/// parent entry is `parent`, in strictly ascending order.
pub proof fn lemma_kids_upto(ps: Seq<int>, parent: int, n: int)
    requires
        n <= ps.len(),
    ensures
        forall|j: int|
            0 <= j < kids_upto(ps, parent, n).len() ==> 0 <= #[trigger] kids_upto(
                ps,
                parent,
                n,
            )[j] < n && ps[kids_upto(ps, parent, n)[j]] == parent,
        forall|j1: int, j2: int|
            0 <= j1 < j2 < kids_upto(ps, parent, n).len() ==> #[trigger] kids_upto(
                ps,
                parent,
                n,
            )[j1] < #[trigger] kids_upto(ps, parent, n)[j2],
        forall|e: int|
            0 <= e < n && #[trigger] ps[e] == parent ==> kids_upto(ps, parent, n).contains(e),
    decreases n,
{
    if n > 0 {
        lemma_kids_upto(ps, parent, n - 1);
        let prev = kids_upto(ps, parent, n - 1);
        let cur = kids_upto(ps, parent, n);
        assert forall|e: int|
            0 <= e < n && #[trigger] ps[e] == parent implies cur.contains(e) by {
            if e < n - 1 {
                assert(prev.contains(e));
                let j = choose|j: int| 0 <= j < prev.len() && prev[j] == e;
                assert(cur[j] == e);
            } else {
                assert(ps[n - 1] == parent);
                assert(cur[cur.len() - 1] == n - 1);
            }
        }
    }
}

// ---------------------------------------------------------------------
// The canonical tree of a rooted parent sequence.
// ---------------------------------------------------------------------

/// The mathematical shape of a bone tree node: an identity and the
/// ordered sequence of child nodes.
#[verifier::ext_equal]
pub struct TreeView {
    pub id: int,
    pub kids: Seq<TreeView>,
}

/// The condition under which the canonical tree of `id` is defined.
pub open spec fn tree_domain(ps: Seq<int>, id: int) -> bool {
    &&& wf_parents(ps)
    &&& rooted(ps)
    &&& -1 <= id < ps.len()
}

/// The condition under which a canonical forest over `ids`, all
/// children of `parent`, is defined.
pub open spec fn forest_domain(ps: Seq<int>, parent: int, ids: Seq<int>) -> bool {
    &&& wf_parents(ps)
    &&& rooted(ps)
    &&& -1 <= parent < ps.len()
    &&& forall|j: int|
        0 <= j < ids.len() ==> 0 <= #[trigger] ids[j] < ps.len() && ps[ids[j]] == parent
}

/// The canonical tree below `id`: the node itself over the forest of
/// its children, each child carrying its own canonical tree.
pub open spec fn spec_tree(ps: Seq<int>, id: int) -> TreeView
    decreases ps.len() - depth(ps, id), 1int, 0int,
        when tree_domain(ps, id)
        via spec_tree_dec
{
    TreeView { id, kids: spec_forest(ps, id, spec_kids(ps, id)) }
}

/// The canonical forest over the child identities `ids` of `parent`.
pub open spec fn spec_forest(ps: Seq<int>, parent: int, ids: Seq<int>) -> Seq<TreeView>
    decreases ps.len() - depth(ps, parent), 0int, ids.len(),
        when forest_domain(ps, parent, ids)
        via spec_forest_dec
{
    if ids.len() == 0 {
        Seq::empty()
    } else {
        seq![spec_tree(ps, ids[0])] + spec_forest(ps, parent, ids.drop_first())
    }
}

#[via_fn]
proof fn spec_tree_dec(ps: Seq<int>, id: int) {
    if id == -1 {
        assert(depth(ps, id) == 0);
    } else {
        lemma_depth_step(ps, id);
    }
}

#[via_fn]
proof fn spec_forest_dec(ps: Seq<int>, parent: int, ids: Seq<int>) {
    if parent == -1 {
        assert(depth(ps, parent) == 0);
    } else {
        lemma_depth_step(ps, parent);
    }
    if ids.len() > 0 {
        lemma_depth_step(ps, ids[0]);
    }
}

/// The canonical forest pairs the child identities with their canonical
/// trees, one for one.
pub proof fn lemma_forest_index(ps: Seq<int>, parent: int, ids: Seq<int>)
    requires
        forest_domain(ps, parent, ids),
    ensures
        spec_forest(ps, parent, ids).len() == ids.len(),
        forall|j: int|
            0 <= j < ids.len() ==> #[trigger] spec_forest(ps, parent, ids)[j] == spec_tree(
                ps,
                ids[j],
            ),
    decreases ids.len(),
{
    if ids.len() > 0 {
        assert(forest_domain(ps, parent, ids.drop_first()));
        lemma_forest_index(ps, parent, ids.drop_first());
        let f = spec_forest(ps, parent, ids);
        assert forall|j: int| 0 <= j < ids.len() implies #[trigger] f[j] == spec_tree(
            ps,
            ids[j],
        ) by {
            if j > 0 {
                assert(f[j] == spec_forest(ps, parent, ids.drop_first())[j - 1]);
                assert(ids.drop_first()[j - 1] == ids[j]);
            }
        }
    }
}

// ---------------------------------------------------------------------
// The identities held by a tree.
// ---------------------------------------------------------------------

/// All identities of the nodes of `v`, in depth-first order, the node
/// itself first.
pub open spec fn vids(v: TreeView) -> Seq<int>
    decreases v, 0int,
{
    seq![v.id] + vids_from(v.kids, 0)
}

/// The identities of the trees of `s` from position `i` on.
pub open spec fn vids_from(s: Seq<TreeView>, i: int) -> Seq<int>
    decreases s, s.len() - i,
{
    if i < 0 || i >= s.len() {
        Seq::empty()
    } else {
        vids(s[i]) + vids_from(s, i + 1)
    }
}

/// Which identities a canonical tree holds: its own and those of the
/// strict descendants of its node.
pub proof fn lemma_tree_membership(ps: Seq<int>, id: int, x: int)
    requires
        tree_domain(ps, id),
    ensures
        vids(spec_tree(ps, id)).contains(x) <==> (x == id || is_desc(ps, x, id)),
    decreases ps.len() - depth(ps, id), 1int, 0int,
{
    let ids = spec_kids(ps, id);
    let f = spec_forest(ps, id, ids);
    lemma_kids_upto(ps, id, ps.len() as int);
    assert(forest_domain(ps, id, ids));
    lemma_forest_index(ps, id, ids);
    lemma_forest_membership(ps, id, ids, f, 0, x);
    let whole = vids(spec_tree(ps, id));
    assert(whole == seq![id] + vids_from(f, 0));
    if whole.contains(x) {
        let j = choose|j: int| 0 <= j < whole.len() && whole[j] == x;
        if j == 0 {
            assert(x == id);
        } else {
            assert(vids_from(f, 0)[j - 1] == x);
            assert(vids_from(f, 0).contains(x));
            let c = choose|c: int|
                0 <= c < ids.len() && (x == ids[c] || is_desc(ps, x, ids[c]));
            if x == ids[c] {
                assert(anc(ps, ps[x], 0) == ps[x]);
                assert(anc(ps, x, 1) == ps[x]);
                assert(is_desc(ps, x, id));
            } else {
                lemma_desc_trans_child(ps, x, ids[c], id);
            }
        }
    }
    if x == id || is_desc(ps, x, id) {
        if x == id {
            assert(whole[0] == id);
        } else {
            lemma_desc_decompose(ps, x, id);
            let c = choose|c: int|
                0 <= c < ps.len() && #[trigger] ps[c] == id && (x == c || is_desc(ps, x, c));
            assert(ids.contains(c));
            let j = choose|j: int| 0 <= j < ids.len() && ids[j] == c;
            assert(vids_from(f, 0).contains(x));
            let k = choose|k: int| 0 <= k < vids_from(f, 0).len() && vids_from(f, 0)[k] == x;
            assert(whole[k + 1] == x);
        }
    }
}

/// A child of `a` and everything below it descends from `a`.
proof fn lemma_desc_trans_child(ps: Seq<int>, x: int, c: int, a: int)
    requires
        0 <= c < ps.len(),
        ps[c] == a,
        is_desc(ps, x, c),
    ensures
        is_desc(ps, x, a),
{
    assert(anc(ps, ps[c], 0) == ps[c]);
    assert(anc(ps, c, 1) == a);
    lemma_desc_trans(ps, x, c, a);
}

/// Which identities a canonical forest tail holds: those at or below
/// one of the child identities from position `i` on.
proof fn lemma_forest_membership(
    ps: Seq<int>,
    parent: int,
    ids: Seq<int>,
    f: Seq<TreeView>,
    i: int,
    x: int,
)
    requires
        forest_domain(ps, parent, ids),
        f.len() == ids.len(),
        forall|j: int| 0 <= j < ids.len() ==> #[trigger] f[j] == spec_tree(ps, ids[j]),
        0 <= i <= ids.len(),
    ensures
        vids_from(f, i).contains(x) <==> exists|j: int|
            i <= j < ids.len() && (x == #[trigger] ids[j] || is_desc(ps, x, ids[j])),
    decreases ps.len() - depth(ps, parent), 0int, ids.len() - i,
{
    if i < ids.len() {
        lemma_depth_step(ps, ids[i]);
        lemma_tree_membership(ps, ids[i], x);
        lemma_forest_membership(ps, parent, ids, f, i + 1, x);
        let here = vids(f[i]);
        let rest = vids_from(f, i + 1);
        assert(vids_from(f, i) == here + rest);
        if vids_from(f, i).contains(x) {
            let k = choose|k: int| 0 <= k < vids_from(f, i).len() && vids_from(f, i)[k] == x;
            if k < here.len() {
                assert(here[k] == x);
                assert(here.contains(x));
                assert(x == ids[i] || is_desc(ps, x, ids[i]));
            } else {
                assert(rest[k - here.len()] == x);
                assert(rest.contains(x));
            }
        }
        if exists|j: int| i <= j < ids.len() && (x == #[trigger] ids[j] || is_desc(ps, x, ids[j])) {
            let j = choose|j: int|
                i <= j < ids.len() && (x == #[trigger] ids[j] || is_desc(ps, x, ids[j]));
            if j == i {
                assert(here.contains(x));
                let k = choose|k: int| 0 <= k < here.len() && here[k] == x;
                assert(vids_from(f, i)[k] == x);
            } else {
                assert(rest.contains(x));
                let k = choose|k: int| 0 <= k < rest.len() && rest[k] == x;
                assert(vids_from(f, i)[here.len() + k] == x);
            }
        }
    }
}

/// No identity repeats inside a canonical tree.
pub proof fn lemma_tree_nodup(ps: Seq<int>, id: int)
    requires
        tree_domain(ps, id),
    ensures
        vids(spec_tree(ps, id)).no_duplicates(),
    decreases ps.len() - depth(ps, id), 1int, 0int,
{
    let ids = spec_kids(ps, id);
    let f = spec_forest(ps, id, ids);
    lemma_kids_upto(ps, id, ps.len() as int);
    assert(forest_domain(ps, id, ids));
    lemma_forest_index(ps, id, ids);
    lemma_forest_nodup(ps, id, ids, f, 0);
    let whole = vids(spec_tree(ps, id));
    assert(whole == seq![id] + vids_from(f, 0));
    // The node's own identity does not recur below it.
    assert forall|k: int| 0 <= k < vids_from(f, 0).len() implies vids_from(f, 0)[k] != id by {
        if vids_from(f, 0)[k] == id {
            assert(vids_from(f, 0).contains(id));
            lemma_forest_membership(ps, id, ids, f, 0, id);
            let j = choose|j: int|
                0 <= j < ids.len() && (id == ids[j] || is_desc(ps, id, ids[j]));
            lemma_depth_step(ps, ids[j]);
            if id == ids[j] {
            } else {
                lemma_desc_deeper(ps, id, ids[j]);
            }
        }
    }
    assert forall|k1: int, k2: int|
        0 <= k1 < k2 < whole.len() implies whole[k1] != whole[k2] by {
        if k1 > 0 {
            assert(whole[k1] == vids_from(f, 0)[k1 - 1]);
            assert(whole[k2] == vids_from(f, 0)[k2 - 1]);
        } else {
            assert(whole[k2] == vids_from(f, 0)[k2 - 1]);
        }
    }
}

/// No identity repeats inside a canonical forest tail, with its
/// subtrees pairwise disjoint.
proof fn lemma_forest_nodup(ps: Seq<int>, parent: int, ids: Seq<int>, f: Seq<TreeView>, i: int)
    requires
        forest_domain(ps, parent, ids),
        f.len() == ids.len(),
        forall|j: int| 0 <= j < ids.len() ==> #[trigger] f[j] == spec_tree(ps, ids[j]),
        0 <= i <= ids.len(),
        forall|j1: int, j2: int|
            0 <= j1 < j2 < ids.len() ==> #[trigger] ids[j1] != #[trigger] ids[j2],
    ensures
        vids_from(f, i).no_duplicates(),
    decreases ps.len() - depth(ps, parent), 0int, ids.len() - i,
{
    if i < ids.len() {
        lemma_depth_step(ps, ids[i]);
        lemma_tree_nodup(ps, ids[i]);
        lemma_forest_nodup(ps, parent, ids, f, i + 1);
        let here = vids(f[i]);
        let rest = vids_from(f, i + 1);
        assert(vids_from(f, i) == here + rest);
        // The head subtree shares no identity with the later ones.
        assert forall|k1: int, k2: int|
            0 <= k1 < here.len() && 0 <= k2 < rest.len() implies here[k1] != rest[k2] by {
            let x = here[k1];
            if rest[k2] == x {
                assert(here.contains(x));
                assert(rest.contains(x));
                lemma_tree_membership(ps, ids[i], x);
                lemma_forest_membership(ps, parent, ids, f, i + 1, x);
                let j = choose|j: int|
                    i + 1 <= j < ids.len() && (x == ids[j] || is_desc(ps, x, ids[j]));
                if x == ids[i] || is_desc(ps, x, ids[i]) {
                    lemma_sibling_disjoint(ps, ids[i], ids[j], x);
                }
            }
        }
        assert forall|k1: int, k2: int|
            0 <= k1 < k2 < vids_from(f, i).len() implies vids_from(f, i)[k1] != vids_from(
            f,
            i,
        )[k2] by {
            if k2 < here.len() {
                assert(vids_from(f, i)[k1] == here[k1]);
                assert(vids_from(f, i)[k2] == here[k2]);
            } else if k1 >= here.len() {
                assert(vids_from(f, i)[k1] == rest[k1 - here.len()]);
                assert(vids_from(f, i)[k2] == rest[k2 - here.len()]);
            } else {
                assert(vids_from(f, i)[k1] == here[k1]);
                assert(vids_from(f, i)[k2] == rest[k2 - here.len()]);
            }
        }
    }
}

/// The canonical tree of a rooted sequence holds every bone exactly
/// once beside the virtual root: its node count is the bone count plus
/// one.
pub proof fn lemma_tree_count(ps: Seq<int>)
    requires
        wf_parents(ps),
        rooted(ps),
    ensures
        vids(spec_tree(ps, -1)).len() == ps.len() + 1,
        vids(spec_tree(ps, -1)).to_set() =~= vstd::set_lib::set_int_range(-1, ps.len() as int),
        vids(spec_tree(ps, -1)).no_duplicates(),
{
    let whole = vids(spec_tree(ps, -1));
    lemma_tree_nodup(ps, -1);
    assert forall|x: int| whole.contains(x) <==> -1 <= x < ps.len() by {
        lemma_tree_membership(ps, -1, x);
        if 0 <= x < ps.len() {
            lemma_all_desc_root(ps, x);
        }
        if is_desc(ps, x, -1) {
            assert(0 <= x < ps.len());
        }
    }
    assert(whole.to_set() =~= vstd::set_lib::set_int_range(-1, ps.len() as int));
    whole.unique_seq_to_set();
    vstd::set_lib::lemma_int_range(-1, ps.len() as int);
}

// ---------------------------------------------------------------------
// The executable tree and its view.
// ---------------------------------------------------------------------

/// One node of the built bone tree: a bone identity (or `-1` for the
/// virtual root) over its children, ordered by ascending identity.
#[derive(Debug)]
pub struct BoneTree {
    pub id: i32,
    pub child: Vec<BoneTree>,
}

/// The mathematical shape of a built node.
pub open spec fn tree_view(t: BoneTree) -> TreeView
    decreases t, 0int,
{
    TreeView { id: t.id as int, kids: views_from(t.child@, 0) }
}

/// The shapes of the nodes of `s` from position `i` on.
pub open spec fn views_from(s: Seq<BoneTree>, i: int) -> Seq<TreeView>
    decreases s, s.len() - i,
{
    if i < 0 || i >= s.len() {
        Seq::empty()
    } else {
        seq![tree_view(s[i])] + views_from(s, i + 1)
    }
}

impl View for BoneTree {
    type V = TreeView;

    open spec fn view(&self) -> TreeView {
        tree_view(*self)
    }
}

/// Appending a node to a forest appends its shape.
proof fn lemma_views_from_push(s: Seq<BoneTree>, t: BoneTree, i: int)
    requires
        0 <= i <= s.len(),
    ensures
        views_from(s.push(t), i) =~= views_from(s, i) + seq![tree_view(t)],
    decreases s.len() - i,
{
    if i == s.len() {
        assert(s.push(t)[i] == t);
        assert(views_from(s.push(t), i + 1) =~= Seq::empty());
    } else {
        assert(s.push(t)[i] == s[i]);
        lemma_views_from_push(s, t, i + 1);
    }
}

/// Appending a child identity to a forest appends its canonical tree.
proof fn lemma_forest_snoc(ps: Seq<int>, parent: int, ids: Seq<int>, c: int)
    requires
        forest_domain(ps, parent, ids),
        0 <= c < ps.len(),
        ps[c] == parent,
    ensures
        spec_forest(ps, parent, ids.push(c)) =~= spec_forest(ps, parent, ids) + seq![
            spec_tree(ps, c),
        ],
    decreases ids.len(),
{
    assert(forall|j: int|
        0 <= j < ids.push(c).len() ==> 0 <= #[trigger] ids.push(c)[j] < ps.len() && ps[ids.push(
            c,
        )[j]] == parent);
    assert(forest_domain(ps, parent, ids.push(c)));
    if ids.len() == 0 {
        assert(ids.push(c)[0] == c);
        assert(ids.push(c).drop_first() =~= Seq::empty());
        assert(ids.push(c).drop_first() == Seq::<int>::empty());
        assert(spec_forest(ps, parent, Seq::empty()) == Seq::<TreeView>::empty());
        assert(spec_forest(ps, parent, ids.push(c)) =~= seq![spec_tree(ps, c)]);
        assert(spec_forest(ps, parent, ids) == Seq::<TreeView>::empty());
    } else {
        assert(ids.push(c)[0] == ids[0]);
        assert(ids.push(c).drop_first() =~= ids.drop_first().push(c));
        assert(ids.push(c).drop_first() == ids.drop_first().push(c));
        assert(forest_domain(ps, parent, ids.drop_first()));
        lemma_forest_snoc(ps, parent, ids.drop_first(), c);
        assert(spec_forest(ps, parent, ids.push(c)) == seq![spec_tree(ps, ids[0])]
            + spec_forest(ps, parent, ids.drop_first().push(c)));
        assert(spec_forest(ps, parent, ids) == seq![spec_tree(ps, ids[0])] + spec_forest(
            ps,
            parent,
            ids.drop_first(),
        ));
    }
}

// ---------------------------------------------------------------------
// Diagnostics.
// ---------------------------------------------------------------------

/// What went wrong with a bone during the rebuild.
#[derive(Debug, Clone, Copy, PartialEq, Eq, Structural)]
pub enum DiagnosticKind {
    /// The bone's parent reference was repaired to the virtual root:
    /// it was out of range, the bone's own identity, or part of a
    /// parent cycle.
    InvalidParentReference,
}

/// A non-fatal report about one bone, surfaced beside the rebuilt tree.
#[derive(Debug, Clone, Copy, PartialEq, Eq, Structural)]
pub struct Diagnostic {
    pub bone: usize,
    pub kind: DiagnosticKind,
}

/// Whether bone `i` is repaired: the parent the tree uses differs from
/// the recorded one.
pub open spec fn needs_diag(bones: Seq<BoneRecord>, i: int) -> bool {
    final_parents(parents_of(bones))[i] != bones[i].parent as int
}

/// The diagnostics for the first `n` bones, in ascending bone order.
pub open spec fn diag_upto(bones: Seq<BoneRecord>, n: int) -> Seq<Diagnostic>
    decreases n,
{
    if n <= 0 {
        Seq::empty()
    } else if needs_diag(bones, n - 1) {
        diag_upto(bones, n - 1).push(
            Diagnostic { bone: (n - 1) as usize, kind: DiagnosticKind::InvalidParentReference },
        )
    } else {
        diag_upto(bones, n - 1)
    }
}

/// Every diagnostic of a rebuild over `bones`.
pub open spec fn spec_diagnostics(bones: Seq<BoneRecord>) -> Seq<Diagnostic> {
    diag_upto(bones, bones.len() as int)
}

// ---------------------------------------------------------------------
// Building the tree.
// ---------------------------------------------------------------------

/// The integer values of a machine-integer sequence.
pub open spec fn ints_of(s: Seq<i32>) -> Seq<int> {
    s.map_values(|v: i32| v as int)
}

/// The canonical tree that a rebuild over `bones` yields.
pub open spec fn spec_build_tree(bones: Seq<BoneRecord>) -> TreeView {
    spec_tree(final_parents(parents_of(bones)), -1)
}

/// Materialize the canonical tree below `id` by scanning the final
/// parent table for its children, in ascending identity order.
fn build_node(fps: &Vec<i32>, id: i32, Ghost(ps): Ghost<Seq<int>>) -> (t: BoneTree)
    requires
        ints_of(fps@) == ps,
        wf_parents(ps),
        rooted(ps),
        -1 <= id as int && (id as int) < ps.len(),
        ps.len() <= i32::MAX as int,
    ensures
        t@ == spec_tree(ps, id as int),
    decreases ps.len() - depth(ps, id as int),
{
    let n = fps.len();
    proof {
        assert(fps@.len() == ps.len());
        if id == -1 {
            assert(depth(ps, -1) == 0);
        } else {
            lemma_depth_step(ps, id as int);
        }
    }
    let mut children: Vec<BoneTree> = Vec::new();
    let mut i: usize = 0;
    while i < n
        invariant
            n == ps.len(),
            ints_of(fps@) == ps,
            wf_parents(ps),
            rooted(ps),
            -1 <= id as int && (id as int) < ps.len(),
            ps.len() <= i32::MAX as int,
            0 <= i <= n,
            forest_domain(ps, id as int, kids_upto(ps, id as int, i as int)),
            views_from(children@, 0) =~= spec_forest(
                ps,
                id as int,
                kids_upto(ps, id as int, i as int),
            ),
        decreases n - i,
    {
        proof {
            lemma_kids_upto(ps, id as int, i + 1);
        }
        if fps[i] == id {
            proof {
                assert(fps@[i as int] as int == ps[i as int]);
                assert(ps[i as int] == id as int);
                lemma_depth_step(ps, i as int);
            }
            let sub = build_node(fps, i as i32, Ghost(ps));
            proof {
                lemma_views_from_push(children@, sub, 0);
                lemma_forest_snoc(ps, id as int, kids_upto(ps, id as int, i as int), i as int);
                assert(kids_upto(ps, id as int, i + 1) == kids_upto(ps, id as int, i as int).push(
                    i as int,
                ));
            }
            children.push(sub);
        } else {
            proof {
                assert(fps@[i as int] as int == ps[i as int]);
                assert(kids_upto(ps, id as int, i + 1) == kids_upto(ps, id as int, i as int));
            }
        }
        i += 1;
    }
    let t = BoneTree { id, child: children };
    proof {
        assert(t@.kids =~= spec_forest(ps, id as int, spec_kids(ps, id as int)));
        assert(t@ =~= spec_tree(ps, id as int));
    }
    t
}

/// Build the bone tree and the repair diagnostics from the flat bone
/// list.
///
/// The tree is the canonical forest of the repaired parent references:
/// below a virtual root node of identity `-1` stands every bone exactly
/// once, under its recorded parent where that reference is usable, and
/// directly under the root where it was repaired. A diagnostic is
/// reported for bone `i` exactly when the parent the tree uses differs
/// from the recorded `bones[i].parent`.
pub fn build(bones: &Vec<BoneRecord>) -> (res: (BoneTree, Vec<Diagnostic>))
    requires
        bones@.len() <= i32::MAX as int,
    ensures
        res.0@ == spec_build_tree(bones@),
        res.1@ == spec_diagnostics(bones@),
        res.0.id == -1,
{
    let ghost ps = parents_of(bones@);
    let n = bones.len();
    // Per-bone fix-up of the raw parent references.
    let mut eps: Vec<i32> = Vec::new();
    let mut i: usize = 0;
    while i < n
        invariant
            n == bones@.len(),
            n <= i32::MAX as int,
            ps == parents_of(bones@),
            0 <= i <= n,
            eps@.len() == i,
            forall|j: int| 0 <= j < i ==> #[trigger] eps@[j] as int == ps[j],
        decreases n - i,
    {
        let p = bones[i].parent;
        let e: i32 = if p >= 0 && (p as usize) < n && (p as usize) != i {
            p
        } else {
            -1
        };
        eps.push(e);
        i += 1;
    }
    proof {
        lemma_parents_of_wf(bones@);
    }
    // Global fix-up: find the bones whose chain never reaches the root.
    let ghost fp = final_parents(ps);
    let mut fps: Vec<i32> = Vec::new();
    i = 0;
    while i < n
        invariant
            n == bones@.len(),
            n <= i32::MAX as int,
            ps == parents_of(bones@),
            fp == final_parents(ps),
            wf_parents(ps),
            eps@.len() == n,
            forall|j: int| 0 <= j < n ==> #[trigger] eps@[j] as int == ps[j],
            0 <= i <= n,
            fps@.len() == i,
            forall|j: int| 0 <= j < i ==> #[trigger] fps@[j] as int == fp[j],
        decreases n - i,
    {
        let mut cur: i32 = i as i32;
        let mut steps: usize = 0;
        while cur != -1 && steps < n
            invariant
                n == bones@.len(),
                n <= i32::MAX as int,
                wf_parents(ps),
                ps.len() == n,
                eps@.len() == n,
                forall|j: int| 0 <= j < n ==> #[trigger] eps@[j] as int == ps[j],
                0 <= i < n,
                0 <= steps <= n,
                cur == -1 || (0 <= cur as int && (cur as int) < n),
                reaches_root(ps, i as int, n as nat) == (cur == -1 || reaches_root(
                    ps,
                    cur as int,
                    (n - steps) as nat,
                )),
            decreases n - steps,
        {
            proof {
                assert(eps@[cur as int] as int == ps[cur as int]);
                assert(0 <= cur as int && (cur as int) < n);
                assert((n - steps) as nat >= 1);
                assert(reaches_root(ps, cur as int, (n - steps) as nat) == reaches_root(
                    ps,
                    ps[cur as int],
                    (n - steps - 1) as nat,
                ));
            }
            cur = eps[cur as usize];
            steps += 1;
        }
        if cur == -1 {
            proof {
                assert(reaches_root(ps, i as int, n as nat));
                assert(fp[i as int] == ps[i as int]);
                assert(eps@[i as int] as int == ps[i as int]);
            }
            let e = eps[i];
            fps.push(e);
        } else {
            proof {
                assert(!reaches_root(ps, cur as int, 0));
                assert(!reaches_root(ps, i as int, n as nat));
                assert(fp[i as int] == -1);
            }
            fps.push(-1);
        }
        i += 1;
    }
    proof {
        assert(ints_of(fps@) =~= fp);
        lemma_final_parents_rooted(ps);
    }
    // Diagnostics: one per repaired bone, in bone order.
    let mut diags: Vec<Diagnostic> = Vec::new();
    i = 0;
    while i < n
        invariant
            n == bones@.len(),
            n <= i32::MAX as int,
            ps == parents_of(bones@),
            fp == final_parents(ps),
            fps@.len() == n,
            forall|j: int| 0 <= j < n ==> #[trigger] fps@[j] as int == fp[j],
            0 <= i <= n,
            diags@ == diag_upto(bones@, i as int),
        decreases n - i,
    {
        if fps[i] != bones[i].parent {
            proof {
                assert(needs_diag(bones@, i as int));
            }
            diags.push(
                Diagnostic { bone: i, kind: DiagnosticKind::InvalidParentReference },
            );
        } else {
            proof {
                assert(!needs_diag(bones@, i as int));
            }
        }
        i += 1;
    }
    // Materialize the forest under the virtual root.
    let tree = build_node(&fps, -1, Ghost(fp));
    (tree, diags)
}

// ---------------------------------------------------------------------
// Depth-first traversal.
// ---------------------------------------------------------------------

/// The depth-first walk of a node: the node itself at `d`, then the
/// walks of its children at `d + 1`.
pub open spec fn walk(v: TreeView, d: int) -> Seq<(int, int)>
    decreases v, 0int,
{
    seq![(v.id, d)] + walk_from(v.kids, 0, d + 1)
}

/// The concatenated walks of the nodes of `s` from position `i` on.
pub open spec fn walk_from(s: Seq<TreeView>, i: int, d: int) -> Seq<(int, int)>
    decreases s, s.len() - i,
{
    if i < 0 || i >= s.len() {
        Seq::empty()
    } else {
        walk(s[i], d) + walk_from(s, i + 1, d)
    }
}

/// The traversal of a built tree: the depth-first (identity, depth)
/// sequence over the forest below its root, the root's direct children
/// at depth zero, the root itself omitted.
pub open spec fn spec_traverse(v: TreeView) -> Seq<(int, int)> {
    walk_from(v.kids, 0, 0)
}

/// The height of a node: one more than the tallest child.
pub open spec fn vheight(v: TreeView) -> nat
    decreases v, 0int,
{
    1 + fheight(v.kids, 0)
}

/// The height of the tallest node of `s` from position `i` on.
pub open spec fn fheight(s: Seq<TreeView>, i: int) -> nat
    decreases s, s.len() - i,
{
    if i < 0 || i >= s.len() {
        0
    } else {
        let h = vheight(s[i]);
        let r = fheight(s, i + 1);
        if h > r {
            h
        } else {
            r
        }
    }
}

/// Every node of a forest fits under the forest's height.
proof fn lemma_fheight_bound(s: Seq<TreeView>, i: int, j: int)
    requires
        0 <= i <= j < s.len(),
    ensures
        vheight(s[j]) <= fheight(s, i),
    decreases j - i,
{
    if i < j {
        lemma_fheight_bound(s, i + 1, j);
    }
}

/// The integer values of a machine-integer pair sequence.
pub open spec fn pairs_of(s: Seq<(i32, usize)>) -> Seq<(int, int)> {
    s.map_values(|p: (i32, usize)| (p.0 as int, p.1 as int))
}

/// The shapes of a forest, one per node, in order.
proof fn lemma_views_from_index(s: Seq<BoneTree>, i: int)
    requires
        0 <= i <= s.len(),
    ensures
        views_from(s, i).len() == s.len() - i,
        forall|j: int|
            0 <= j < s.len() - i ==> #[trigger] views_from(s, i)[j] == tree_view(s[i + j]),
    decreases s.len() - i,
{
    if i < s.len() {
        lemma_views_from_index(s, i + 1);
        assert forall|j: int|
            0 <= j < s.len() - i implies #[trigger] views_from(s, i)[j] == tree_view(
            s[i + j],
        ) by {
            if j > 0 {
                assert(views_from(s, i)[j] == views_from(s, i + 1)[j - 1]);
                assert(views_from(s, i + 1)[j - 1] == tree_view(s[i + 1 + (j - 1)]));
            }
        }
    }
}

/// Append the walk of the subtree under `t` to `out`.
fn traverse_into(t: &BoneTree, d: usize, out: &mut Vec<(i32, usize)>)
    requires
        d + vheight(t@) <= usize::MAX,
    ensures
        pairs_of(final(out)@) == pairs_of(old(out)@) + walk(t@, d as int),
    decreases *t,
{
    out.push((t.id, d));
    let ghost base = out@;
    proof {
        assert(pairs_of(base) =~= pairs_of(old(out)@) + seq![(t.id as int, d as int)]);
        lemma_views_from_index(t.child@, 0);
    }
    let n = t.child.len();
    let mut i: usize = 0;
    while i < n
        invariant
            n == t.child@.len(),
            0 <= i <= n,
            d + vheight(t@) <= usize::MAX,
            t@.kids == views_from(t.child@, 0),
            views_from(t.child@, 0).len() == n,
            forall|j: int|
                0 <= j < n ==> #[trigger] views_from(t.child@, 0)[j] == tree_view(t.child@[j]),
            pairs_of(out@) + walk_from(t@.kids, i as int, d + 1) =~= pairs_of(base) + walk_from(
                t@.kids,
                0,
                d + 1,
            ),
        decreases n - i,
    {
        proof {
            assert(t@.kids[i as int] == tree_view(t.child@[i as int]));
            lemma_fheight_bound(t@.kids, 0, i as int);
            assert(vheight(t@.kids[i as int]) <= fheight(t@.kids, 0));
            assert(vheight(t@) == 1 + fheight(t@.kids, 0));
        }
        let ghost before = out@;
        traverse_into(&t.child[i], d + 1, out);
        proof {
            assert(pairs_of(out@) == pairs_of(before) + walk(
                tree_view(t.child@[i as int]),
                d + 1,
            ));
            assert(walk_from(t@.kids, i as int, d + 1) == walk(t@.kids[i as int], d + 1)
                + walk_from(t@.kids, i + 1, d + 1));
            assert(pairs_of(out@) + walk_from(t@.kids, i + 1, d + 1) =~= pairs_of(base)
                + walk_from(t@.kids, 0, d + 1));
        }
        i += 1;
    }
    proof {
        assert(walk_from(t@.kids, n as int, d + 1) == Seq::<(int, int)>::empty());
        assert(pairs_of(out@) =~= pairs_of(base) + walk_from(t@.kids, 0, d + 1));
        assert(pairs_of(out@) =~= pairs_of(old(out)@) + walk(t@, d as int));
    }
}

/// Walk the tree depth first and return each visited node's identity
/// with its depth; the direct children of `t` stand at depth zero and
/// `t` itself is not reported.
///
/// The walk is bounded by the tree structure itself, so it ends on any
/// tree, however malformed the bone list it was built from.
pub fn traverse(t: &BoneTree) -> (r: Vec<(i32, usize)>)
    requires
        vheight(t@) <= usize::MAX,
    ensures
        pairs_of(r@) == spec_traverse(t@),
{
    let mut out: Vec<(i32, usize)> = Vec::new();
    proof {
        lemma_views_from_index(t.child@, 0);
        assert(pairs_of(out@) =~= Seq::<(int, int)>::empty());
    }
    let n = t.child.len();
    let mut i: usize = 0;
    while i < n
        invariant
            n == t.child@.len(),
            0 <= i <= n,
            vheight(t@) <= usize::MAX,
            t@.kids == views_from(t.child@, 0),
            views_from(t.child@, 0).len() == n,
            forall|j: int|
                0 <= j < n ==> #[trigger] views_from(t.child@, 0)[j] == tree_view(t.child@[j]),
            pairs_of(out@) + walk_from(t@.kids, i as int, 0) =~= walk_from(t@.kids, 0, 0),
        decreases n - i,
    {
        proof {
            assert(t@.kids[i as int] == tree_view(t.child@[i as int]));
            lemma_fheight_bound(t@.kids, 0, i as int);
            assert(vheight(t@) == 1 + fheight(t@.kids, 0));
        }
        let ghost before = out@;
        traverse_into(&t.child[i], 0, &mut out);
        proof {
            assert(pairs_of(out@) == pairs_of(before) + walk(tree_view(t.child@[i as int]), 0));
            assert(walk_from(t@.kids, i as int, 0) == walk(t@.kids[i as int], 0) + walk_from(
                t@.kids,
                i + 1,
                0,
            ));
            assert(pairs_of(out@) + walk_from(t@.kids, i + 1, 0) =~= walk_from(t@.kids, 0, 0));
        }
        i += 1;
    }
    proof {
        assert(walk_from(t@.kids, n as int, 0) == Seq::<(int, int)>::empty());
        assert(pairs_of(out@) =~= walk_from(t@.kids, 0, 0));
    }
    out
}

/// The canonical tree below `id` is no taller than the bones that can
/// still stand below it.
pub proof fn lemma_tree_height(ps: Seq<int>, id: int)
    requires
        tree_domain(ps, id),
    ensures
        vheight(spec_tree(ps, id)) <= ps.len() + 1 - depth(ps, id),
    decreases ps.len() - depth(ps, id), 1int, 0int,
{
    if id == -1 {
        assert(depth(ps, id) == 0);
    } else {
        lemma_depth_step(ps, id);
    }
    let ids = spec_kids(ps, id);
    let f = spec_forest(ps, id, ids);
    lemma_kids_upto(ps, id, ps.len() as int);
    assert(forest_domain(ps, id, ids));
    lemma_forest_index(ps, id, ids);
    lemma_forest_height(ps, id, ids, f, 0);
    assert(vheight(spec_tree(ps, id)) == 1 + fheight(f, 0));
}

/// Forest version of [`lemma_tree_height`].
proof fn lemma_forest_height(ps: Seq<int>, parent: int, ids: Seq<int>, f: Seq<TreeView>, i: int)
    requires
        forest_domain(ps, parent, ids),
        f.len() == ids.len(),
        forall|j: int| 0 <= j < ids.len() ==> #[trigger] f[j] == spec_tree(ps, ids[j]),
        0 <= i <= ids.len(),
    ensures
        fheight(f, i) <= ps.len() - depth(ps, parent),
    decreases ps.len() - depth(ps, parent), 0int, ids.len() - i,
{
    if parent == -1 {
        assert(depth(ps, parent) == 0);
    } else {
        lemma_depth_step(ps, parent);
    }
    if i < ids.len() {
        lemma_depth_step(ps, ids[i]);
        lemma_tree_height(ps, ids[i]);
        lemma_forest_height(ps, parent, ids, f, i + 1);
    }
}

/// The rebuilt tree of `bones` is no taller than the bone count plus
/// the virtual root.
pub proof fn lemma_build_tree_height(bones: Seq<BoneRecord>)
    ensures
        vheight(spec_build_tree(bones)) <= bones.len() + 1,
{
    lemma_parents_of_wf(bones);
    lemma_final_parents_rooted(parents_of(bones));
    lemma_tree_height(final_parents(parents_of(bones)), -1);
}

/// Two bone lists with the same parent references rebuild into the
/// same tree with the same diagnostics: names, flags and depths play no
/// part.
pub proof fn lemma_same_parents(bones1: Seq<BoneRecord>, bones2: Seq<BoneRecord>)
    requires
        bones1.len() == bones2.len(),
        forall|i: int|
            0 <= i < bones1.len() ==> #[trigger] bones1[i].parent == bones2[i].parent,
    ensures
        parents_of(bones1) == parents_of(bones2),
        spec_build_tree(bones1) == spec_build_tree(bones2),
        spec_diagnostics(bones1) == spec_diagnostics(bones2),
{
    assert(parents_of(bones1) =~= parents_of(bones2));
    lemma_diag_upto_agree(bones1, bones2, bones1.len() as int);
}

proof fn lemma_diag_upto_agree(bones1: Seq<BoneRecord>, bones2: Seq<BoneRecord>, n: int)
    requires
        bones1.len() == bones2.len(),
        forall|i: int|
            0 <= i < bones1.len() ==> #[trigger] bones1[i].parent == bones2[i].parent,
        n <= bones1.len(),
    ensures
        diag_upto(bones1, n) == diag_upto(bones2, n),
    decreases n,
{
    if n > 0 {
        lemma_diag_upto_agree(bones1, bones2, n - 1);
        assert(parents_of(bones1) =~= parents_of(bones2));
        assert(needs_diag(bones1, n - 1) == needs_diag(bones2, n - 1));
    }
}

// ---------------------------------------------------------------------
// Laws of the rebuild.
// ---------------------------------------------------------------------

/// Whether `k` stands as a direct child of the node `v`.
pub open spec fn has_direct_child(v: TreeView, k: int) -> bool {
    exists|j: int| 0 <= j < v.kids.len() && #[trigger] v.kids[j].id == k
}

/// The rebuilt tree holds one node per bone beside the virtual root:
/// exactly `N + 1` nodes, each identity exactly once, whatever the
/// parent references were.
pub proof fn lemma_build_node_count(bones: Seq<BoneRecord>)
    ensures
        vids(spec_build_tree(bones)).len() == bones.len() + 1,
        vids(spec_build_tree(bones)).no_duplicates(),
        vids(spec_build_tree(bones)).to_set() =~= vstd::set_lib::set_int_range(
            -1,
            bones.len() as int,
        ),
{
    lemma_parents_of_wf(bones);
    lemma_final_parents_rooted(parents_of(bones));
    lemma_tree_count(final_parents(parents_of(bones)));
}

/// Rebuilding over an unchanged bone list yields a structurally
/// identical tree and the identical diagnostics: the rebuild is a pure
/// function of the list, so two runs agree.
pub proof fn lemma_build_idempotent(
    bones: Seq<BoneRecord>,
    t1: TreeView,
    d1: Seq<Diagnostic>,
    t2: TreeView,
    d2: Seq<Diagnostic>,
)
    requires
        t1 == spec_build_tree(bones),
        d1 == spec_diagnostics(bones),
        t2 == spec_build_tree(bones),
        d2 == spec_diagnostics(bones),
    ensures
        t1 == t2,
        d1 == d2,
{
}

/// A bone whose final parent is the virtual root stands as its direct
/// child.
proof fn lemma_final_root_child(bones: Seq<BoneRecord>, k: int)
    requires
        0 <= k < bones.len(),
        final_parents(parents_of(bones))[k] == -1,
    ensures
        has_direct_child(spec_build_tree(bones), k),
{
    let fp = final_parents(parents_of(bones));
    lemma_parents_of_wf(bones);
    lemma_final_parents_rooted(parents_of(bones));
    lemma_kids_upto(fp, -1, fp.len() as int);
    let ids = spec_kids(fp, -1);
    assert(ids.contains(k));
    let j = choose|j: int| 0 <= j < ids.len() && ids[j] == k;
    assert(forest_domain(fp, -1, ids));
    lemma_forest_index(fp, -1, ids);
    let root = spec_build_tree(bones);
    assert(root.kids == spec_forest(fp, -1, ids));
    assert(root.kids[j] == spec_tree(fp, k));
    lemma_depth_step(fp, k);
    assert(spec_tree(fp, k).id == k);
}

/// A bone recorded without a parent is a direct child of the virtual
/// root.
pub proof fn lemma_orphan_is_root_child(bones: Seq<BoneRecord>, k: int)
    requires
        0 <= k < bones.len(),
        bones[k].parent == -1,
    ensures
        has_direct_child(spec_build_tree(bones), k),
{
    let ps = parents_of(bones);
    assert(ps[k] == -1);
    assert(reaches_root(ps, k, ps.len() as nat)) by {
        assert(reaches_root(ps, -1, (ps.len() - 1) as nat));
    }
    assert(final_parents(ps)[k] == -1);
    lemma_final_root_child(bones, k);
}

/// A bone recorded as its own parent is recovered as a direct child of
/// the virtual root.
pub proof fn lemma_self_parent_is_root_child(bones: Seq<BoneRecord>, k: int)
    requires
        0 <= k < bones.len(),
        bones[k].parent == k,
    ensures
        has_direct_child(spec_build_tree(bones), k),
        needs_diag(bones, k),
{
    let ps = parents_of(bones);
    assert(ps[k] == -1);
    assert(reaches_root(ps, k, ps.len() as nat)) by {
        assert(reaches_root(ps, -1, (ps.len() - 1) as nat));
    }
    assert(final_parents(ps)[k] == -1);
    lemma_final_root_child(bones, k);
}

/// Exactly when a bone is diagnosed: its recorded parent is not the
/// explicit `-1` and is out of range, the bone's own identity, or the
/// head of a chain that never reaches the root.
pub proof fn lemma_diag_exactly_for_repairs(bones: Seq<BoneRecord>, i: int)
    requires
        0 <= i < bones.len(),
    ensures
        needs_diag(bones, i) <==> (bones[i].parent != -1 && (bones[i].parent as int
            >= bones.len() || bones[i].parent < -1 || bones[i].parent as int == i
            || !reaches_root(parents_of(bones), i, bones.len() as nat))),
{
    let ps = parents_of(bones);
    let p = bones[i].parent as int;
    if p == -1 {
        assert(ps[i] == -1);
        assert(reaches_root(ps, i, ps.len() as nat)) by {
            assert(reaches_root(ps, -1, (ps.len() - 1) as nat));
        }
        assert(final_parents(ps)[i] == -1);
    } else if 0 <= p && p < bones.len() && p != i {
        assert(ps[i] == p);
        if reaches_root(ps, i, ps.len() as nat) {
            assert(final_parents(ps)[i] == p);
        } else {
            assert(final_parents(ps)[i] == -1);
        }
    } else {
        assert(ps[i] == -1);
        assert(reaches_root(ps, i, ps.len() as nat)) by {
            assert(reaches_root(ps, -1, (ps.len() - 1) as nat));
        }
        assert(final_parents(ps)[i] == -1);
    }
}

/// A walk reports exactly one pair per node of the tree.
pub proof fn lemma_walk_counts_nodes(v: TreeView, d: int)
    ensures
        walk(v, d).len() == vids(v).len(),
    decreases v, 0int,
{
    lemma_walk_from_counts(v.kids, 0, d + 1);
}

proof fn lemma_walk_from_counts(s: Seq<TreeView>, i: int, d: int)
    ensures
        walk_from(s, i, d).len() == vids_from(s, i).len(),
    decreases s, s.len() - i,
{
    if 0 <= i && i < s.len() {
        lemma_walk_counts_nodes(s[i], d);
        lemma_walk_from_counts(s, i + 1, d);
    }
}

/// The traversal of the rebuilt tree reports every bone exactly once:
/// one pair per bone, the virtual root omitted.
pub proof fn lemma_traverse_counts_bones(bones: Seq<BoneRecord>)
    ensures
        spec_traverse(spec_build_tree(bones)).len() == bones.len(),
{
    lemma_build_node_count(bones);
    let v = spec_build_tree(bones);
    lemma_walk_from_counts(v.kids, 0, 0);
    assert(vids(v) == seq![v.id] + vids_from(v.kids, 0));
}

// ---------------------------------------------------------------------
// Relocation under an edited parent reference.
// ---------------------------------------------------------------------

/// Descent towards `k` only reads entries of nodes other than `k`, so
/// it carries over to a sequence that differs from `ps1` at `k` alone.
proof fn lemma_desc_agree_at(
    ps1: Seq<int>,
    ps2: Seq<int>,
    k: int,
    x: int,
    j: nat,
)
    requires
        ps1.len() == ps2.len(),
        forall|i: int| 0 <= i < ps1.len() && i != k ==> ps1[i] == ps2[i],
        wf_parents(ps1),
        wf_parents(ps2),
        0 <= k < ps1.len(),
        0 <= x < ps1.len(),
        x != k,
        1 <= j,
        anc(ps1, x, j) == k,
    ensures
        is_desc(ps2, x, k),
    decreases j,
{
    let y = ps1[x];
    assert(ps2[x] == y);
    assert(anc(ps1, y, 0) == y);
    assert(anc(ps2, y, 0) == y);
    if y == k {
        assert(anc(ps2, x, 1) == k);
    } else {
        assert(j > 1) by {
            if j == 1 {
                assert(anc(ps1, x, 1) == y);
            }
        }
        assert(y != -1) by {
            if y == -1 {
                assert(anc(ps1, x, j) == anc(ps1, y, (j - 1) as nat));
                assert(anc(ps1, -1, (j - 1) as nat) == -1);
            }
        }
        assert(anc(ps1, y, (j - 1) as nat) == k);
        lemma_desc_agree_at(ps1, ps2, k, y, (j - 1) as nat);
        let m = choose|m: nat| 1 <= m && anc(ps2, y, m) == k;
        assert(anc(ps2, x, (1 + m) as nat) == anc(ps2, ps2[x], m));
        assert(anc(ps2, x, (1 + m) as nat) == k);
    }
}

/// The descendants of `k` agree between two sequences that differ at
/// `k` alone.
proof fn lemma_desc_agree(ps1: Seq<int>, ps2: Seq<int>, k: int, x: int)
    requires
        ps1.len() == ps2.len(),
        forall|i: int| 0 <= i < ps1.len() && i != k ==> ps1[i] == ps2[i],
        wf_parents(ps1),
        wf_parents(ps2),
        rooted(ps1),
        0 <= k < ps1.len(),
        is_desc(ps1, x, k),
    ensures
        is_desc(ps2, x, k),
{
    assert(x != k) by {
        lemma_no_self_desc(ps1, k);
    }
    let j = choose|j: nat| 1 <= j && anc(ps1, x, j) == k;
    lemma_desc_agree_at(ps1, ps2, k, x, j);
}

/// A node's parent never lies in the node's own subtree.
proof fn lemma_parent_outside_subtree(ps: Seq<int>, k: int)
    requires
        wf_parents(ps),
        rooted(ps),
        0 <= k < ps.len(),
    ensures
        !(ps[k] == k || is_desc(ps, ps[k], k)),
{
    let p = ps[k];
    if is_desc(ps, p, k) {
        assert(anc(ps, p, 0) == p);
        assert(anc(ps, k, 1) == p);
        assert(is_desc(ps, k, p));
        assert(0 <= p < ps.len());
        lemma_desc_deeper(ps, p, k);
        lemma_desc_deeper(ps, k, p);
    }
}

/// The children lists agree wherever neither sequence parents `k`
/// there.
proof fn lemma_kids_agree(ps1: Seq<int>, ps2: Seq<int>, k: int, q: int, n: int)
    requires
        ps1.len() == ps2.len(),
        forall|i: int| 0 <= i < ps1.len() && i != k ==> ps1[i] == ps2[i],
        0 <= k < ps1.len(),
        ps1[k] != q,
        ps2[k] != q,
        0 <= n <= ps1.len(),
    ensures
        kids_upto(ps1, q, n) == kids_upto(ps2, q, n),
    decreases n,
{
    if n > 0 {
        lemma_kids_agree(ps1, ps2, k, q, n - 1);
    }
}

/// The whole subtree below a node at or under `k` keeps its shape when
/// only `k`'s parent entry changes.
proof fn lemma_subtree_agree(ps1: Seq<int>, ps2: Seq<int>, k: int, x: int)
    requires
        ps1.len() == ps2.len(),
        forall|i: int| 0 <= i < ps1.len() && i != k ==> ps1[i] == ps2[i],
        wf_parents(ps1),
        wf_parents(ps2),
        rooted(ps1),
        rooted(ps2),
        0 <= k < ps1.len(),
        0 <= x < ps1.len(),
        x == k || is_desc(ps1, x, k),
    ensures
        spec_tree(ps1, x) == spec_tree(ps2, x),
    decreases ps1.len() - depth(ps1, x), 1int, 0int,
{
    lemma_depth_step(ps1, x);
    // Neither sequence parents `k` at `x`.
    assert(ps1[k] != x) by {
        lemma_parent_outside_subtree(ps1, k);
        if ps1[k] == x {
            if x == k {
            } else {
                assert(is_desc(ps1, ps1[k], k));
            }
        }
    }
    assert(ps2[k] != x) by {
        lemma_parent_outside_subtree(ps2, k);
        if ps2[k] == x {
            if x == k {
            } else {
                lemma_desc_agree(ps1, ps2, k, x);
                assert(is_desc(ps2, ps2[k], k));
            }
        }
    }
    lemma_kids_agree(ps1, ps2, k, x, ps1.len() as int);
    let ids = spec_kids(ps1, x);
    assert(spec_kids(ps2, x) == ids);
    lemma_kids_upto(ps1, x, ps1.len() as int);
    assert(forest_domain(ps1, x, ids));
    assert(forest_domain(ps2, x, ids)) by {
        assert forall|j: int|
            0 <= j < ids.len() implies 0 <= #[trigger] ids[j] < ps2.len() && ps2[ids[j]]
            == x by {
            assert(ps1[ids[j]] == x);
            assert(ids[j] != k) by {
                if ids[j] == k {
                    assert(ps1[k] == x);
                }
            }
        }
    }
    lemma_forest_agree(ps1, ps2, k, x, ids, 0);
    lemma_forest_index(ps1, x, ids);
    lemma_forest_index(ps2, x, ids);
    assert(spec_forest(ps1, x, ids) =~= spec_forest(ps2, x, ids));
    assert(spec_tree(ps1, x) =~= spec_tree(ps2, x));
}

/// Forest version of [`lemma_subtree_agree`], child by child.
proof fn lemma_forest_agree(
    ps1: Seq<int>,
    ps2: Seq<int>,
    k: int,
    parent: int,
    ids: Seq<int>,
    i: int,
)
    requires
        ps1.len() == ps2.len(),
        forall|j: int| 0 <= j < ps1.len() && j != k ==> ps1[j] == ps2[j],
        wf_parents(ps1),
        wf_parents(ps2),
        rooted(ps1),
        rooted(ps2),
        0 <= k < ps1.len(),
        0 <= parent < ps1.len(),
        parent == k || is_desc(ps1, parent, k),
        forest_domain(ps1, parent, ids),
        0 <= i <= ids.len(),
    ensures
        forall|j: int|
            i <= j < ids.len() ==> spec_tree(ps1, #[trigger] ids[j]) == spec_tree(ps2, ids[j]),
    decreases ps1.len() - depth(ps1, parent), 0int, ids.len() - i,
{
    lemma_depth_step(ps1, parent);
    if i < ids.len() {
        let c = ids[i];
        lemma_depth_step(ps1, c);
        assert(c == k || is_desc(ps1, c, k)) by {
            assert(anc(ps1, ps1[c], 0) == ps1[c]);
            assert(anc(ps1, c, 1) == parent);
            assert(is_desc(ps1, c, parent));
            if c != k {
                if parent == k {
                } else {
                    lemma_desc_trans(ps1, c, parent, k);
                }
            }
        }
        lemma_subtree_agree(ps1, ps2, k, c);
        lemma_forest_agree(ps1, ps2, k, parent, ids, i + 1);
    }
}

/// Editing one bone's parent reference relocates that bone with its
/// whole subtree under the new parent and leaves every other node's
/// children untouched.
///
/// `bones2` differs from `bones1` in the parent reference of bone `k`
/// alone; both lists are well formed (in range, acyclic). Then the
/// subtree below `k` keeps its exact shape, `k` stands in the children
/// list of its new effective parent, and every node other than the old
/// and the new parent keeps an identical children list.
pub proof fn lemma_edit_relocates(bones1: Seq<BoneRecord>, bones2: Seq<BoneRecord>, k: int)
    requires
        bones1.len() == bones2.len(),
        0 <= k < bones1.len(),
        forall|i: int|
            0 <= i < bones1.len() && i != k ==> #[trigger] bones1[i].parent == bones2[i].parent,
        rooted(parents_of(bones1)),
        rooted(parents_of(bones2)),
    ensures
        spec_tree(parents_of(bones2), k) == spec_tree(parents_of(bones1), k),
        spec_kids(parents_of(bones2), spec_eff_parent(bones2, k)).contains(k),
        forall|q: int|
            -1 <= q < bones1.len() && q != spec_eff_parent(bones1, k) && q != spec_eff_parent(
                bones2,
                k,
            ) ==> spec_kids(parents_of(bones2), q) == spec_kids(parents_of(bones1), q),
        spec_build_tree(bones1) == spec_tree(parents_of(bones1), -1),
        spec_build_tree(bones2) == spec_tree(parents_of(bones2), -1),
{
    let ps1 = parents_of(bones1);
    let ps2 = parents_of(bones2);
    lemma_parents_of_wf(bones1);
    lemma_parents_of_wf(bones2);
    assert(forall|i: int| 0 <= i < ps1.len() && i != k ==> ps1[i] == ps2[i]);
    lemma_subtree_agree(ps1, ps2, k, k);
    lemma_kids_upto(ps2, spec_eff_parent(bones2, k), ps2.len() as int);
    assert(ps2[k] == spec_eff_parent(bones2, k));
    assert forall|q: int|
        -1 <= q < bones1.len() && q != spec_eff_parent(bones1, k) && q != spec_eff_parent(
            bones2,
            k,
        ) implies spec_kids(ps2, q) == spec_kids(ps1, q) by {
        assert(ps1[k] == spec_eff_parent(bones1, k));
        lemma_kids_agree(ps1, ps2, k, q, ps1.len() as int);
    }
    lemma_final_parents_identity(ps1);
    lemma_final_parents_identity(ps2);
    assert(final_parents(ps1) == ps1);
    assert(final_parents(ps2) == ps2);
}

} // verus!
