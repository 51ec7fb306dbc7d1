use vstd::prelude::*;
use vstd::arithmetic::power2::pow2;

verus! {

/// How many bots a node of the tree is meant to hold, as `dinotree_alg` suggests.
pub const TREE_ELEM_PER_NODE: usize = 128;

/// Calls `compt::compute_num_nodes`, which computes `(1 << height) - 1`: the
/// number of nodes of a complete binary tree of that height. The shift
/// overflows from `usize::BITS` on.
#[verifier::external_body]
fn num_nodes(height: usize) -> (res: usize)
    requires
        height < usize::BITS,
    ensures
        res == pow2(height as nat) - 1,
{
    compt::compute_num_nodes(height)
}

/// Calls `dinotree_alg::analyze::compute_tree_height_heuristic`. Its source
/// answers 1 when all bots fit in one node, and otherwise twice the rounded-up
/// half of an `f32` `log2` of `num_bots / num_per_node`, plus one: the answer
/// is odd. When more bots come than fit in one node and `num_per_node` is
/// below 2^24 (so that it and the next integer are exact in `f32`), the `f32`
/// quotient lies above 1, its `log2` above 0, and the rounded-up half is at
/// least 1: the answer is at least 3. That `log2` is as precise as the
/// platform makes it, so which odd height comes back for many bots is left
/// unsaid.
#[verifier::external_body]
#[allow(deprecated)]
fn height_for(num_bots: usize, num_per_node: usize) -> (res: usize)
    requires
        num_per_node > 0,
    ensures
        num_bots <= num_per_node ==> res == 1,
        num_bots > num_per_node && num_per_node < 0x100_0000 ==> res >= 3,
        res % 2 == 1,
{
    dinotree_alg::analyze::compute_tree_height_heuristic(num_bots, num_per_node)
}

/// The height of the tree that the simulation builds over `num_bots` bots:
/// one level when they all fit in one node, and more than that (at least
/// three levels) when they do not.
pub fn tree_height(num_bots: usize) -> (res: usize)
    ensures
        num_bots <= TREE_ELEM_PER_NODE ==> res == 1,
        num_bots > TREE_ELEM_PER_NODE ==> res >= 3,
        res % 2 == 1,
{
    height_for(num_bots, TREE_ELEM_PER_NODE)
}

/// Each bot is drawn as one triangle.
pub open spec fn bot_vertices(num_bot: int) -> int {
    num_bot * 3
}

/// Each pair of nodes of the tree is drawn as a line of two triangles.
pub open spec fn tree_vertices(height: nat) -> int {
    ((pow2(height) - 1) / 2) * 6
}

/// The vertices the simulation draws: its bots, and its tree when it is drawn.
pub open spec fn system_vertices(height: nat, num_bots: int, draw_tree: bool) -> int {
    (if draw_tree {
        tree_vertices(height)
    } else {
        0
    }) + bot_vertices(num_bots)
}

/// A tree of height `h` has 2^h − 1 nodes and is drawn with six vertices for
/// each whole pair of them: 3·(2^h − 2) vertices from height 1 on, none for
/// an empty tree. Each bot takes three vertices, and the tree counts only
/// when it is drawn.
pub proof fn lemma_vertex_counts(h: nat, n: int)
    ensures
        h >= 1 ==> tree_vertices(h) == 3 * (pow2(h) - 2),
        h == 0 ==> tree_vertices(h) == 0,
        system_vertices(h, n, false) == 3 * n,
        system_vertices(h, n, true) == 3 * n + tree_vertices(h),
{
    vstd::arithmetic::power2::lemma_pow2_pos(h);
    if h >= 1 {
        vstd::arithmetic::power2::lemma_pow2_unfold(h);
        let q = pow2((h - 1) as nat);
        assert((2 * q - 1) / 2 == q - 1);
    } else {
        assert(pow2(0) == 1) by {
            vstd::arithmetic::power2::lemma2_to64();
        }
    }
}

/// The counts of vertices fit in a `usize`.
pub open spec fn vertices_fit(height: nat, num_bots: int, draw_tree: bool) -> bool {
    &&& draw_tree ==> height < usize::BITS
    &&& system_vertices(height, num_bots, draw_tree) <= usize::MAX
}

/// How many vertices the triangles of `num_bot` bots take.
pub fn bot_vertex_count(num_bot: usize) -> (res: usize)
    requires
        bot_vertices(num_bot as int) <= usize::MAX,
    ensures
        res == bot_vertices(num_bot as int),
{
    num_bot * 3
}

/// How many vertices the drawing of a tree of height `height` takes.
pub fn tree_vertex_count(height: usize) -> (res: usize)
    requires
        height < usize::BITS,
        tree_vertices(height as nat) <= usize::MAX,
    ensures
        res == tree_vertices(height as nat),
{
    let n = num_nodes(height);
    (n / 2) * 6
}

/// How many vertices the drawing of a tree of height `height` takes, `None`
/// when that count does not fit in a `usize`.
pub fn checked_tree_vertex_count(height: usize) -> (res: Option<usize>)
    ensures
        res == (if height < usize::BITS && tree_vertices(height as nat) <= usize::MAX {
            Some(tree_vertices(height as nat) as usize)
        } else {
            None::<usize>
        }),
{
    if height >= usize::BITS as usize {
        return None;
    }
    let n = num_nodes(height);
    match (n / 2).checked_mul(6) {
        Some(_) => Some(tree_vertex_count(height)),
        None => None,
    }
}

/// How many vertices the simulation draws for a tree of height `height`.
pub fn system_vertex_count_for(height: usize, num_bots: usize, draw_tree: bool) -> (res: usize)
    requires
        vertices_fit(height as nat, num_bots as int, draw_tree),
    ensures
        res == system_vertices(height as nat, num_bots as int, draw_tree),
{
    let t = if draw_tree {
        proof {
            vstd::arithmetic::power2::lemma_pow2_pos(height as nat);
        }
        tree_vertex_count(height)
    } else {
        0
    };
    t + bot_vertex_count(num_bots)
}

/// The height of the tree over `num_bots` bots, and how many vertices the
/// simulation draws for it, `None` when that count does not fit in a `usize`.
pub fn system_vertex_count(num_bots: usize, draw_tree: bool) -> (res: (usize, Option<usize>))
    ensures
        res.0 % 2 == 1,
        num_bots <= TREE_ELEM_PER_NODE ==> res.0 == 1,
        num_bots > TREE_ELEM_PER_NODE ==> res.0 >= 3,
        res.1 == (if vertices_fit(res.0 as nat, num_bots as int, draw_tree) {
            Some(system_vertices(res.0 as nat, num_bots as int, draw_tree) as usize)
        } else {
            None::<usize>
        }),
{
    let height = tree_height(num_bots);
    (height, checked_system_vertex_count(height, num_bots, draw_tree))
}

/// How many vertices the simulation draws for a tree of height `height`,
/// `None` when that count does not fit in a `usize`.
pub fn checked_system_vertex_count(height: usize, num_bots: usize, draw_tree: bool) -> (res: Option<
    usize,
>)
    ensures
        res == (if vertices_fit(height as nat, num_bots as int, draw_tree) {
            Some(system_vertices(height as nat, num_bots as int, draw_tree) as usize)
        } else {
            None::<usize>
        }),
{
    proof {
        vstd::arithmetic::power2::lemma_pow2_pos(height as nat);
    }
    let t: usize = if draw_tree {
        match checked_tree_vertex_count(height) {
            Some(t) => t,
            None => {
                return None;
            },
        }
    } else {
        0
    };
    let b = match num_bots.checked_mul(3) {
        Some(b) => b,
        None => {
            proof {
                vstd::arithmetic::power2::lemma_pow2_pos(height as nat);
            }
            return None;
        },
    };
    match t.checked_add(b) {
        Some(_) => Some(system_vertex_count_for(height, num_bots, draw_tree)),
        None => None,
    }
}

} // verus!
