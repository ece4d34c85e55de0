//! Royalty trees: validation, and the recursive split of an amount into
//! per-node credits that always adds up to the amount.
use vstd::prelude::*;

use crate::fixed::{fits_i128, tdiv};

verus! {

pub const BPS: i128 = 10_000;
pub const MAX_NODES: u32 = 64;
pub const MAX_DEPTH: u32 = 8;

#[derive(Copy, Clone, Debug, PartialEq, Eq, Structural)]
pub enum Error {
    AlreadyInitialized,
    NotInitialized,
    Unauthorized,
    Paused,
    InvalidReference,
    InvalidTree,
    TooManyNodes,
    TreeTooDeep,
    DuplicateAccount,
    InvalidShare,
    AgreementNotFound,
    AgreementInactive,
    InvalidAmount,
    ArithmeticError,
    NothingToClaim,
    EmptyBatch,
    BatchTooLarge,
}

/// One node of an ordered royalty tree. Node zero is the root, with no
/// parent and a share of 10_000; every other node names an earlier parent
/// and receives `share_bps` of what that parent receives.
#[derive(Copy, Clone, Debug, PartialEq, Eq, Structural)]
pub struct RoyaltyNode {
    pub account: u64,
    pub parent: Option<u32>,
    pub share_bps: u32,
}

/// `sum f(i)` for `lo <= i < hi`.
pub open spec fn range_sum(f: spec_fn(int) -> int, lo: int, hi: int) -> int
    decreases hi - lo,
{
    if hi <= lo { 0 } else { range_sum(f, lo, hi - 1) + f(hi - 1) }
}

proof fn lemma_range_sum_first(f: spec_fn(int) -> int, lo: int, hi: int)
    requires
        lo < hi,
    ensures
        range_sum(f, lo, hi) == f(lo) + range_sum(f, lo + 1, hi),
    decreases hi - lo,
{
    if lo + 1 < hi {
        lemma_range_sum_first(f, lo, hi - 1);
        assert(range_sum(f, lo + 1, hi) == range_sum(f, lo + 1, hi - 1) + f(hi - 1));
    } else {
        assert(range_sum(f, lo, lo) == 0);
        assert(range_sum(f, lo + 1, hi) == 0);
    }
}

/// Sums of pointwise equal terms are equal.
pub proof fn lemma_range_sum_ext_pub(f: spec_fn(int) -> int, g: spec_fn(int) -> int, lo: int, hi: int)
    requires
        forall|i: int| lo <= i < hi ==> #[trigger] f(i) == g(i),
    ensures
        range_sum(f, lo, hi) == range_sum(g, lo, hi),
{
    lemma_range_sum_ext(f, g, lo, hi);
}

proof fn lemma_range_sum_ext(f: spec_fn(int) -> int, g: spec_fn(int) -> int, lo: int, hi: int)
    requires
        forall|i: int| lo <= i < hi ==> #[trigger] f(i) == g(i),
    ensures
        range_sum(f, lo, hi) == range_sum(g, lo, hi),
    decreases hi - lo,
{
    if lo < hi {
        lemma_range_sum_ext(f, g, lo, hi - 1);
    }
}

proof fn lemma_range_sum_add(f: spec_fn(int) -> int, g: spec_fn(int) -> int, h: spec_fn(int) -> int, lo: int, hi: int)
    requires
        forall|i: int| lo <= i < hi ==> #[trigger] h(i) == f(i) + g(i),
    ensures
        range_sum(h, lo, hi) == range_sum(f, lo, hi) + range_sum(g, lo, hi),
    decreases hi - lo,
{
    if lo < hi {
        lemma_range_sum_add(f, g, h, lo, hi - 1);
    }
}

proof fn lemma_range_sum_nonneg(f: spec_fn(int) -> int, lo: int, hi: int)
    requires
        forall|i: int| lo <= i < hi ==> #[trigger] f(i) >= 0,
    ensures
        range_sum(f, lo, hi) >= 0,
    decreases hi - lo,
{
    if lo < hi {
        lemma_range_sum_nonneg(f, lo, hi - 1);
    }
}

proof fn lemma_range_sum_split(f: spec_fn(int) -> int, lo: int, mid: int, hi: int)
    requires
        lo <= mid <= hi,
    ensures
        range_sum(f, lo, hi) == range_sum(f, lo, mid) + range_sum(f, mid, hi),
    decreases hi - mid,
{
    if mid < hi {
        lemma_range_sum_split(f, lo, mid, hi - 1);
    }
}

/// A prefix of non-negative terms is at most the whole sum.
proof fn lemma_range_sum_prefix_le(f: spec_fn(int) -> int, lo: int, mid: int, hi: int)
    requires
        lo <= mid <= hi,
        forall|i: int| lo <= i < hi ==> #[trigger] f(i) >= 0,
    ensures
        range_sum(f, lo, mid) <= range_sum(f, lo, hi),
    decreases hi - mid,
{
    if mid < hi {
        lemma_range_sum_prefix_le(f, lo, mid, hi - 1);
    }
}

/// The index of node `i`'s parent, or -1 for none.
pub open spec fn parent_index(nodes: Seq<RoyaltyNode>, i: int) -> int {
    match nodes[i].parent {
        Some(p) => p as int,
        None => -1,
    }
}

/// What node `i` receives of `amount`: the root all of it, any other node
/// its share of its parent's receipt, rounded toward zero.
pub open spec fn incoming(nodes: Seq<RoyaltyNode>, amount: int, i: int) -> int
    decreases i,
{
    if i <= 0 {
        amount
    } else {
        let p = parent_index(nodes, i);
        if 0 <= p < i {
            tdiv(incoming(nodes, amount, p) * nodes[i].share_bps, 10_000)
        } else {
            0
        }
    }
}

/// What the children of `p` receive.
pub open spec fn child_receipts(nodes: Seq<RoyaltyNode>, amount: int, p: int) -> spec_fn(int) -> int {
    |c: int| if parent_index(nodes, c) == p { incoming(nodes, amount, c) } else { 0 }
}

/// The shares of the children of `p`.
pub open spec fn child_shares(nodes: Seq<RoyaltyNode>, p: int) -> spec_fn(int) -> int {
    |c: int| if parent_index(nodes, c) == p { nodes[c].share_bps as int } else { 0 }
}

/// What node `p` keeps: its receipt less what it passes to its children.
pub open spec fn credit(nodes: Seq<RoyaltyNode>, amount: int, p: int) -> int {
    incoming(nodes, amount, p) - range_sum(child_receipts(nodes, amount, p), p + 1, nodes.len() as int)
}

/// Node `i`'s depth below the root.
pub open spec fn depth(nodes: Seq<RoyaltyNode>, i: int) -> int
    decreases i,
{
    if i <= 0 {
        0
    } else {
        let p = parent_index(nodes, i);
        if 0 <= p < i { depth(nodes, p) + 1 } else { 0 }
    }
}

/// The check of node `i` against the nodes before it.
pub open spec fn node_check(nodes: Seq<RoyaltyNode>, i: int) -> Result<(), Error> {
    let node = nodes[i];
    if node.share_bps == 0 || node.share_bps > BPS {
        Err(Error::InvalidShare)
    } else if exists|j: int| 0 <= j < i && #[trigger] nodes[j].account == node.account {
        Err(Error::DuplicateAccount)
    } else if i > 0 {
        match node.parent {
            None => Err(Error::InvalidTree),
            Some(p) => if p >= i {
                Err(Error::InvalidTree)
            } else if depth(nodes, p as int) + 1 > MAX_DEPTH {
                Err(Error::TreeTooDeep)
            } else if range_sum(child_shares(nodes, p as int), 1, i) + node.share_bps > BPS {
                Err(Error::InvalidShare)
            } else {
                Ok(())
            },
        }
    } else {
        Ok(())
    }
}

/// The first failing node check from `i` on.
pub open spec fn checks_from(nodes: Seq<RoyaltyNode>, i: int) -> Result<(), Error>
    decreases nodes.len() - i,
{
    if i >= nodes.len() {
        Ok(())
    } else if node_check(nodes, i) is Err {
        node_check(nodes, i)
    } else {
        checks_from(nodes, i + 1)
    }
}

/// What validating a tree returns.
pub open spec fn tree_validation(nodes: Seq<RoyaltyNode>) -> Result<(), Error> {
    if nodes.len() == 0 {
        Err(Error::InvalidTree)
    } else if nodes.len() > MAX_NODES {
        Err(Error::TooManyNodes)
    } else if nodes[0].parent is Some || nodes[0].share_bps != BPS {
        Err(Error::InvalidTree)
    } else {
        checks_from(nodes, 0)
    }
}

/// The facts about a valid tree that the split relies on.
pub open spec fn well_shaped(nodes: Seq<RoyaltyNode>) -> bool {
    &&& 1 <= nodes.len() <= MAX_NODES
    &&& nodes[0].parent is None
    &&& forall|i: int| 1 <= i < nodes.len() ==> 0 <= #[trigger] parent_index(nodes, i) < i
    &&& forall|i: int| 0 <= i < nodes.len() ==> 0 < #[trigger] nodes[i].share_bps <= BPS
    &&& forall|p: int| 0 <= p < nodes.len() ==> range_sum(#[trigger] child_shares(nodes, p), 1, nodes.len() as int) <= BPS
}

proof fn lemma_checks_from_all(nodes: Seq<RoyaltyNode>, i: int)
    requires
        0 <= i,
        checks_from(nodes, i) is Ok,
    ensures
        forall|k: int| i <= k < nodes.len() ==> #[trigger] node_check(nodes, k) is Ok,
    decreases nodes.len() - i,
{
    if i < nodes.len() {
        lemma_checks_from_all(nodes, i + 1);
    }
}

/// Every node of a tree that passes validation passes its check.
pub proof fn lemma_checks_all_ok(nodes: Seq<RoyaltyNode>)
    requires
        tree_validation(nodes) is Ok,
    ensures
        forall|k: int| 0 <= k < nodes.len() ==> #[trigger] node_check(nodes, k) is Ok,
{
    lemma_checks_from_all(nodes, 0);
}

/// A tree that passes validation is well shaped.
pub proof fn lemma_valid_tree_shape(nodes: Seq<RoyaltyNode>)
    requires
        tree_validation(nodes) is Ok,
    ensures
        well_shaped(nodes),
{
    lemma_checks_from_all(nodes, 0);
    assert forall|i: int| 1 <= i < nodes.len() implies 0 <= #[trigger] parent_index(nodes, i) < i by {
        assert(node_check(nodes, i) is Ok);
    }
    assert forall|i: int| 0 <= i < nodes.len() implies 0 < #[trigger] nodes[i].share_bps <= BPS by {
        assert(node_check(nodes, i) is Ok);
    }
    assert forall|p: int| 0 <= p < nodes.len() implies
        range_sum(#[trigger] child_shares(nodes, p), 1, nodes.len() as int) <= BPS by {
        lemma_child_shares_bounded(nodes, p, nodes.len() as int);
    }
}

proof fn lemma_child_shares_bounded(nodes: Seq<RoyaltyNode>, p: int, m: int)
    requires
        1 <= m <= nodes.len(),
        forall|k: int| 0 <= k < nodes.len() ==> #[trigger] node_check(nodes, k) is Ok,
    ensures
        range_sum(child_shares(nodes, p), 1, m) <= BPS,
    decreases m,
{
    if m > 1 {
        lemma_child_shares_bounded(nodes, p, m - 1);
        assert(node_check(nodes, m - 1) is Ok);
    }
}

/// The credits of all nodes add up to the amount split.
pub proof fn lemma_credits_sum_to_amount(nodes: Seq<RoyaltyNode>, amount: int)
    requires
        well_shaped(nodes),
    ensures
        range_sum(|i: int| credit(nodes, amount, i), 0, nodes.len() as int) == amount,
{
    let n = nodes.len() as int;
    let cr = |i: int| credit(nodes, amount, i);
    // What the not-yet-processed nodes at or after `c` receive from the
    // nodes before `p`.
    let pend = |p: int| (|c: int| if 0 <= parent_index(nodes, c) < p { incoming(nodes, amount, c) } else { 0 });
    assert forall|p: int| 1 <= p <= n implies #[trigger] range_sum(cr, 0, p) == amount - range_sum(pend(p), p, n) by {
        lemma_credit_prefix(nodes, amount, p);
    }
    assert(range_sum(pend(n), n, n) == 0);
}

proof fn lemma_credit_prefix(nodes: Seq<RoyaltyNode>, amount: int, p: int)
    requires
        well_shaped(nodes),
        1 <= p <= nodes.len(),
    ensures
        range_sum(|i: int| credit(nodes, amount, i), 0, p) == amount - range_sum(
            |c: int| if 0 <= parent_index(nodes, c) < p { incoming(nodes, amount, c) } else { 0 },
            p,
            nodes.len() as int,
        ),
    decreases p,
{
    let n = nodes.len() as int;
    let cr = |i: int| credit(nodes, amount, i);
    let pend_p = |c: int| if 0 <= parent_index(nodes, c) < p { incoming(nodes, amount, c) } else { 0 };
    if p == 1 {
        let ch0 = child_receipts(nodes, amount, 0);
        lemma_range_sum_ext(pend_p, ch0, 1, n);
        assert(range_sum(cr, 0, 0) == 0);
        assert(range_sum(cr, 0, 1) == range_sum(cr, 0, 0) + cr(0));
    } else {
        let q = p - 1;
        lemma_credit_prefix(nodes, amount, q);
        let pend_q = |c: int| if 0 <= parent_index(nodes, c) < q { incoming(nodes, amount, c) } else { 0 };
        let chq = child_receipts(nodes, amount, q);
        // pend_q over [q, n) = incoming(q) + pend_q over [q + 1, n)
        lemma_range_sum_first(pend_q, q, n);
        assert(0 <= parent_index(nodes, q) < q);
        // pend_p = pend_q + chq pointwise
        lemma_range_sum_add(pend_q, chq, pend_p, p, n);
        assert(range_sum(cr, 0, p) == range_sum(cr, 0, q) + credit(nodes, amount, q));
    }
}

/// `incoming` stays between zero and the amount for a non-negative amount.
pub proof fn lemma_incoming_bounded(nodes: Seq<RoyaltyNode>, amount: int, i: int)
    requires
        well_shaped(nodes),
        amount >= 0,
        0 <= i < nodes.len(),
    ensures
        0 <= incoming(nodes, amount, i) <= amount,
    decreases i,
{
    if i > 0 {
        let p = parent_index(nodes, i);
        lemma_incoming_bounded(nodes, amount, p);
        let a = incoming(nodes, amount, p);
        let s = nodes[i].share_bps as int;
        assert(0 <= (a * s) / 10_000 <= a) by (nonlinear_arith)
            requires 0 <= a, 0 < s <= 10_000;
    }
}

/// Every multiplication of the split fits in an `i128`.
pub open spec fn split_fits(nodes: Seq<RoyaltyNode>, amount: int) -> bool {
    forall|c: int| 1 <= c < nodes.len() ==> fits_i128(
        #[trigger] incoming(nodes, amount, parent_index(nodes, c)) * nodes[c].share_bps,
    )
}

/// Validate a royalty tree: non-empty, at most 64 nodes, the root first
/// with no parent and the full share, then each node with a share of 1 to
/// 10_000, an account of its own, an earlier parent at depth below 8 and
/// children's shares adding up to at most 10_000.
pub fn validate_tree(nodes: &Vec<RoyaltyNode>) -> (r: Result<(), Error>)
    ensures
        r == tree_validation(nodes@),
{
    let n = nodes.len();
    if n == 0 {
        return Err(Error::InvalidTree);
    }
    if n > MAX_NODES as usize {
        return Err(Error::TooManyNodes);
    }
    if nodes[0].parent.is_some() || nodes[0].share_bps != 10_000 {
        return Err(Error::InvalidTree);
    }
    let mut depths: Vec<u32> = Vec::new();
    let mut totals: Vec<u32> = Vec::new();
    let mut k: usize = 0;
    while k < n
        invariant
            k <= n,
            n == nodes.len(),
            depths@.len() == k,
            totals@.len() == k,
            forall|j: int| 0 <= j < k ==> #[trigger] totals@[j] == 0,
            forall|j: int| 0 <= j < k ==> #[trigger] depths@[j] == 0,
        decreases n - k,
    {
        depths.push(0);
        totals.push(0);
        k = k + 1;
    }
    let mut i: usize = 0;
    while i < n
        invariant
            i <= n,
            n == nodes.len(),
            1 <= n <= MAX_NODES,
            nodes@[0].parent is None,
            nodes@[0].share_bps == BPS,
            forall|j: int| i <= j < n ==> #[trigger] depths@[j] == 0,
            depths@.len() == n,
            totals@.len() == n,
            checks_from(nodes@, 0) == checks_from(nodes@, i as int) || checks_from(nodes@, 0) is Err,
            forall|j: int| 0 <= j < i ==> #[trigger] node_check(nodes@, j) is Ok,
            forall|j: int| 0 <= j < i ==> #[trigger] depths@[j] == depth(nodes@, j) && depths@[j] <= MAX_DEPTH,
            forall|p: int| 0 <= p < n ==> #[trigger] totals@[p] == range_sum(child_shares(nodes@, p), 1, i as int),
            forall|p: int| 0 <= p < n ==> #[trigger] range_sum(child_shares(nodes@, p), 1, i as int) <= BPS,
        decreases n - i,
    {
        let checked = check_node(nodes, i, &depths, &totals);
        if checked.is_err() {
            proof {
                lemma_checks_prefix_ok(nodes@, i as int);
                assert(checks_from(nodes@, i as int) == node_check(nodes@, i as int));
            }
            return checked;
        }
        let node = nodes[i];
        if i > 0 {
            let parent = match node.parent {
                Some(p) => p,
                None => return Err(Error::InvalidTree),
            };
            let new_depth = depths[parent as usize] + 1;
            let total = totals[parent as usize] + node.share_bps;
            proof {
                assert(parent < i);
                assert(depth(nodes@, i as int) == depth(nodes@, parent as int) + 1);
            }
            depths.set(i, new_depth);
            totals.set(parent as usize, total);
        }
        proof {
            assert(node_check(nodes@, i as int) is Ok);
            assert forall|p: int| 0 <= p < n implies #[trigger] totals@[p]
                == range_sum(child_shares(nodes@, p), 1, i + 1) by {
                if i > 0 {
                    assert(range_sum(child_shares(nodes@, p), 1, i + 1)
                        == range_sum(child_shares(nodes@, p), 1, i as int) + child_shares(nodes@, p)(i as int));
                } else {
                    assert(range_sum(child_shares(nodes@, p), 1, 1) == 0);
                    assert(range_sum(child_shares(nodes@, p), 1, 0) == 0);
                }
            }
            assert forall|p: int| 0 <= p < n implies #[trigger] range_sum(child_shares(nodes@, p), 1, i + 1) <= BPS by {
                assert(totals@[p] == range_sum(child_shares(nodes@, p), 1, i + 1));
            }
            lemma_checks_step(nodes@, i as int);
        }
        i = i + 1;
    }
    proof {
        lemma_checks_prefix_all(nodes@, n as int);
    }
    Ok(())
}


fn check_node(nodes: &Vec<RoyaltyNode>, i: usize, depths: &Vec<u32>, totals: &Vec<u32>) -> (r: Result<(), Error>)
    requires
        i < nodes.len(),
        depths@.len() == nodes.len(),
        totals@.len() == nodes.len(),
        forall|j: int| 0 <= j < i ==> #[trigger] depths@[j] == depth(nodes@, j) && depths@[j] <= MAX_DEPTH,
        forall|p: int| 0 <= p < nodes.len() ==> #[trigger] totals@[p] == range_sum(child_shares(nodes@, p), 1, i as int),
        forall|p: int| 0 <= p < nodes.len() ==> #[trigger] range_sum(child_shares(nodes@, p), 1, i as int) <= BPS,
    ensures
        r == node_check(nodes@, i as int),
{
    let node = nodes[i];
    if node.share_bps == 0 || node.share_bps > 10_000 {
        return Err(Error::InvalidShare);
    }
    let mut j: usize = 0;
    while j < i
        invariant
            j <= i < nodes.len(),
            node == nodes@[i as int],
            !(node.share_bps == 0 || node.share_bps > 10_000),
            forall|m: int| 0 <= m < j ==> nodes@[m].account != node.account,
        decreases i - j,
    {
        if node.account == nodes[j].account {
            assert(nodes@[j as int].account == nodes@[i as int].account);
            assert(exists|m: int| 0 <= m < i && #[trigger] nodes@[m].account == nodes@[i as int].account);
            return Err(Error::DuplicateAccount);
        }
        j = j + 1;
    }
    if i > 0 {
        let parent = match node.parent {
            Some(p) => p,
            None => return Err(Error::InvalidTree),
        };
        if parent as usize >= i {
            return Err(Error::InvalidTree);
        }
        let new_depth = depths[parent as usize] + 1;
        if new_depth > MAX_DEPTH {
            return Err(Error::TreeTooDeep);
        }
        let total = totals[parent as usize] + node.share_bps;
        if total > 10_000 {
            return Err(Error::InvalidShare);
        }
    }
    Ok(())
}

proof fn lemma_checks_step(nodes: Seq<RoyaltyNode>, i: int)
    requires
        0 <= i < nodes.len(),
        node_check(nodes, i) is Ok,
    ensures
        checks_from(nodes, i) == checks_from(nodes, i + 1),
{
}

/// With every check before `i` passing, the first failure is at or after `i`.
proof fn lemma_checks_prefix_ok(nodes: Seq<RoyaltyNode>, i: int)
    requires
        0 <= i < nodes.len(),
        forall|j: int| 0 <= j < i ==> #[trigger] node_check(nodes, j) is Ok,
    ensures
        checks_from(nodes, 0) == checks_from(nodes, i),
    decreases i,
{
    if i > 0 {
        lemma_checks_prefix_ok(nodes, i - 1);
        lemma_checks_step(nodes, i - 1);
    }
}

proof fn lemma_checks_prefix_all(nodes: Seq<RoyaltyNode>, n: int)
    requires
        n == nodes.len(),
        n >= 1,
        forall|j: int| 0 <= j < n ==> #[trigger] node_check(nodes, j) is Ok,
    ensures
        checks_from(nodes, 0) is Ok,
{
    lemma_checks_prefix_ok(nodes, n - 1);
    lemma_checks_step(nodes, n - 1);
}


/// `a * b / divisor` with Rust's checked operations: `None` on overflow or
/// a zero divisor.
pub open spec fn spec_checked_mul_div(a: int, b: int, divisor: int) -> Option<i128> {
    match crate::fixed::cmul(a, b) {
        None => None,
        Some(v) => crate::fixed::cdiv(v as int, divisor),
    }
}

/// `a * b / divisor`, or `ArithmeticError` where the product overflows or
/// the division fails.
pub fn checked_mul_div(a: i128, b: i128, divisor: i128) -> (r: Result<i128, Error>)
    ensures
        r == (match spec_checked_mul_div(a as int, b as int, divisor as int) {
            Some(v) => Ok(v),
            None => Err(Error::ArithmeticError),
        }),
{
    let product = match a.checked_mul(b) {
        Some(v) => v,
        None => return Err(Error::ArithmeticError),
    };
    match crate::fixed::div_checked(product, divisor) {
        Some(v) => Ok(v),
        None => Err(Error::ArithmeticError),
    }
}

/// The children of `p` have shares adding up to at most 10_000, all of
/// them after `p`.
proof fn lemma_child_shares_after(nodes: Seq<RoyaltyNode>, p: int)
    requires
        well_shaped(nodes),
        0 <= p < nodes.len(),
    ensures
        range_sum(child_shares(nodes, p), p + 1, nodes.len() as int) <= BPS,
        forall|c: int| 0 <= c < nodes.len() ==> #[trigger] child_shares(nodes, p)(c) >= 0,
{
    let n = nodes.len() as int;
    let f = child_shares(nodes, p);
    assert(range_sum(f, 1, n) <= BPS);
    assert forall|c: int| 0 <= c < nodes.len() implies #[trigger] f(c) >= 0 by {
        if parent_index(nodes, c) == p {
            assert(0 < nodes[c].share_bps);
        }
    }
    if p >= 1 {
        lemma_range_sum_split(f, 1, p + 1, n);
        assert forall|c: int| 1 <= c < p + 1 implies #[trigger] f(c) == (|x: int| 0int)(c) by {
            assert(0 <= parent_index(nodes, c) < c);
        }
        lemma_range_sum_ext(f, |x: int| 0int, 1, p + 1);
        lemma_range_sum_zero(1, p + 1);
    } else {
        assert(f(0) == 0);
        lemma_range_sum_first(f, 0, n);
        lemma_range_sum_first(f, 0, n);
        if n > 1 {
            lemma_range_sum_split(f, 0, 1, n);
        }
    }
}

proof fn lemma_range_sum_zero(lo: int, hi: int)
    ensures
        range_sum(|x: int| 0int, lo, hi) == 0,
    decreases hi - lo,
{
    if lo < hi {
        lemma_range_sum_zero(lo, hi - 1);
    }
}

/// Split `amount` down a well-shaped tree: each child receives its share of
/// what its parent receives (rounded toward zero) and each node keeps the
/// rest of what it receives. Returns what each node keeps; the credits add
/// up to `amount` (`lemma_credits_sum_to_amount`).
pub fn allocate(amount: i128, nodes: &Vec<RoyaltyNode>) -> (r: Result<Vec<i128>, Error>)
    requires
        well_shaped(nodes@),
        amount > 0,
    ensures
        r is Ok <==> split_fits(nodes@, amount as int),
        r is Err ==> r->Err_0 == Error::ArithmeticError,
        r is Ok ==> r->Ok_0@.len() == nodes@.len()
            && forall|p: int| 0 <= p < nodes@.len() ==> #[trigger] r->Ok_0@[p] == credit(nodes@, amount as int, p)
                && r->Ok_0@[p] >= 0,
{
    let n = nodes.len();
    let ghost ns = nodes@;
    let ghost a = amount as int;
    let mut inc: Vec<i128> = Vec::new();
    let mut credits: Vec<i128> = Vec::new();
    let mut k: usize = 0;
    while k < n
        invariant
            k <= n,
            inc@.len() == k,
            credits@.len() == k,
            k > 0 ==> inc@[0] == amount,
        decreases n - k,
    {
        if k == 0 {
            inc.push(amount);
        } else {
            inc.push(0);
        }
        credits.push(0);
        k = k + 1;
    }
    let mut p: usize = 0;
    while p < n
        invariant
            n == nodes.len(),
            ns == nodes@,
            a == amount as int,
            well_shaped(ns),
            amount > 0,
            p <= n,
            inc@.len() == n,
            credits@.len() == n,
            inc@[0] == amount,
            forall|c: int| 1 <= c < n && parent_index(ns, c) < p ==> #[trigger] inc@[c] == incoming(ns, a, c),
            forall|q: int| 0 <= q < p ==> #[trigger] credits@[q] == credit(ns, a, q) && credits@[q] >= 0,
            forall|c: int| 1 <= c < n && parent_index(ns, c) < p ==> fits_i128(
                #[trigger] incoming(ns, a, parent_index(ns, c)) * ns[c].share_bps),
        decreases n - p,
    {
        let parent_amount = inc[p];
        proof {
            lemma_incoming_bounded(ns, a, p as int);
            lemma_child_shares_after(ns, p as int);
            if p > 0 {
                assert(parent_index(ns, p as int) < p);
            }
        }
        assert(parent_amount == incoming(ns, a, p as int));
        let mut distributed: i128 = 0;
        let mut c: usize = p + 1;
        while c < n
            invariant
                n == nodes.len(),
                ns == nodes@,
                a == amount as int,
                well_shaped(ns),
                amount > 0,
                p < c <= n,
                inc@.len() == n,
                credits@.len() == n,
                inc@[0] == amount,
                parent_amount == incoming(ns, a, p as int),
                0 <= parent_amount <= amount,
                range_sum(child_shares(ns, p as int), p + 1, n as int) <= BPS,
                forall|x: int| 0 <= x < n ==> #[trigger] child_shares(ns, p as int)(x) >= 0,
                distributed == range_sum(child_receipts(ns, a, p as int), p + 1, c as int),
                10_000 * distributed <= parent_amount * range_sum(child_shares(ns, p as int), p + 1, c as int),
                0 <= distributed,
                forall|x: int| 1 <= x < n && (parent_index(ns, x) < p || (parent_index(ns, x) == p && x < c))
                    ==> #[trigger] inc@[x] == incoming(ns, a, x),
                forall|q: int| 0 <= q < p ==> #[trigger] credits@[q] == credit(ns, a, q) && credits@[q] >= 0,
                forall|x: int| 1 <= x < n && (parent_index(ns, x) < p || (parent_index(ns, x) == p && x < c))
                    ==> fits_i128(#[trigger] incoming(ns, a, parent_index(ns, x)) * ns[x].share_bps),
            decreases n - c,
        {
            let child = nodes[c];
            let ghost shares_before = range_sum(child_shares(ns, p as int), p + 1, c as int);
            proof {
                lemma_range_sum_prefix_le(child_shares(ns, p as int), p + 1, c + 1, n as int);
                assert(range_sum(child_shares(ns, p as int), p + 1, c + 1)
                    == shares_before + child_shares(ns, p as int)(c as int));
                assert(range_sum(child_receipts(ns, a, p as int), p + 1, c + 1)
                    == distributed + child_receipts(ns, a, p as int)(c as int));
            }
            if child.parent == Some(p as u32) {
                proof {
                    assert(parent_index(ns, c as int) == p);
                }
                let share = match checked_mul_div(parent_amount, child.share_bps as i128, 10_000) {
                    Ok(v) => v,
                    Err(e) => {
                        proof {
                            assert(!fits_i128(incoming(ns, a, parent_index(ns, c as int)) * ns[c as int].share_bps));
                        }
                        return Err(e);
                    },
                };
                let ghost s = child.share_bps as int;
                proof {
                    assert(incoming(ns, a, c as int) == tdiv(parent_amount * s, 10_000));
                    assert(share == (parent_amount * s) / 10_000) by (nonlinear_arith)
                        requires
                            share == tdiv(parent_amount * s, 10_000),
                            parent_amount >= 0,
                            s > 0;
                    assert(10_000 * (distributed + share) <= parent_amount * (shares_before + s)) by (nonlinear_arith)
                        requires
                            10_000 * distributed <= parent_amount * shares_before,
                            share == (parent_amount * s) / 10_000,
                            parent_amount >= 0,
                            s > 0;
                    assert(shares_before + s <= BPS);
                    assert(distributed + share <= parent_amount) by (nonlinear_arith)
                        requires
                            10_000 * (distributed + share) <= parent_amount * (shares_before + s),
                            shares_before + s <= 10_000,
                            parent_amount >= 0;
                    assert(share >= 0) by (nonlinear_arith)
                        requires share == (parent_amount * s) / 10_000, parent_amount >= 0, s > 0;
                }
                inc.set(c, share);
                distributed = distributed + share;
            } else {
                proof {
                    assert(parent_index(ns, c as int) != p);
                }
            }
            c = c + 1;
        }
        assert(distributed <= parent_amount) by (nonlinear_arith)
            requires
                10_000 * distributed <= parent_amount * range_sum(child_shares(ns, p as int), p + 1, n as int),
                range_sum(child_shares(ns, p as int), p + 1, n as int) <= 10_000,
                parent_amount >= 0;
        credits.set(p, parent_amount - distributed);
        p = p + 1;
    }
    Ok(credits)
}

} // verus!
