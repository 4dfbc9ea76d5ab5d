//! A model of the reference count that the handles of one allocation share.
//!
//! The count itself is the strong count of the `std::sync::Arc` inside each
//! `AtomRc`: cloning a handle raises it, dropping one lowers it, and the drop
//! that lowers it from one to zero destroys the value. Each of those is one
//! atomic step, so any interleaving of threads is a sequence of steps. A
//! sequence is modelled here as a `Seq<Op>` that starts from the single
//! handle that `AtomRc::new` returns, and the laws below are proved of every
//! such sequence. They speak of this model; nothing ties a running `Arc`'s
//! count to it.
use vstd::prelude::*;

verus! {

/// One step that some live handle performs on the shared allocation.
#[derive(Clone, Copy, PartialEq, Eq, Structural)]
pub enum Op {
    /// A handle is cloned: the count goes up by one.
    CloneHandle,
    /// The payload is read through a handle: the count is unchanged.
    Read,
    /// A handle is destroyed: the count goes down by one.
    Release,
}

/// The count after one step from `count`.
pub open spec fn step(count: int, op: Op) -> int {
    match op {
        Op::CloneHandle => count + 1,
        Op::Read => count,
        Op::Release => count - 1,
    }
}

/// The count after the first `n` steps of `ops`, starting from one handle.
pub open spec fn count_after(ops: Seq<Op>, n: nat) -> int
    decreases n,
{
    if n == 0 {
        1
    } else {
        step(count_after(ops, (n - 1) as nat), ops[n - 1])
    }
}

/// Every step is performed through a live handle: the count before it is at
/// least one.
pub open spec fn through_live_handles(ops: Seq<Op>) -> bool {
    forall|i: nat| i < ops.len() ==> #[trigger] count_after(ops, i) >= 1
}

/// Step `i` of `ops` destroys the allocation: it is a release that sees a
/// count of one.
pub open spec fn frees_at(ops: Seq<Op>, i: nat) -> bool {
    &&& i < ops.len()
    &&& ops[i as int] == Op::Release
    &&& count_after(ops, i) == 1
}

/// Whatever the interleaving, the allocation is destroyed at most once, only
/// by the step that brings the count to zero, and by the last step of all:
/// no handle is left to act after it. When every handle has been released,
/// it has been destroyed exactly once.
pub proof fn lemma_freed_exactly_once(ops: Seq<Op>)
    requires
        through_live_handles(ops),
    ensures
        forall|i: nat| #[trigger] frees_at(ops, i) ==> count_after(ops, i + 1) == 0,
        forall|i: nat|
            i < ops.len() && ops[i as int] == Op::Release && count_after(ops, i + 1) == 0
                ==> #[trigger] frees_at(ops, i),
        forall|i: nat| #[trigger] frees_at(ops, i) ==> i + 1 == ops.len(),
        forall|i: nat, j: nat| #[trigger] frees_at(ops, i) && #[trigger] frees_at(ops, j) ==> i == j,
        ops.len() > 0 && count_after(ops, ops.len()) == 0 ==> frees_at(ops, (ops.len() - 1) as nat),
{
    assert forall|i: nat| #[trigger] frees_at(ops, i) implies i + 1 == ops.len() by {
        assert(count_after(ops, i + 1) == 0);
        if i + 1 < ops.len() {
            assert(count_after(ops, i + 1) >= 1);
        }
    }
    if ops.len() > 0 && count_after(ops, ops.len()) == 0 {
        let k = (ops.len() - 1) as nat;
        assert(count_after(ops, k) >= 1);
        assert(count_after(ops, k + 1) == step(count_after(ops, k), ops[k as int]));
    }
}

/// No read through a live handle comes after the step that destroys the
/// allocation.
pub proof fn lemma_no_read_after_free(ops: Seq<Op>)
    requires
        through_live_handles(ops),
    ensures
        forall|i: nat, j: nat|
            #[trigger] frees_at(ops, i) && j < ops.len() && #[trigger] ops[j as int] == Op::Read
                ==> j < i,
{
    lemma_freed_exactly_once(ops);
}

/// `n` clones of the first handle followed by `n + 1` releases.
pub open spec fn clones_then_releases(n: nat) -> Seq<Op> {
    Seq::new(
        2 * n + 1,
        |i: int|
            if i < n {
                Op::CloneHandle
            } else {
                Op::Release
            },
    )
}

/// The count along `clones_then_releases(n)`: up by one per clone, then
/// down by one per release.
proof fn lemma_clones_then_releases_count(n: nat, k: nat)
    requires
        k <= 2 * n + 1,
    ensures
        count_after(clones_then_releases(n), k) == if k <= n {
            1 + k as int
        } else {
            1 + 2 * n - k
        },
    decreases k,
{
    if k > 0 {
        lemma_clones_then_releases_count(n, (k - 1) as nat);
    }
}

/// Cloning `n` times and then releasing `n + 1` handles, the original
/// included, destroys the allocation on the final release and never earlier.
pub proof fn lemma_clone_n_release_n_plus_one(n: nat)
    ensures
        through_live_handles(clones_then_releases(n)),
        forall|i: nat| #[trigger] frees_at(clones_then_releases(n), i) <==> i == 2 * n,
{
    let ops = clones_then_releases(n);
    assert forall|i: nat| i < ops.len() implies #[trigger] count_after(ops, i) >= 1 by {
        lemma_clones_then_releases_count(n, i);
    }
    assert forall|i: nat| #[trigger] frees_at(ops, i) <==> i == 2 * n by {
        if i < ops.len() {
            lemma_clones_then_releases_count(n, i);
        }
    }
}

/// The number of clones among the first `n` steps.
pub open spec fn clones_in(ops: Seq<Op>, n: nat) -> nat
    decreases n,
{
    if n == 0 {
        0
    } else {
        clones_in(ops, (n - 1) as nat) + if ops[n - 1] == Op::CloneHandle {
            1nat
        } else {
            0nat
        }
    }
}

/// The number of releases among the first `n` steps.
pub open spec fn releases_in(ops: Seq<Op>, n: nat) -> nat
    decreases n,
{
    if n == 0 {
        0
    } else {
        releases_in(ops, (n - 1) as nat) + if ops[n - 1] == Op::Release {
            1nat
        } else {
            0nat
        }
    }
}

/// The count is one plus the clones minus the releases so far.
proof fn lemma_count_by_tally(ops: Seq<Op>, n: nat)
    requires
        n <= ops.len(),
    ensures
        count_after(ops, n) == 1 + clones_in(ops, n) - releases_in(ops, n),
    decreases n,
{
    if n > 0 {
        lemma_count_by_tally(ops, (n - 1) as nat);
    }
}

/// A clone storm: while the first handle stays alive, any number of threads
/// each clone it once and later release their clone, in any interleaving.
/// Every release then drops a clone made before it, so no prefix holds more
/// releases than clones. When every clone has been released, exactly the
/// first handle is left and the allocation was never destroyed.
pub proof fn lemma_clone_storm(ops: Seq<Op>)
    requires
        forall|k: nat| k <= ops.len() ==> #[trigger] releases_in(ops, k) <= clones_in(ops, k),
        releases_in(ops, ops.len()) == clones_in(ops, ops.len()),
    ensures
        through_live_handles(ops),
        forall|i: nat| !#[trigger] frees_at(ops, i),
        count_after(ops, ops.len()) == 1,
{
    assert forall|i: nat| i <= ops.len() implies #[trigger] count_after(ops, i) >= 1 by {
        lemma_count_by_tally(ops, i);
        assert(releases_in(ops, i) <= clones_in(ops, i));
    }
    assert forall|i: nat| !#[trigger] frees_at(ops, i) by {
        if i < ops.len() && ops[i as int] == Op::Release {
            lemma_count_by_tally(ops, i + 1);
            assert(releases_in(ops, i + 1) <= clones_in(ops, i + 1));
            assert(count_after(ops, i + 1) == step(count_after(ops, i), ops[i as int]));
        }
    }
    lemma_count_by_tally(ops, ops.len());
}

} // verus!
