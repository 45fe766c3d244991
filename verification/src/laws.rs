//! The laws every store design owes its callers.
//!
//! Both designs reach the same mapping through the same steps: the
//! lock-guarded design applies each operation inside its critical section,
//! the actor design applies each mailbox entry in arrival order. Either
//! way, every observable state is `apply_all` of some sequence of applied
//! commands, so a law proved over `apply_cmd`, `apply_all` and
//! `response_of` holds of both.

use vstd::prelude::*;
use crate::protocol::{CommandView, ResponseView};
use crate::protocol::{apply_all, apply_cmd, response_of, responses_of};

verus! {

/// Round trip: for every mapping, key and value, a set of `k` to `v`
/// followed by a get of `k` answers exactly `v`.
pub proof fn lemma_round_trip(m: Map<Seq<char>, Seq<char>>, k: Seq<char>, v: Seq<char>)
    ensures
        response_of(
            apply_cmd(m, CommandView::Put { key: k, value: v }),
            CommandView::Get { key: k },
        ) == ResponseView::Value(Some(v)),
{
}

/// Delete removes: for every mapping, key and value, a set of `k` to `v`
/// followed by a delete of `k` leaves a get of `k` answering absent.
pub proof fn lemma_delete_removes(m: Map<Seq<char>, Seq<char>>, k: Seq<char>, v: Seq<char>)
    ensures
        response_of(
            apply_cmd(
                apply_cmd(m, CommandView::Put { key: k, value: v }),
                CommandView::Delete { key: k },
            ),
            CommandView::Get { key: k },
        ) == ResponseView::Value(None),
{
}

/// Delete of an absent key is a no-op: it does not fail (the delete
/// operation is total on well-formed stores) and leaves the whole mapping
/// — every other key included — exactly as it was.
pub proof fn lemma_delete_absent_no_op(m: Map<Seq<char>, Seq<char>>, k: Seq<char>)
    requires
        !m.contains_key(k),
    ensures
        apply_cmd(m, CommandView::Delete { key: k }) == m,
{
    assert(m.remove(k) =~= m);
}

/// A delete touches no key but its own, present or not.
pub proof fn lemma_delete_other_keys(m: Map<Seq<char>, Seq<char>>, k: Seq<char>, k2: Seq<char>)
    requires
        k2 != k,
    ensures
        apply_cmd(m, CommandView::Delete { key: k }).contains_key(k2) == m.contains_key(k2),
        m.contains_key(k2) ==> apply_cmd(m, CommandView::Delete { key: k })[k2] == m[k2],
{
}

/// Whether a command, if it is a set of the key `k`, writes a value drawn
/// from `allowed`.
pub open spec fn write_allowed(c: CommandView, k: Seq<char>, allowed: Set<Seq<char>>) -> bool {
    match c {
        CommandView::Put { key, value } => key == k ==> allowed.contains(value),
        _ => true,
    }
}

/// Whether every set of the key `k` in `cs` writes a value drawn from
/// `allowed`.
pub open spec fn writes_only_from(cs: Seq<CommandView>, k: Seq<char>, allowed: Set<Seq<char>>) -> bool {
    forall|i: int| 0 <= i < cs.len() ==> write_allowed(#[trigger] cs[i], k, allowed)
}

/// No lost or invented updates: run any sequence of commands — one
/// writer's sets of `k` interleaved arbitrarily with other callers'
/// commands — in which every set of `k` writes a value from `allowed`,
/// starting from a mapping whose binding of `k` (if any) is from
/// `allowed`. Then the binding of `k` afterwards, if any, is a value from
/// `allowed`: a reader never observes at `k` a value that was never
/// written.
pub proof fn lemma_no_lost_updates(
    m: Map<Seq<char>, Seq<char>>,
    cs: Seq<CommandView>,
    k: Seq<char>,
    allowed: Set<Seq<char>>,
)
    requires
        m.contains_key(k) ==> allowed.contains(m[k]),
        writes_only_from(cs, k, allowed),
    ensures
        apply_all(m, cs).contains_key(k) ==> allowed.contains(apply_all(m, cs)[k]),
    decreases cs.len(),
{
    if cs.len() == 0 {
    } else {
        let m1 = apply_cmd(m, cs[0]);
        assert(write_allowed(cs[0], k, allowed));
        assert(m1.contains_key(k) ==> allowed.contains(m1[k]));
        assert(writes_only_from(cs.skip(1), k, allowed)) by {
            assert forall|i: int| 0 <= i < cs.skip(1).len() implies write_allowed(
                #[trigger] cs.skip(1)[i],
                k,
                allowed,
            ) by {
                assert(cs.skip(1)[i] == cs[i + 1]);
                assert(write_allowed(cs[i + 1], k, allowed));
            }
        }
        lemma_no_lost_updates(m1, cs.skip(1), k, allowed);
    }
}

/// A command sequence owes one response per command.
pub proof fn lemma_one_response_per_command(m: Map<Seq<char>, Seq<char>>, cs: Seq<CommandView>)
    ensures
        responses_of(m, cs).len() == cs.len(),
    decreases cs.len(),
{
    if cs.len() > 0 {
        lemma_one_response_per_command(apply_cmd(m, cs[0]), cs.skip(1));
    }
}

/// Every command is answered at exactly the state its predecessors
/// produced: the response at position `i` of a run is the response owed
/// for command `i` at the mapping the first `i` commands made. Earlier
/// effects are therefore visible to every later observer, and no later
/// effect leaks backwards — the total order the actor design promises.
pub proof fn lemma_answered_in_order(m: Map<Seq<char>, Seq<char>>, cs: Seq<CommandView>, i: int)
    requires
        0 <= i < cs.len(),
    ensures
        responses_of(m, cs).len() == cs.len(),
        responses_of(m, cs)[i] == response_of(apply_all(m, cs.take(i)), cs[i]),
    decreases cs.len(),
{
    lemma_one_response_per_command(m, cs);
    let m1 = apply_cmd(m, cs[0]);
    lemma_one_response_per_command(m1, cs.skip(1));
    if i == 0 {
        assert(cs.take(0) =~= Seq::<CommandView>::empty());
        assert(apply_all(m, cs.take(0)) == m);
        assert(responses_of(m, cs)[0] == response_of(m, cs[0]));
    } else {
        lemma_answered_in_order(m1, cs.skip(1), i - 1);
        assert(responses_of(m, cs)[i] == responses_of(m1, cs.skip(1))[i - 1]);
        assert(cs.skip(1).take(i - 1) =~= cs.take(i).skip(1));
        assert(cs.skip(1)[i - 1] == cs[i]);
        assert(cs.take(i)[0] == cs[0]);
        assert(apply_all(m, cs.take(i)) == apply_all(
            apply_cmd(m, cs[0]),
            cs.take(i).skip(1),
        ));
    }
}

/// Total order, as the actor design exposes it: when a set of `k` to `a`
/// is applied and a set of `k` to `b` is applied after it, a get of `k`
/// strictly after both answers `b` — the later write wins, whatever
/// mapping the earlier commands had produced.
pub proof fn lemma_later_write_wins(m: Map<Seq<char>, Seq<char>>, k: Seq<char>, a: Seq<char>, b: Seq<char>)
    ensures
        response_of(
            apply_cmd(
                apply_cmd(m, CommandView::Put { key: k, value: a }),
                CommandView::Put { key: k, value: b },
            ),
            CommandView::Get { key: k },
        ) == ResponseView::Value(Some(b)),
{
}

} // verus!
