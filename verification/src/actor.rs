//! The actor design's verified core: one owner, one bounded mailbox.
//!
//! `ActorCore` is the machine the actor design runs: a bounded queue of
//! pending commands and a store state owned by a single worker. Submitting
//! enqueues a command — refused only while the mailbox is full, which is
//! the backpressure a caller waits out — and each worker step applies the
//! oldest pending command and determines its response. The well-formedness
//! invariant accounts for every command ever accepted: it is either
//! applied already or still pending, in arrival order, so no request is
//! dropped or reordered, and the applied prefix fixes one global total
//! order of operations.

use vstd::prelude::*;
use crate::protocol::{Command, CommandView, Response, ResponseView};
use crate::protocol::{
    apply_all, apply_cmd, apply_command, lemma_apply_all_snoc, lemma_responses_of_snoc,
    response_of, responses_of,
};
use crate::store::StoreState;

verus! {

/// The views of a sequence of commands.
spec fn views_of(cs: Seq<Command>) -> Seq<CommandView> {
    cs.map_values(|c: Command| c@)
}

/// The views of a sequence of responses.
pub open spec fn response_views_of(rs: Seq<Response>) -> Seq<ResponseView> {
    rs.map_values(|r: Response| r@)
}

/// The mailbox and the worker-owned state of one actor store instance.
pub struct ActorCore {
    capacity: usize,
    mailbox: Vec<Command>,
    state: StoreState,
    accepted: Ghost<Seq<CommandView>>,
    applied: Ghost<Seq<CommandView>>,
}

impl ActorCore {
    /// Every command ever accepted into the mailbox, in arrival order.
    pub closed spec fn accepted(&self) -> Seq<CommandView> {
        self.accepted@
    }

    /// Every command the worker has applied, in the order it applied them.
    pub closed spec fn applied(&self) -> Seq<CommandView> {
        self.applied@
    }

    /// The commands accepted but not yet applied, oldest first.
    pub closed spec fn pending(&self) -> Seq<CommandView> {
        views_of(self.mailbox@)
    }

    /// The mailbox bound this instance was created with.
    pub closed spec fn capacity(&self) -> int {
        self.capacity as int
    }

    /// The worker-owned mapping.
    pub closed spec fn store_view(&self) -> Map<Seq<char>, Seq<char>> {
        self.state@
    }

    /// Well-formedness: the mailbox respects its bound, the accepted
    /// commands are exactly the applied ones followed by the pending ones,
    /// and the state is what applying the applied prefix to the empty
    /// mapping yields.
    pub closed spec fn wf(&self) -> bool {
        &&& self.state.wf()
        &&& self.capacity >= 1
        &&& self.mailbox@.len() <= self.capacity
        &&& self.accepted@ == self.applied@ + self.pending()
        &&& self.state@ == apply_all(Map::<Seq<char>, Seq<char>>::empty(), self.applied@)
    }

    /// Creates an actor core with an empty state and an empty mailbox of
    /// the given bound.
    pub fn new(capacity: usize) -> (a: ActorCore)
        requires
            capacity >= 1,
        ensures
            a.wf(),
            a.capacity() == capacity as int,
            a.accepted() == Seq::<CommandView>::empty(),
            a.applied() == Seq::<CommandView>::empty(),
            a.pending() == Seq::<CommandView>::empty(),
            a.store_view() == Map::<Seq<char>, Seq<char>>::empty(),
    {
        let a = ActorCore {
            capacity,
            mailbox: Vec::new(),
            state: StoreState::new(),
            accepted: Ghost(Seq::empty()),
            applied: Ghost(Seq::empty()),
        };
        proof {
            assert(a.pending() =~= Seq::<CommandView>::empty());
            assert(a.accepted@ =~= a.applied@ + a.pending());
        }
        a
    }

    /// Offers a command to the mailbox. While the mailbox is full nothing
    /// is taken and `false` comes back — the caller is to wait and offer
    /// again (backpressure, not an error); otherwise the command is
    /// accepted behind every earlier one.
    pub fn try_submit(&mut self, cmd: Command) -> (r: bool)
        requires
            old(self).wf(),
        ensures
            final(self).wf(),
            final(self).capacity() == old(self).capacity(),
            final(self).applied() == old(self).applied(),
            final(self).store_view() == old(self).store_view(),
            r == (old(self).pending().len() < old(self).capacity()),
            r ==> final(self).accepted() == old(self).accepted().push(cmd@)
                && final(self).pending() == old(self).pending().push(cmd@),
            !r ==> final(self).accepted() == old(self).accepted()
                && final(self).pending() == old(self).pending(),
    {
        if self.mailbox.len() == self.capacity {
            false
        } else {
            let ghost m0 = self.mailbox@;
            let ghost cv = cmd@;
            self.mailbox.push(cmd);
            proof {
                self.accepted@ = self.accepted@.push(cv);
                assert(self.pending() =~= views_of(m0).push(cv));
                assert(self.accepted@ =~= self.applied@ + self.pending());
            }
            true
        }
    }

    /// One worker step: takes the oldest pending command, applies it, and
    /// determines the response owed for it. Returns `None`, changing
    /// nothing, when no command is pending.
    pub fn step(&mut self) -> (r: Option<Response>)
        requires
            old(self).wf(),
        ensures
            final(self).wf(),
            final(self).capacity() == old(self).capacity(),
            final(self).accepted() == old(self).accepted(),
            match r {
                None => {
                    &&& old(self).pending().len() == 0
                    &&& final(self).applied() == old(self).applied()
                    &&& final(self).pending() == old(self).pending()
                    &&& final(self).store_view() == old(self).store_view()
                },
                Some(resp) => {
                    &&& old(self).pending().len() > 0
                    &&& final(self).applied() == old(self).applied().push(old(self).pending()[0])
                    &&& final(self).pending() == old(self).pending().skip(1)
                    &&& resp@ == response_of(old(self).store_view(), old(self).pending()[0])
                    &&& final(self).store_view() == apply_cmd(
                        old(self).store_view(),
                        old(self).pending()[0],
                    )
                },
            },
    {
        if self.mailbox.len() == 0 {
            None
        } else {
            let ghost m0 = self.mailbox@;
            let cmd = self.mailbox.remove(0);
            let ghost cv = cmd@;
            proof {
                assert(cv == old(self).pending()[0]);
            }
            let resp = apply_command(&mut self.state, cmd);
            proof {
                self.applied@ = self.applied@.push(cv);
                assert(m0.remove(0) =~= m0.skip(1));
                assert(self.pending() =~= views_of(m0).skip(1));
                lemma_apply_all_snoc(
                    Map::<Seq<char>, Seq<char>>::empty(),
                    old(self).applied(),
                    cv,
                );
                assert(self.accepted@ =~= self.applied@ + self.pending());
            }
            Some(resp)
        }
    }

    /// Runs the worker until the mailbox is empty. Every accepted command
    /// is then applied — none is lost — and the responses are exactly
    /// those owed for the pending commands in their arrival order.
    pub fn drain(&mut self) -> (rs: Vec<Response>)
        requires
            old(self).wf(),
        ensures
            final(self).wf(),
            final(self).capacity() == old(self).capacity(),
            final(self).accepted() == old(self).accepted(),
            final(self).applied() == final(self).accepted(),
            final(self).pending().len() == 0,
            response_views_of(rs@) == responses_of(old(self).store_view(), old(self).pending()),
            final(self).store_view() == apply_all(old(self).store_view(), old(self).pending()),
    {
        let mut rs: Vec<Response> = Vec::new();
        proof {
            assert(old(self).pending().take(0) =~= Seq::<CommandView>::empty());
            assert(response_views_of(rs@) =~= responses_of(
                old(self).store_view(),
                old(self).pending().take(0),
            ));
            assert(old(self).pending() =~= old(self).pending().take(0) + self.pending());
            assert(self.applied() =~= old(self).applied() + old(self).pending().take(0));
        }
        while self.mailbox.len() != 0
            invariant
                self.wf(),
                self.capacity() == old(self).capacity(),
                self.accepted() == old(self).accepted(),
                rs@.len() <= old(self).pending().len(),
                old(self).pending() == old(self).pending().take(rs@.len() as int)
                    + self.pending(),
                self.applied() == old(self).applied() + old(self).pending().take(
                    rs@.len() as int,
                ),
                response_views_of(rs@) == responses_of(
                    old(self).store_view(),
                    old(self).pending().take(rs@.len() as int),
                ),
                self.store_view() == apply_all(
                    old(self).store_view(),
                    old(self).pending().take(rs@.len() as int),
                ),
            decreases self.pending().len(),
        {
            let ghost n = rs@.len() as int;
            let ghost done = old(self).pending().take(n);
            let ghost pend = self.pending();
            let ghost rs0 = rs@;
            let resp = self.step().unwrap();
            rs.push(resp);
            proof {
                assert(old(self).pending()[n] == pend[0]);
                assert(old(self).pending().take(n + 1) =~= done.push(pend[0]));
                assert(done.push(pend[0]) + pend.skip(1) =~= done + pend);
                assert(self.applied() =~= old(self).applied() + done.push(pend[0]));
                lemma_responses_of_snoc(old(self).store_view(), done, pend[0]);
                lemma_apply_all_snoc(old(self).store_view(), done, pend[0]);
                assert(response_views_of(rs@) =~= response_views_of(rs0).push(resp@));
            }
        }
        proof {
            assert(self.pending() =~= Seq::<CommandView>::empty());
            assert(old(self).pending().take(rs@.len() as int) =~= old(self).pending());
            assert(self.applied() + self.pending() =~= self.applied());
        }
        rs
    }
}

/// The mailbox accounting law of the actor design: the applied commands
/// are exactly the first `applied().len()` accepted ones, in arrival
/// order, and the pending ones are exactly the rest — no accepted command
/// is ever dropped, duplicated or applied out of turn. The mailbox never
/// holds more than its bound, and the state is determined by the applied
/// prefix alone: one global total order of operations.
pub proof fn lemma_mailbox_accounting(a: &ActorCore)
    requires
        a.wf(),
    ensures
        a.accepted() == a.applied() + a.pending(),
        a.applied() == a.accepted().take(a.applied().len() as int),
        a.pending() == a.accepted().skip(a.applied().len() as int),
        a.pending().len() <= a.capacity(),
        a.store_view() == apply_all(Map::<Seq<char>, Seq<char>>::empty(), a.applied()),
{
    assert(a.applied() =~= a.accepted().take(a.applied().len() as int));
    assert(a.pending() =~= a.accepted().skip(a.applied().len() as int));
}

} // verus!
