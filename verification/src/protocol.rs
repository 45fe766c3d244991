//! The request/response protocol of the store.
//!
//! A `Command` is the envelope a caller submits — one of get, set or
//! delete — and a `Response` is the single answer delivered back for it.
//! `apply_command` is the whole of what the owning side does with a
//! command: it applies it to the state and determines the response. The
//! worker of the actor design runs exactly this on each mailbox entry; the
//! lock-guarded design runs it (or the underlying store operation) inside
//! its critical section.

use vstd::prelude::*;
use crate::store::StoreState;

verus! {

/// A request to the store, carrying the key (and for an insert, the value)
/// it concerns.
#[derive(Debug, Clone, PartialEq)]
pub enum Command {
    Get { key: String },
    Put { key: String, value: String },
    Delete { key: String },
}

/// The answer to one `Command`: the looked-up value for a get, or an
/// acknowledgement for a set or delete.
#[derive(Debug, Clone, PartialEq)]
pub enum Response {
    Value(Option<String>),
    PutOk,
    Deleted,
}

/// The mathematical form of a `Command`: the same request over character
/// sequences.
pub enum CommandView {
    Get { key: Seq<char> },
    Put { key: Seq<char>, value: Seq<char> },
    Delete { key: Seq<char> },
}

/// The mathematical form of a `Response`.
pub enum ResponseView {
    Value(Option<Seq<char>>),
    PutOk,
    Deleted,
}

impl View for Command {
    type V = CommandView;

    open spec fn view(&self) -> CommandView {
        match self {
            Command::Get { key } => CommandView::Get { key: key@ },
            Command::Put { key, value } => CommandView::Put { key: key@, value: value@ },
            Command::Delete { key } => CommandView::Delete { key: key@ },
        }
    }
}

impl View for Response {
    type V = ResponseView;

    open spec fn view(&self) -> ResponseView {
        match self {
            Response::Value(v) => ResponseView::Value(
                match v {
                    Some(s) => Some(s@),
                    None => None,
                },
            ),
            Response::PutOk => ResponseView::PutOk,
            Response::Deleted => ResponseView::Deleted,
        }
    }
}

/// The mapping that holds after applying one command to the mapping `m`.
pub open spec fn apply_cmd(m: Map<Seq<char>, Seq<char>>, c: CommandView) -> Map<Seq<char>, Seq<char>> {
    match c {
        CommandView::Get { key } => m,
        CommandView::Put { key, value } => m.insert(key, value),
        CommandView::Delete { key } => m.remove(key),
    }
}

/// The response owed for one command applied at the mapping `m`.
pub open spec fn response_of(m: Map<Seq<char>, Seq<char>>, c: CommandView) -> ResponseView {
    match c {
        CommandView::Get { key } => ResponseView::Value(
            if m.contains_key(key) {
                Some(m[key])
            } else {
                None
            },
        ),
        CommandView::Put { key, value } => ResponseView::PutOk,
        CommandView::Delete { key } => ResponseView::Deleted,
    }
}

/// The mapping that holds after applying a sequence of commands to `m`,
/// first element first.
pub open spec fn apply_all(m: Map<Seq<char>, Seq<char>>, cs: Seq<CommandView>) -> Map<Seq<char>, Seq<char>>
    decreases cs.len(),
{
    if cs.len() == 0 {
        m
    } else {
        apply_all(apply_cmd(m, cs[0]), cs.skip(1))
    }
}

/// The responses owed for a sequence of commands applied at `m`, first
/// command first: each command is answered at the mapping the commands
/// before it have produced.
pub open spec fn responses_of(m: Map<Seq<char>, Seq<char>>, cs: Seq<CommandView>) -> Seq<ResponseView>
    decreases cs.len(),
{
    if cs.len() == 0 {
        Seq::empty()
    } else {
        seq![response_of(m, cs[0])] + responses_of(apply_cmd(m, cs[0]), cs.skip(1))
    }
}

/// Applying one command after a sequence is applying the sequence and then
/// the command.
pub proof fn lemma_apply_all_snoc(m: Map<Seq<char>, Seq<char>>, cs: Seq<CommandView>, c: CommandView)
    ensures
        apply_all(m, cs.push(c)) == apply_cmd(apply_all(m, cs), c),
    decreases cs.len(),
{
    if cs.len() == 0 {
        assert(cs.push(c)[0] == c);
        assert(cs.push(c).skip(1) =~= Seq::<CommandView>::empty());
        assert(apply_all(m, cs.push(c)) == apply_all(
            apply_cmd(m, c),
            Seq::<CommandView>::empty(),
        ));
        assert(apply_all(apply_cmd(m, c), Seq::<CommandView>::empty()) == apply_cmd(m, c));
        assert(apply_all(m, cs) == m);
    } else {
        assert(cs.push(c)[0] == cs[0]);
        assert(cs.push(c).skip(1) =~= cs.skip(1).push(c));
        assert(apply_all(m, cs.push(c)) == apply_all(
            apply_cmd(m, cs[0]),
            cs.skip(1).push(c),
        ));
        lemma_apply_all_snoc(apply_cmd(m, cs[0]), cs.skip(1), c);
        assert(apply_all(m, cs) == apply_all(apply_cmd(m, cs[0]), cs.skip(1)));
    }
}

/// The responses for a sequence extended by one command are the responses
/// for the sequence, extended by the response owed at the mapping the
/// whole sequence has produced.
pub proof fn lemma_responses_of_snoc(m: Map<Seq<char>, Seq<char>>, cs: Seq<CommandView>, c: CommandView)
    ensures
        responses_of(m, cs.push(c)) == responses_of(m, cs).push(
            response_of(apply_all(m, cs), c),
        ),
    decreases cs.len(),
{
    if cs.len() == 0 {
        assert(cs.push(c)[0] == c);
        assert(cs.push(c).skip(1) =~= Seq::<CommandView>::empty());
        assert(responses_of(m, cs.push(c)) == seq![response_of(m, c)] + responses_of(
            apply_cmd(m, c),
            Seq::<CommandView>::empty(),
        ));
        assert(responses_of(apply_cmd(m, c), Seq::<CommandView>::empty())
            == Seq::<ResponseView>::empty());
        assert(responses_of(m, cs) == Seq::<ResponseView>::empty());
        assert(apply_all(m, cs) == m);
        assert(responses_of(m, cs.push(c)) =~= responses_of(m, cs).push(
            response_of(apply_all(m, cs), c),
        ));
    } else {
        assert(cs.push(c)[0] == cs[0]);
        assert(cs.push(c).skip(1) =~= cs.skip(1).push(c));
        assert(responses_of(m, cs.push(c)) == seq![response_of(m, cs[0])] + responses_of(
            apply_cmd(m, cs[0]),
            cs.skip(1).push(c),
        ));
        lemma_responses_of_snoc(apply_cmd(m, cs[0]), cs.skip(1), c);
        assert(responses_of(m, cs) == seq![response_of(m, cs[0])] + responses_of(
            apply_cmd(m, cs[0]),
            cs.skip(1),
        ));
        assert(apply_all(m, cs) == apply_all(apply_cmd(m, cs[0]), cs.skip(1)));
        assert(responses_of(m, cs.push(c)) =~= responses_of(m, cs).push(
            response_of(apply_all(m, cs), c),
        ));
    }
}

/// Applies one command to the store state and determines its response.
///
/// This is the single step that serializes every design: no caller ever
/// observes a state other than one reached by a sequence of such steps.
pub fn apply_command(state: &mut StoreState, cmd: Command) -> (r: Response)
    requires
        old(state).wf(),
    ensures
        final(state).wf(),
        final(state)@ == apply_cmd(old(state)@, cmd@),
        r@ == response_of(old(state)@, cmd@),
{
    match cmd {
        Command::Get { key } => Response::Value(state.get(&key)),
        Command::Put { key, value } => {
            state.set(key, value);
            Response::PutOk
        },
        Command::Delete { key } => {
            state.delete(&key);
            Response::Deleted
        },
    }
}

} // verus!
