use vstd::prelude::*;
use core::slice::Iter;
use itertools::MultiPeek;
use crate::token::TokNLoc;

verus! {

/// The lookahead iterator of `itertools`, which the parser holds; Verus sees
/// nothing inside it, only what the names and wrappers below say.
#[verifier::external_type_specification]
#[verifier::external_body]
#[verifier::reject_recursive_types(I)]
pub struct ExMultiPeek<I: Iterator>(MultiPeek<I>);

/// The items that a `MultiPeek` over tokens has still to hand out through `next`,
/// front first: its peek buffer followed by what the underlying iterator still holds.
pub uninterp spec fn pending_tokens(p: MultiPeek<Iter<'_, TokNLoc>>) -> Seq<TokNLoc>;

/// The position of the peek cursor of a `MultiPeek` over tokens: how many of
/// the pending items `peek` has handed out since the last `next` or `reset_peek`.
pub uninterp spec fn peek_cursor(p: MultiPeek<Iter<'_, TokNLoc>>) -> nat;

/// Calls `itertools::multipeek` on the iterator of a token slice. The result
/// holds the slice's tokens, in order, as pending items, with the peek cursor at 0.
#[verifier::external_body]
pub(crate) fn multipeek_tokens<'a>(tokens: &'a [TokNLoc]) -> (p: MultiPeek<Iter<'a, TokNLoc>>)
    ensures
        pending_tokens(p) == tokens@,
        peek_cursor(p) == 0,
{
    itertools::multipeek(tokens.iter())
}

/// Calls `MultiPeek::next` and clones the token it hands out. It resets the
/// peek cursor to 0 and removes the first pending token, which it returns;
/// with no pending token it returns `None` and leaves the pending tokens empty.
#[verifier::external_body]
pub(crate) fn multipeek_next<'a>(p: &mut MultiPeek<Iter<'a, TokNLoc>>) -> (res: Option<TokNLoc>)
    ensures
        peek_cursor(*final(p)) == 0,
        pending_tokens(*old(p)).len() == 0 ==> res is None && pending_tokens(*final(p)).len() == 0,
        pending_tokens(*old(p)).len() > 0 ==> res == Some(pending_tokens(*old(p))[0])
            && pending_tokens(*final(p)) == pending_tokens(*old(p)).drop_first(),
{
    p.next().cloned()
}

/// Calls `MultiPeek::peek` and clones the token it shows. The pending tokens
/// stay as they are; the token at the peek cursor is returned and the cursor
/// moves one on, or, past the last pending token, `None` is returned and the
/// cursor stays.
#[verifier::external_body]
pub(crate) fn multipeek_peek<'a>(p: &mut MultiPeek<Iter<'a, TokNLoc>>) -> (res: Option<TokNLoc>)
    ensures
        pending_tokens(*final(p)) == pending_tokens(*old(p)),
        peek_cursor(*old(p)) < pending_tokens(*old(p)).len() ==> res == Some(
            pending_tokens(*old(p))[peek_cursor(*old(p)) as int],
        ) && peek_cursor(*final(p)) == peek_cursor(*old(p)) + 1,
        peek_cursor(*old(p)) >= pending_tokens(*old(p)).len() ==> res is None && peek_cursor(
            *final(p),
        ) == peek_cursor(*old(p)),
{
    p.peek().cloned().cloned()
}

/// Calls `MultiPeek::reset_peek`: the peek cursor goes back to 0 and the
/// pending tokens stay as they are.
#[verifier::external_body]
pub(crate) fn multipeek_reset<'a>(p: &mut MultiPeek<Iter<'a, TokNLoc>>)
    ensures
        pending_tokens(*final(p)) == pending_tokens(*old(p)),
        peek_cursor(*final(p)) == 0,
{
    p.reset_peek()
}

} // verus!
