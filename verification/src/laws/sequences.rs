//! Picking out and turning the elements of a sequence.

use vstd::prelude::*;

verus! {

/// What is picked out of a sequence and turned, with one more element behind it.
pub proof fn lemma_pick_push<A, B>(
    s: Seq<A>,
    x: A,
    keep: spec_fn(A) -> bool,
    turn: spec_fn(A) -> B,
)
    ensures
        s.push(x).filter(keep).map_values(turn) == s.filter(keep).map_values(turn) + (if keep(x) {
            seq![turn(x)]
        } else {
            Seq::empty()
        }),
{
    reveal(Seq::filter);
    assert(s.push(x).drop_last() =~= s);
    let before = s.filter(keep);
    if keep(x) {
        assert(before.push(x).map_values(turn) =~= before.map_values(turn) + seq![turn(x)]);
    } else {
        assert(before.map_values(turn) + Seq::<B>::empty() =~= before.map_values(turn));
    }
}

/// Nothing is picked out of nothing.
pub proof fn lemma_pick_nothing<A, B>(
    s: Seq<A>,
    keep: spec_fn(A) -> bool,
    turn: spec_fn(A) -> B,
)
    requires
        s.len() == 0,
    ensures
        s.filter(keep).map_values(turn) == Seq::<B>::empty(),
{
    reveal(Seq::filter);
    assert(s.filter(keep).map_values(turn) =~= Seq::<B>::empty());
}

/// What is picked out of a sequence and turned, by its last element.
pub proof fn lemma_pick_last<A, B>(s: Seq<A>, keep: spec_fn(A) -> bool, turn: spec_fn(A) -> B)
    requires
        s.len() > 0,
    ensures
        s.filter(keep).map_values(turn) == s.drop_last().filter(keep).map_values(turn) + (if keep(
            s.last(),
        ) {
            seq![turn(s.last())]
        } else {
            Seq::empty()
        }),
{
    assert(s.drop_last().push(s.last()) =~= s);
    lemma_pick_push(s.drop_last(), s.last(), keep, turn);
}

} // verus!
