//! Lists of dining halls kept as sets: sorted by identifier, nothing twice.

use vstd::prelude::*;
use crate::canteen::{Canteen, CANTEEN_COUNT};

verus! {

/// The halls of `set` among the first `upto` of the identifier order, in
/// that order.
pub open spec fn ranked_members(set: Set<Canteen>, upto: int) -> Seq<Canteen>
    decreases upto,
{
    if upto <= 0 {
        Seq::<Canteen>::empty()
    } else {
        let before = ranked_members(set, upto - 1);
        let c = Canteen::spec_from_rank(upto - 1);
        if set.contains(c) {
            before.push(c)
        } else {
            before
        }
    }
}

/// The halls of `set`, sorted by identifier.
pub open spec fn sorted_list(set: Set<Canteen>) -> Seq<Canteen> {
    ranked_members(set, CANTEEN_COUNT as int)
}

/// The halls that occur in `a` or in `b`, each once, sorted by identifier.
pub open spec fn canteen_union(a: Seq<Canteen>, b: Seq<Canteen>) -> Seq<Canteen> {
    sorted_list(a.to_set().union(b.to_set()))
}

/// Whether a list of halls is sorted by identifier and names no hall twice.
pub open spec fn is_canonical(s: Seq<Canteen>) -> bool {
    forall|i: int, j: int| 0 <= i < j < s.len() ==> s[i].spec_rank() < s[j].spec_rank()
}

/// What `ranked_members` holds: exactly the halls of the set below the
/// bound, in strictly rising rank.
pub proof fn lemma_ranked_members(set: Set<Canteen>, upto: int)
    requires
        0 <= upto <= 8,
    ensures
        is_canonical(ranked_members(set, upto)),
        forall|k: int|
            0 <= k < ranked_members(set, upto).len() ==> set.contains(
                #[trigger] ranked_members(set, upto)[k],
            ) && ranked_members(set, upto)[k].spec_rank() < upto,
        forall|c: Canteen|
            set.contains(c) && c.spec_rank() < upto ==> #[trigger] ranked_members(
                set,
                upto,
            ).contains(c),
    decreases upto,
{
    if upto > 0 {
        lemma_ranked_members(set, upto - 1);
        let before = ranked_members(set, upto - 1);
        let last = Canteen::spec_from_rank(upto - 1);
        let now = ranked_members(set, upto);
        if set.contains(last) {
            assert forall|c: Canteen| set.contains(c) && c.spec_rank() < upto implies now.contains(
                c,
            ) by {
                if c.spec_rank() < upto - 1 {
                    assert(before.contains(c));
                    let k = choose|k: int| 0 <= k < before.len() && before[k] == c;
                    assert(now[k] == c);
                } else {
                    assert(now[before.len() as int] == c);
                }
            }
        }
    }
}

/// The sorted list of a set holds exactly the halls of the set.
pub proof fn lemma_sorted_list_members(set: Set<Canteen>)
    ensures
        is_canonical(sorted_list(set)),
        forall|c: Canteen| sorted_list(set).contains(c) <==> set.contains(c),
{
    lemma_ranked_members(set, 8);
}

/// The union holds exactly the halls of both lists, in canonical order.
pub proof fn lemma_union_members(a: Seq<Canteen>, b: Seq<Canteen>)
    ensures
        is_canonical(canteen_union(a, b)),
        forall|c: Canteen| canteen_union(a, b).contains(c) <==> (a.contains(c) || b.contains(c)),
{
    let both = a.to_set().union(b.to_set());
    lemma_sorted_list_members(both);
    assert forall|c: Canteen| canteen_union(a, b).contains(c) <==> (a.contains(c) || b.contains(
        c,
    )) by {
        assert(both.contains(c) <==> (a.to_set().contains(c) || b.to_set().contains(c)));
    }
}

/// A canonical list is fixed by the halls it holds.
pub proof fn lemma_canonical_unique(s: Seq<Canteen>, t: Seq<Canteen>)
    requires
        is_canonical(s),
        is_canonical(t),
        forall|c: Canteen| s.contains(c) <==> t.contains(c),
    ensures
        s == t,
    decreases s.len(),
{
    if s.len() == 0 {
        if t.len() > 0 {
            assert(t.contains(t[0]));
        }
    } else {
        let m = s.last();
        assert(s.contains(m));
        let k = choose|k: int| 0 <= k < t.len() && t[k] == m;
        if k < t.len() - 1 {
            let above = t.last();
            assert(t.contains(above));
        }
        let s0 = s.drop_last();
        let t0 = t.drop_last();
        assert forall|c: Canteen| s0.contains(c) <==> t0.contains(c) by {
            if s0.contains(c) {
                assert(s.contains(c));
                let j = choose|j: int| 0 <= j < t.len() && t[j] == c;
                assert(t0[j] == c);
            }
            if t0.contains(c) {
                assert(t.contains(c));
                let i = choose|i: int| 0 <= i < s.len() && s[i] == c;
                assert(s0[i] == c);
            }
        }
        lemma_canonical_unique(s0, t0);
        assert(s =~= s0.push(m));
    }
}

/// Joining a canonical list with nothing leaves it as it is.
pub proof fn lemma_union_with_empty(a: Seq<Canteen>)
    requires
        is_canonical(a),
    ensures
        canteen_union(a, Seq::<Canteen>::empty()) == a,
        canteen_union(Seq::<Canteen>::empty(), a) == a,
{
    let e = Seq::<Canteen>::empty();
    lemma_union_members(a, e);
    lemma_union_members(e, a);
    lemma_canonical_unique(canteen_union(a, e), a);
    lemma_canonical_unique(canteen_union(e, a), a);
}

/// The union does not depend on the order of its two lists.
pub proof fn lemma_union_commutative(a: Seq<Canteen>, b: Seq<Canteen>)
    ensures
        canteen_union(a, b) == canteen_union(b, a),
{
    assert(a.to_set().union(b.to_set()) =~= b.to_set().union(a.to_set()));
}

/// Joining three lists gives the same whichever two are joined first.
pub proof fn lemma_union_associative(a: Seq<Canteen>, b: Seq<Canteen>, c: Seq<Canteen>)
    ensures
        canteen_union(canteen_union(a, b), c) == canteen_union(a, canteen_union(b, c)),
{
    lemma_union_members(a, b);
    lemma_union_members(b, c);
    lemma_union_members(canteen_union(a, b), c);
    lemma_union_members(a, canteen_union(b, c));
    lemma_canonical_unique(
        canteen_union(canteen_union(a, b), c),
        canteen_union(a, canteen_union(b, c)),
    );
}

/// Joining a list with itself, or with halls it already holds, adds nothing
/// twice: the result is the canonical form of the list.
pub proof fn lemma_union_idempotent(a: Seq<Canteen>)
    ensures
        canteen_union(a, a) == canteen_union(a, Seq::<Canteen>::empty()),
{
    assert(a.to_set().union(a.to_set()) =~= a.to_set().union(Seq::<Canteen>::empty().to_set()));
}

/// Tells whether `c` occurs in `list`.
pub fn contains_canteen(list: &[Canteen], c: Canteen) -> (r: bool)
    ensures
        r == list@.contains(c),
{
    let mut i: usize = 0;
    while i < list.len()
        invariant
            i <= list.len(),
            forall|k: int| 0 <= k < i ==> list@[k] != c,
        decreases list.len() - i,
    {
        if list[i] == c {
            return true;
        }
        i += 1;
    }
    false
}

/// Returns the halls that occur in `a` or in `b`, each once, sorted by
/// identifier.
pub fn union_of(a: &[Canteen], b: &[Canteen]) -> (u: Vec<Canteen>)
    ensures
        u@ == canteen_union(a@, b@),
{
    let mut u: Vec<Canteen> = Vec::new();
    let mut rank: u8 = 0;
    while rank < CANTEEN_COUNT
        invariant
            rank <= CANTEEN_COUNT,
            u@ == ranked_members(a@.to_set().union(b@.to_set()), rank as int),
        decreases CANTEEN_COUNT - rank,
    {
        let c = Canteen::from_rank(rank);
        if contains_canteen(a, c) || contains_canteen(b, c) {
            u.push(c);
        }
        rank += 1;
    }
    u
}

} // verus!
