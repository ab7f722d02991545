//! The drawing: participants in a random order, each paired with the smallest
//! reward code left, until either runs out.

use rand::seq::SliceRandom;
use vstd::prelude::*;

use crate::state::{delivered, lemma_remove_unique, lemma_unique_len, RaffleState, RaffleView};
use crate::text::{
    lemma_lex_asymmetric, lemma_lex_irreflexive, lemma_lex_transitive, lex_lt, text_below, texts,
};

verus! {

/// Relies on `rand::seq::SliceRandom::shuffle` with `rand::thread_rng`: the
/// slice is only ever rearranged by swaps, so the result holds the same items.
#[verifier::external_body]
fn shuffle_ids(v: Vec<i64>) -> (r: Vec<i64>)
    ensures
        r@.to_multiset() == v@.to_multiset(),
{
    let mut v = v;
    v.shuffle(&mut rand::thread_rng());
    v
}

/// What a drawing under way means: the order of the participants, the codes
/// still to hand out, and how many participants have had their turn.
pub ghost struct DrawingView {
    pub order: Seq<i64>,
    pub pool: Set<Seq<char>>,
    pub next: nat,
}

/// A drawing under way.
pub struct Drawing {
    order: Vec<i64>,
    pool: Vec<String>,
    next: usize,
}

impl View for Drawing {
    type V = DrawingView;

    closed spec fn view(&self) -> DrawingView {
        DrawingView { order: self.order@, pool: texts(self.pool@).to_set(), next: self.next as nat }
    }
}

/// How many more codes a drawing hands out: one per participant still to
/// come, while codes last.
pub open spec fn deliveries_left(d: DrawingView) -> int {
    let waiting = d.order.len() - d.next;
    if waiting < d.pool.len() {
        waiting
    } else {
        d.pool.len() as int
    }
}

/// `code` is the smallest code of `pool`.
pub open spec fn is_least(pool: Set<Seq<char>>, code: Seq<char>) -> bool {
    &&& pool.contains(code)
    &&& forall|x: Seq<char>| #[trigger] pool.contains(x) ==> !lex_lt(x, code)
}

/// Finds the position of the smallest string.
fn least_index(v: &Vec<String>) -> (r: usize)
    requires
        v@.len() > 0,
    ensures
        r < v@.len(),
        forall|k: int| 0 <= k < v@.len() ==> !lex_lt(#[trigger] v@[k]@, v@[r as int]@),
{
    let mut best: usize = 0;
    let mut i: usize = 1;
    proof {
        lemma_lex_irreflexive(v@[0]@, 0);
    }
    while i < v.len()
        invariant
            0 < i <= v@.len(),
            best < i,
            forall|k: int| 0 <= k < i ==> !lex_lt(#[trigger] v@[k]@, v@[best as int]@),
        decreases v@.len() - i,
    {
        if text_below(v[i].as_str(), v[best].as_str()) {
            proof {
                assert forall|k: int| 0 <= k < i + 1 implies !lex_lt(
                    #[trigger] v@[k]@,
                    v@[i as int]@,
                ) by {
                    if k == i {
                        lemma_lex_irreflexive(v@[k]@, 0);
                    } else if lex_lt(v@[k]@, v@[i as int]@) {
                        lemma_lex_transitive(v@[k]@, v@[i as int]@, v@[best as int]@, 0);
                    }
                }
            }
            best = i;
        } else {
            proof {
                if lex_lt(v@[best as int]@, v@[i as int]@) {
                    lemma_lex_asymmetric(v@[best as int]@, v@[i as int]@, 0);
                }
            }
        }
        i = i + 1;
    }
    best
}

impl Drawing {
    /// The codes are held without repetition and the turns stay within the order.
    pub closed spec fn wf(&self) -> bool {
        &&& texts(self.pool@).no_duplicates()
        &&& self.next <= self.order@.len()
    }

    /// A drawing that takes the participants in `order` and hands out the codes
    /// of `state`.
    pub fn with_order(order: Vec<i64>, state: &RaffleState) -> (r: Drawing)
        requires
            state.wf(),
        ensures
            r.wf(),
            r@.order == order@,
            r@.pool == state@.giftcards,
            r@.next == 0,
    {
        let pool = state.giftcards().clone();
        Drawing { order, pool, next: 0 }
    }

    /// A drawing over the participants of `state` in a random order.
    pub fn start(state: &RaffleState) -> (r: Drawing)
        requires
            state.wf(),
        ensures
            r.wf(),
            r@.order.no_duplicates(),
            r@.order.to_set() == state@.participants,
            r@.pool == state@.giftcards,
            r@.next == 0,
            deliveries_left(r@) == if state@.participants.len() < state@.giftcards.len() {
                state@.participants.len() as int
            } else {
                state@.giftcards.len() as int
            },
    {
        let ids = state.participants().clone();
        let codes = state.giftcards();
        let order = shuffle_ids(ids);
        proof {
            ids@.lemma_multiset_has_no_duplicates();
            assert forall|x: i64| order@.to_multiset().contains(x) implies order@.to_multiset().count(
                x,
            ) == 1 by {}
            order@.lemma_multiset_has_no_duplicates_conv();
            assert forall|x: i64| order@.contains(x) <==> ids@.contains(x) by {
                vstd::seq_lib::to_multiset_contains(order@, x);
                vstd::seq_lib::to_multiset_contains(ids@, x);
            }
            assert(order@.to_set() =~= ids@.to_set());
            lemma_unique_len(order@);
            lemma_unique_len(texts(codes@));
        }
        Drawing::with_order(order, state)
    }

    /// Takes the next turn: the next participant in the order gets the smallest
    /// code left, which leaves the pool; `None` once the order or the codes are
    /// used up.
    pub fn next_step(&mut self) -> (r: Option<(i64, String)>)
        requires
            old(self).wf(),
        ensures
            final(self).wf(),
            final(self)@.order == old(self)@.order,
            match r {
                Some((chat_id, code)) => {
                    &&& deliveries_left(old(self)@) > 0
                    &&& chat_id == old(self)@.order[old(self)@.next as int]
                    &&& is_least(old(self)@.pool, code@)
                    &&& final(self)@.pool == old(self)@.pool.remove(code@)
                    &&& final(self)@.next == old(self)@.next + 1
                    &&& deliveries_left(final(self)@) == deliveries_left(old(self)@) - 1
                },
                None => deliveries_left(old(self)@) == 0 && final(self)@ == old(self)@,
            },
    {
        proof {
            lemma_unique_len(texts(self.pool@));
        }
        if self.next >= self.order.len() || self.pool.len() == 0 {
            proof {
                if self.pool.len() == 0 {
                    assert(texts(self.pool@).to_set() =~= Set::<Seq<char>>::empty());
                }
            }
            return None;
        }
        let chat_id = self.order[self.next];
        let i = least_index(&self.pool);
        let ghost before = self.pool@;
        proof {
            lemma_remove_unique(texts(before), i as int);
            assert forall|x: Seq<char>| #[trigger] texts(before).to_set().contains(x) implies !lex_lt(
                x,
                before[i as int]@,
            ) by {
                let k = choose|k: int| 0 <= k < texts(before).len() && texts(before)[k] == x;
                assert(before[k]@ == x);
            }
            assert(texts(before)[i as int] == before[i as int]@);
        }
        let code = self.pool.remove(i);
        assert(texts(self.pool@) =~= texts(before).remove(i as int));
        proof {
            lemma_unique_len(texts(self.pool@));
        }
        self.next = self.next + 1;
        Some((chat_id, code))
    }
}

/// A participant whose code has been delivered is not in the order of a drawing
/// started afterwards, so no second code reaches them.
pub proof fn lemma_delivered_not_redrawn(
    v: RaffleView,
    chat_id: i64,
    code: Seq<char>,
    order: Seq<i64>,
)
    requires
        order.to_set() == delivered(v, chat_id, code).participants,
    ensures
        !order.contains(chat_id),
{
    assert(!delivered(v, chat_id, code).participants.contains(chat_id));
    assert(order.contains(chat_id) ==> order.to_set().contains(chat_id));
}

} // verus!
