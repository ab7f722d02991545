//! The raffle's whole state: the pool of reward codes, the participants and the
//! optional secret code, with the transitions between raffles.

use vstd::prelude::*;
use vstd::string::*;

use crate::text::{same_text, texts};

verus! {

/// What a raffle state means: sets of codes and of chat identifiers, and the
/// secret code if one is set.
pub ghost struct RaffleView {
    pub giftcards: Set<Seq<char>>,
    pub participants: Set<i64>,
    pub secret_code: Option<Seq<char>>,
}

/// The persisted state of the raffle.
pub struct RaffleState {
    giftcards: Vec<String>,
    participants: Vec<i64>,
    secret_code: Option<String>,
}

/// The characters of an optional string.
pub open spec fn opt_text(s: Option<String>) -> Option<Seq<char>> {
    match s {
        Some(t) => Some(t@),
        None => None,
    }
}

impl View for RaffleState {
    type V = RaffleView;

    closed spec fn view(&self) -> RaffleView {
        RaffleView {
            giftcards: texts(self.giftcards@).to_set(),
            participants: self.participants@.to_set(),
            secret_code: opt_text(self.secret_code),
        }
    }
}

/// A raffle is open while reward codes remain in its pool.
pub open spec fn is_open(v: RaffleView) -> bool {
    !v.giftcards.is_empty()
}

/// The state after `chat_id` joins.
pub open spec fn joined(v: RaffleView, chat_id: i64) -> RaffleView {
    RaffleView { participants: v.participants.insert(chat_id), ..v }
}

/// The state after a new raffle starts with `codes` and `secret`.
pub open spec fn restarted(
    v: RaffleView,
    codes: Set<Seq<char>>,
    secret: Option<Seq<char>>,
) -> RaffleView {
    RaffleView { giftcards: codes, secret_code: secret, ..v }
}

/// The state after `code` has reached `chat_id`.
pub open spec fn delivered(v: RaffleView, chat_id: i64, code: Seq<char>) -> RaffleView {
    RaffleView {
        giftcards: v.giftcards.remove(code),
        participants: v.participants.remove(chat_id),
        ..v
    }
}

/// The state once a drawing has ended.
pub open spec fn closed(v: RaffleView) -> RaffleView {
    RaffleView { giftcards: Set::empty(), participants: Set::empty(), ..v }
}

pub(crate) proof fn lemma_remove_unique<A>(s: Seq<A>, i: int)
    requires
        s.no_duplicates(),
        0 <= i < s.len(),
    ensures
        s.remove(i).no_duplicates(),
        s.remove(i).to_set() == s.to_set().remove(s[i]),
{
    let r = s.remove(i);
    assert forall|x: A| r.contains(x) <==> (s.contains(x) && x != s[i]) by {
        if r.contains(x) {
            let k = choose|k: int| 0 <= k < r.len() && r[k] == x;
            if k < i {
                assert(s[k] == x);
            } else {
                assert(s[k + 1] == x);
            }
        }
        if s.contains(x) && x != s[i] {
            let k = choose|k: int| 0 <= k < s.len() && s[k] == x;
            if k < i {
                assert(r[k] == x);
            } else {
                assert(r[k - 1] == x);
            }
        }
    }
    assert(r.to_set() =~= s.to_set().remove(s[i]));
    assert forall|a: int, b: int| 0 <= a < b < r.len() implies r[a] != r[b] by {
        let sa = if a < i { a } else { a + 1 };
        let sb = if b < i { b } else { b + 1 };
        assert(r[a] == s[sa] && r[b] == s[sb]);
    }
}

proof fn lemma_push_unique<A>(s: Seq<A>, x: A)
    requires
        s.no_duplicates(),
        !s.contains(x),
    ensures
        s.push(x).no_duplicates(),
        s.push(x).to_set() == s.to_set().insert(x),
{
    assert forall|a: int, b: int| 0 <= a < b < s.push(x).len() implies s.push(x)[a] != s.push(
        x,
    )[b] by {
        if b == s.len() {
            assert(s[a] == s.push(x)[a]);
        }
    }
    s.lemma_push_to_set_commute(x);
}

pub(crate) proof fn lemma_unique_len<A>(s: Seq<A>)
    requires
        s.no_duplicates(),
    ensures
        s.to_set().len() == s.len(),
        s.to_set().finite(),
{
    s.unique_seq_to_set();
}

/// Finds where `x` stands in `v`.
fn find_id(v: &Vec<i64>, x: i64) -> (r: Option<usize>)
    ensures
        match r {
            Some(i) => i < v@.len() && v@[i as int] == x,
            None => !v@.contains(x),
        },
{
    let mut i: usize = 0;
    while i < v.len()
        invariant
            i <= v@.len(),
            forall|k: int| 0 <= k < i ==> v@[k] != x,
        decreases v@.len() - i,
    {
        if v[i] == x {
            return Some(i);
        }
        i = i + 1;
    }
    None
}

/// Finds where a string with the characters of `x` stands in `v`.
fn find_text(v: &Vec<String>, x: &str) -> (r: Option<usize>)
    ensures
        match r {
            Some(i) => i < v@.len() && v@[i as int]@ == x@,
            None => !texts(v@).contains(x@),
        },
{
    let mut i: usize = 0;
    while i < v.len()
        invariant
            i <= v@.len(),
            forall|k: int| 0 <= k < i ==> v@[k]@ != x@,
        decreases v@.len() - i,
    {
        if same_text(v[i].as_str(), x) {
            return Some(i);
        }
        i = i + 1;
    }
    proof {
        if texts(v@).contains(x@) {
            let k = choose|k: int| 0 <= k < texts(v@).len() && texts(v@)[k] == x@;
            assert(v@[k]@ == x@);
        }
    }
    None
}

impl RaffleState {
    /// The codes and the participants are held without repetition.
    pub closed spec fn wf(&self) -> bool {
        &&& texts(self.giftcards@).no_duplicates()
        &&& self.participants@.no_duplicates()
    }

    /// The state before any raffle: no codes, no participants, no secret code.
    pub fn new() -> (r: RaffleState)
        ensures
            r.wf(),
            r@.giftcards == Set::<Seq<char>>::empty(),
            r@.participants == Set::<i64>::empty(),
            r@.secret_code is None,
    {
        let r = RaffleState { giftcards: Vec::new(), participants: Vec::new(), secret_code: None };
        assert(texts(r.giftcards@).to_set() =~= Set::<Seq<char>>::empty());
        assert(r.participants@.to_set() =~= Set::<i64>::empty());
        r
    }

    /// A state that holds the given codes and participants, each once, and the
    /// given secret code.
    pub fn from_parts(
        giftcards: Vec<String>,
        participants: Vec<i64>,
        secret_code: Option<String>,
    ) -> (r: RaffleState)
        ensures
            r.wf(),
            r@.giftcards == texts(giftcards@).to_set(),
            r@.participants == participants@.to_set(),
            r@.secret_code == opt_text(secret_code),
    {
        let mut r = RaffleState::new();
        assert(texts(giftcards@.subrange(0, 0)).to_set() =~= Set::<Seq<char>>::empty());
        let mut i: usize = 0;
        while i < giftcards.len()
            invariant
                i <= giftcards@.len(),
                r.wf(),
                r@.giftcards == texts(giftcards@.subrange(0, i as int)).to_set(),
                r@.participants == Set::<i64>::empty(),
                r@.secret_code is None,
            decreases giftcards@.len() - i,
        {
            r.add_giftcard(giftcards[i].clone());
            assert(texts(giftcards@.subrange(0, i + 1)) =~= texts(
                giftcards@.subrange(0, i as int),
            ).push(giftcards@[i as int]@));
            proof { texts(giftcards@.subrange(0, i as int)).lemma_push_to_set_commute(giftcards@[i as int]@); }
            assert(texts(giftcards@.subrange(0, i + 1)).to_set() =~= texts(
                giftcards@.subrange(0, i as int),
            ).to_set().insert(giftcards@[i as int]@));
            i = i + 1;
        }
        assert(giftcards@.subrange(0, giftcards@.len() as int) =~= giftcards@);
        assert(participants@.subrange(0, 0).to_set() =~= Set::<i64>::empty());
        let mut j: usize = 0;
        while j < participants.len()
            invariant
                j <= participants@.len(),
                r.wf(),
                r@.giftcards == texts(giftcards@).to_set(),
                r@.participants == participants@.subrange(0, j as int).to_set(),
                r@.secret_code is None,
            decreases participants@.len() - j,
        {
            r.join(participants[j]);
            assert(participants@.subrange(0, j + 1) =~= participants@.subrange(0, j as int).push(
                participants@[j as int],
            ));
            proof { participants@.subrange(0, j as int).lemma_push_to_set_commute(participants@[j as int]); }
            assert(participants@.subrange(0, j + 1).to_set() =~= participants@.subrange(
                0,
                j as int,
            ).to_set().insert(participants@[j as int]));
            j = j + 1;
        }
        assert(participants@.subrange(0, participants@.len() as int) =~= participants@);
        r.secret_code = secret_code;
        r
    }

    /// The reward codes in the pool, each once.
    pub fn giftcards(&self) -> (r: &Vec<String>)
        ensures
            texts(r@).to_set() == self@.giftcards,
            self.wf() ==> texts(r@).no_duplicates(),
    {
        &self.giftcards
    }

    /// The participants, each once.
    pub fn participants(&self) -> (r: &Vec<i64>)
        ensures
            r@.to_set() == self@.participants,
            self.wf() ==> r@.no_duplicates(),
    {
        &self.participants
    }

    /// The secret code, if one is set.
    pub fn secret_code(&self) -> (r: &Option<String>)
        ensures
            opt_text(*r) == self@.secret_code,
    {
        &self.secret_code
    }

    /// How many participants have joined.
    pub fn participants_count(&self) -> (r: usize)
        requires
            self.wf(),
        ensures
            r == self@.participants.len(),
    {
        proof {
            lemma_unique_len(self.participants@);
        }
        self.participants.len()
    }

    /// How many reward codes remain in the pool.
    pub fn giftcards_count(&self) -> (r: usize)
        requires
            self.wf(),
        ensures
            r == self@.giftcards.len(),
    {
        proof {
            lemma_unique_len(texts(self.giftcards@));
        }
        self.giftcards.len()
    }

    /// Tells whether a raffle is under way.
    pub fn is_open(&self) -> (r: bool)
        ensures
            r == is_open(self@),
    {
        if self.giftcards.len() == 0 {
            assert(texts(self.giftcards@).to_set() =~= Set::<Seq<char>>::empty());
            false
        } else {
            assert(texts(self.giftcards@)[0] == self.giftcards@[0]@);
            assert(texts(self.giftcards@).to_set().contains(self.giftcards@[0]@));
            true
        }
    }

    /// Puts a code into the pool, where it stands at most once.
    fn add_giftcard(&mut self, code: String)
        requires
            old(self).wf(),
        ensures
            final(self).wf(),
            final(self)@ == (RaffleView {
                giftcards: old(self)@.giftcards.insert(code@),
                ..old(self)@
            }),
    {
        match find_text(&self.giftcards, code.as_str()) {
            Some(i) => {
                assert(texts(self.giftcards@)[i as int] == code@);
                assert(self@.giftcards.insert(code@) =~= self@.giftcards);
            },
            None => {
                let ghost before = self.giftcards@;
                self.giftcards.push(code);
                assert(texts(self.giftcards@) =~= texts(before).push(code@));
                proof {
                    lemma_push_unique(texts(before), code@);
                }
            },
        }
    }

    /// Enters `chat_id` into the raffle; joining again changes nothing.
    pub fn join(&mut self, chat_id: i64)
        requires
            old(self).wf(),
        ensures
            final(self).wf(),
            final(self)@ == joined(old(self)@, chat_id),
    {
        match find_id(&self.participants, chat_id) {
            Some(_) => {
                assert(self@.participants.insert(chat_id) =~= self@.participants);
            },
            None => {
                proof {
                    lemma_push_unique(self.participants@, chat_id);
                }
                self.participants.push(chat_id);
            },
        }
    }

    /// Starts a new raffle: the pool becomes exactly `codes` and the secret code
    /// becomes `secret`, whatever the earlier raffle left behind.
    pub fn restart(&mut self, codes: Vec<String>, secret: Option<String>)
        requires
            old(self).wf(),
        ensures
            final(self).wf(),
            final(self)@ == restarted(old(self)@, texts(codes@).to_set(), opt_text(secret)),
    {
        self.giftcards = Vec::new();
        assert(texts(self.giftcards@).to_set() =~= texts(codes@.subrange(0, 0)).to_set());
        let mut i: usize = 0;
        while i < codes.len()
            invariant
                i <= codes@.len(),
                self.wf(),
                self@ == restarted(
                    old(self)@,
                    texts(codes@.subrange(0, i as int)).to_set(),
                    old(self)@.secret_code,
                ),
            decreases codes@.len() - i,
        {
            self.add_giftcard(codes[i].clone());
            assert(texts(codes@.subrange(0, i + 1)) =~= texts(codes@.subrange(0, i as int)).push(
                codes@[i as int]@,
            ));
            proof { texts(codes@.subrange(0, i as int)).lemma_push_to_set_commute(codes@[i as int]@); }
            assert(texts(codes@.subrange(0, i + 1)).to_set() =~= texts(
                codes@.subrange(0, i as int),
            ).to_set().insert(codes@[i as int]@));
            i = i + 1;
        }
        assert(codes@.subrange(0, codes@.len() as int) =~= codes@);
        self.secret_code = secret;
    }

    /// Records that `code` has reached `chat_id`: the participant leaves the
    /// raffle and the code leaves the pool.
    pub fn record_delivery(&mut self, chat_id: i64, code: &str)
        requires
            old(self).wf(),
        ensures
            final(self).wf(),
            final(self)@ == delivered(old(self)@, chat_id, code@),
    {
        match find_id(&self.participants, chat_id) {
            Some(i) => {
                proof {
                    lemma_remove_unique(self.participants@, i as int);
                }
                self.participants.remove(i);
            },
            None => {
                assert(self@.participants.remove(chat_id) =~= self@.participants);
            },
        }
        match find_text(&self.giftcards, code) {
            Some(i) => {
                let ghost before = self.giftcards@;
                proof {
                    lemma_remove_unique(texts(before), i as int);
                }
                self.giftcards.remove(i);
                assert(texts(self.giftcards@) =~= texts(before).remove(i as int));
            },
            None => {
                assert(self@.giftcards.remove(code@) =~= self@.giftcards);
            },
        }
    }

    /// Ends the raffle: no participants and no codes remain.
    pub fn close(&mut self)
        requires
            old(self).wf(),
        ensures
            final(self).wf(),
            final(self)@ == closed(old(self)@),
    {
        self.participants = Vec::new();
        self.giftcards = Vec::new();
        assert(texts(self.giftcards@).to_set() =~= Set::<Seq<char>>::empty());
        assert(self.participants@.to_set() =~= Set::<i64>::empty());
    }
}

/// The state after each of `ids` joins, in turn.
pub open spec fn joined_all(v: RaffleView, ids: Seq<i64>) -> RaffleView
    decreases ids.len(),
{
    if ids.len() == 0 {
        v
    } else {
        joined(joined_all(v, ids.drop_last()), ids.last())
    }
}

/// Whatever joins happen, and however often one chat joins, the participants
/// are the earlier ones together with each chat that joined, once; nothing else
/// changes.
pub proof fn lemma_joins_union(v: RaffleView, ids: Seq<i64>)
    ensures
        joined_all(v, ids).participants == v.participants.union(ids.to_set()),
        joined_all(v, ids).giftcards == v.giftcards,
        joined_all(v, ids).secret_code == v.secret_code,
    decreases ids.len(),
{
    if ids.len() == 0 {
        assert(v.participants.union(ids.to_set()) =~= v.participants);
    } else {
        let front = ids.drop_last();
        lemma_joins_union(v, front);
        assert(front.push(ids.last()) =~= ids);
        front.lemma_push_to_set_commute(ids.last());
        assert(v.participants.union(front.to_set()).insert(ids.last()) =~= v.participants.union(
            ids.to_set(),
        ));
    }
}

/// Joining twice is joining once.
pub proof fn lemma_join_idempotent(v: RaffleView, chat_id: i64)
    ensures
        joined(joined(v, chat_id), chat_id) == joined(v, chat_id),
{
    assert(joined(joined(v, chat_id), chat_id).participants =~= joined(v, chat_id).participants);
}

/// A new raffle keeps nothing of the codes or the secret code of the state it
/// starts from.
pub proof fn lemma_restart_replaces(
    v1: RaffleView,
    v2: RaffleView,
    codes: Set<Seq<char>>,
    secret: Option<Seq<char>>,
)
    ensures
        restarted(v1, codes, secret).giftcards == restarted(v2, codes, secret).giftcards,
        restarted(v1, codes, secret).secret_code == restarted(v2, codes, secret).secret_code,
{
}

} // verus!
