use crate::random::draw_below;
use rand::rngs::StdRng;
use vstd::prelude::*;

verus! {

/// What a participant does on its turn.
#[derive(Clone, Copy, PartialEq, Eq, Structural, Debug)]
pub enum Decision {
    /// The participant comes to take its item.
    TakeItem { from: usize },
    /// The participant goes to look at the locker.
    Observe { from: usize },
    /// The participant does nothing.
    Idle,
}

/// The decision that a draw stands for: 0 takes the item, 1 observes,
/// anything else does nothing.
pub open spec fn decision_of(draw: usize, from: usize) -> Decision {
    if draw == 0 {
        Decision::TakeItem { from }
    } else if draw == 1 {
        Decision::Observe { from }
    } else {
        Decision::Idle
    }
}

/// The participant a decision is about (0 for `Idle`, which is about nobody).
pub open spec fn actor(d: Decision) -> usize {
    match d {
        Decision::TakeItem { from } => from,
        Decision::Observe { from } => from,
        Decision::Idle => 0,
    }
}

impl Decision {
    /// The decision that a draw of `0..3` stands for: 0 takes the item,
    /// 1 observes, anything else does nothing.
    pub fn from_draw(draw: usize, from: usize) -> (r: Decision)
        ensures
            r == decision_of(draw, from),
    {
        if draw == 0 {
            Decision::TakeItem { from }
        } else if draw == 1 {
            Decision::Observe { from }
        } else {
            Decision::Idle
        }
    }

    /// One of the three decisions for participant `from`, drawn uniformly.
    pub fn rand_choose(rng: &mut StdRng, from: usize) -> (r: Decision)
        ensures
            r == (Decision::TakeItem { from }) || r == (Decision::Observe { from }) || r == Decision::Idle,
    {
        let draw = draw_below(rng, 3);
        Decision::from_draw(draw, from)
    }
}

/// A participant: its id and the index of the snapshot it last observed.
#[derive(Clone, Copy, PartialEq, Eq, Structural, Debug)]
pub struct User {
    pub id: usize,
    pub inmind_locker_state_idx: usize,
}

impl User {
    pub fn new(id: usize, locker_state_idx: usize) -> (r: User)
        ensures
            r.id == id,
            r.inmind_locker_state_idx == locker_state_idx,
    {
        User { id: id, inmind_locker_state_idx: locker_state_idx }
    }
}

/// No two participants of `s` share an id.
pub open spec fn ids_unique(s: Seq<User>) -> bool {
    forall|a: int, b: int|
        0 <= a < s.len() && 0 <= b < s.len() && #[trigger] s[a].id == #[trigger] s[b].id ==> a == b
}

/// Some participant of `s` has the id `id`.
pub open spec fn has_id(s: Seq<User>, id: usize) -> bool {
    exists|k: int| 0 <= k < s.len() && s[k].id == id
}

/// A position of `s` where the participant with id `id` stands.
pub open spec fn position_of_id(s: Seq<User>, id: usize) -> int {
    choose|k: int| 0 <= k < s.len() && s[k].id == id
}

/// The participants of `s` as a map from id to believed snapshot index.
pub open spec fn beliefs(s: Seq<User>) -> Map<usize, usize> {
    Map::new(
        |id: usize| has_id(s, id),
        |id: usize| s[position_of_id(s, id)].inmind_locker_state_idx,
    )
}

/// With unique ids, the entry of the participant at position `k` is its own.
pub proof fn lemma_beliefs_at(s: Seq<User>, k: int)
    requires
        ids_unique(s),
        0 <= k < s.len(),
    ensures
        beliefs(s).contains_key(s[k].id),
        beliefs(s)[s[k].id] == s[k].inmind_locker_state_idx,
        position_of_id(s, s[k].id) == k,
{
    assert(has_id(s, s[k].id));
    let p = position_of_id(s, s[k].id);
    assert(s[p].id == s[k].id);
}

/// Changing the belief of the participant at position `k` changes its entry only.
pub proof fn lemma_beliefs_update(s: Seq<User>, k: int, belief: usize)
    requires
        ids_unique(s),
        0 <= k < s.len(),
    ensures
        ids_unique(s.update(k, User { id: s[k].id, inmind_locker_state_idx: belief })),
        beliefs(s.update(k, User { id: s[k].id, inmind_locker_state_idx: belief })) == beliefs(s).insert(
            s[k].id,
            belief,
        ),
{
    let t = s.update(k, User { id: s[k].id, inmind_locker_state_idx: belief });
    assert(ids_unique(t)) by {
        assert forall|a: int, b: int|
            0 <= a < t.len() && 0 <= b < t.len() && #[trigger] t[a].id == #[trigger] t[b].id implies a == b by {
            assert(t[a].id == s[a].id);
            assert(t[b].id == s[b].id);
        }
    }
    assert forall|id: usize| #[trigger] beliefs(t).contains_key(id) == beliefs(s).insert(s[k].id, belief).contains_key(id) by {
        if has_id(s, id) {
            let p = choose|p: int| 0 <= p < s.len() && s[p].id == id;
            assert(t[p].id == id);
        }
        if has_id(t, id) {
            let p = choose|p: int| 0 <= p < t.len() && t[p].id == id;
            assert(s[p].id == id);
        }
    }
    assert forall|id: usize| #[trigger] beliefs(t).contains_key(id) implies beliefs(t)[id] == beliefs(s).insert(
        s[k].id,
        belief,
    )[id] by {
        let p = choose|p: int| 0 <= p < t.len() && t[p].id == id;
        lemma_beliefs_at(t, p);
        if p != k {
            lemma_beliefs_at(s, p);
        }
    }
    assert(beliefs(t) =~= beliefs(s).insert(s[k].id, belief));
}

/// Removing the participant at position `k` removes its entry only.
pub proof fn lemma_beliefs_remove(s: Seq<User>, k: int)
    requires
        ids_unique(s),
        0 <= k < s.len(),
    ensures
        ids_unique(s.remove(k)),
        beliefs(s.remove(k)) == beliefs(s).remove(s[k].id),
{
    let t = s.remove(k);
    assert(ids_unique(t)) by {
        assert forall|a: int, b: int|
            0 <= a < t.len() && 0 <= b < t.len() && #[trigger] t[a].id == #[trigger] t[b].id implies a == b by {
            let a2 = if a < k { a } else { a + 1 };
            let b2 = if b < k { b } else { b + 1 };
            assert(t[a] == s[a2]);
            assert(t[b] == s[b2]);
        }
    }
    assert forall|id: usize| #[trigger] beliefs(t).contains_key(id) == beliefs(s).remove(s[k].id).contains_key(id) by {
        if has_id(s, id) && id != s[k].id {
            let p = choose|p: int| 0 <= p < s.len() && s[p].id == id;
            let q = if p < k { p } else { p - 1 };
            assert(t[q] == s[p]);
        }
        if has_id(t, id) {
            let p = choose|p: int| 0 <= p < t.len() && t[p].id == id;
            let q = if p < k { p } else { p + 1 };
            assert(t[p] == s[q]);
        }
    }
    assert forall|id: usize| #[trigger] beliefs(t).contains_key(id) implies beliefs(t)[id] == beliefs(s).remove(
        s[k].id,
    )[id] by {
        let p = choose|p: int| 0 <= p < t.len() && t[p].id == id;
        let q = if p < k { p } else { p + 1 };
        assert(t[p] == s[q]);
        lemma_beliefs_at(t, p);
        lemma_beliefs_at(s, q);
    }
    assert(beliefs(t) =~= beliefs(s).remove(s[k].id));
}

/// The participants still in the game, each with a distinct id.
pub struct UserCollection {
    pub users: Vec<User>,
}

impl View for UserCollection {
    type V = Map<usize, usize>;

    /// Each participant's id, mapped to the snapshot index it believes.
    open spec fn view(&self) -> Map<usize, usize> {
        beliefs(self.users@)
    }
}

impl UserCollection {
    pub open spec fn wf(&self) -> bool {
        ids_unique(self.users@)
    }

    /// Participants with ids `0..user_n`, each believing snapshot `locker_state_idx`.
    pub fn new(user_n: usize, locker_state_idx: usize) -> (r: UserCollection)
        ensures
            r.wf(),
            r.users@.len() == user_n,
            forall|i: int| 0 <= i < user_n ==> #[trigger] r.users@[i] == (User { id: i as usize, inmind_locker_state_idx: locker_state_idx }),
            forall|id: usize| #[trigger] r@.contains_key(id) <==> id < user_n,
            forall|id: usize| #[trigger] r@.contains_key(id) ==> r@[id] == locker_state_idx,
    {
        let mut users: Vec<User> = Vec::new();
        let mut i: usize = 0;
        while i < user_n
            invariant
                i <= user_n,
                users@.len() == i,
                forall|k: int| 0 <= k < i ==> #[trigger] users@[k] == (User { id: k as usize, inmind_locker_state_idx: locker_state_idx }),
            decreases user_n - i,
        {
            users.push(User::new(i, locker_state_idx));
            i = i + 1;
        }
        let r = UserCollection { users };
        assert forall|id: usize| #[trigger] r@.contains_key(id) <==> id < user_n by {
            if id < user_n {
                assert(r.users@[id as int].id == id);
            }
        }
        assert forall|id: usize| #[trigger] r@.contains_key(id) implies r@[id] == locker_state_idx by {
            lemma_beliefs_at(r.users@, position_of_id(r.users@, id));
        }
        r
    }

    /// Position of the participant with id `id`, if there is one.
    fn position(&self, id: usize) -> (r: Option<usize>)
        requires
            self.wf(),
        ensures
            r is None <==> !self@.contains_key(id),
            r matches Some(k) ==> k < self.users@.len() && self.users@[k as int].id == id
                && k == position_of_id(self.users@, id),
    {
        let mut i: usize = 0;
        while i < self.users.len()
            invariant
                i <= self.users@.len(),
                self.wf(),
                forall|k: int| 0 <= k < i ==> #[trigger] self.users@[k].id != id,
            decreases self.users@.len() - i,
        {
            if self.users[i].id == id {
                proof {
                    lemma_beliefs_at(self.users@, i as int);
                }
                return Some(i);
            }
            i = i + 1;
        }
        None
    }

    /// Remove the participant with id `id` (not a position), if it is there.
    pub fn remove_by_id(&mut self, id: usize)
        requires
            old(self).wf(),
        ensures
            final(self).wf(),
            final(self)@ == old(self)@.remove(id),
            old(self)@.contains_key(id) ==> final(self).users@ == old(self).users@.remove(
                position_of_id(old(self).users@, id),
            ),
            !old(self)@.contains_key(id) ==> final(self).users@ == old(self).users@,
            final(self).users@.len() == if old(self)@.contains_key(id) {
                old(self).users@.len() - 1
            } else {
                old(self).users@.len() as int
            },
    {
        match self.position(id) {
            Some(k) => {
                proof {
                    lemma_beliefs_remove(self.users@, k as int);
                }
                self.users.remove(k);
            },
            None => {
                assert(self@ =~= self@.remove(id));
            },
        }
    }

    /// The participant with id `id` (not a position), if it is there.
    pub fn get_by_id(&self, id: usize) -> (r: Option<&User>)
        requires
            self.wf(),
        ensures
            r is None <==> !self@.contains_key(id),
            r matches Some(u) ==> u.id == id && u.inmind_locker_state_idx == self@[id],
    {
        match self.position(id) {
            Some(k) => {
                proof {
                    lemma_beliefs_at(self.users@, k as int);
                }
                Some(&self.users[k])
            },
            None => None,
        }
    }

    /// The participant with id `id` (not a position), if it is there, to change in place.
    pub fn get_mut_by_id(&mut self, id: usize) -> (r: Option<&mut User>)
        requires
            old(self).wf(),
        ensures
            r is None <==> !old(self)@.contains_key(id),
            r is None ==> final(self).users@ == old(self).users@,
            r matches Some(u) ==> {
                &&& u.id == id
                &&& u.inmind_locker_state_idx == old(self)@[id]
                &&& final(self).users@ == old(self).users@.update(
                    position_of_id(old(self).users@, id),
                    *final(u),
                )
            },
    {
        match self.position(id) {
            Some(k) => {
                proof {
                    lemma_beliefs_at(self.users@, k as int);
                }
                Some(&mut self.users[k])
            },
            None => None,
        }
    }

    /// No participant is left.
    pub fn is_empty(&self) -> (r: bool)
        requires
            self.wf(),
        ensures
            r == (self.users@.len() == 0),
            r == (self@.dom() == Set::<usize>::empty()),
    {
        proof {
            if self.users@.len() > 0 {
                lemma_beliefs_at(self.users@, 0);
                assert(self@.dom().contains(self.users@[0].id));
            } else {
                assert(self@.dom() =~= Set::<usize>::empty());
            }
        }
        self.users.len() == 0
    }
}

} // verus!
