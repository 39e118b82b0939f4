use crate::item::Item;
use crate::locker::{
    holds, initial_slots, lemma_initial_slots, lemma_permutation_keeps_owners, lemma_slot_of_unique,
    owners_unique, owners_within, slot_of, Locker,
};
use crate::random::shuffle_uniformly;
use crate::shuffle::{deranged, derange, is_permutation, valid_picks};
use crate::user::{actor, decision_of, Decision, UserCollection};
use rand::rngs::StdRng;
use vstd::prelude::*;

verus! {

/// How a participant that observes updates its belief.
#[derive(Clone, Copy, PartialEq, Eq, Structural, Debug)]
pub enum GameMode {
    /// It looks at the live locker: it believes the latest snapshot.
    Zero,
    /// It looks at a screen showing a snapshot no older than the one it
    /// believes: it believes that one.
    Finite,
}

/// The scenes of one game.
#[derive(Clone, Copy, PartialEq, Eq, Structural, Debug)]
pub enum Scene {
    /// The predictor is told the rules and where each item starts.
    Init,
    /// A participant is drawn and decides what to do.
    DecisionMaking,
    /// The locker may reset itself.
    Shuffling,
    /// A participant may update its belief.
    Observing,
    /// The predictor guesses where a participant believes its item is.
    Predicting,
    /// Every participant has taken its item.
    End,
}

/// A step was asked of the game in a scene where it cannot happen.
#[derive(Clone, Copy, PartialEq, Eq, Structural, Debug)]
pub enum StepError {
    OutOfTurn,
}

/// What a step of the game tells the predictor.
#[derive(Debug)]
pub enum Notice {
    /// The rules of the mode, and for each participant (by id) the slot
    /// where its item starts.
    Introduction { mode: GameMode, positions: Vec<(usize, usize)> },
    /// The locker reset itself and now holds these slots.
    Reshuffled { items: Vec<Option<Item>> },
    /// A participant observed: directly (`back` is `None`), or a snapshot
    /// that is the `back`-to-last one.
    Observation { user: usize, back: Option<usize> },
    /// The predictor must guess the slot where `user` will look.
    Prompt { user: usize },
    /// How a retrieval went.
    Verdict { user: usize, correct: bool, believed: usize, actual: usize },
    /// The locker after a retrieval.
    Contents { items: Vec<Option<Item>> },
    /// The final count of correct guesses, and its share of all participants
    /// in percent.
    Summary { score: usize, percent: usize },
}

impl Notice {
    /// `n` is the verdict on the retrieval of `user`.
    pub open spec fn is_verdict(n: Notice, user: usize, correct: bool, believed: int, actual: int) -> bool {
        n matches Notice::Verdict { user: u, correct: c, believed: b, actual: r } && u == user && c == correct && b
            == believed && r == actual
    }

    /// `n` shows the locker holding `slots`.
    pub open spec fn is_contents(n: Notice, slots: Seq<Option<Item>>) -> bool {
        n matches Notice::Contents { items } && items@ == slots
    }
}

/// The share of `score` in `user_n` participants, in whole percent.
pub open spec fn percent_of(score: nat, user_n: nat) -> nat {
    if user_n == 0 {
        0
    } else {
        score * 100 / user_n
    }
}

/// One game: the locker's history, the participants still in it, the
/// decision being carried out, the score and the current scene.
pub struct Game {
    pub mode: GameMode,
    pub user_n: usize,
    pub score: usize,
    /// Every layout the locker has had, oldest first; the last is the live one.
    pub locker_snapshots: Vec<Locker>,
    pub users: UserCollection,
    pub user_decision: Decision,
    pub scene: Scene,
    /// For each snapshot after the first, the snapshot it was derived from.
    pub lineage: Ghost<Seq<int>>,
    /// Each participant that took its item, mapped to the index of the
    /// snapshot recorded at that retrieval.
    pub delivered: Ghost<Map<usize, int>>,
}

/// `slots` with the items of participants no longer in `users` taken out.
pub open spec fn kept(slots: Seq<Option<Item>>, users: Map<usize, usize>) -> Seq<Option<Item>> {
    Seq::new(
        slots.len(),
        |i: int|
            match slots[i] {
                Some(item) => if users.contains_key(item.belongs_to) {
                    Some(item)
                } else {
                    None
                },
                None => None,
            },
    )
}

/// Taking out the items of departed participants keeps the items of those
/// still playing, takes out all others, and keeps owners unique.
pub proof fn lemma_kept(slots: Seq<Option<Item>>, users: Map<usize, usize>)
    ensures
        kept(slots, users).len() == slots.len(),
        owners_unique(slots) ==> owners_unique(kept(slots, users)),
        forall|id: usize| holds(kept(slots, users), id) <==> holds(slots, id) && users.contains_key(id),
        owners_within(kept(slots, users), slots),
{
    let t = kept(slots, users);
    assert forall|id: usize| holds(t, id) <==> holds(slots, id) && users.contains_key(id) by {
        if holds(t, id) {
            let k = choose|k: int| 0 <= k < t.len() && t[k] == Some(Item { belongs_to: id });
            assert(slots[k] == t[k]);
        }
        if holds(slots, id) && users.contains_key(id) {
            let k = choose|k: int| 0 <= k < slots.len() && slots[k] == Some(Item { belongs_to: id });
            assert(t[k] == slots[k]);
        }
    }
    if owners_unique(slots) {
        assert forall|a: int, b: int|
            0 <= a < t.len() && 0 <= b < t.len() && #[trigger] t[a] is Some && #[trigger] t[b] == t[a] implies a
            == b by {
            assert(slots[a] == t[a]);
            assert(slots[b] == t[b]);
        }
    }
}

/// Takes out of `slots` the items of participants no longer in `users`.
fn clear_departed(slots: &mut Vec<Option<Item>>, users: &UserCollection)
    requires
        users.wf(),
    ensures
        final(slots)@ == kept(old(slots)@, users@),
{
    let mut i: usize = 0;
    while i < slots.len()
        invariant
            users.wf(),
            i <= slots@.len(),
            slots@.len() == old(slots)@.len(),
            forall|k: int| 0 <= k < i ==> #[trigger] slots@[k] == kept(old(slots)@, users@)[k],
            forall|k: int| i <= k < slots@.len() ==> #[trigger] slots@[k] == old(slots)@[k],
        decreases slots@.len() - i,
    {
        if let Some(item) = slots[i] {
            if users.get_by_id(item.belongs_to).is_none() {
                slots[i] = None;
            }
        }
        i = i + 1;
    }
    assert(slots@ =~= kept(old(slots)@, users@));
}

impl Game {
    /// The slots of snapshot `k`.
    pub open spec fn slots(&self, k: int) -> Seq<Option<Item>> {
        self.locker_snapshots@[k].items@
    }

    /// Index of the live snapshot.
    pub open spec fn last_index(&self) -> int {
        self.locker_snapshots@.len() - 1
    }

    /// Participant `id` is still in the game.
    pub open spec fn active(&self, id: usize) -> bool {
        self.users@.contains_key(id)
    }

    /// The pending decision is the one the scene needs.
    pub open spec fn scene_fits(&self) -> bool {
        match self.scene {
            Scene::Init => self.user_decision == Decision::Idle,
            Scene::DecisionMaking => self.users.users@.len() > 0 && self.user_decision == Decision::Idle,
            Scene::Shuffling => self.users.users@.len() > 0 && match self.user_decision {
                Decision::TakeItem { from } => self.active(from),
                Decision::Idle => true,
                Decision::Observe { .. } => false,
            },
            Scene::Observing => self.user_decision is Observe && self.active(actor(self.user_decision)),
            Scene::Predicting => self.user_decision is TakeItem && self.active(actor(self.user_decision)),
            Scene::End => self.users.users@.len() == 0 && self.user_decision == Decision::Idle,
        }
    }

    /// The invariant of a game.
    pub open spec fn wf(&self) -> bool {
        &&& self.locker_snapshots@.len() >= 1
        &&& self.users.wf()
        &&& self.lineage@.len() == self.locker_snapshots@.len()
        &&& forall|k: int|
            0 <= k < self.locker_snapshots@.len() ==> #[trigger] self.slots(k).len() == self.user_n
                && owners_unique(self.slots(k))
        &&& forall|k: int, id: usize|
            0 <= k < self.locker_snapshots@.len() && self.active(id) ==> #[trigger] holds(self.slots(k), id)
        &&& forall|id: usize|
            #[trigger] self.users@.contains_key(id) ==> self.users@[id] < self.locker_snapshots@.len() && id
                < self.user_n
        &&& self.score + self.users.users@.len() <= self.user_n
        &&& forall|k: int|
            1 <= k < self.locker_snapshots@.len() ==> 0 <= #[trigger] self.lineage@[k] < k && owners_within(
                self.slots(k),
                self.slots(self.lineage@[k]),
            )
        &&& forall|id: usize|
            #[trigger] self.delivered@.contains_key(id) ==> !self.active(id) && 0 <= self.delivered@[id]
                < self.locker_snapshots@.len()
        &&& forall|id: usize, k: int|
            self.delivered@.contains_key(id) && self.delivered@[id] <= k < self.locker_snapshots@.len()
                ==> !#[trigger] holds(self.slots(k), id)
        &&& self.scene_fits()
    }

    /// `self` is a later state of the game `old`: the history was only
    /// appended to, no participant came back, no belief went back and the
    /// score did not drop.
    pub open spec fn follows(&self, old: &Game) -> bool {
        &&& self.mode == old.mode
        &&& self.user_n == old.user_n
        &&& self.locker_snapshots@.len() >= old.locker_snapshots@.len()
        &&& forall|k: int|
            0 <= k < old.locker_snapshots@.len() ==> #[trigger] self.locker_snapshots@[k]
                == old.locker_snapshots@[k]
        &&& self.lineage@.len() >= old.lineage@.len()
        &&& forall|k: int| 0 <= k < old.lineage@.len() ==> #[trigger] self.lineage@[k] == old.lineage@[k]
        &&& forall|id: usize|
            #[trigger] self.users@.contains_key(id) ==> old.users@.contains_key(id) && old.users@[id]
                <= self.users@[id]
        &&& self.users.users@.len() <= old.users.users@.len()
        &&& forall|id: usize|
            #[trigger] old.delivered@.contains_key(id) ==> self.delivered@.contains_key(id)
                && self.delivered@[id] == old.delivered@[id]
        &&& self.score >= old.score
    }

    /// `self` is `old` with one snapshot of the given slots appended, derived
    /// from snapshot `source`.
    pub open spec fn appends(&self, old: &Game, slots: Seq<Option<Item>>, source: int) -> bool {
        &&& self.locker_snapshots@.len() == old.locker_snapshots@.len() + 1
        &&& forall|k: int|
            0 <= k < old.locker_snapshots@.len() ==> #[trigger] self.locker_snapshots@[k]
                == old.locker_snapshots@[k]
        &&& self.slots(old.locker_snapshots@.len() as int) == slots
        &&& self.lineage@ == old.lineage@.push(source)
    }

    /// A game of the given mode on a starting layout that holds each item of
    /// participants `0..n` once, `n` being its number of slots. Every
    /// participant believes that layout.
    pub fn with_layout(mode: GameMode, layout: Locker) -> (r: Game)
        requires
            owners_unique(layout.items@),
            forall|id: usize| holds(layout.items@, id) <==> id < layout.items@.len(),
        ensures
            r.wf(),
            r.mode == mode,
            r.scene == Scene::Init,
            r.user_n == layout.items@.len(),
            r.score == 0,
            r.user_decision == Decision::Idle,
            r.locker_snapshots@.len() == 1,
            r.slots(0) == layout.items@,
            r.delivered@ == Map::<usize, int>::empty(),
            r.users.users@.len() == r.user_n,
            forall|i: int| 0 <= i < r.user_n ==> #[trigger] r.users.users@[i].id == i,
            forall|id: usize| #[trigger] r.users@.contains_key(id) <==> id < r.user_n,
            forall|id: usize| #[trigger] r.users@.contains_key(id) ==> r.users@[id] == 0,
    {
        let n = layout.items.len();
        let users = UserCollection::new(n, 0);
        let mut locker_snapshots: Vec<Locker> = Vec::new();
        locker_snapshots.push(layout);
        let ghost lin: Seq<int> = seq![0int];
        let ghost none_delivered = Map::<usize, int>::empty();
        let r = Game {
            mode,
            user_n: n,
            score: 0,
            locker_snapshots,
            users,
            user_decision: Decision::Idle,
            scene: Scene::Init,
            lineage: Ghost(lin),
            delivered: Ghost(none_delivered),
        };
        assert(r.slots(0).len() == n);
        r
    }

    /// A game of the given mode for `user_n` participants, on a fresh locker
    /// shuffled uniformly.
    pub fn new(mode: GameMode, user_n: usize, rng: &mut StdRng) -> (r: Game)
        ensures
            r.wf(),
            r.mode == mode,
            r.scene == Scene::Init,
            r.user_n == user_n,
            r.score == 0,
            r.locker_snapshots@.len() == 1,
            r.delivered@ == Map::<usize, int>::empty(),
            is_permutation(r.slots(0), initial_slots(user_n as nat)),
            forall|id: usize| #[trigger] r.users@.contains_key(id) <==> id < user_n,
            forall|id: usize| #[trigger] r.users@.contains_key(id) ==> r.users@[id] == 0,
    {
        let mut locker = Locker::new(user_n);
        shuffle_uniformly(&mut locker.items, rng);
        proof {
            lemma_initial_slots(user_n as nat);
            lemma_permutation_keeps_owners(locker.items@, initial_slots(user_n as nat));
        }
        Game::with_layout(mode, locker)
    }

    /// The Init scene: tells the rules and where each participant's item
    /// starts, then goes on to Shuffling (or straight to End when nobody plays).
    pub fn introduce(&mut self) -> (r: Result<Notice, StepError>)
        requires
            old(self).wf(),
        ensures
            final(self).wf(),
            final(self).follows(old(self)),
            old(self).scene != Scene::Init ==> r == Err::<Notice, StepError>(StepError::OutOfTurn) && *final(self)
                == *old(self),
            old(self).scene == Scene::Init ==> Game::introduce_step(*old(self), *final(self)) && (r matches Ok(
                n,
            ) && old(self).introduction_of(n)),
    {
        if self.scene != Scene::Init {
            return Err(StepError::OutOfTurn);
        }
        let last = self.locker_snapshots.len() - 1;
        let mut positions: Vec<(usize, usize)> = Vec::new();
        let mut i: usize = 0;
        while i < self.users.users.len()
            invariant
                self.wf(),
                last == self.last_index(),
                i <= self.users.users@.len(),
                positions@.len() == i,
                forall|k: int|
                    0 <= k < i ==> (#[trigger] positions@[k]).0 == self.users.users@[k].id && positions@[k].1
                        == slot_of(self.slots(last as int), self.users.users@[k].id),
            decreases self.users.users@.len() - i,
        {
            let id = self.users.users[i].id;
            proof {
                crate::user::lemma_beliefs_at(self.users.users@, i as int);
                assert(holds(self.slots(last as int), id));
            }
            let slot = self.locker_snapshots[last].get_item_idx_by_belongs(id);
            proof {
                lemma_slot_of_unique(self.slots(last as int), id, slot as int);
            }
            positions.push((id, slot));
            i = i + 1;
        }
        let ghost before = *self;
        if self.users.is_empty() {
            self.scene = Scene::End;
        } else {
            self.scene = Scene::Shuffling;
        }
        proof {
            Game::lemma_wf_same_history(before, *self);
        }
        Ok(Notice::Introduction { mode: self.mode, positions })
    }

    /// `n` introduces the game `self`: its mode, and for each participant in
    /// order, its id and the slot of the live snapshot that holds its item.
    pub open spec fn introduction_of(&self, n: Notice) -> bool {
        n matches Notice::Introduction { mode, positions } && mode == self.mode && positions@.len()
            == self.users.users@.len() && forall|i: int|
            0 <= i < positions@.len() ==> (#[trigger] positions@[i]).0 == self.users.users@[i].id
                && positions@[i].1 == slot_of(self.slots(self.last_index()), self.users.users@[i].id)
    }

    /// `new` is `old` after the Init scene: Shuffling comes next, or End
    /// when nobody plays.
    pub open spec fn introduce_step(old: Game, new: Game) -> bool {
        new == (Game {
            scene: if old.users.users@.len() == 0 {
                Scene::End
            } else {
                Scene::Shuffling
            },
            ..old
        })
    }

    /// `new` is `old` after the participant at position `pick` decided by
    /// `draw`, with `next_shuffling` as the coin for doing nothing.
    pub open spec fn decide_step(old: Game, new: Game, pick: usize, draw: usize, next_shuffling: bool) -> bool {
        let d = decision_of(draw, old.users.users@[pick as int].id);
        &&& pick < old.users.users@.len()
        &&& new == (Game { user_decision: d, scene: Game::scene_after(d, next_shuffling), ..old })
    }

    /// The snapshot the Shuffling scene derives a new layout from: the one
    /// the participant coming for its item believes, else the live one.
    pub open spec fn shuffle_source(&self) -> int {
        match self.user_decision {
            Decision::TakeItem { from } => self.users@[from] as int,
            _ => self.last_index(),
        }
    }

    /// The layout the Shuffling scene records with the given draws: the
    /// source deranged, and, when a participant is coming for its item,
    /// without the items already delivered.
    pub open spec fn shuffled_slots(&self, picks: Seq<usize>) -> Seq<Option<Item>> {
        let d = deranged(self.slots(self.shuffle_source()), picks);
        if self.user_decision is TakeItem {
            kept(d, self.users@)
        } else {
            d
        }
    }

    /// `new` is `old` after the Shuffling scene with the given draws.
    pub open spec fn shuffle_step(
        old: Game,
        new: Game,
        picks: Seq<usize>,
        reshuffle: bool,
        next_shuffling: bool,
    ) -> bool {
        let taking = old.user_decision is TakeItem;
        &&& new.mode == old.mode
        &&& new.user_n == old.user_n
        &&& new.users == old.users
        &&& new.score == old.score
        &&& new.user_decision == old.user_decision
        &&& new.delivered == old.delivered
        &&& if taking || reshuffle {
            new.appends(&old, old.shuffled_slots(picks), old.shuffle_source())
        } else {
            new.locker_snapshots == old.locker_snapshots && new.lineage == old.lineage
        }
        &&& new.scene == if taking {
            Scene::Predicting
        } else {
            Game::coin_scene(next_shuffling)
        }
    }

    /// `new` is `old` after the Observing scene: if the participant walks
    /// in, its belief becomes the live snapshot (Zero mode) or `seen`
    /// (Finite mode); nothing else changes but the cleared decision and the
    /// scene.
    pub open spec fn observe_step(old: Game, new: Game, walks_in: bool, seen: usize, next_shuffling: bool) -> bool {
        let p = actor(old.user_decision);
        let belief = if old.mode == GameMode::Zero {
            old.last_index()
        } else {
            seen as int
        };
        &&& new.mode == old.mode
        &&& new.user_n == old.user_n
        &&& new.locker_snapshots == old.locker_snapshots
        &&& new.lineage == old.lineage
        &&& new.delivered == old.delivered
        &&& new.score == old.score
        &&& new.users.users@.len() == old.users.users@.len()
        &&& new.users@ == if walks_in {
            old.users@.insert(p, belief as usize)
        } else {
            old.users@
        }
        &&& new.user_decision == Decision::Idle
        &&& new.scene == Game::coin_scene(next_shuffling)
    }

    /// A state with the same history, participants and score as a game that
    /// keeps the invariant keeps it too, as long as its scene fits.
    proof fn lemma_wf_same_history(a: Game, b: Game)
        requires
            a.wf(),
            b.scene_fits(),
            b.locker_snapshots == a.locker_snapshots,
            b.lineage == a.lineage,
            b.delivered == a.delivered,
            b.users == a.users,
            b.score == a.score,
            b.user_n == a.user_n,
        ensures
            b.wf(),
    {
        assert forall|k: int| 0 <= k < b.locker_snapshots@.len() implies #[trigger] b.slots(k) == a.slots(k) by {}
    }

    /// Appending a snapshot derived from an existing one keeps the
    /// invariant, as long as it holds the item of every participant still
    /// playing, none that was delivered, and owners stay unique.
    proof fn lemma_wf_append(a: Game, b: Game, source: int)
        requires
            a.wf(),
            0 <= source < a.locker_snapshots@.len(),
            b.appends(&a, b.slots(a.locker_snapshots@.len() as int), source),
            b.slots(a.locker_snapshots@.len() as int).len() == a.user_n,
            owners_unique(b.slots(a.locker_snapshots@.len() as int)),
            owners_within(b.slots(a.locker_snapshots@.len() as int), a.slots(source)),
            forall|id: usize| a.active(id) ==> holds(b.slots(a.locker_snapshots@.len() as int), id),
            forall|id: usize|
                a.delivered@.contains_key(id) ==> !holds(b.slots(a.locker_snapshots@.len() as int), id),
            b.scene_fits(),
            b.users == a.users,
            b.score == a.score,
            b.user_n == a.user_n,
            b.delivered == a.delivered,
        ensures
            b.wf(),
    {
        let m = a.locker_snapshots@.len() as int;
        assert forall|k: int| 0 <= k < m implies #[trigger] b.slots(k) == a.slots(k) by {
            assert(b.locker_snapshots@[k] == a.locker_snapshots@[k]);
        }
        assert forall|k: int, id: usize|
            0 <= k < b.locker_snapshots@.len() && b.active(id) implies #[trigger] holds(b.slots(k), id) by {
            if k < m {
                assert(holds(a.slots(k), id));
            } else {
                assert(a.active(id));
            }
        }
        assert forall|id: usize, k: int|
            b.delivered@.contains_key(id) && b.delivered@[id] <= k < b.locker_snapshots@.len() implies !#[trigger] holds(
            b.slots(k),
            id,
        ) by {
            if k < m {
                assert(!holds(a.slots(k), id));
            }
        }
        assert forall|k: int|
            1 <= k < b.locker_snapshots@.len() implies 0 <= #[trigger] b.lineage@[k] < k && owners_within(
            b.slots(k),
            b.slots(b.lineage@[k]),
        ) by {
            if k < m {
                assert(a.lineage@[k] == b.lineage@[k]);
            }
        }
    }

    /// The scene a coin sends the game to: Shuffling or DecisionMaking.
    pub open spec fn coin_scene(next_shuffling: bool) -> Scene {
        if next_shuffling {
            Scene::Shuffling
        } else {
            Scene::DecisionMaking
        }
    }

    /// The scene that follows a decision.
    pub open spec fn scene_after(d: Decision, next_shuffling: bool) -> Scene {
        match d {
            Decision::TakeItem { .. } => Scene::Shuffling,
            Decision::Observe { .. } => Scene::Observing,
            Decision::Idle => Game::coin_scene(next_shuffling),
        }
    }

    /// The DecisionMaking scene: the participant at position `pick` decides
    /// according to `draw` (see `decision_of`). Taking the item leads to
    /// Shuffling, observing to Observing; doing nothing leads to Shuffling or
    /// back to DecisionMaking as `next_shuffling` says.
    pub fn decide(&mut self, pick: usize, draw: usize, next_shuffling: bool) -> (r: Result<(), StepError>)
        requires
            old(self).wf(),
            old(self).scene == Scene::DecisionMaking ==> pick < old(self).users.users@.len(),
        ensures
            final(self).wf(),
            final(self).follows(old(self)),
            old(self).scene != Scene::DecisionMaking ==> r == Err::<(), StepError>(StepError::OutOfTurn)
                && *final(self) == *old(self),
            old(self).scene == Scene::DecisionMaking ==> r == Ok::<(), StepError>(()) && Game::decide_step(
                *old(self),
                *final(self),
                pick,
                draw,
                next_shuffling,
            ),
    {
        if self.scene != Scene::DecisionMaking {
            return Err(StepError::OutOfTurn);
        }
        let from = self.users.users[pick].id;
        proof {
            crate::user::lemma_beliefs_at(self.users.users@, pick as int);
        }
        let d = Decision::from_draw(draw, from);
        let ghost before = *self;
        self.user_decision = d;
        match d {
            Decision::TakeItem { .. } => {
                self.scene = Scene::Shuffling;
            },
            Decision::Observe { .. } => {
                self.scene = Scene::Observing;
            },
            Decision::Idle => {
                if next_shuffling {
                    self.scene = Scene::Shuffling;
                } else {
                    self.scene = Scene::DecisionMaking;
                }
            },
        }
        proof {
            Game::lemma_wf_same_history(before, *self);
        }
        Ok(())
    }

    /// The Shuffling scene. When a participant is about to take its item,
    /// the locker resets to a derangement (by `picks`) of the snapshot that
    /// participant believes, without the items already delivered; that
    /// layout becomes the live one and the game goes to Predicting.
    /// Otherwise, if `reshuffle`, the live layout is deranged into a new
    /// snapshot; then `next_shuffling` picks the scene.
    pub fn shuffle_turn(&mut self, picks: &Vec<usize>, reshuffle: bool, next_shuffling: bool) -> (r: Result<
        Option<Notice>,
        StepError,
    >)
        requires
            old(self).wf(),
            old(self).scene == Scene::Shuffling ==> valid_picks(picks@, old(self).user_n as int),
        ensures
            final(self).wf(),
            final(self).follows(old(self)),
            old(self).scene != Scene::Shuffling ==> r is Err && *final(self) == *old(self),
            old(self).scene == Scene::Shuffling ==> {
                &&& Game::shuffle_step(*old(self), *final(self), picks@, reshuffle, next_shuffling)
                &&& if old(self).user_decision is TakeItem || reshuffle {
                    r matches Ok(Some(Notice::Reshuffled { items })) && items@ == old(self).shuffled_slots(picks@)
                } else {
                    r matches Ok(None)
                }
            },
    {
        if self.scene != Scene::Shuffling {
            return Err(StepError::OutOfTurn);
        }
        let taking = match self.user_decision {
            Decision::TakeItem { from } => Some(from),
            _ => None,
        };
        let source: usize;
        match taking {
            Some(from) => {
                match self.users.get_by_id(from) {
                    Some(user) => {
                        source = user.inmind_locker_state_idx;
                    },
                    None => {
                        return Err(StepError::OutOfTurn);
                    },
                }
            },
            None => {
                if !reshuffle {
                    let ghost before = *self;
                    self.scene = if next_shuffling {
                        Scene::Shuffling
                    } else {
                        Scene::DecisionMaking
                    };
                    proof {
                        Game::lemma_wf_same_history(before, *self);
                    }
                    return Ok(None);
                }
                source = self.locker_snapshots.len() - 1;
            },
        }
        let ghost old_game = *self;
        assert(source as int == self.shuffle_source());
        assert(self.slots(source as int).len() == self.user_n);
        assert(owners_unique(self.slots(source as int)));
        let mut next = self.locker_snapshots[source].clone();
        derange(next.items.as_mut_slice(), picks.as_slice());
        let ghost d = next.items@;
        proof {
            lemma_permutation_keeps_owners(d, self.slots(source as int));
        }
        if taking.is_some() {
            clear_departed(&mut next.items, &self.users);
            proof {
                lemma_kept(d, self.users@);
            }
        }
        assert(next.items@ == old_game.shuffled_slots(picks@));
        proof {
            assert forall|id: usize| old_game.active(id) implies holds(next.items@, id) by {
                assert(holds(old_game.slots(source as int), id));
            }
            assert forall|id: usize| old_game.delivered@.contains_key(id) implies !holds(next.items@, id) by {
                if taking.is_none() {
                    assert(!holds(old_game.slots(source as int), id));
                }
            }
        }
        let items = next.clone();
        self.locker_snapshots.push(next);
        proof {
            self.lineage@ = self.lineage@.push(source as int);
            assert(self.slots(old_game.locker_snapshots@.len() as int) == items.items@);
        }
        match taking {
            Some(_) => {
                self.scene = Scene::Predicting;
            },
            None => {
                self.scene = if next_shuffling {
                    Scene::Shuffling
                } else {
                    Scene::DecisionMaking
                };
            },
        }
        proof {
            Game::lemma_wf_append(old_game, *self, source as int);
        }
        Ok(Some(Notice::Reshuffled { items: items.items }))
    }

    /// The Observing scene. If the participant `walks_in`, it updates its
    /// belief: to the live snapshot in the Zero mode, to snapshot `seen` in
    /// the Finite mode. Either way the decision is cleared and
    /// `next_shuffling` picks the scene.
    pub fn observe(&mut self, walks_in: bool, seen: usize, next_shuffling: bool) -> (r: Result<
        Option<Notice>,
        StepError,
    >)
        requires
            old(self).wf(),
            old(self).scene == Scene::Observing && old(self).mode == GameMode::Finite && walks_in
                ==> old(self).users@[actor(old(self).user_decision)] <= seen < old(self).locker_snapshots@.len(),
        ensures
            final(self).wf(),
            final(self).follows(old(self)),
            old(self).scene != Scene::Observing ==> r is Err && *final(self) == *old(self),
            old(self).scene == Scene::Observing ==> {
                let p = actor(old(self).user_decision);
                &&& Game::observe_step(*old(self), *final(self), walks_in, seen, next_shuffling)
                &&& if walks_in {
                    r matches Ok(Some(Notice::Observation { user, back })) && user == p && back == if old(
                        self,
                    ).mode == GameMode::Zero {
                        None::<usize>
                    } else {
                        Some((old(self).locker_snapshots@.len() - seen) as usize)
                    }
                } else {
                    r matches Ok(None)
                }
            },
    {
        if self.scene != Scene::Observing {
            return Err(StepError::OutOfTurn);
        }
        let p = match self.user_decision {
            Decision::Observe { from } => from,
            _ => {
                return Err(StepError::OutOfTurn);
            },
        };
        let ghost before = *self;
        let len = self.locker_snapshots.len();
        let mut notice: Option<Notice> = None;
        if walks_in {
            let (belief, back) = match self.mode {
                GameMode::Zero => (len - 1, None),
                GameMode::Finite => (seen, Some(len - seen)),
            };
            proof {
                assert(crate::user::has_id(self.users.users@, p));
                crate::user::lemma_beliefs_update(
                    self.users.users@,
                    crate::user::position_of_id(self.users.users@, p),
                    belief,
                );
            }
            match self.users.get_mut_by_id(p) {
                Some(user) => {
                    user.inmind_locker_state_idx = belief;
                },
                None => {},
            }
            notice = Some(Notice::Observation { user: p, back });
        }
        self.user_decision = Decision::Idle;
        self.scene = if next_shuffling {
            Scene::Shuffling
        } else {
            Scene::DecisionMaking
        };
        proof {
            assert(self.users.users@.len() == before.users.users@.len());
            assert forall|k: int| 0 <= k < self.locker_snapshots@.len() implies #[trigger] self.slots(k)
                == before.slots(k) by {}
            assert forall|k: int, id: usize|
                0 <= k < self.locker_snapshots@.len() && self.active(id) implies #[trigger] holds(
                self.slots(k),
                id,
            ) by {
                assert(before.active(id));
                assert(holds(before.slots(k), id));
            }
            assert forall|id: usize, k: int|
                self.delivered@.contains_key(id) && self.delivered@[id] <= k < self.locker_snapshots@.len() implies !#[trigger] holds(
                self.slots(k),
                id,
            ) by {
                assert(!holds(before.slots(k), id));
            }
            assert forall|id: usize| #[trigger] self.delivered@.contains_key(id) implies !self.active(id) by {
                assert(!before.active(id));
            }
        }
        Ok(notice)
    }

    /// The Predicting scene, before the guess: the prompt for the
    /// participant that is coming for its item.
    pub fn prompt(&self) -> (r: Result<Notice, StepError>)
        requires
            self.wf(),
        ensures
            self.scene != Scene::Predicting ==> r is Err,
            self.scene == Scene::Predicting ==> (r matches Ok(Notice::Prompt { user }) && user == actor(
                self.user_decision,
            )),
    {
        match self.scene {
            Scene::Predicting => match self.user_decision {
                Decision::TakeItem { from } => Ok(Notice::Prompt { user: from }),
                _ => Err(StepError::OutOfTurn),
            },
            _ => Err(StepError::OutOfTurn),
        }
    }

    /// The locker after participant `p` went to slot `believed`: the system
    /// exchanged that slot with `actual`, where its item was, and the
    /// participant took its item from `believed`.
    pub open spec fn retrieved(slots: Seq<Option<Item>>, actual: int, believed: int) -> Seq<Option<Item>> {
        slots.update(actual, slots[believed]).update(believed, None)
    }

    /// Taking an item out after the exchange keeps the invariant.
    proof fn lemma_wf_retrieval(a: Game, b: Game, p: usize, actual: int, believed: int)
        requires
            a.wf(),
            a.active(p),
            0 <= actual < a.user_n,
            0 <= believed < a.user_n,
            a.slots(a.last_index())[actual] == Some(Item { belongs_to: p }),
            b.appends(
                &a,
                Game::retrieved(a.slots(a.last_index()), actual, believed),
                a.last_index(),
            ),
            b.users.wf(),
            b.users@ == a.users@.remove(p),
            b.users.users@.len() == a.users.users@.len() - 1,
            b.score <= a.score + 1,
            b.user_n == a.user_n,
            b.delivered@ == a.delivered@.insert(p, a.locker_snapshots@.len() as int),
            b.scene_fits(),
        ensures
            b.wf(),
            !holds(b.slots(b.last_index()), p),
    {
        let m = a.locker_snapshots@.len() as int;
        let last = a.slots(m - 1);
        let next = b.slots(m);
        assert(last.len() == a.user_n);
        assert(owners_unique(last));
        assert forall|x: int|
            0 <= x < next.len() && x != believed implies #[trigger] next[x] == last[if x == actual {
            believed
        } else {
            x
        }] by {}
        assert(owners_unique(next)) by {
            assert forall|x: int, y: int|
                0 <= x < next.len() && 0 <= y < next.len() && #[trigger] next[x] is Some && #[trigger] next[y]
                    == next[x] implies x == y by {
                let fx = if x == actual {
                    believed
                } else {
                    x
                };
                let fy = if y == actual {
                    believed
                } else {
                    y
                };
                assert(next[x] == last[fx]);
                assert(next[y] == last[fy]);
            }
        }
        assert(!holds(next, p)) by {
            if holds(next, p) {
                let x = choose|x: int| 0 <= x < next.len() && next[x] == Some(Item { belongs_to: p });
                let fx = if x == actual {
                    believed
                } else {
                    x
                };
                assert(next[x] == last[fx]);
            }
        }
        assert forall|k: int| 0 <= k < m implies #[trigger] b.slots(k) == a.slots(k) by {
            assert(b.locker_snapshots@[k] == a.locker_snapshots@[k]);
        }
        assert forall|k: int, id: usize|
            0 <= k < b.locker_snapshots@.len() && b.active(id) implies #[trigger] holds(b.slots(k), id) by {
            assert(a.active(id));
            assert(id != p);
            if k == m {
                assert(holds(last, id));
                let s = choose|s: int| 0 <= s < last.len() && last[s] == Some(Item { belongs_to: id });
                if s == believed {
                    assert(next[actual] == last[believed]);
                } else {
                    assert(s != actual);
                    assert(next[s] == last[s]);
                }
            } else {
                assert(holds(a.slots(k), id));
            }
        }
        assert(owners_within(next, last)) by {
            assert forall|id: usize| holds(next, id) implies holds(last, id) by {
                let x = choose|x: int| 0 <= x < next.len() && next[x] == Some(Item { belongs_to: id });
                let fx = if x == actual {
                    believed
                } else {
                    x
                };
                assert(next[x] == last[fx]);
            }
        }
        assert forall|k: int|
            1 <= k < b.locker_snapshots@.len() implies 0 <= #[trigger] b.lineage@[k] < k && owners_within(
            b.slots(k),
            b.slots(b.lineage@[k]),
        ) by {
            if k < m {
                assert(a.lineage@[k] == b.lineage@[k]);
            }
        }
        assert forall|id: usize| #[trigger] b.users@.contains_key(id) implies b.users@[id]
            < b.locker_snapshots@.len() && id < b.user_n by {
            assert(a.users@.contains_key(id));
        }
        assert forall|id: usize| #[trigger] b.delivered@.contains_key(id) implies !b.active(id) && 0
            <= b.delivered@[id] < b.locker_snapshots@.len() by {
            if id != p {
                assert(a.delivered@.contains_key(id));
            }
        }
        assert forall|id: usize, k: int|
            b.delivered@.contains_key(id) && b.delivered@[id] <= k < b.locker_snapshots@.len() implies !#[trigger] holds(
            b.slots(k),
            id,
        ) by {
            if id != p {
                assert(a.delivered@.contains_key(id));
                if k < m {
                    assert(!holds(a.slots(k), id));
                } else {
                    assert(!holds(last, id));
                }
            }
        }
    }

    /// The Predicting scene, once the guess is in (`None` when the reply was
    /// not a number). The guess is right when it names the slot where the
    /// participant's item is in the snapshot it believes; a right guess
    /// scores a point. Either way the live layout is copied into a new
    /// snapshot in which the slot the participant believes and the slot
    /// where its item really is are exchanged and the item is taken out; the
    /// participant leaves the game. The game ends when nobody is left, else
    /// `next_shuffling` picks the scene.
    pub fn resolve(&mut self, guess: Option<usize>, next_shuffling: bool) -> (r: Result<Vec<Notice>, StepError>)
        requires
            old(self).wf(),
        ensures
            final(self).wf(),
            final(self).follows(old(self)),
            old(self).scene != Scene::Predicting ==> r is Err && *final(self) == *old(self),
            old(self).scene == Scene::Predicting ==> {
                let p = actor(old(self).user_decision);
                let live = old(self).slots(old(self).last_index());
                let actual = slot_of(live, p);
                let believed = slot_of(old(self).slots(old(self).users@[p] as int), p);
                let correct = guess == Some(believed as usize);
                let slots = Game::retrieved(live, actual, believed);
                &&& final(self).score == if correct {
                    old(self).score + 1
                } else {
                    old(self).score as int
                }
                &&& final(self).appends(old(self), slots, old(self).last_index())
                &&& !holds(slots, p)
                &&& final(self).users@ == old(self).users@.remove(p)
                &&& final(self).users.users@.len() == old(self).users.users@.len() - 1
                &&& final(self).delivered@ == old(self).delivered@.insert(p, old(self).locker_snapshots@.len() as int)
                &&& final(self).user_decision == Decision::Idle
                &&& final(self).scene == if final(self).users.users@.len() == 0 {
                    Scene::End
                } else {
                    Game::coin_scene(next_shuffling)
                }
                &&& (r matches Ok(notices) && notices@.len() == 2 && Notice::is_verdict(
                    notices@[0],
                    p,
                    correct,
                    believed,
                    actual,
                ) && Notice::is_contents(notices@[1], slots))
            },
    {
        if self.scene != Scene::Predicting {
            return Err(StepError::OutOfTurn);
        }
        let p = match self.user_decision {
            Decision::TakeItem { from } => from,
            _ => {
                return Err(StepError::OutOfTurn);
            },
        };
        let source = match self.users.get_by_id(p) {
            Some(user) => user.inmind_locker_state_idx,
            None => {
                return Err(StepError::OutOfTurn);
            },
        };
        let ghost before = *self;
        let last = self.locker_snapshots.len() - 1;
        assert(holds(self.slots(last as int), p));
        assert(holds(self.slots(source as int), p));
        assert(self.slots(last as int).len() == self.user_n);
        assert(self.slots(source as int).len() == self.user_n);
        let actual = self.locker_snapshots[last].get_item_idx_by_belongs(p);
        let believed = self.locker_snapshots[source].get_item_idx_by_belongs(p);
        proof {
            lemma_slot_of_unique(self.slots(last as int), p, actual as int);
            lemma_slot_of_unique(self.slots(source as int), p, believed as int);
        }
        let correct = match guess {
            Some(g) => g == believed,
            None => false,
        };
        if correct {
            self.score = self.score + 1;
        }
        let mut next = self.locker_snapshots[last].clone();
        next.exchange_items(actual, believed);
        next.remove_item(believed);
        assert(next.items@ == Game::retrieved(before.slots(last as int), actual as int, believed as int));
        let items = next.clone();
        self.locker_snapshots.push(next);
        proof {
            self.lineage@ = self.lineage@.push(last as int);
            self.delivered@ = self.delivered@.insert(p, before.locker_snapshots@.len() as int);
        }
        self.users.remove_by_id(p);
        self.user_decision = Decision::Idle;
        if self.users.is_empty() {
            self.scene = Scene::End;
        } else {
            self.scene = if next_shuffling {
                Scene::Shuffling
            } else {
                Scene::DecisionMaking
            };
        }
        proof {
            Game::lemma_wf_retrieval(before, *self, p, actual as int, believed as int);
        }
        let mut notices: Vec<Notice> = Vec::new();
        notices.push(Notice::Verdict { user: p, correct, believed, actual });
        notices.push(Notice::Contents { items: items.items });
        Ok(notices)
    }

    /// The End scene: the score, and its share of all participants in percent.
    pub fn summary(&self) -> (r: Result<Notice, StepError>)
        requires
            self.wf(),
        ensures
            self.scene != Scene::End ==> r is Err,
            self.scene == Scene::End ==> (r matches Ok(Notice::Summary { score, percent }) && score
                == self.score && percent == percent_of(self.score as nat, self.user_n as nat)),
    {
        if self.scene != Scene::End {
            return Err(StepError::OutOfTurn);
        }
        let percent: usize = if self.user_n == 0 {
            0
        } else {
            let score = self.score as u128;
            let n = self.user_n as u128;
            assert((score as int) * 100 / (n as int) <= 100) by (nonlinear_arith)
                requires
                    score <= n,
                    n > 0,
            ;
            (score * 100 / n) as usize
        };
        Ok(Notice::Summary { score: self.score, percent })
    }
}

/// In every state of a game, no snapshot holds the item of one participant
/// in two slots, and every participant still playing has its item in every
/// snapshot.
pub proof fn lemma_owners_unique(g: Game, k: int)
    requires
        g.wf(),
        0 <= k < g.locker_snapshots@.len(),
    ensures
        owners_unique(g.slots(k)),
        forall|id: usize| g.active(id) ==> holds(g.slots(k), id),
{
    assert(g.slots(k).len() == g.user_n);
    assert forall|id: usize| g.active(id) implies holds(g.slots(k), id) by {}
}

/// A delivered item never comes back: the snapshot recorded when a
/// participant took its item, and every snapshot after it, lack that item.
pub proof fn lemma_delivered_never_return(g: Game, id: usize, k: int)
    requires
        g.wf(),
        g.delivered@.contains_key(id),
        g.delivered@[id] <= k < g.locker_snapshots@.len(),
    ensures
        !holds(g.slots(k), id),
        !g.active(id),
{
}

/// The same across a game: once a participant has taken its item in state
/// `a`, no snapshot of a later state `b` recorded from that retrieval on
/// holds its item, and it never plays again.
pub proof fn lemma_delivered_stays_out(a: Game, b: Game, id: usize, k: int)
    requires
        a.wf(),
        b.wf(),
        b.follows(&a),
        a.delivered@.contains_key(id),
        a.delivered@[id] <= k < b.locker_snapshots@.len(),
    ensures
        !holds(b.slots(k), id),
        !b.active(id),
{
    assert(b.delivered@.contains_key(id));
}

/// Deciding to take the item forces the retrieval: the decision leads to
/// Shuffling, and that scene leads to Predicting for the same participant
/// whatever it draws.
pub proof fn lemma_take_forces_prediction(
    a: Game,
    b: Game,
    c: Game,
    pick: usize,
    next_decided: bool,
    picks: Seq<usize>,
    reshuffle: bool,
    next_shuffled: bool,
)
    requires
        Game::decide_step(a, b, pick, 0, next_decided),
        Game::shuffle_step(b, c, picks, reshuffle, next_shuffled),
    ensures
        b.scene == Scene::Shuffling,
        c.scene == Scene::Predicting,
        c.user_decision == (Decision::TakeItem { from: a.users.users@[pick as int].id }),
{
}

/// Later states of later states are later states: over a whole game the
/// history is only appended to, no participant comes back, no belief goes
/// back and the score never drops.
pub proof fn lemma_follows_transitive(a: Game, b: Game, c: Game)
    requires
        b.follows(&a),
        c.follows(&b),
    ensures
        c.follows(&a),
{
    assert forall|k: int| 0 <= k < a.locker_snapshots@.len() implies #[trigger] c.locker_snapshots@[k]
        == a.locker_snapshots@[k] by {
        assert(b.locker_snapshots@[k] == a.locker_snapshots@[k]);
    }
    assert forall|k: int| 0 <= k < a.lineage@.len() implies #[trigger] c.lineage@[k] == a.lineage@[k] by {
        assert(b.lineage@[k] == a.lineage@[k]);
    }
    assert forall|id: usize| #[trigger] c.users@.contains_key(id) implies a.users@.contains_key(id)
        && a.users@[id] <= c.users@[id] by {
        assert(b.users@.contains_key(id));
    }
}

/// Every belief names a recorded snapshot: a participant never believes a
/// snapshot past the live one.
pub proof fn lemma_beliefs_in_history(g: Game, id: usize)
    requires
        g.wf(),
        g.active(id),
    ensures
        g.users@[id] <= g.last_index(),
{
}

/// The participants still playing measure how far a game is from its end:
/// their number never grows from a state to a later one, it bounds the
/// points still to score, and a game is at End only when none is left.
/// (`resolve` lowers it by one and reaches End exactly when it hits zero.)
pub proof fn lemma_remaining_never_grows(a: Game, b: Game)
    requires
        a.wf(),
        b.wf(),
        b.follows(&a),
    ensures
        b.users.users@.len() <= a.users.users@.len(),
        b.score + b.users.users@.len() <= b.user_n,
        b.scene == Scene::End ==> b.users.users@.len() == 0,
{
}

} // verus!
