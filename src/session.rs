use crate::answer::{declines, declines_replay, guess_of, parse_guess};
use crate::engine::{percent_of, Game, GameMode, Notice, Scene};
use crate::locker::{initial_slots, slot_of};
use crate::protocol::Data;
use crate::random::{draw_below, flip, seeded};
use crate::shuffle::{draw_picks, is_permutation, valid_picks};
use crate::text::{asks, contents_text, notice_text, observation_text, reshuffled_text, verdict_text};
use crate::user::{actor, Decision};
use rand::rngs::StdRng;
use vstd::prelude::*;

verus! {

/// The number of participants in a served game.
pub const PARTICIPANTS: usize = 5;

/// The seed of a served session's random generator.
pub const SEED: u64 = 1;

/// The reply a session waits for before it can go on.
#[derive(Clone, Copy, PartialEq, Eq, Structural, Debug)]
pub enum Awaiting {
    /// None: the session goes on by itself.
    Nothing,
    /// A guess for the participant that is coming for its item.
    Prediction,
    /// Whether to play another game.
    Replay,
}

/// One predictor's session: games played one after another on one random
/// generator. Each step tells which messages to send and whether a reply
/// must come before the next step.
pub struct Session {
    pub game: Game,
    pub awaiting: Awaiting,
    /// The predictor turned down another game.
    pub finished: bool,
    /// Where every random draw of the session comes from.
    pub rng: StdRng,
}

/// The messages that carry `notices`, in order.
pub open spec fn carries(messages: Seq<Data>, notices: Seq<Notice>) -> bool {
    &&& messages.len() == notices.len()
    &&& forall|i: int|
        0 <= i < notices.len() ==> (#[trigger] messages[i]).require_input == asks(notices[i])
            && messages[i].content@ == notice_text(notices[i])
}

/// `g` is a fresh game of `user_n` participants: all of them playing and
/// believing the first snapshot, a uniformly shuffled layout of their items.
pub open spec fn fresh(g: Game, mode: GameMode, user_n: usize) -> bool {
    &&& g.scene == Scene::Init
    &&& g.mode == mode
    &&& g.user_n == user_n
    &&& g.score == 0
    &&& g.locker_snapshots@.len() == 1
    &&& g.delivered@ == Map::<usize, int>::empty()
    &&& is_permutation(g.slots(0), initial_slots(user_n as nat))
    &&& forall|id: usize| #[trigger] g.users@.contains_key(id) <==> id < user_n
    &&& forall|id: usize| #[trigger] g.users@.contains_key(id) ==> g.users@[id] == 0
}

/// Messages that inform only: none waits for a reply.
pub open spec fn informs(messages: Seq<Data>) -> bool {
    forall|i: int| 0 <= i < messages.len() ==> !(#[trigger] messages[i]).require_input
}

fn messages_of(notices: &Vec<Notice>) -> (r: Vec<Data>)
    ensures
        carries(r@, notices@),
{
    let mut r: Vec<Data> = Vec::new();
    let mut i: usize = 0;
    while i < notices.len()
        invariant
            i <= notices@.len(),
            carries(r@, notices@.subrange(0, i as int)),
        decreases notices@.len() - i,
    {
        let m = notices[i].to_data();
        r.push(m);
        i = i + 1;
    }
    assert(notices@.subrange(0, notices@.len() as int) =~= notices@);
    r
}

impl Session {
    pub open spec fn wf(&self) -> bool {
        &&& self.game.wf()
        &&& self.awaiting == Awaiting::Prediction ==> self.game.scene == Scene::Predicting
        &&& self.awaiting == Awaiting::Replay ==> self.game.scene == Scene::End
    }

    /// A session of games of the given mode for `user_n` participants, on a
    /// random generator seeded with `seed`.
    pub fn new(mode: GameMode, user_n: usize, seed: u64) -> (r: Session)
        ensures
            r.wf(),
            r.awaiting == Awaiting::Nothing,
            !r.finished,
            fresh(r.game, mode, user_n),
    {
        let mut rng = seeded(seed);
        let game = Game::new(mode, user_n, &mut rng);
        Session { game, awaiting: Awaiting::Nothing, finished: false, rng }
    }

    /// Plays the current scene. In Predicting and End it sends the question
    /// and waits for the reply; in the other scenes it draws what the scene
    /// needs, plays it and sends what it tells.
    pub fn advance(&mut self) -> (r: Vec<Data>)
        requires
            old(self).wf(),
            old(self).awaiting == Awaiting::Nothing,
        ensures
            final(self).wf(),
            final(self).finished == old(self).finished,
            final(self).game.follows(&old(self).game),
            final(self).game.score == old(self).game.score,
            old(self).game.scene == Scene::Init ==> {
                &&& final(self).awaiting == Awaiting::Nothing
                &&& Game::introduce_step(old(self).game, final(self).game)
                &&& r@.len() == 1 && !r@[0].require_input
                &&& exists|n: Notice| old(self).game.introduction_of(n) && r@[0].content@ == notice_text(n)
            },
            old(self).game.scene == Scene::DecisionMaking ==> {
                &&& final(self).awaiting == Awaiting::Nothing
                &&& r@.len() == 0
                &&& exists|pick: usize, draw: usize, next_shuffling: bool|
                    draw < 3 && Game::decide_step(old(self).game, final(self).game, pick, draw, next_shuffling)
            },
            old(self).game.scene == Scene::Shuffling ==> {
                &&& final(self).awaiting == Awaiting::Nothing
                &&& exists|picks: Seq<usize>, reshuffle: bool, next_shuffling: bool|
                    {
                        &&& valid_picks(picks, old(self).game.user_n as int)
                        &&& Game::shuffle_step(old(self).game, final(self).game, picks, reshuffle, next_shuffling)
                        &&& if old(self).game.user_decision is TakeItem || reshuffle {
                            r@.len() == 1 && !r@[0].require_input && r@[0].content@ == reshuffled_text(
                                old(self).game.shuffled_slots(picks),
                            )
                        } else {
                            r@.len() == 0
                        }
                    }
            },
            old(self).game.scene == Scene::Observing ==> {
                let g = old(self).game;
                let p = actor(g.user_decision);
                &&& final(self).awaiting == Awaiting::Nothing
                &&& exists|walks_in: bool, seen: usize, next_shuffling: bool|
                    {
                        &&& g.mode == GameMode::Finite && walks_in ==> g.users@[p] <= seen <= g.last_index()
                        &&& Game::observe_step(g, final(self).game, walks_in, seen, next_shuffling)
                        &&& if walks_in {
                            r@.len() == 1 && !r@[0].require_input && r@[0].content@ == observation_text(
                                p,
                                if g.mode == GameMode::Zero {
                                    None::<usize>
                                } else {
                                    Some((g.locker_snapshots@.len() - seen) as usize)
                                },
                            )
                        } else {
                            r@.len() == 0
                        }
                    }
            },
            old(self).game.scene == Scene::Predicting ==> {
                &&& final(self).awaiting == Awaiting::Prediction
                &&& final(self).game == old(self).game
                &&& r@.len() == 1 && r@[0].require_input
                &&& r@[0].content@ == notice_text(Notice::Prompt { user: actor(old(self).game.user_decision) })
            },
            old(self).game.scene == Scene::End ==> {
                &&& final(self).awaiting == Awaiting::Replay
                &&& final(self).game == old(self).game
                &&& r@.len() == 1 && r@[0].require_input
                &&& r@[0].content@ == notice_text(
                    Notice::Summary {
                        score: old(self).game.score,
                        percent: percent_of(old(self).game.score as nat, old(self).game.user_n as nat) as usize,
                    },
                )
            },
    {
        let ghost g = self.game;
        let mut notices: Vec<Notice> = Vec::new();
        match self.game.scene {
            Scene::Init => {
                if let Ok(n) = self.game.introduce() {
                    notices.push(n);
                }
            },
            Scene::DecisionMaking => {
                let count = self.game.users.users.len();
                let pick = draw_below(&mut self.rng, count);
                let draw = draw_below(&mut self.rng, 3);
                let next_shuffling = flip(&mut self.rng);
                let _ = self.game.decide(pick, draw, next_shuffling);
                assert(Game::decide_step(g, self.game, pick, draw, next_shuffling));
            },
            Scene::Shuffling => {
                let taking = match self.game.user_decision {
                    Decision::TakeItem { .. } => true,
                    _ => false,
                };
                let reshuffle = if taking {
                    true
                } else {
                    flip(&mut self.rng)
                };
                let picks = if reshuffle {
                    draw_picks(&mut self.rng, self.game.user_n)
                } else {
                    vec![0; self.game.user_n]
                };
                let next_shuffling = if taking {
                    false
                } else {
                    flip(&mut self.rng)
                };
                if let Ok(Some(n)) = self.game.shuffle_turn(&picks, reshuffle, next_shuffling) {
                    notices.push(n);
                }
                let r = messages_of(&notices);
                assert(Game::shuffle_step(g, self.game, picks@, reshuffle, next_shuffling));
                return r;
            },
            Scene::Observing => {
                let walks_in = flip(&mut self.rng);
                let mut seen: usize = 0;
                if walks_in && self.game.mode == GameMode::Finite {
                    if let Decision::Observe { from } = self.game.user_decision {
                        if let Some(user) = self.game.users.get_by_id(from) {
                            let believed = user.inmind_locker_state_idx;
                            let count = self.game.locker_snapshots.len();
                            seen = believed + draw_below(&mut self.rng, count - believed);
                        }
                    }
                }
                let next_shuffling = flip(&mut self.rng);
                if let Ok(Some(n)) = self.game.observe(walks_in, seen, next_shuffling) {
                    notices.push(n);
                }
                let r = messages_of(&notices);
                assert(Game::observe_step(g, self.game, walks_in, seen, next_shuffling));
                return r;
            },
            Scene::Predicting => {
                if let Ok(n) = self.game.prompt() {
                    notices.push(n);
                }
                self.awaiting = Awaiting::Prediction;
            },
            Scene::End => {
                if let Ok(n) = self.game.summary() {
                    notices.push(n);
                }
                self.awaiting = Awaiting::Replay;
            },
        }
        let r = messages_of(&notices);
        proof {
            if g.scene == Scene::Init {
                assert(g.introduction_of(notices@[0]));
            }
        }
        r
    }

    /// Takes the predictor's reply. A guess is scored and the retrieval
    /// carried out; to the replay question, `N` or `n` ends the session and
    /// anything else starts a fresh game.
    pub fn reply(&mut self, content: &str) -> (r: Vec<Data>)
        requires
            old(self).wf(),
            old(self).awaiting != Awaiting::Nothing,
        ensures
            final(self).wf(),
            final(self).awaiting == Awaiting::Nothing,
            informs(r@),
            old(self).awaiting == Awaiting::Prediction ==> {
                let g = old(self).game;
                let p = actor(g.user_decision);
                let live = g.slots(g.last_index());
                let actual = slot_of(live, p);
                let believed = slot_of(g.slots(g.users@[p] as int), p);
                let correct = guess_of(content@) == Some(believed as usize);
                let slots = Game::retrieved(live, actual, believed);
                &&& final(self).game.follows(&g)
                &&& final(self).finished == old(self).finished
                &&& final(self).game.score == if correct {
                    g.score + 1
                } else {
                    g.score as int
                }
                &&& final(self).game.appends(&g, slots, g.last_index())
                &&& final(self).game.users@ == g.users@.remove(p)
                &&& final(self).game.delivered@ == g.delivered@.insert(p, g.locker_snapshots@.len() as int)
                &&& final(self).game.user_decision == Decision::Idle
                &&& final(self).game.users.users@.len() == g.users.users@.len() - 1
                &&& (final(self).game.scene == Scene::End <==> final(self).game.users.users@.len() == 0)
                &&& final(self).game.scene != Scene::Predicting
                &&& r@.len() == 2
                &&& r@[0].content@ == verdict_text(p, correct, believed as usize, actual as usize)
                &&& r@[1].content@ == contents_text(slots)
            },
            old(self).awaiting == Awaiting::Replay ==> {
                &&& final(self).finished == declines(content@)
                &&& declines(content@) ==> final(self).game == old(self).game
                &&& !declines(content@) ==> fresh(final(self).game, old(self).game.mode, old(self).game.user_n)
            },
    {
        match self.awaiting {
            Awaiting::Prediction => {
                let guess = parse_guess(content);
                let next_shuffling = flip(&mut self.rng);
                self.awaiting = Awaiting::Nothing;
                match self.game.resolve(guess, next_shuffling) {
                    Ok(notices) => {
                        let r = messages_of(&notices);
                        proof {
                            assert forall|i: int| 0 <= i < r@.len() implies !(#[trigger] r@[i]).require_input by {
                                assert(!asks(notices@[i]));
                            }
                        }
                        r
                    },
                    Err(_) => Vec::new(),
                }
            },
            Awaiting::Replay => {
                self.awaiting = Awaiting::Nothing;
                if declines_replay(content) {
                    self.finished = true;
                } else {
                    let mode = self.game.mode;
                    let user_n = self.game.user_n;
                    self.game = Game::new(mode, user_n, &mut self.rng);
                    self.finished = false;
                }
                Vec::new()
            },
            Awaiting::Nothing => Vec::new(),
        }
    }
}

} // verus!
