use crate::locker::Locker;
use vstd::prelude::*;

verus! {

/// A participant that remembers a whole locker layout rather than a
/// snapshot index.
pub struct Agent {
    pub id: usize,
    pub inmind_locker: Locker,
}

impl Agent {
    pub fn new(id: usize, locker: Locker) -> (r: Agent)
        ensures
            r.id == id,
            r.inmind_locker == locker,
    {
        Agent { id: id, inmind_locker: locker }
    }
}

/// No two agents of `s` share an id.
pub open spec fn agent_ids_unique(s: Seq<Agent>) -> bool {
    forall|a: int, b: int|
        0 <= a < s.len() && 0 <= b < s.len() && #[trigger] s[a].id == #[trigger] s[b].id ==> a == b
}

/// Some agent of `s` has the id `id`.
pub open spec fn has_agent(s: Seq<Agent>, id: usize) -> bool {
    exists|k: int| 0 <= k < s.len() && s[k].id == id
}

/// A position of `s` where the agent with id `id` stands.
pub open spec fn agent_position(s: Seq<Agent>, id: usize) -> int {
    choose|k: int| 0 <= k < s.len() && s[k].id == id
}

/// The agents still in the game, each with a distinct id.
pub struct AgentCollection {
    pub agents: Vec<Agent>,
}

impl AgentCollection {
    pub open spec fn wf(&self) -> bool {
        agent_ids_unique(self.agents@)
    }

    /// Agents with ids `0..agent_n`, each remembering a copy of `locker`.
    pub fn new(agent_n: usize, locker: Locker) -> (r: AgentCollection)
        ensures
            r.wf(),
            r.agents@.len() == agent_n,
            forall|i: int|
                0 <= i < agent_n ==> #[trigger] r.agents@[i].id == i && r.agents@[i].inmind_locker.items@
                    == locker.items@,
    {
        let mut agents: Vec<Agent> = Vec::new();
        let mut i: usize = 0;
        while i < agent_n
            invariant
                i <= agent_n,
                agents@.len() == i,
                forall|k: int|
                    0 <= k < i ==> #[trigger] agents@[k].id == k && agents@[k].inmind_locker.items@
                        == locker.items@,
            decreases agent_n - i,
        {
            agents.push(Agent::new(i, locker.clone()));
            i = i + 1;
        }
        AgentCollection { agents }
    }

    /// Position of the agent with id `id`, if there is one.
    fn position(&self, id: usize) -> (r: Option<usize>)
        requires
            self.wf(),
        ensures
            r is None <==> !has_agent(self.agents@, id),
            r matches Some(k) ==> k == agent_position(self.agents@, id) && self.agents@[k as int].id == id,
    {
        let mut i: usize = 0;
        while i < self.agents.len()
            invariant
                i <= self.agents@.len(),
                self.wf(),
                forall|k: int| 0 <= k < i ==> #[trigger] self.agents@[k].id != id,
            decreases self.agents@.len() - i,
        {
            if self.agents[i].id == id {
                proof {
                    assert(has_agent(self.agents@, id));
                    let p = agent_position(self.agents@, id);
                    assert(self.agents@[p].id == self.agents@[i as int].id);
                }
                return Some(i);
            }
            i = i + 1;
        }
        None
    }

    /// Remove the agent with id `id` (not a position), if it is there.
    pub fn remove_by_id(&mut self, id: usize)
        requires
            old(self).wf(),
        ensures
            final(self).wf(),
            has_agent(old(self).agents@, id) ==> final(self).agents@ == old(self).agents@.remove(
                agent_position(old(self).agents@, id),
            ),
            !has_agent(old(self).agents@, id) ==> final(self).agents@ == old(self).agents@,
    {
        match self.position(id) {
            Some(k) => {
                let ghost s = self.agents@;
                self.agents.remove(k);
                assert(agent_ids_unique(self.agents@)) by {
                    let t = self.agents@;
                    assert forall|a: int, b: int|
                        0 <= a < t.len() && 0 <= b < t.len() && #[trigger] t[a].id == #[trigger] t[b].id implies a
                        == b by {
                        let a2 = if a < k { a } else { a + 1 };
                        let b2 = if b < k { b } else { b + 1 };
                        assert(t[a] == s[a2]);
                        assert(t[b] == s[b2]);
                    }
                }
            },
            None => {},
        }
    }

    /// The agent with id `id` (not a position), if it is there, to change in place.
    pub fn get_mut_by_id(&mut self, id: usize) -> (r: Option<&mut Agent>)
        requires
            old(self).wf(),
        ensures
            r is None <==> !has_agent(old(self).agents@, id),
            r is None ==> final(self).agents@ == old(self).agents@,
            r matches Some(a) ==> {
                &&& a.id == id
                &&& *a == old(self).agents@[agent_position(old(self).agents@, id)]
                &&& final(self).agents@ == old(self).agents@.update(
                    agent_position(old(self).agents@, id),
                    *final(a),
                )
            },
    {
        match self.position(id) {
            Some(k) => Some(&mut self.agents[k]),
            None => None,
        }
    }

    /// No agent is left.
    pub fn is_empty(&self) -> (r: bool)
        ensures
            r == (self.agents@.len() == 0),
    {
        self.agents.len() == 0
    }
}

} // verus!
