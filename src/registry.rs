use vstd::prelude::*;

verus! {

/// Why a command could not be handed to an agent.
#[derive(Clone, Copy, Debug, PartialEq, Eq, Structural)]
pub enum SendError {
    /// No agent with this id ever connected.
    UnknownAgent,
    /// The agent connected once and has since gone away.
    Disconnected,
    /// The agent's inbound channel was full or closed; the agent has been unregistered.
    ChannelClosed,
}

/// One agent that connected at some point: its command channel while it is
/// connected, and when it was last heard from (seconds since the Unix epoch).
pub struct AgentEntry<H> {
    pub server_id: String,
    pub sender: Option<H>,
    pub last_seen: u64,
}

/// Live agent connections, by server id. An agent that goes away keeps its entry,
/// without a channel, so that a send to it is told apart from a send to an id that
/// never connected.
pub struct AgentRegistry<H> {
    pub entries: Vec<AgentEntry<H>>,
}

impl<H> AgentRegistry<H> {
    /// No two entries share a server id.
    pub open spec fn wf(&self) -> bool {
        forall|i: int, j: int|
            0 <= i < j < self.entries@.len() ==> (#[trigger] self.entries@[i]).server_id@
                != (#[trigger] self.entries@[j]).server_id@
    }

    /// Whether an agent with this id ever connected.
    pub open spec fn known(&self, sid: Seq<char>) -> bool {
        exists|i: int| 0 <= i < self.entries@.len() && (#[trigger] self.entries@[i]).server_id@ == sid
    }

    /// Whether the agent with this id is connected through channel `h`.
    pub open spec fn connected_with(&self, sid: Seq<char>, h: H) -> bool {
        exists|i: int|
            0 <= i < self.entries@.len() && (#[trigger] self.entries@[i]).server_id@ == sid
                && self.entries@[i].sender == Some(h)
    }

    /// Whether the agent with this id is connected.
    pub open spec fn connected(&self, sid: Seq<char>) -> bool {
        exists|i: int|
            0 <= i < self.entries@.len() && (#[trigger] self.entries@[i]).server_id@ == sid
                && self.entries@[i].sender is Some
    }

    /// The failure that a send to `sid` meets before reaching any channel, if any.
    pub open spec fn send_error(&self, sid: Seq<char>) -> Option<SendError> {
        if !self.known(sid) {
            Some(SendError::UnknownAgent)
        } else if !self.connected(sid) {
            Some(SendError::Disconnected)
        } else {
            None
        }
    }

    /// Whether `other` agrees with `self` on every id but `sid`.
    pub open spec fn same_except(&self, other: &Self, sid: Seq<char>) -> bool {
        forall|s: Seq<char>|
            s != sid ==> (#[trigger] self.known(s) == other.known(s)) && self.connected(s) == other.connected(s)
                && (forall|h: H| #[trigger] self.connected_with(s, h) == other.connected_with(s, h))
    }

    /// A registry with no agents.
    pub fn new() -> (r: AgentRegistry<H>)
        ensures
            r.wf(),
            forall|s: Seq<char>| !#[trigger] r.known(s),
    {
        AgentRegistry { entries: Vec::new() }
    }

    /// Index of the entry for `sid`, if there is one.
    fn position(&self, sid: &String) -> (r: Option<usize>)
        requires
            self.wf(),
        ensures
            r is None <==> !self.known(sid@),
            r matches Some(i) ==> i < self.entries@.len() && self.entries@[i as int].server_id@ == sid@,
    {
        let mut i: usize = 0;
        while i < self.entries.len()
            invariant
                i <= self.entries.len(),
                forall|k: int| 0 <= k < i ==> (#[trigger] self.entries@[k]).server_id@ != sid@,
            decreases self.entries.len() - i,
        {
            if self.entries[i].server_id == *sid {
                return Some(i);
            }
            i = i + 1;
        }
        None
    }

    /// Records that agent `sid` connected at `now` with command channel `sender`,
    /// replacing any earlier channel of that agent.
    pub fn register(&mut self, sid: &String, sender: H, now: u64)
        requires
            old(self).wf(),
        ensures
            final(self).wf(),
            final(self).known(sid@),
            final(self).connected_with(sid@, sender),
            final(self).send_error(sid@) is None,
            old(self).same_except(&*final(self), sid@),
    {
        let ghost pre = *self;
        match self.position(sid) {
            Some(i) => {
                let entry = AgentEntry { server_id: sid.clone(), sender: Some(sender), last_seen: now };
                self.entries.set(i, entry);
                assert(self.entries@[i as int].server_id@ == sid@);
                proof { self.lemma_updated_at(pre, i as int, sid@); }
            },
            None => {
                let entry = AgentEntry { server_id: sid.clone(), sender: Some(sender), last_seen: now };
                self.entries.push(entry);
                let ghost n = pre.entries@.len() as int;
                assert(self.entries@[n].server_id@ == sid@);
                assert(self.entries@[n].sender is Some);
                assert forall|s: Seq<char>| s != sid@ implies (#[trigger] pre.known(s) == self.known(s))
                    && pre.connected(s) == self.connected(s)
                    && (forall|h: H| #[trigger] pre.connected_with(s, h) == self.connected_with(s, h)) by {
                    if self.known(s) {
                        let k = choose|k: int| 0 <= k < self.entries@.len() && (#[trigger] self.entries@[k]).server_id@ == s;
                        assert(pre.entries@[k] == self.entries@[k]);
                    }
                    if pre.known(s) {
                        let k = choose|k: int| 0 <= k < pre.entries@.len() && (#[trigger] pre.entries@[k]).server_id@ == s;
                        assert(pre.entries@[k] == self.entries@[k]);
                    }
                    assert forall|h: H| #[trigger] pre.connected_with(s, h) == self.connected_with(s, h) by {
                        if self.connected_with(s, h) {
                            let k = choose|k: int| 0 <= k < self.entries@.len()
                                && (#[trigger] self.entries@[k]).server_id@ == s && self.entries@[k].sender == Some(h);
                            assert(pre.entries@[k] == self.entries@[k]);
                        }
                        if pre.connected_with(s, h) {
                            let k = choose|k: int| 0 <= k < pre.entries@.len()
                                && (#[trigger] pre.entries@[k]).server_id@ == s && pre.entries@[k].sender == Some(h);
                            assert(pre.entries@[k] == self.entries@[k]);
                        }
                    }
                    if self.connected(s) {
                        let k = choose|k: int| 0 <= k < self.entries@.len()
                            && (#[trigger] self.entries@[k]).server_id@ == s && self.entries@[k].sender is Some;
                        assert(pre.entries@[k] == self.entries@[k]);
                    }
                    if pre.connected(s) {
                        let k = choose|k: int| 0 <= k < pre.entries@.len()
                            && (#[trigger] pre.entries@[k]).server_id@ == s && pre.entries@[k].sender is Some;
                        assert(pre.entries@[k] == self.entries@[k]);
                    }
                }
            },
        }
    }

    /// Replacing entry `i`, whose id is `sid` before and after, leaves every other id as it was.
    proof fn lemma_updated_at(&self, pre: Self, i: int, sid: Seq<char>)
        requires
            pre.wf(),
            0 <= i < pre.entries@.len(),
            self.entries@.len() == pre.entries@.len(),
            pre.entries@[i].server_id@ == sid,
            self.entries@[i].server_id@ == sid,
            forall|k: int| 0 <= k < self.entries@.len() && k != i ==> self.entries@[k] == pre.entries@[k],
        ensures
            self.wf(),
            pre.same_except(self, sid),
    {
        assert forall|a: int, b: int| 0 <= a < b < self.entries@.len() implies (#[trigger] self.entries@[a]).server_id@
            != (#[trigger] self.entries@[b]).server_id@ by {
            assert(pre.entries@[a].server_id@ != pre.entries@[b].server_id@);
        }
        assert forall|s: Seq<char>| s != sid implies (#[trigger] pre.known(s) == self.known(s))
            && pre.connected(s) == self.connected(s)
            && (forall|h: H| #[trigger] pre.connected_with(s, h) == self.connected_with(s, h)) by {
            if self.known(s) {
                let k = choose|k: int| 0 <= k < self.entries@.len() && (#[trigger] self.entries@[k]).server_id@ == s;
                assert(pre.entries@[k] == self.entries@[k]);
            }
            if pre.known(s) {
                let k = choose|k: int| 0 <= k < pre.entries@.len() && (#[trigger] pre.entries@[k]).server_id@ == s;
                assert(pre.entries@[k] == self.entries@[k]);
            }
            assert forall|h: H| #[trigger] pre.connected_with(s, h) == self.connected_with(s, h) by {
                if self.connected_with(s, h) {
                    let k = choose|k: int| 0 <= k < self.entries@.len()
                        && (#[trigger] self.entries@[k]).server_id@ == s && self.entries@[k].sender == Some(h);
                    assert(pre.entries@[k] == self.entries@[k]);
                }
                if pre.connected_with(s, h) {
                    let k = choose|k: int| 0 <= k < pre.entries@.len()
                        && (#[trigger] pre.entries@[k]).server_id@ == s && pre.entries@[k].sender == Some(h);
                    assert(pre.entries@[k] == self.entries@[k]);
                }
            }
            if self.connected(s) {
                let k = choose|k: int| 0 <= k < self.entries@.len()
                    && (#[trigger] self.entries@[k]).server_id@ == s && self.entries@[k].sender is Some;
                assert(pre.entries@[k] == self.entries@[k]);
            }
            if pre.connected(s) {
                let k = choose|k: int| 0 <= k < pre.entries@.len()
                    && (#[trigger] pre.entries@[k]).server_id@ == s && pre.entries@[k].sender is Some;
                assert(pre.entries@[k] == self.entries@[k]);
            }
        }
    }
    /// At most the entry at `i` carries id `sid`.
    proof fn lemma_only_entry(&self, i: int, sid: Seq<char>)
        requires
            self.wf(),
            0 <= i < self.entries@.len(),
            self.entries@[i].server_id@ == sid,
        ensures
            forall|k: int| 0 <= k < self.entries@.len() && (#[trigger] self.entries@[k]).server_id@ == sid ==> k == i,
    {
        assert forall|k: int| 0 <= k < self.entries@.len() && (#[trigger] self.entries@[k]).server_id@ == sid implies k == i by {
            if k < i {
                assert(self.entries@[k].server_id@ != self.entries@[i].server_id@);
            } else if i < k {
                assert(self.entries@[i].server_id@ != self.entries@[k].server_id@);
            }
        }
    }

    /// Records that agent `sid` went away. Its entry stays, without a channel.
    pub fn unregister(&mut self, sid: &String)
        requires
            old(self).wf(),
        ensures
            final(self).wf(),
            final(self).known(sid@) == old(self).known(sid@),
            !final(self).connected(sid@),
            final(self).send_error(sid@) == if old(self).known(sid@) {
                Some(SendError::Disconnected)
            } else {
                Some(SendError::UnknownAgent)
            },
            old(self).same_except(&*final(self), sid@),
    {
        let ghost pre = *self;
        match self.position(sid) {
            Some(i) => {
                let entry = AgentEntry { server_id: sid.clone(), sender: None, last_seen: self.entries[i].last_seen };
                self.entries.set(i, entry);
                proof {
                    self.lemma_updated_at(pre, i as int, sid@);
                    self.lemma_only_entry(i as int, sid@);
                    assert(self.entries@[i as int].server_id@ == sid@);
                }
            },
            None => {
                assert forall|s: Seq<char>| s != sid@ implies (#[trigger] pre.known(s) == self.known(s))
                    && pre.connected(s) == self.connected(s)
                    && (forall|h: H| #[trigger] pre.connected_with(s, h) == self.connected_with(s, h)) by {}
            },
        }
    }

    /// Records that agent `sid` was heard from at `now`; nothing else changes.
    pub fn touch(&mut self, sid: &String, now: u64)
        requires
            old(self).wf(),
        ensures
            final(self).wf(),
            final(self).known(sid@) == old(self).known(sid@),
            final(self).connected(sid@) == old(self).connected(sid@),
            forall|h: H| #[trigger] final(self).connected_with(sid@, h) == old(self).connected_with(sid@, h),
            old(self).same_except(&*final(self), sid@),
            forall|i: int|
                0 <= i < final(self).entries@.len() && (#[trigger] final(self).entries@[i]).server_id@ == sid@
                    ==> final(self).entries@[i].last_seen == now,
    {
        let ghost pre = *self;
        match self.position(sid) {
            Some(i) => {
                let ghost old_sender = self.entries@[i as int].sender;
                let entry = AgentEntry {
                    server_id: sid.clone(),
                    sender: self.entries[i].sender.take(),
                    last_seen: now,
                };
                self.entries.set(i, entry);
                proof {
                    self.lemma_updated_at(pre, i as int, sid@);
                    self.lemma_only_entry(i as int, sid@);
                    pre.lemma_only_entry(i as int, sid@);
                    assert(self.entries@[i as int].sender == old_sender);
                    assert(self.entries@[i as int].server_id@ == sid@);
                    assert(pre.entries@[i as int].server_id@ == sid@);
                    assert forall|h: H| #[trigger] self.connected_with(sid@, h) == pre.connected_with(sid@, h) by {
                        if pre.connected_with(sid@, h) {
                            assert(self.entries@[i as int].sender == Some(h));
                        }
                    }
                }
            },
            None => {
                assert forall|s: Seq<char>| s != sid@ implies (#[trigger] pre.known(s) == self.known(s))
                    && pre.connected(s) == self.connected(s)
                    && (forall|h: H| #[trigger] pre.connected_with(s, h) == self.connected_with(s, h)) by {}
            },
        }
    }

    /// The command channel of agent `sid`, or why there is none: `UnknownAgent` for an
    /// id that never connected, `Disconnected` for one that went away.
    pub fn route(&self, sid: &String) -> (r: Result<&H, SendError>)
        requires
            self.wf(),
        ensures
            r is Ok <==> self.send_error(sid@) is None,
            r matches Err(e) ==> self.send_error(sid@) == Some(e),
            r matches Ok(h) ==> self.connected_with(sid@, *h),
    {
        match self.position(sid) {
            None => Err(SendError::UnknownAgent),
            Some(i) => {
                proof {
                    self.lemma_only_entry(i as int, sid@);
                }
                match &self.entries[i].sender {
                    Some(h) => Ok(h),
                    None => Err(SendError::Disconnected),
                }
            },
        }
    }

    /// Handles a send to agent `sid` whose channel was found full or closed: the agent
    /// is unregistered and the failure is reported as `ChannelClosed`.
    pub fn fail_send(&mut self, sid: &String) -> (r: SendError)
        requires
            old(self).wf(),
        ensures
            r == SendError::ChannelClosed,
            final(self).wf(),
            final(self).known(sid@) == old(self).known(sid@),
            !final(self).connected(sid@),
            old(self).same_except(&*final(self), sid@),
    {
        self.unregister(sid);
        SendError::ChannelClosed
    }
}

/// A send to an id that never connected fails with `UnknownAgent`; a send to one that
/// connected and then went away fails with `Disconnected`, a different error.
pub proof fn lemma_send_failures_distinct<H>(
    a: AgentRegistry<H>,
    b: AgentRegistry<H>,
    c: AgentRegistry<H>,
    never: Seq<char>,
    gone: Seq<char>,
    h: H,
)
    requires
        a.wf(),
        !a.known(never),
        never != gone,
        b.connected_with(gone, h),
        a.same_except(&b, gone),
        !c.connected(gone),
        c.known(gone) == b.known(gone),
        b.same_except(&c, gone),
    ensures
        c.send_error(never) == Some(SendError::UnknownAgent),
        c.send_error(gone) == Some(SendError::Disconnected),
        c.send_error(never) != c.send_error(gone),
{
    assert(a.known(never) == b.known(never));
    assert(b.known(never) == c.known(never));
    assert(b.known(gone));
}

} // verus!
