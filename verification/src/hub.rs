//! Change signalling and presence for live clients: a generation counter
//! that every database write advances, and the set of connected clients,
//! one entry per client id however many connections it holds.
use vstd::prelude::*;

verus! {

/// One connected live client, as the UI lists it.
pub struct PresenceClient {
    pub id: String,
    pub name: String,
    pub kind: String,
    pub connections: u32,
    pub joined_ms: u64,
}

/// The mathematical value of a presence entry.
pub struct ClientView {
    pub id: Seq<char>,
    pub name: Seq<char>,
    pub kind: Seq<char>,
    pub connections: u32,
    pub joined_ms: u64,
}

impl View for PresenceClient {
    type V = ClientView;

    open spec fn view(&self) -> ClientView {
        ClientView {
            id: self.id@,
            name: self.name@,
            kind: self.kind@,
            connections: self.connections,
            joined_ms: self.joined_ms,
        }
    }
}

impl PresenceClient {
    pub fn copy(&self) -> (c: PresenceClient)
        ensures
            c@ == self@,
    {
        PresenceClient {
            id: self.id.clone(),
            name: self.name.clone(),
            kind: self.kind.clone(),
            connections: self.connections,
            joined_ms: self.joined_ms,
        }
    }
}

/// The views of a sequence of clients.
pub open spec fn client_views(v: Seq<PresenceClient>) -> Seq<ClientView> {
    v.map_values(|c: PresenceClient| c@)
}

/// Clients listed oldest first, each id once, each with a live connection.
pub open spec fn presence_wf(cs: Seq<ClientView>) -> bool {
    &&& forall|i: int, j: int| 0 <= i < j < cs.len() ==> cs[i].joined_ms <= cs[j].joined_ms
    &&& forall|i: int, j: int| 0 <= i < j < cs.len() ==> cs[i].id != cs[j].id
    &&& forall|i: int| 0 <= i < cs.len() ==> cs[i].connections >= 1
}

/// Position of the client `id` in `cs`, or -1.
pub open spec fn index_of(cs: Seq<ClientView>, id: Seq<char>) -> int
    decreases cs.len(),
{
    if cs.len() == 0 {
        -1
    } else if cs.last().id == id {
        cs.len() - 1
    } else {
        index_of(cs.drop_last(), id)
    }
}

pub proof fn lemma_index_of(cs: Seq<ClientView>, id: Seq<char>)
    ensures
        -1 <= index_of(cs, id) < cs.len(),
        index_of(cs, id) >= 0 ==> cs[index_of(cs, id)].id == id,
        index_of(cs, id) < 0 ==> forall|k: int| 0 <= k < cs.len() ==> cs[k].id != id,
    decreases cs.len(),
{
    if cs.len() > 0 && cs.last().id != id {
        lemma_index_of(cs.drop_last(), id);
        assert forall|k: int| 0 <= k < cs.len() - 1 implies cs[k] == cs.drop_last()[k] by {}
    }
}

/// The presence list `after` is `before` with one more connection of
/// client `id`: a known client gains a connection and takes the new kind,
/// and the new name unless it is empty; an unknown one is added with one
/// connection, joined at `now_ms`, after every client that joined at or
/// before that time.
pub open spec fn joins_to(
    before: Seq<ClientView>,
    after: Seq<ClientView>,
    id: Seq<char>,
    name: Seq<char>,
    kind: Seq<char>,
    now_ms: u64,
) -> bool {
    let k = index_of(before, id);
    let c = before[k];
    if k >= 0 {
        after == before.update(k, ClientView {
            id: c.id,
            name: if name.len() == 0 { c.name } else { name },
            kind: kind,
            connections: (c.connections + 1) as u32,
            joined_ms: c.joined_ms,
        })
    } else {
        exists|pos: int| 0 <= pos <= before.len()
            && (forall|j: int| 0 <= j < pos ==> (#[trigger] before[j]).joined_ms <= now_ms)
            && (forall|j: int| pos <= j < before.len() ==> (#[trigger] before[j]).joined_ms > now_ms)
            && after == before.insert(pos, ClientView {
                id: id,
                name: name,
                kind: kind,
                connections: 1,
                joined_ms: now_ms,
            })
    }
}

/// The presence list `after` is `before` with one connection of client `id`
/// dropped: the client leaves with its last connection; an unknown id
/// changes nothing.
pub open spec fn leaves_to(before: Seq<ClientView>, after: Seq<ClientView>, id: Seq<char>) -> bool {
    let k = index_of(before, id);
    let c = before[k];
    if k < 0 {
        after == before
    } else if c.connections <= 1 {
        after == before.remove(k)
    } else {
        after == before.update(k, ClientView {
            connections: (c.connections - 1) as u32,
            ..c
        })
    }
}

/// The connections client `id` holds in `cs`, 0 when it is not listed.
pub open spec fn conns(cs: Seq<ClientView>, id: Seq<char>) -> nat {
    let k = index_of(cs, id);
    if k >= 0 {
        cs[k].connections as nat
    } else {
        0
    }
}

/// In a list whose ids are distinct, the entry with id `id` is the one
/// `index_of` finds.
pub proof fn lemma_index_unique(cs: Seq<ClientView>, id: Seq<char>, k: int)
    requires
        presence_wf(cs),
        0 <= k < cs.len(),
        cs[k].id == id,
    ensures
        index_of(cs, id) == k,
{
    lemma_index_of(cs, id);
}

/// A join adds one connection to client `id` and leaves every other
/// client's count as it was.
pub proof fn lemma_join_counts(
    before: Seq<ClientView>,
    after: Seq<ClientView>,
    id: Seq<char>,
    name: Seq<char>,
    kind: Seq<char>,
    now_ms: u64,
    x: Seq<char>,
)
    requires
        presence_wf(before),
        presence_wf(after),
        joins_to(before, after, id, name, kind, now_ms),
        conns(before, id) < u32::MAX,
    ensures
        conns(after, x) == if x == id { conns(before, x) + 1 } else { conns(before, x) },
{
    let k = index_of(before, id);
    lemma_index_of(before, id);
    lemma_index_of(before, x);
    lemma_index_of(after, x);
    let j = index_of(before, x);
    if k >= 0 {
        assert(after.len() == before.len());
        assert(forall|i: int| 0 <= i < after.len() ==> #[trigger] after[i].id == before[i].id);
        if j >= 0 {
            lemma_index_unique(after, x, j);
        } else {
            let m = index_of(after, x);
            if m >= 0 {
                assert(before[m].id == x);
            }
        }
    } else {
        let pos = choose|pos: int| 0 <= pos <= before.len()
            && (forall|i: int| 0 <= i < pos ==> (#[trigger] before[i]).joined_ms <= now_ms)
            && (forall|i: int| pos <= i < before.len() ==> (#[trigger] before[i]).joined_ms > now_ms)
            && after == before.insert(pos, ClientView { id: id, name: name, kind: kind, connections: 1, joined_ms: now_ms });
        if x == id {
            lemma_index_unique(after, x, pos);
        } else if j >= 0 {
            let jj = if j < pos { j } else { j + 1 };
            assert(after[jj] == before[j]);
            lemma_index_unique(after, x, jj);
        } else {
            let m = index_of(after, x);
            if m >= 0 {
                if m < pos {
                    assert(after[m] == before[m]);
                } else if m > pos {
                    assert(after[m] == before[m - 1]);
                }
            }
        }
    }
}

/// A leave takes one connection from client `id`, if it holds any, and
/// leaves every other client's count as it was.
pub proof fn lemma_leave_counts(before: Seq<ClientView>, after: Seq<ClientView>, id: Seq<char>, x: Seq<char>)
    requires
        presence_wf(before),
        presence_wf(after),
        leaves_to(before, after, id),
    ensures
        conns(after, x) == if x == id && conns(before, x) > 0 { (conns(before, x) - 1) as nat } else { conns(before, x) },
{
    let k = index_of(before, id);
    lemma_index_of(before, id);
    lemma_index_of(before, x);
    lemma_index_of(after, x);
    let j = index_of(before, x);
    if k < 0 {
    } else if before[k].connections <= 1 {
        assert(after == before.remove(k));
        if j >= 0 && j != k {
            let jj = if j < k { j } else { j - 1 };
            assert(after[jj] == before[j]);
            lemma_index_unique(after, x, jj);
        } else {
            let m = index_of(after, x);
            if m >= 0 {
                if m < k {
                    assert(after[m] == before[m]);
                } else {
                    assert(after[m] == before[m + 1]);
                }
            }
        }
    } else {
        assert(after.len() == before.len());
        assert(forall|i: int| 0 <= i < after.len() ==> #[trigger] after[i].id == before[i].id);
        if j >= 0 {
            lemma_index_unique(after, x, j);
        } else {
            let m = index_of(after, x);
            if m >= 0 {
                assert(before[m].id == x);
            }
        }
    }
}

/// One presence event: a connection of a client opens or closes.
pub enum PresenceOp {
    Join { id: Seq<char>, name: Seq<char>, kind: Seq<char>, now_ms: u64 },
    Leave { id: Seq<char> },
}

/// The client a presence event is about.
pub open spec fn op_id(op: PresenceOp) -> Seq<char> {
    match op {
        PresenceOp::Join { id, .. } => id,
        PresenceOp::Leave { id } => id,
    }
}

/// Whether `after` is `before` with the event `op` applied.
pub open spec fn op_step(before: Seq<ClientView>, after: Seq<ClientView>, op: PresenceOp) -> bool {
    match op {
        PresenceOp::Join { id, name, kind, now_ms } => joins_to(before, after, id, name, kind, now_ms),
        PresenceOp::Leave { id } => leaves_to(before, after, id),
    }
}

/// The connections of client `x` after the events `ops`, starting from
/// `start`: each join of `x` adds one, each leave of `x` takes one away
/// while there is one.
pub open spec fn count_after(ops: Seq<PresenceOp>, x: Seq<char>, start: nat) -> nat
    decreases ops.len(),
{
    if ops.len() == 0 {
        start
    } else {
        let c = count_after(ops.drop_last(), x, start);
        if op_id(ops.last()) != x {
            c
        } else {
            match ops.last() {
                PresenceOp::Join { .. } => c + 1,
                PresenceOp::Leave { .. } => if c > 0 { (c - 1) as nat } else { 0 },
            }
        }
    }
}

/// The generation after one more change: one more, wrapping at 2^64.
pub open spec fn next_generation(g: u64) -> u64 {
    if g == u64::MAX {
        0
    } else {
        (g + 1) as u64
    }
}

/// The live server's shared change signal and presence registry.
pub struct LiveHub {
    generation: u64,
    clients: Vec<PresenceClient>,
}

impl LiveHub {
    /// How many changes have been signalled, modulo 2^64.
    pub closed spec fn gen(&self) -> u64 {
        self.generation
    }

    /// The connected clients, oldest first.
    pub closed spec fn presence(&self) -> Seq<ClientView> {
        client_views(self.clients@)
    }

    pub open spec fn wf(&self) -> bool {
        presence_wf(self.presence())
    }

    /// A hub with generation 0 and nobody connected.
    pub fn new() -> (h: LiveHub)
        ensures
            h.wf(),
            h.gen() == 0,
            h.presence() == Seq::<ClientView>::empty(),
    {
        let h = LiveHub { generation: 0, clients: Vec::new() };
        assert(h.presence() =~= Seq::<ClientView>::empty());
        h
    }

    /// Signals one change: the generation advances by one, wrapping at 2^64.
    pub fn notify(&mut self)
        requires
            old(self).wf(),
        ensures
            final(self).wf(),
            final(self).gen() == next_generation(old(self).gen()),
            final(self).presence() == old(self).presence(),
    {
        self.generation = self.generation.wrapping_add(1);
    }

    /// The current generation.
    pub fn generation(&self) -> (g: u64)
        ensures
            g == self.gen(),
    {
        self.generation
    }

    /// Whether a change was signalled since the client saw generation `last`.
    pub fn changed_since(&self, last: u64) -> (b: bool)
        ensures
            b == (self.gen() != last),
    {
        self.generation != last
    }

    fn find(&self, id: &str) -> (r: Option<usize>)
        ensures
            match r {
                Some(k) => k < self.presence().len() && index_of(self.presence(), id@) == k,
                None => index_of(self.presence(), id@) == -1,
            },
    {
        proof {
            lemma_index_of(self.presence(), id@);
        }
        let mut k = self.clients.len();
        assert(self.presence().take(k as int) =~= self.presence());
        while k > 0
            invariant
                k <= self.clients@.len(),
                index_of(self.presence(), id@) == index_of(self.presence().take(k as int), id@),
            decreases k,
        {
            assert(self.presence().take(k as int).drop_last() =~= self.presence().take(k - 1));
            if crate::text::str_eq(self.clients[k - 1].id.as_str(), id) {
                return Some(k - 1);
            }
            k = k - 1;
        }
        None
    }

    /// Connections the client `id` holds, 0 when it is not connected.
    pub open spec fn connections_of(&self, id: Seq<char>) -> int {
        let k = index_of(self.presence(), id);
        if k >= 0 {
            self.presence()[k].connections as int
        } else {
            0
        }
    }

    /// Registers one connection of client `id`. A known client gains a
    /// connection and takes the new kind, and the new name unless it is
    /// empty; an unknown one is added with one connection, joined at `now_ms`,
    /// after every client that joined at or before that time.
    pub fn presence_join(&mut self, id: &str, name: &str, kind: &str, now_ms: u64)
        requires
            old(self).wf(),
            old(self).connections_of(id@) < u32::MAX,
        ensures
            final(self).wf(),
            final(self).gen() == old(self).gen(),
            joins_to(old(self).presence(), final(self).presence(), id@, name@, kind@, now_ms),
    {
        let ghost before = self.presence();
        proof {
            lemma_index_of(before, id@);
        }
        match self.find(id) {
            Some(k) => {
                let old_c = self.clients[k].copy();
                let new_name = if name.is_empty() {
                    old_c.name
                } else {
                    String::from_str(name)
                };
                let c = PresenceClient {
                    id: old_c.id,
                    name: new_name,
                    kind: String::from_str(kind),
                    connections: old_c.connections + 1,
                    joined_ms: old_c.joined_ms,
                };
                self.clients.set(k, c);
                assert(self.presence() =~= before.update(k as int, c@));
            },
            None => {
                let mut pos: usize = 0;
                while pos < self.clients.len() && self.clients[pos].joined_ms <= now_ms
                    invariant
                        pos <= self.clients@.len(),
                        self.presence() == before,
                        forall|j: int| 0 <= j < pos ==> before[j].joined_ms <= now_ms,
                    decreases self.clients@.len() - pos,
                {
                    pos = pos + 1;
                }
                let c = PresenceClient {
                    id: String::from_str(id),
                    name: String::from_str(name),
                    kind: String::from_str(kind),
                    connections: 1,
                    joined_ms: now_ms,
                };
                self.clients.insert(pos, c);
                assert(self.presence() =~= before.insert(pos as int, c@));
                assert(forall|j: int| pos <= j < before.len() ==> before[j].joined_ms > now_ms) by {
                    if pos < before.len() {
                        assert(before[pos as int].joined_ms > now_ms);
                    }
                }
            },
        }
    }

    /// Drops one connection of client `id`; the client leaves the list when
    /// its last connection closes. Unknown ids change nothing.
    pub fn presence_leave(&mut self, id: &str)
        requires
            old(self).wf(),
        ensures
            final(self).wf(),
            final(self).gen() == old(self).gen(),
            leaves_to(old(self).presence(), final(self).presence(), id@),
    {
        let ghost before = self.presence();
        proof {
            lemma_index_of(before, id@);
        }
        match self.find(id) {
            None => {},
            Some(k) => {
                let old_c = self.clients[k].copy();
                let n = if old_c.connections > 0 {
                    old_c.connections - 1
                } else {
                    0
                };
                if n == 0 {
                    self.clients.remove(k);
                    assert(self.presence() =~= before.remove(k as int));
                } else {
                    let c = PresenceClient { connections: n, ..old_c };
                    self.clients.set(k, c);
                    assert(self.presence() =~= before.update(k as int, c@));
                }
            },
        }
    }

    /// The connected clients, oldest first.
    pub fn presence_snapshot(&self) -> (out: Vec<PresenceClient>)
        requires
            self.wf(),
        ensures
            client_views(out@) == self.presence(),
    {
        let mut out: Vec<PresenceClient> = Vec::new();
        let mut i: usize = 0;
        while i < self.clients.len()
            invariant
                i <= self.clients@.len(),
                client_views(out@) =~= self.presence().take(i as int),
            decreases self.clients@.len() - i,
        {
            let c = self.clients[i].copy();
            let ghost prev = client_views(out@);
            out.push(c);
            assert(client_views(out@) =~= prev.push(c@));
            assert(self.presence().take(i + 1) =~= self.presence().take(i as int).push(self.presence()[i as int]));
            i = i + 1;
        }
        assert(self.presence().take(self.clients@.len() as int) =~= self.presence());
        out
    }
}

} // verus!
