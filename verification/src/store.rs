use vstd::prelude::*;
use crate::doc::{parts_below, AgentSpec, ChannelSpec, DocModel, StreamDoc, StreamError};
use crate::digits::{dec_digits, lemma_dec_digits_injective, push_dec_digits};

verus! {

/// One registry entry: the id the registry assigned and the document itself.
pub struct StreamEntry {
    pub id: u64,
    pub doc: StreamDoc,
}

/// The mathematical content of a registry entry.
pub ghost struct EntryModel {
    pub id: u64,
    pub doc: DocModel,
}

impl View for StreamEntry {
    type V = EntryModel;

    open spec fn view(&self) -> EntryModel {
        EntryModel { id: self.id, doc: self.doc@ }
    }
}

/// Some registered document bears this name.
pub open spec fn has_name(s: Seq<EntryModel>, name: Seq<char>) -> bool {
    exists|i: int| 0 <= i < s.len() && s[i].doc.name == name
}

/// Some registered document bears this id.
pub open spec fn has_id(s: Seq<EntryModel>, id: u64) -> bool {
    exists|i: int| 0 <= i < s.len() && s[i].id == id
}

/// The position of the entry with the given id.
pub open spec fn index_of_id(s: Seq<EntryModel>, id: u64) -> int {
    choose|i: int| 0 <= i < s.len() && s[i].id == id
}

/// No two entries share an id.
pub open spec fn ids_unique(s: Seq<EntryModel>) -> bool {
    forall|i: int, j: int| #![trigger s[i].id, s[j].id]
        0 <= i < s.len() && 0 <= j < s.len() && i != j ==> s[i].id != s[j].id
}

/// No two entries share a name.
pub open spec fn names_unique(s: Seq<EntryModel>) -> bool {
    forall|i: int, j: int| #![trigger s[i].doc.name, s[j].doc.name]
        0 <= i < s.len() && 0 <= j < s.len() && i != j ==> s[i].doc.name != s[j].doc.name
}

/// The in-memory registry of stream documents. It owns the canonical copy of
/// every loaded document, assigns each a fresh id on registration, and
/// enforces that no two registered documents share a name and that internal
/// agent and channel identifiers handed out by it never repeat.
pub struct StreamStore {
    entries: Vec<StreamEntry>,
    next_id: u64,
    next_part_id: u64,
}

impl StreamStore {
    /// The registered documents, in registration order.
    pub closed spec fn streams(&self) -> Seq<EntryModel> {
        Seq::new(self.entries@.len() as nat, |i: int| self.entries@[i]@)
    }

    /// The next document id the registry will assign.
    pub closed spec fn spec_next_id(&self) -> u64 {
        self.next_id
    }

    /// The lowest internal identifier the registry may still hand out to an
    /// agent or channel.
    pub closed spec fn spec_next_part_id(&self) -> u64 {
        self.next_part_id
    }

    /// The registry's invariant: ids and names are unique, and every id the
    /// registry has handed out lies below the matching counter.
    pub closed spec fn wf(&self) -> bool {
        &&& ids_unique(self.streams())
        &&& names_unique(self.streams())
        &&& forall|i: int|
            0 <= i < self.streams().len() ==> #[trigger] self.streams()[i].id < self.next_id
        &&& forall|i: int|
            0 <= i < self.streams().len() ==> parts_below(
                #[trigger] self.streams()[i].doc,
                self.next_part_id,
            )
    }

    /// The uniqueness facts the registry invariant carries, and which every
    /// operation of this registry preserves: after any sequence of
    /// registrations, renames, removals and imports, no two registered
    /// documents share an id, and no two share a name.
    pub proof fn lemma_wf_unique(&self)
        requires
            self.wf(),
        ensures
            ids_unique(self.streams()),
            names_unique(self.streams()),
    {
    }

    /// The next document id the registry will assign, for callers that must
    /// budget ahead of a registration.
    pub fn id_counter(&self) -> (r: u64)
        ensures
            r == self.spec_next_id(),
    {
        self.next_id
    }

    /// The lowest internal identifier still free, for callers that must
    /// budget ahead of a load.
    pub fn part_counter(&self) -> (r: u64)
        ensures
            r == self.spec_next_part_id(),
    {
        self.next_part_id
    }

    /// A fresh, empty registry.
    pub fn new() -> (s: Self)
        ensures
            s.wf(),
            s.streams() == Seq::<EntryModel>::empty(),
            s.spec_next_id() == 0,
            s.spec_next_part_id() == 0,
    {
        let s = StreamStore { entries: Vec::new(), next_id: 0, next_part_id: 0 };
        proof {
            assert(s.streams() =~= Seq::<EntryModel>::empty());
        }
        s
    }

    /// Look up a registered document by id.
    pub fn get_agent_stream(&self, stream_id: u64) -> (r: Option<&StreamDoc>)
        requires
            self.wf(),
        ensures
            match r {
                Some(d) => {
                    let s = self.streams();
                    has_id(s, stream_id) && 0 <= index_of_id(s, stream_id) < s.len() && d@ == s[
                        index_of_id(s, stream_id)
                    ].doc && s[index_of_id(s, stream_id)].id == stream_id
                },
                None => !has_id(self.streams(), stream_id),
            },
    {
        let ghost s = self.streams();
        let mut i: usize = 0;
        while i < self.entries.len()
            invariant
                self.wf(),
                s == self.streams(),
                0 <= i <= s.len(),
                forall|j: int| 0 <= j < i ==> s[j].id != stream_id,
            decreases s.len() - i,
        {
            if self.entries[i].id == stream_id {
                proof {
                    assert(s[i as int].id == stream_id);
                    let k = index_of_id(s, stream_id);
                    assert(s[k].id == stream_id);
                    assert(ids_unique(s));
                    if k != i as int {
                        assert(s[k].id != s[i as int].id);
                    }
                }
                return Some(&self.entries[i].doc);
            }
            i += 1;
        }
        None
    }

    /// Whether some registered document bears this name.
    pub fn name_taken(&self, name: &String) -> (r: bool)
        ensures
            r == has_name(self.streams(), name@),
    {
        let ghost s = self.streams();
        let mut i: usize = 0;
        while i < self.entries.len()
            invariant
                s == self.streams(),
                0 <= i <= s.len(),
                forall|j: int| 0 <= j < i ==> s[j].doc.name != name@,
            decreases s.len() - i,
        {
            if self.entries[i].doc.name.eq(name) {
                proof {
                    assert(s[i as int].doc.name == name@);
                }
                return true;
            }
            i += 1;
        }
        false
    }

    /// Register a document under its current name. Fails, leaving the
    /// registry unchanged, exactly when the name is already registered;
    /// otherwise the document is appended under a fresh id, which is
    /// returned.
    pub fn add_agent_stream(&mut self, doc: StreamDoc) -> (r: Result<u64, StreamError>)
        requires
            old(self).wf(),
            parts_below(doc@, u64::MAX),
            old(self).spec_next_id() < u64::MAX,
        ensures
            final(self).wf(),
            match r {
                Ok(id) => {
                    &&& !has_name(old(self).streams(), doc@.name)
                    &&& !has_id(old(self).streams(), id)
                    &&& id == old(self).spec_next_id()
                    &&& final(self).spec_next_id() == old(self).spec_next_id() + 1
                    &&& final(self).streams() == old(self).streams().push(
                        EntryModel { id, doc: doc@ },
                    )
                    &&& final(self).spec_next_part_id() >= old(self).spec_next_part_id()
                    &&& parts_below(doc@, final(self).spec_next_part_id())
                    &&& (parts_below(doc@, old(self).spec_next_part_id())
                        ==> final(self).spec_next_part_id() == old(self).spec_next_part_id())
                },
                Err(e) => {
                    &&& e == StreamError::NameCollision
                    &&& has_name(old(self).streams(), doc@.name)
                    &&& *final(self) == *old(self)
                },
            },
            has_name(old(self).streams(), doc@.name) <==> r is Err,
    {
        if self.name_taken(&doc.name) {
            return Err(StreamError::NameCollision);
        }
        let bound = part_bound(&doc);
        if bound > self.next_part_id {
            self.next_part_id = bound;
        }
        let id = self.next_id;
        self.next_id = self.next_id + 1;
        let ghost s_old = self.streams();
        self.entries.push(StreamEntry { id, doc });
        proof {
            assert(self.streams() =~= s_old.push(EntryModel { id, doc: doc@ }));
            assert forall|i: int| 0 <= i < self.streams().len() implies parts_below(
                #[trigger] self.streams()[i].doc,
                self.next_part_id,
            ) by {
                if i < s_old.len() {
                    assert(parts_below(s_old[i].doc, old(self).spec_next_part_id()));
                }
            }
        }
        Ok(id)
    }

    /// Deregister a document by id and hand it back, leaving its name free for
    /// reuse. Fails exactly when no
    /// document has the id; the registry is unchanged then.
    pub fn remove_from_registry(&mut self, stream_id: u64) -> (r: Result<StreamDoc, StreamError>)
        requires
            old(self).wf(),
        ensures
            final(self).wf(),
            final(self).spec_next_part_id() == old(self).spec_next_part_id(),
            match r {
                Ok(d) => {
                    let s = old(self).streams();
                    let k = index_of_id(s, stream_id);
                    &&& has_id(s, stream_id)
                    &&& 0 <= k < s.len() && s[k].id == stream_id
                    &&& d@ == s[k].doc
                    &&& final(self).streams() == s.remove(k)
                },
                Err(e) => {
                    &&& e == StreamError::NotFound
                    &&& !has_id(old(self).streams(), stream_id)
                    &&& *final(self) == *old(self)
                },
            },
    {
        let ghost s = self.streams();
        let mut i: usize = 0;
        while i < self.entries.len()
            invariant
                *self == *old(self),
                self.wf(),
                s == self.streams(),
                0 <= i <= s.len(),
                forall|j: int| 0 <= j < i ==> s[j].id != stream_id,
            decreases s.len() - i,
        {
            if self.entries[i].id == stream_id {
                proof {
                    assert(s[i as int].id == stream_id);
                    assert(has_id(s, stream_id));
                    let k = index_of_id(s, stream_id);
                    assert(s[k].id == stream_id);
                    assert(ids_unique(s));
                    if k != i as int {
                        assert(s[k].id != s[i as int].id);
                    }
                }
                let entry = self.entries.remove(i);
                proof {
                    let t = self.streams();
                    assert(t =~= s.remove(i as int));
                    assert forall|a: int| 0 <= a < t.len() implies t[a] == (if a < i as int {
                        s[a]
                    } else {
                        s[a + 1]
                    }) by {}
                    assert forall|a: int, b: int|
                        0 <= a < t.len() && 0 <= b < t.len() && a != b implies t[a].id != t[b].id
                        && t[a].doc.name != t[b].doc.name by {
                        let a0 = if a < i as int { a } else { a + 1 };
                        let b0 = if b < i as int { b } else { b + 1 };
                        assert(ids_unique(s) && names_unique(s));
                        assert(s[a0].id != s[b0].id);
                        assert(s[a0].doc.name != s[b0].doc.name);
                    }
                }
                return Ok(entry.doc);
            }
            i += 1;
        }
        Err(StreamError::NotFound)
    }

    /// Rename a registered document in place. Fails with `NotFound` when the
    /// id is unknown, and with `NameCollision` when a different document
    /// already bears the new name; the registry is unchanged then.
    pub fn rename_in_registry(&mut self, stream_id: u64, new_name: &String) -> (r: Result<
        (),
        StreamError,
    >)
        requires
            old(self).wf(),
        ensures
            final(self).wf(),
            final(self).spec_next_part_id() == old(self).spec_next_part_id(),
            match r {
                Ok(()) => {
                    let s = old(self).streams();
                    let k = index_of_id(s, stream_id);
                    &&& has_id(s, stream_id)
                    &&& 0 <= k < s.len() && s[k].id == stream_id
                    &&& !(has_name(s, new_name@) && s[k].doc.name != new_name@)
                    &&& final(self).streams() == s.update(
                        k,
                        EntryModel { id: stream_id, doc: DocModel { name: new_name@, ..s[k].doc } },
                    )
                },
                Err(e) => {
                    &&& *final(self) == *old(self)
                    &&& (e == StreamError::NotFound || e == StreamError::NameCollision)
                    &&& (e == StreamError::NotFound <==> !has_id(old(self).streams(), stream_id))
                    &&& (e == StreamError::NameCollision ==> has_id(old(self).streams(), stream_id)
                        && has_name(old(self).streams(), new_name@) && old(self).streams()[
                        index_of_id(old(self).streams(), stream_id)
                    ].doc.name != new_name@)
                },
            },
    {
        let ghost s = self.streams();
        let found = match self.index_of(stream_id) {
            Some(k) => k,
            None => {
                return Err(StreamError::NotFound);
            },
        };
        proof {
            assert(has_id(s, stream_id));
            let k = index_of_id(s, stream_id);
            assert(s[k].id == stream_id);
            assert(ids_unique(s));
            if k != found as int {
                assert(s[k].id != s[found as int].id);
            }
        }
        if self.name_taken(new_name) {
            // Renaming a document to the name it already bears is a no-op,
            // not a collision.
            let same = self.entries[found].doc.name.eq(new_name);
            if !same {
                return Err(StreamError::NameCollision);
            }
        }
        let ghost old_entry = s[found as int];
        let mut entry = self.entries.remove(found);
        entry.doc.name = new_name.clone();
        self.entries.insert(found, entry);
        proof {
            let k = found as int;
            let t = self.streams();
            assert(t =~= s.update(
                k,
                EntryModel { id: stream_id, doc: DocModel { name: new_name@, ..old_entry.doc } },
            ));
            assert forall|a: int, b: int| #![trigger t[a].id, t[b].id]
                0 <= a < t.len() && 0 <= b < t.len() && a != b implies t[a].id != t[b].id by {
                assert(ids_unique(s));
                assert(s[a].id != s[b].id);
            }
            assert forall|a: int, b: int| #![trigger t[a].doc.name, t[b].doc.name]
                0 <= a < t.len() && 0 <= b < t.len() && a != b implies t[a].doc.name
                != t[b].doc.name by {
                assert(ids_unique(s) && names_unique(s));
                if a == k {
                    assert(s[a].id != s[b].id);
                    if s[k].doc.name == new_name@ {
                        assert(s[a].doc.name != s[b].doc.name);
                    } else {
                        assert(!has_name(s, new_name@));
                        assert(s[b].doc.name != new_name@);
                    }
                } else if b == k {
                    assert(s[a].id != s[b].id);
                    if s[k].doc.name == new_name@ {
                        assert(s[a].doc.name != s[b].doc.name);
                    } else {
                        assert(!has_name(s, new_name@));
                        assert(s[a].doc.name != new_name@);
                    }
                } else {
                    assert(s[a].doc.name != s[b].doc.name);
                }
            }
            assert(ids_unique(t));
            assert(names_unique(t));
            assert forall|a: int| 0 <= a < t.len() implies #[trigger] t[a].id < self.next_id by {
                assert(s[a].id < self.next_id);
            }
            assert forall|a: int| 0 <= a < t.len() implies parts_below(
                #[trigger] t[a].doc,
                self.next_part_id,
            ) by {
                assert(parts_below(s[a].doc, self.next_part_id));
                if a == k {
                    assert(crate::doc::part_ids(t[a].doc) =~= crate::doc::part_ids(s[a].doc));
                }
            }
        }
        Ok(())
    }

    /// The position of the entry with the given id, if any.
    fn index_of(&self, stream_id: u64) -> (r: Option<usize>)
        ensures
            match r {
                Some(k) => (k as int) < self.streams().len() && self.streams()[k as int].id
                    == stream_id,
                None => !has_id(self.streams(), stream_id),
            },
    {
        let ghost s = self.streams();
        let mut i: usize = 0;
        while i < self.entries.len()
            invariant
                s == self.streams(),
                0 <= i <= s.len(),
                forall|j: int| 0 <= j < i ==> s[j].id != stream_id,
            decreases s.len() - i,
        {
            if self.entries[i].id == stream_id {
                proof {
                    assert(s[i as int].id == stream_id);
                }
                return Some(i);
            }
            i += 1;
        }
        None
    }
}

/// The new identifier of the channel endpoint `x`: if some agent in the
/// copied slice carried id `x`, the endpoint follows that agent's copy (the
/// last such agent when ids repeat); an endpoint that matches no copied agent
/// is left as it is.
pub open spec fn remap_ref(agents: Seq<AgentSpec>, base: u64, x: u64) -> u64
    decreases agents.len(),
{
    if agents.len() == 0 {
        x
    } else if agents.last().id == x {
        (base + agents.len() - 1) as u64
    } else {
        remap_ref(agents.drop_last(), base, x)
    }
}

impl StreamStore {
    /// A name no registered document bears: the trimmed base name itself if
    /// it is free, else the base name with the first free numeric suffix,
    /// counted from 2.
    pub fn unique_stream_name(&self, base: &str) -> (r: String)
        ensures
            !has_name(self.streams(), r@),
            !has_name(self.streams(), base@) ==> r@ == base@,
            has_name(self.streams(), base@) ==> exists|k: nat|
                2 <= k && r@ == base@ + dec_digits(k) && (forall|j: nat|
                    2 <= j < k ==> has_name(self.streams(), base@ + dec_digits(j))),
    {
        let base_s = base.to_owned();
        if !self.name_taken(&base_s) {
            return base_s;
        }
        let ghost s = self.streams();
        let n_entries = self.entries.len();
        let mut i: u128 = 2;
        loop
            invariant
                s == self.streams(),
                s.len() == n_entries,
                has_name(s, base@),
                2 <= i,
                i - 2 <= s.len(),
                forall|j: nat| 2 <= j < i ==> has_name(s, base@ + dec_digits(j)),
            decreases s.len() + 2 - i,
        {
            let mut cand = base.to_owned();
            push_dec_digits(i, &mut cand);
            if !self.name_taken(&cand) {
                proof {
                    assert(cand@ == base@ + dec_digits(i as nat));
                }
                return cand;
            }
            proof {
                assert forall|j: nat| 2 <= j < i + 1 implies has_name(
                    s,
                    base@ + dec_digits(j),
                ) by {
                    if j == i as nat {
                        assert(has_name(s, cand@));
                    }
                }
                lemma_taken_bound(s, base@, (i + 1) as nat);
            }
            i += 1;
        }
    }

    /// Deep-copy a sub-graph of agents and channels. Every copied agent and
    /// channel receives a fresh internal identifier, consecutive from the
    /// registry's counter, and each channel endpoint that referenced a copied
    /// agent is rewritten to that agent's new identifier.
    pub fn copy_sub_stream(&mut self, agents: &Vec<AgentSpec>, channels: &Vec<ChannelSpec>) -> (r:
        (Vec<AgentSpec>, Vec<ChannelSpec>))
        requires
            old(self).wf(),
            old(self).spec_next_part_id() + agents@.len() + channels@.len() <= u64::MAX,
        ensures
            final(self).wf(),
            final(self).streams() == old(self).streams(),
            final(self).spec_next_id() == old(self).spec_next_id(),
            final(self).spec_next_part_id() == old(self).spec_next_part_id() + agents@.len()
                + channels@.len(),
            r.0@.len() == agents@.len(),
            r.1@.len() == channels@.len(),
            forall|k: int|
                0 <= k < agents@.len() ==> (#[trigger] r.0@[k]).id == old(self).spec_next_part_id()
                    + k,
            forall|k: int|
                0 <= k < channels@.len() ==> {
                    let c = #[trigger] r.1@[k];
                    &&& c.id == old(self).spec_next_part_id() + agents@.len() + k
                    &&& c.source == remap_ref(
                        agents@,
                        old(self).spec_next_part_id(),
                        channels@[k].source,
                    )
                    &&& c.target == remap_ref(
                        agents@,
                        old(self).spec_next_part_id(),
                        channels@[k].target,
                    )
                },
    {
        let base = self.next_part_id;
        let mut new_agents: Vec<AgentSpec> = Vec::new();
        let mut k: usize = 0;
        while k < agents.len()
            invariant
                base + agents@.len() + channels@.len() <= u64::MAX,
                0 <= k <= agents@.len(),
                new_agents@.len() == k,
                forall|t: int| 0 <= t < k ==> (#[trigger] new_agents@[t]).id == base + t,
            decreases agents@.len() - k,
        {
            new_agents.push(AgentSpec { id: base + (k as u64) });
            k += 1;
        }
        let cbase = base + (agents.len() as u64);
        let mut new_channels: Vec<ChannelSpec> = Vec::new();
        let mut c: usize = 0;
        while c < channels.len()
            invariant
                base + agents@.len() + channels@.len() <= u64::MAX,
                cbase == base + agents@.len(),
                0 <= c <= channels@.len(),
                new_channels@.len() == c,
                forall|t: int|
                    0 <= t < c ==> {
                        let ch = #[trigger] new_channels@[t];
                        &&& ch.id == cbase + t
                        &&& ch.source == remap_ref(agents@, base, channels@[t].source)
                        &&& ch.target == remap_ref(agents@, base, channels@[t].target)
                    },
            decreases channels@.len() - c,
        {
            let source = remap_ref_exec(agents, base, channels[c].source);
            let target = remap_ref_exec(agents, base, channels[c].target);
            new_channels.push(ChannelSpec { id: cbase + (c as u64), source, target });
            c += 1;
        }
        let ghost s_old = self.streams();
        self.next_part_id = cbase + (channels.len() as u64);
        proof {
            assert(self.streams() =~= s_old);
            assert forall|i: int| 0 <= i < self.streams().len() implies parts_below(
                #[trigger] self.streams()[i].doc,
                self.next_part_id,
            ) by {
                assert(parts_below(s_old[i].doc, old(self).spec_next_part_id()));
            }
        }
        (new_agents, new_channels)
    }
}

/// If every candidate name `base + digits(j)` for `j` in `[2, m)` is
/// registered, the registry holds at least `m - 2` entries, since the
/// candidates are pairwise distinct names.
proof fn lemma_taken_bound(s: Seq<EntryModel>, base: Seq<char>, m: nat)
    requires
        2 <= m,
        forall|j: nat| 2 <= j < m ==> has_name(s, base + dec_digits(j)),
    ensures
        m - 2 <= s.len(),
{
    let f = |j: int| base + dec_digits(j as nat);
    let rng = vstd::set_lib::set_int_range(2, m as int);
    vstd::set_lib::lemma_int_range(2, m as int);
    assert forall|x: int, y: int|
        rng.contains(x) && rng.contains(y) && #[trigger] f(x) == #[trigger] f(y) implies x
        == y by {
        let fx = base + dec_digits(x as nat);
        let fy = base + dec_digits(y as nat);
        assert(fx.subrange(base.len() as int, fx.len() as int) =~= dec_digits(x as nat));
        assert(fy.subrange(base.len() as int, fy.len() as int) =~= dec_digits(y as nat));
        lemma_dec_digits_injective(x as nat, y as nat);
    }
    let cands = rng.map(f);
    vstd::set_lib::lemma_map_size(rng, cands, f);
    let idx = vstd::set_lib::set_int_range(0, s.len() as int);
    vstd::set_lib::lemma_int_range(0, s.len() as int);
    let g = |i: int| s[i].doc.name;
    let names = idx.map(g);
    vstd::set_lib::lemma_map_size_bound(idx, names, g);
    assert forall|c: Seq<char>| cands.contains(c) implies names.contains(c) by {
        let j = choose|j: int| rng.contains(j) && c == f(j);
        assert(has_name(s, base + dec_digits(j as nat)));
        let i = choose|i: int| 0 <= i < s.len() && s[i].doc.name == base + dec_digits(j as nat);
        assert(idx.contains(i) && c == g(i));
    }
    vstd::set_lib::lemma_len_subset(cands, names);
}

/// Find the replacement for the channel endpoint `x` among the copied
/// agents: the last agent with id `x`, if any, maps the endpoint to that
/// agent's fresh id.
fn remap_ref_exec(agents: &Vec<AgentSpec>, base: u64, x: u64) -> (r: u64)
    requires
        base + agents@.len() <= u64::MAX,
    ensures
        r == remap_ref(agents@, base, x),
{
    let ghost whole = agents@;
    let mut i: usize = agents.len();
    proof {
        assert(whole.subrange(0, whole.len() as int) =~= whole);
    }
    while i > 0
        invariant
            base + agents@.len() <= u64::MAX,
            whole == agents@,
            0 <= i <= whole.len(),
            remap_ref(whole, base, x) == remap_ref(whole.subrange(0, i as int), base, x),
        decreases i,
    {
        i -= 1;
        let ghost sub = whole.subrange(0, i + 1 as int);
        proof {
            assert(sub.last() == whole[i as int]);
            assert(sub.drop_last() =~= whole.subrange(0, i as int));
        }
        if agents[i].id == x {
            proof {
                assert(remap_ref(sub, base, x) == base + i);
            }
            return base + (i as u64);
        }
    }
    proof {
        assert(whole.subrange(0, 0) =~= Seq::<AgentSpec>::empty());
        assert(remap_ref(whole.subrange(0, 0), base, x) == x);
    }
    x
}

/// The least strict upper bound on the internal identifiers of a document.
fn part_bound(doc: &StreamDoc) -> (b: u64)
    requires
        parts_below(doc@, u64::MAX),
    ensures
        parts_below(doc@, b),
        b == 0 || exists|j: int|
            0 <= j < crate::doc::part_ids(doc@).len() && crate::doc::part_ids(doc@)[j] + 1 == b,
{
    let ghost pids = crate::doc::part_ids(doc@);
    let mut b: u64 = 0;
    let mut i: usize = 0;
    while i < doc.agents.len()
        invariant
            pids == crate::doc::part_ids(doc@),
            0 <= i <= doc.agents@.len(),
            pids.len() == doc.agents@.len() + doc.channels@.len(),
            forall|j: int| 0 <= j < i ==> #[trigger] pids[j] < b,
            forall|j: int| 0 <= j < pids.len() ==> #[trigger] pids[j] < u64::MAX,
            b == 0 || exists|j: int| 0 <= j < pids.len() && pids[j] + 1 == b,
        decreases doc.agents@.len() - i,
    {
        proof {
            assert(pids[i as int] == doc.agents@[i as int].id);
        }
        if doc.agents[i].id >= b {
            b = doc.agents[i].id + 1;
        }
        i += 1;
    }
    let mut c: usize = 0;
    while c < doc.channels.len()
        invariant
            pids == crate::doc::part_ids(doc@),
            0 <= c <= doc.channels@.len(),
            pids.len() == doc.agents@.len() + doc.channels@.len(),
            forall|j: int| 0 <= j < doc.agents@.len() + c ==> #[trigger] pids[j] < b,
            forall|j: int| 0 <= j < pids.len() ==> #[trigger] pids[j] < u64::MAX,
            b == 0 || exists|j: int| 0 <= j < pids.len() && pids[j] + 1 == b,
        decreases doc.channels@.len() - c,
    {
        proof {
            assert(pids[doc.agents@.len() + c] == doc.channels@[c as int].id);
        }
        if doc.channels[c].id >= b {
            b = doc.channels[c].id + 1;
        }
        c += 1;
    }
    b
}

} // verus!
