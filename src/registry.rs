//! The host's registry of attached listeners: address to display name.

use vstd::prelude::*;

verus! {

/// A peer's network address: an IP address as a 128-bit number, whether it is
/// IPv6, and a port.
#[derive(Copy, Clone, Debug, PartialEq, Eq, Structural)]
pub struct PeerAddr {
    pub ip: u128,
    pub v6: bool,
    pub port: u16,
}

/// One attached listener.
pub struct ClientRecord {
    pub address: PeerAddr,
    pub display_name: String,
}

/// Address to display name of every listener attached to the host.
pub struct Registry {
    records: Vec<ClientRecord>,
    model: Ghost<Map<PeerAddr, Seq<char>>>,
}

impl View for Registry {
    type V = Map<PeerAddr, Seq<char>>;

    closed spec fn view(&self) -> Map<PeerAddr, Seq<char>> {
        self.model@
    }
}

impl Registry {
    /// The records agree with the model, one record per address.
    pub closed spec fn wf(&self) -> bool {
        &&& forall|i: int|
            0 <= i < self.records@.len() ==> #[trigger] self.model@.contains_key(
                self.records@[i].address,
            ) && self.model@[self.records@[i].address] == self.records@[i].display_name@
        &&& forall|a: PeerAddr| #[trigger]
            self.model@.contains_key(a) ==> exists|i: int|
                0 <= i < self.records@.len() && self.records@[i].address == a
        &&& forall|i: int, j: int|
            0 <= i < j < self.records@.len() ==> #[trigger] self.records@[i].address
                != #[trigger] self.records@[j].address
    }

    /// An empty registry.
    pub fn new() -> (r: Self)
        ensures
            r.wf(),
            r@ == Map::<PeerAddr, Seq<char>>::empty(),
    {
        Registry { records: Vec::new(), model: Ghost(Map::empty()) }
    }

    /// Position of the record for `address`, if any.
    fn find(&self, address: PeerAddr) -> (r: Option<usize>)
        requires
            self.wf(),
        ensures
            r matches Some(i) ==> i < self.records@.len() && self.records@[i as int].address
                == address,
            r is None ==> !self@.contains_key(address),
    {
        let mut i: usize = 0;
        while i < self.records.len()
            invariant
                self.wf(),
                i <= self.records@.len(),
                forall|k: int| 0 <= k < i ==> self.records@[k].address != address,
            decreases self.records@.len() - i,
        {
            if self.records[i].address == address {
                return Some(i);
            }
            i = i + 1;
        }
        None
    }

    /// Records `address` under `name`, replacing an earlier name for it.
    pub fn register(&mut self, address: PeerAddr, name: String)
        requires
            old(self).wf(),
        ensures
            final(self).wf(),
            final(self)@ == old(self)@.insert(address, name@),
    {
        let ghost new_model = self.model@.insert(address, name@);
        match self.find(address) {
            Some(i) => {
                let ghost old_records = self.records@;
                let ghost old_model = self.model@;
                let record = ClientRecord { address, display_name: name };
                self.records.set(i, record);
                self.model = Ghost(new_model);
                assert forall|p: int|
                    0 <= p < self.records@.len() implies #[trigger] self.model@.contains_key(
                        self.records@[p].address,
                    ) && self.model@[self.records@[p].address] == self.records@[p].display_name@ by {
                    if p != i {
                        assert(old_model.contains_key(old_records[p].address));
                        if p < i {
                            assert(old_records[p].address != old_records[i as int].address);
                        } else {
                            assert(old_records[i as int].address != old_records[p].address);
                        }
                    }
                }
                assert forall|p: int, q: int|
                    0 <= p < q < self.records@.len() implies #[trigger] self.records@[p].address
                        != #[trigger] self.records@[q].address by {
                    assert(old_records[p].address != old_records[q].address);
                }
                assert forall|a: PeerAddr| #[trigger]
                    self.model@.contains_key(a) implies exists|k: int|
                        0 <= k < self.records@.len() && self.records@[k].address == a by {
                    if a != address {
                        let k = choose|k: int| 0 <= k < old_records.len() && old_records[k].address == a;
                        assert(self.records@[k].address == a);
                    } else {
                        assert(self.records@[i as int].address == a);
                    }
                }
            },
            None => {
                let ghost old_records = self.records@;
                let ghost old_model = self.model@;
                self.records.push(ClientRecord { address, display_name: name });
                self.model = Ghost(new_model);
                assert forall|p: int|
                    0 <= p < self.records@.len() implies #[trigger] self.model@.contains_key(
                        self.records@[p].address,
                    ) && self.model@[self.records@[p].address] == self.records@[p].display_name@ by {
                    if p < old_records.len() {
                        assert(old_model.contains_key(old_records[p].address));
                    }
                }
                assert forall|p: int, q: int|
                    0 <= p < q < self.records@.len() implies #[trigger] self.records@[p].address
                        != #[trigger] self.records@[q].address by {
                    if q < old_records.len() {
                        assert(old_records[p].address != old_records[q].address);
                    } else {
                        assert(old_model.contains_key(old_records[p].address));
                    }
                }
                assert forall|a: PeerAddr| #[trigger]
                    self.model@.contains_key(a) implies exists|k: int|
                        0 <= k < self.records@.len() && self.records@[k].address == a by {
                    if a != address {
                        let k = choose|k: int| 0 <= k < old_records.len() && old_records[k].address == a;
                        assert(self.records@[k].address == a);
                    } else {
                        assert(self.records@[old_records.len() as int].address == a);
                    }
                }
            },
        }
    }

    /// Removes the record for `address`; tells whether there was one.
    pub fn deregister(&mut self, address: PeerAddr) -> (r: bool)
        requires
            old(self).wf(),
        ensures
            final(self).wf(),
            final(self)@ == old(self)@.remove(address),
            r == old(self)@.contains_key(address),
    {
        match self.find(address) {
            Some(i) => {
                let ghost old_records = self.records@;
                let ghost old_model = self.model@;
                self.records.remove(i);
                self.model = Ghost(self.model@.remove(address));
                assert forall|a: PeerAddr| #[trigger]
                    self.model@.contains_key(a) implies exists|k: int|
                        0 <= k < self.records@.len() && self.records@[k].address == a by {
                    let k = choose|k: int| 0 <= k < old_records.len() && old_records[k].address == a;
                    if k < i {
                        assert(self.records@[k].address == a);
                    } else {
                        assert(k != i);
                        assert(self.records@[k - 1].address == a);
                    }
                }
                assert forall|p: int|
                    0 <= p < self.records@.len() implies #[trigger] self.model@.contains_key(
                        self.records@[p].address,
                    ) && self.model@[self.records@[p].address] == self.records@[p].display_name@ by {
                    if p < i {
                        assert(old_records[p].address != old_records[i as int].address);
                        assert(old_model.contains_key(old_records[p].address));
                    } else {
                        assert(old_records[i as int].address != old_records[p + 1].address);
                        assert(old_model.contains_key(old_records[p + 1].address));
                    }
                }
                assert forall|p: int, q: int|
                    0 <= p < q < self.records@.len() implies #[trigger] self.records@[p].address
                        != #[trigger] self.records@[q].address by {
                    if q < i {
                        assert(old_records[p].address != old_records[q].address);
                    } else if p < i {
                        assert(old_records[p].address != old_records[q + 1].address);
                    } else {
                        assert(old_records[p + 1].address != old_records[q + 1].address);
                    }
                }
                true
            },
            None => {
                assert(self.model@.remove(address) =~= self.model@);
                self.model = Ghost(self.model@.remove(address));
                false
            },
        }
    }

    /// Whether a listener is recorded at `address`.
    pub fn contains(&self, address: PeerAddr) -> (r: bool)
        requires
            self.wf(),
        ensures
            r == self@.contains_key(address),
    {
        self.find(address).is_some()
    }

    /// The display name recorded for `address`.
    pub fn name_of(&self, address: PeerAddr) -> (r: Option<String>)
        requires
            self.wf(),
        ensures
            r is None <==> !self@.contains_key(address),
            r matches Some(n) ==> n@ == self@[address],
    {
        match self.find(address) {
            Some(i) => {
                let name = self.records[i].display_name.clone();
                assert(self.model@.contains_key(self.records@[i as int].address));
                Some(name)
            },
            None => None,
        }
    }

    /// Number of attached listeners.
    pub fn len(&self) -> (r: usize)
        requires
            self.wf(),
        ensures
            r == self@.len(),
    {
        proof {
            self.lemma_len();
        }
        self.records.len()
    }

    proof fn lemma_len(&self)
        requires
            self.wf(),
        ensures
            self.records@.len() == self@.len(),
    {
        let addrs = self.records@.map_values(|r: ClientRecord| r.address);
        assert(addrs.no_duplicates()) by {
            assert forall|i: int, j: int|
                0 <= i < addrs.len() && 0 <= j < addrs.len() && i != j implies addrs[i]
                != addrs[j] by {
                if i < j {
                    assert(self.records@[i].address != self.records@[j].address);
                } else {
                    assert(self.records@[j].address != self.records@[i].address);
                }
            }
        }
        addrs.unique_seq_to_set();
        assert(addrs.to_set() =~= self@.dom()) by {
            assert forall|a: PeerAddr| addrs.to_set().contains(a) implies self@.dom().contains(a) by {
                let i = choose|i: int| 0 <= i < addrs.len() && addrs[i] == a;
                assert(self.model@.contains_key(self.records@[i].address));
            }
            assert forall|a: PeerAddr| self@.dom().contains(a) implies addrs.to_set().contains(a) by {
                assert(self.model@.contains_key(a));
                let i = choose|i: int| 0 <= i < self.records@.len() && self.records@[i].address == a;
                assert(addrs[i] == a);
            }
        }
    }

    /// A copy of every record, for readers outside the host's sessions.
    pub fn snapshot(&self) -> (r: Vec<ClientRecord>)
        requires
            self.wf(),
        ensures
            r@.len() == self@.len(),
            forall|i: int|
                0 <= i < r@.len() ==> #[trigger] self@.contains_key(r@[i].address) && self@[r@[i].address]
                    == r@[i].display_name@,
            forall|a: PeerAddr| #[trigger]
                self@.contains_key(a) ==> exists|i: int| 0 <= i < r@.len() && r@[i].address == a,
    {
        proof {
            self.lemma_len();
        }
        let mut out: Vec<ClientRecord> = Vec::new();
        let mut i: usize = 0;
        while i < self.records.len()
            invariant
                self.wf(),
                i <= self.records@.len(),
                out@.len() == i,
                forall|k: int|
                    0 <= k < i ==> #[trigger] out@[k].address == self.records@[k].address
                        && out@[k].display_name@ == self.records@[k].display_name@,
            decreases self.records@.len() - i,
        {
            let record = &self.records[i];
            let name = record.display_name.clone();
            assert(name@ == self.records@[i as int].display_name@);
            let ghost before = out@;
            out.push(ClientRecord { address: record.address, display_name: name });
            assert forall|k: int| 0 <= k < i + 1 implies #[trigger] out@[k].address
                == self.records@[k].address && out@[k].display_name@
                == self.records@[k].display_name@ by {
                if k < i {
                    assert(out@[k] == before[k]);
                }
            }
            i = i + 1;
        }
        assert forall|a: PeerAddr| #[trigger] self@.contains_key(a) implies exists|k: int|
            0 <= k < out@.len() && out@[k].address == a by {
            assert(self.model@.contains_key(a));
            let k = choose|k: int| 0 <= k < self.records@.len() && self.records@[k].address == a;
            assert(out@[k].address == a);
        }
        out
    }
}

} // verus!
