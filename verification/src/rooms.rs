//! Players, rooms, and the table of rooms by name.
use vstd::prelude::*;

verus! {

/// A peer's socket address as plain values: the address family, the address
/// (an IPv4 address in the low 32 bits), the port, and for IPv6 the flow
/// information and scope id (both 0 for IPv4). Two addresses are equal when all
/// of these are.
#[derive(Clone, Copy, Debug, PartialEq, Eq, Structural)]
pub struct PeerAddr {
    pub v6: bool,
    pub ip: u128,
    pub port: u16,
    pub flowinfo: u32,
    pub scope_id: u32,
}

/// A player in a room. `sender` is whatever carries messages to the player's
/// connection; the logic here never looks inside it.
#[derive(Debug)]
pub struct Player<S> {
    pub addr: PeerAddr,
    pub sender: S,
    pub username: String,
    /// 0, 1 or 2: which character the player chose.
    pub skin: u8,
    pub id: u8,
}

/// The mathematical value of a [`Player`].
pub struct PlayerView<S> {
    pub addr: PeerAddr,
    pub sender: S,
    pub username: Seq<char>,
    pub skin: u8,
    pub id: u8,
}

impl<S> View for Player<S> {
    type V = PlayerView<S>;

    open spec fn view(&self) -> PlayerView<S> {
        PlayerView {
            addr: self.addr,
            sender: self.sender,
            username: self.username@,
            skin: self.skin,
            id: self.id,
        }
    }
}

/// A room: the seed of its world, whether its lobby has started, the next id
/// it reserves, and its players in the order they joined (the first is the host).
#[derive(Debug)]
pub struct Room<S> {
    pub seed: usize,
    pub started: bool,
    pub nextid: u8,
    pub players: Vec<Player<S>>,
}

/// The mathematical value of a [`Room`].
pub struct RoomView<S> {
    pub seed: usize,
    pub started: bool,
    pub nextid: u8,
    pub players: Seq<PlayerView<S>>,
}

/// The values of the players `ps`, in order.
pub open spec fn players_view<S>(ps: Seq<Player<S>>) -> Seq<PlayerView<S>> {
    ps.map_values(|p: Player<S>| p@)
}

impl<S> View for Room<S> {
    type V = RoomView<S>;

    open spec fn view(&self) -> RoomView<S> {
        RoomView {
            seed: self.seed,
            started: self.started,
            nextid: self.nextid,
            players: players_view(self.players@),
        }
    }
}

/// The names of the entries `es`, in order.
pub open spec fn names_of<S>(es: Seq<(String, Room<S>)>) -> Seq<Seq<char>> {
    es.map_values(|e: (String, Room<S>)| e.0@)
}

/// The rooms of the server, by name. No two rooms have the same name.
pub struct RoomMap<S> {
    entries: Vec<(String, Room<S>)>,
}

impl<S> RoomMap<S> {
    /// The names of the rooms, in the order the table keeps them.
    pub closed spec fn names(&self) -> Seq<Seq<char>> {
        names_of(self.entries@)
    }

    #[verifier::type_invariant]
    spec fn names_are_distinct(&self) -> bool {
        self.names().no_duplicates()
    }

    spec fn index_of(&self, name: Seq<char>) -> int {
        choose|i: int| 0 <= i < self.entries@.len() && self.entries@[i].0@ == name
    }

    /// The rooms, as a map from name to room.
    pub closed spec fn view(&self) -> Map<Seq<char>, RoomView<S>> {
        Map::new(
            |k: Seq<char>| self.names().contains(k),
            |k: Seq<char>| self.entries@[self.index_of(k)].1@,
        )
    }

    proof fn lemma_entry(&self, i: int)
        requires
            self.names().no_duplicates(),
            0 <= i < self.entries@.len(),
        ensures
            self@.contains_key(self.entries@[i].0@),
            self@[self.entries@[i].0@] == self.entries@[i].1@,
    {
        let k = self.entries@[i].0@;
        assert(self.names()[i] == k);
        let j = self.index_of(k);
        assert(self.names()[j] == k);
    }

    proof fn lemma_absent(&self, name: Seq<char>)
        requires
            forall|i: int| 0 <= i < self.entries@.len() ==> self.entries@[i].0@ != name,
        ensures
            !self@.contains_key(name),
    {
        if self.names().contains(name) {
            let i = choose|i: int| 0 <= i < self.names().len() && self.names()[i] == name;
            assert(self.entries@[i].0@ == name);
        }
    }

    proof fn lemma_domain(&self)
        requires
            self.names().no_duplicates(),
        ensures
            self@.dom() =~= self.names().to_set(),
            self@.dom().finite(),
            self@.dom().len() == self.entries@.len(),
    {
        self.names().unique_seq_to_set();
        vstd::seq_lib::seq_to_set_is_finite(self.names());
    }

    /// An empty table.
    pub fn new() -> (r: Self)
        ensures
            r@ == Map::<Seq<char>, RoomView<S>>::empty(),
    {
        let r = RoomMap { entries: Vec::new() };
        assert(r@ =~= Map::<Seq<char>, RoomView<S>>::empty());
        r
    }

    /// The number of rooms.
    pub fn len(&self) -> (n: usize)
        ensures
            n == self@.dom().len(),
            self@.dom().finite(),
    {
        proof {
            use_type_invariant(self);
            self.lemma_domain();
        }
        self.entries.len()
    }

    fn find(&self, name: &str) -> (r: Option<usize>)
        ensures
            match r {
                Some(i) => i < self.entries@.len() && self.entries@[i as int].0@ == name@,
                None => forall|i: int|
                    0 <= i < self.entries@.len() ==> self.entries@[i].0@ != name@,
            },
    {
        let key = String::from_str(name);
        let mut i: usize = 0;
        while i < self.entries.len()
            invariant
                i <= self.entries@.len(),
                key@ == name@,
                forall|j: int| 0 <= j < i ==> self.entries@[j].0@ != name@,
            decreases self.entries@.len() - i,
        {
            if self.entries[i].0 == key {
                return Some(i);
            }
            i = i + 1;
        }
        None
    }

    /// Whether a room is named `name`.
    pub fn contains(&self, name: &str) -> (b: bool)
        ensures
            b == self@.contains_key(name@),
    {
        proof {
            use_type_invariant(self);
        }
        match self.find(name) {
            Some(i) => {
                proof {
                    self.lemma_entry(i as int);
                }
                true
            },
            None => {
                proof {
                    self.lemma_absent(name@);
                }
                false
            },
        }
    }

    /// The room named `name`, if there is one.
    pub fn get(&self, name: &str) -> (r: Option<&Room<S>>)
        ensures
            match r {
                Some(room) => self@.contains_key(name@) && room@ == self@[name@],
                None => !self@.contains_key(name@),
            },
    {
        proof {
            use_type_invariant(self);
        }
        match self.find(name) {
            Some(i) => {
                proof {
                    self.lemma_entry(i as int);
                }
                Some(&self.entries[i].1)
            },
            None => {
                proof {
                    self.lemma_absent(name@);
                }
                None
            },
        }
    }

    /// Takes the room named `name` out of the table, if there is one.
    pub fn remove(&mut self, name: &str) -> (r: Option<Room<S>>)
        ensures
            final(self)@ == old(self)@.remove(name@),
            match r {
                Some(room) => old(self)@.contains_key(name@) && room@ == old(self)@[name@],
                None => !old(self)@.contains_key(name@),
            },
    {
        proof {
            use_type_invariant(&*self);
        }
        match self.find(name) {
            Some(i) => {
                let ghost before = *self;
                proof {
                    before.lemma_entry(i as int);
                    assert(before.names().no_duplicates());
                    assert(before.names()[i as int] == name@);
                }
                let mut entries = Vec::new();
                std::mem::swap(&mut entries, &mut self.entries);
                let (_, room) = entries.remove(i);
                proof {
                    assert(names_of(entries@) =~= before.names().remove(i as int));
                    assert forall|a: int, b: int|
                        0 <= a < names_of(entries@).len() && 0 <= b < names_of(entries@).len()
                            && a != b
                        implies names_of(entries@)[a] != names_of(entries@)[b] by {
                        let a2 = if a < i { a } else { a + 1 };
                        let b2 = if b < i { b } else { b + 1 };
                        assert(names_of(entries@)[a] == before.names()[a2]);
                        assert(names_of(entries@)[b] == before.names()[b2]);
                    }
                }
                self.entries = entries;
                proof {
                    assert(self.names() =~= before.names().remove(i as int));
                    assert forall|k: Seq<char>|
                        #[trigger] self@.contains_key(k) == before@.remove(name@).contains_key(k)
                        by {
                        if self.names().contains(k) {
                            let j = choose|j: int|
                                0 <= j < self.names().len() && self.names()[j] == k;
                            let j2 = if j < i { j } else { j + 1 };
                            assert(before.names()[j2] == k);
                            assert(j2 != i);
                            assert(k != name@);
                        }
                        if before@.remove(name@).contains_key(k) {
                            let j = choose|j: int|
                                0 <= j < before.names().len() && before.names()[j] == k;
                            assert(j != i);
                            let j2 = if j < i { j } else { j - 1 };
                            assert(self.names()[j2] == k);
                        }
                    }
                    assert forall|k: Seq<char>| #[trigger]
                        self@.contains_key(k) implies self@[k] == before@[k] by {
                        let j = self.index_of(k);
                        assert(self.names()[j] == k);
                        let j2 = if j < i { j } else { j + 1 };
                        assert(self.entries@[j] == before.entries@[j2]);
                        before.lemma_entry(j2);
                    }
                    assert(self@ =~= before@.remove(name@));
                }
                Some(room)
            },
            None => {
                proof {
                    self.lemma_absent(name@);
                    assert(self@ =~= self@.remove(name@));
                }
                None
            },
        }
    }

    /// Puts `room` in the table under `name`, in place of any room of that name.
    pub fn insert(&mut self, name: String, room: Room<S>)
        ensures
            final(self)@ == old(self)@.insert(name@, room@),
    {
        proof {
            use_type_invariant(&*self);
        }
        let ghost before = *self;
        let ghost key = name@;
        let ghost value = room@;
        assert(before.names().no_duplicates());
        match self.find(name.as_str()) {
            Some(i) => {
                let mut entries = Vec::new();
                std::mem::swap(&mut entries, &mut self.entries);
                entries.set(i, (name, room));
                proof {
                    assert(names_of(entries@) =~= before.names());
                }
                self.entries = entries;
                proof {
                    assert(self.names() =~= before.names());
                    assert forall|k: Seq<char>| #[trigger]
                        self@.contains_key(k) == before@.insert(key, value).contains_key(k) by {
                        if k == key {
                            assert(self.names()[i as int] == k);
                        }
                    }
                    assert forall|k: Seq<char>| #[trigger]
                        self@.contains_key(k) implies self@[k] == before@.insert(key, value)[k] by {
                        let j = self.index_of(k);
                        assert(self.names()[j] == k);
                        if k == key {
                            assert(before.names()[i as int] == key);
                            assert(j == i);
                        } else {
                            assert(self.entries@[j] == before.entries@[j]);
                            before.lemma_entry(j);
                        }
                    }
                    assert(self@ =~= before@.insert(key, value));
                }
            },
            None => {
                let mut entries = Vec::new();
                std::mem::swap(&mut entries, &mut self.entries);
                entries.push((name, room));
                proof {
                    let n = before.entries@.len() as int;
                    assert(names_of(entries@) =~= before.names().push(key));
                    assert forall|a: int, b: int|
                        0 <= a < names_of(entries@).len() && 0 <= b < names_of(entries@).len()
                            && a != b
                        implies names_of(entries@)[a] != names_of(entries@)[b] by {
                        if a < n && b < n {
                            assert(names_of(entries@)[a] == before.names()[a]);
                            assert(names_of(entries@)[b] == before.names()[b]);
                        } else if a < n {
                            assert(names_of(entries@)[a] == before.entries@[a].0@);
                        } else if b < n {
                            assert(names_of(entries@)[b] == before.entries@[b].0@);
                        }
                    }
                }
                self.entries = entries;
                proof {
                    let n = before.entries@.len() as int;
                    assert(self.names() =~= before.names().push(key));
                    assert forall|k: Seq<char>| #[trigger]
                        self@.contains_key(k) == before@.insert(key, value).contains_key(k) by {
                        if k == key {
                            assert(self.names()[n] == k);
                        }
                        if self.names().contains(k) && k != key {
                            let j = choose|j: int|
                                0 <= j < self.names().len() && self.names()[j] == k;
                            assert(before.names()[j] == k);
                        }
                        if before.names().contains(k) {
                            let j = choose|j: int|
                                0 <= j < before.names().len() && before.names()[j] == k;
                            assert(self.names()[j] == k);
                        }
                    }
                    assert forall|k: Seq<char>| #[trigger]
                        self@.contains_key(k) implies self@[k] == before@.insert(key, value)[k] by {
                        let j = self.index_of(k);
                        assert(self.names()[j] == k);
                        if k == key {
                            assert(j == n);
                        } else {
                            assert(self.entries@[j] == before.entries@[j]);
                            before.lemma_entry(j);
                        }
                    }
                    assert(self@ =~= before@.insert(key, value));
                }
            },
        }
    }
}

} // verus!
