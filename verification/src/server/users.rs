use vstd::prelude::*;

verus! {

/// The users a server accepts, each with the secret it shares with them.
pub struct UserTable {
    entries: Vec<(String, String)>,
}

/// The name of every entry, in order.
pub open spec fn names_of(entries: Seq<(Seq<char>, Seq<char>)>) -> Seq<Seq<char>> {
    entries.map_values(|e: (Seq<char>, Seq<char>)| e.0)
}

/// A position at which `name` is listed (meaningful when it is listed).
pub open spec fn index_of_name(entries: Seq<(Seq<char>, Seq<char>)>, name: Seq<char>) -> int {
    choose|i: int| 0 <= i < entries.len() && #[trigger] entries[i].0 == name
}

/// The map that a list of entries with distinct names describes.
pub open spec fn map_of(entries: Seq<(Seq<char>, Seq<char>)>) -> Map<Seq<char>, Seq<char>> {
    Map::new(
        |name: Seq<char>| exists|i: int| 0 <= i < entries.len() && #[trigger] entries[i].0 == name,
        |name: Seq<char>| entries[index_of_name(entries, name)].1,
    )
}

impl UserTable {
    /// The entries as names and secrets.
    pub closed spec fn entries(&self) -> Seq<(Seq<char>, Seq<char>)> {
        self.entries@.map_values(|e: (String, String)| (e.0@, e.1@))
    }

    /// No name occurs twice.
    #[verifier::type_invariant]
    closed spec fn distinct_names(&self) -> bool {
        names_of(self.entries()).no_duplicates()
    }
}

impl View for UserTable {
    type V = Map<Seq<char>, Seq<char>>;

    closed spec fn view(&self) -> Map<Seq<char>, Seq<char>> {
        map_of(self.entries())
    }
}

/// In a list with distinct names, the map gives each listed name its own secret.
proof fn lemma_map_of_entry(entries: Seq<(Seq<char>, Seq<char>)>, i: int)
    requires
        names_of(entries).no_duplicates(),
        0 <= i < entries.len(),
    ensures
        map_of(entries).contains_key(entries[i].0),
        map_of(entries)[entries[i].0] == entries[i].1,
{
    let name = entries[i].0;
    assert(entries[i].0 == name);
    let j = index_of_name(entries, name);
    if j != i {
        assert(names_of(entries)[i] == name);
        assert(names_of(entries)[j] == name);
    }
    assert(map_of(entries).dom().contains(name));
    assert(map_of(entries)[name] == entries[j].1);
}

impl UserTable {
    /// A table with no users.
    pub fn new() -> (table: Self)
        ensures
            table@ == Map::<Seq<char>, Seq<char>>::empty(),
    {
        let table = UserTable { entries: Vec::new() };
        assert(table@ =~= Map::<Seq<char>, Seq<char>>::empty());
        table
    }

    /// Position of the entry for `name`, if there is one.
    fn position(&self, name: &String) -> (pos: Option<usize>)
        ensures
            match pos {
                Some(i) => i < self.entries().len() && self.entries()[i as int].0 == name@,
                None => !self@.contains_key(name@),
            },
    {
        let n = self.entries.len();
        for i in 0..n
            invariant
                n == self.entries@.len(),
                forall|j: int| 0 <= j < i ==> self.entries()[j].0 != name@,
        {
            if self.entries[i].0 == *name {
                return Some(i);
            }
        }
        proof {
            if self@.contains_key(name@) {
                let j = choose|j: int|
                    0 <= j < self.entries().len() && #[trigger] self.entries()[j].0 == name@;
                assert(self.entries()[j].0 != name@);
            }
        }
        None
    }

    /// Gives `name` the secret `secret`, replacing the one it had.
    pub fn insert(&mut self, name: String, secret: String)
        ensures
            final(self)@ == old(self)@.insert(name@, secret@),
    {
        proof {
            use_type_invariant(&*self);
        }
        let ghost old_entries = self.entries();
        let ghost name_v = name@;
        let ghost secret_v = secret@;
        let pos = self.position(&name);
        let mut entries: Vec<(String, String)> = Vec::new();
        std::mem::swap(&mut entries, &mut self.entries);
        assert(entries@.map_values(|e: (String, String)| (e.0@, e.1@)) =~= old_entries);
        match pos {
            Some(i) => {
                let ghost target = old_entries.update(i as int, (name_v, secret_v));
                entries.set(i, (name, secret));
                assert(entries@.map_values(|e: (String, String)| (e.0@, e.1@)) =~= target);
                assert(names_of(target) =~= names_of(old_entries));
                proof {
                    assert forall|k: Seq<char>| #[trigger] map_of(target).contains_key(k)
                        <==> old(self)@.insert(name_v, secret_v).contains_key(k) by {
                        if map_of(old_entries).contains_key(k) {
                            let j = choose|j: int| 0 <= j < old_entries.len() && #[trigger] old_entries[j].0 == k;
                            assert(target[j].0 == k);
                        }
                        if map_of(target).contains_key(k) {
                            let j = choose|j: int| 0 <= j < target.len() && #[trigger] target[j].0 == k;
                            assert(old_entries[j].0 == k);
                        }
                    }
                    assert forall|k: Seq<char>| #[trigger] map_of(target).contains_key(k) implies map_of(
                        target,
                    )[k] == old(self)@.insert(name_v, secret_v)[k] by {
                        let j = choose|j: int| 0 <= j < target.len() && #[trigger] target[j].0 == k;
                        lemma_map_of_entry(target, j);
                        if j != i as int {
                            lemma_map_of_entry(old_entries, j);
                            assert(names_of(old_entries)[j] == old_entries[j].0);
                            assert(names_of(old_entries)[i as int] == old_entries[i as int].0);
                            assert(k != name_v);
                        }
                    }
                    assert(map_of(target) =~= old(self)@.insert(name_v, secret_v));
                }
                self.entries = entries;
            },
            None => {
                let ghost target = old_entries.push((name_v, secret_v));
                entries.push((name, secret));
                assert(entries@.map_values(|e: (String, String)| (e.0@, e.1@)) =~= target);
                proof {
                    assert(names_of(target) =~= names_of(old_entries).push(name_v));
                    assert forall|a: int, b: int|
                        0 <= a < names_of(target).len() && 0 <= b < names_of(target).len() && a
                            != b implies names_of(target)[a] != names_of(target)[b] by {
                        if a == old_entries.len() && b < old_entries.len() {
                            assert(old_entries[b].0 == names_of(target)[b]);
                            assert(map_of(old_entries).contains_key(old_entries[b].0));
                        } else if b == old_entries.len() && a < old_entries.len() {
                            assert(old_entries[a].0 == names_of(target)[a]);
                            assert(map_of(old_entries).contains_key(old_entries[a].0));
                        } else if a < old_entries.len() && b < old_entries.len() {
                            assert(names_of(old_entries)[a] == names_of(target)[a]);
                            assert(names_of(old_entries)[b] == names_of(target)[b]);
                        }
                    }
                    assert forall|k: Seq<char>| #[trigger] map_of(target).contains_key(k)
                        <==> old(self)@.insert(name_v, secret_v).contains_key(k) by {
                        if map_of(old_entries).contains_key(k) {
                            let j = choose|j: int| 0 <= j < old_entries.len() && #[trigger] old_entries[j].0 == k;
                            assert(target[j].0 == k);
                        }
                        if k == name_v {
                            assert(target[old_entries.len() as int].0 == k);
                        }
                        if map_of(target).contains_key(k) && k != name_v {
                            let j = choose|j: int| 0 <= j < target.len() && #[trigger] target[j].0 == k;
                            assert(old_entries[j].0 == k);
                        }
                    }
                    assert forall|k: Seq<char>| #[trigger] map_of(target).contains_key(k) implies map_of(
                        target,
                    )[k] == old(self)@.insert(name_v, secret_v)[k] by {
                        let j = choose|j: int| 0 <= j < target.len() && #[trigger] target[j].0 == k;
                        lemma_map_of_entry(target, j);
                        if j < old_entries.len() {
                            lemma_map_of_entry(old_entries, j);
                        }
                    }
                    assert(map_of(target) =~= old(self)@.insert(name_v, secret_v));
                }
                self.entries = entries;
            },
        }
    }

    /// The secret of `name`, if `name` is a user.
    pub fn get(&self, name: &String) -> (secret: Option<&String>)
        ensures
            secret is Some <==> self@.contains_key(name@),
            secret matches Some(s) ==> s@ == self@[name@],
    {
        proof {
            use_type_invariant(self);
        }
        match self.position(name) {
            Some(i) => {
                proof {
                    lemma_map_of_entry(self.entries(), i as int);
                }
                Some(&self.entries[i].1)
            },
            None => None,
        }
    }

    /// Every user with their secret.
    pub fn pairs(&self) -> (pairs: Vec<(String, String)>)
        ensures
            forall|i: int|
                0 <= i < pairs@.len() ==> {
                    &&& self@.contains_key(#[trigger] pairs@[i].0@)
                    &&& self@[pairs@[i].0@] == pairs@[i].1@
                },
            forall|name: Seq<char>|
                #[trigger] self@.contains_key(name) ==> exists|i: int|
                    0 <= i < pairs@.len() && #[trigger] pairs@[i].0@ == name,
            forall|i: int, j: int|
                0 <= i < pairs@.len() && 0 <= j < pairs@.len() && i != j ==> #[trigger] pairs@[i].0@
                    != #[trigger] pairs@[j].0@,
    {
        proof {
            use_type_invariant(self);
        }
        let mut pairs: Vec<(String, String)> = Vec::new();
        let n = self.entries.len();
        for i in 0..n
            invariant
                n == self.entries@.len(),
                names_of(self.entries()).no_duplicates(),
                pairs@.len() == i,
                forall|j: int|
                    #![trigger pairs@[j]]
                    0 <= j < i ==> pairs@[j].0@ == self.entries()[j].0 && pairs@[j].1@
                        == self.entries()[j].1,
        {
            let name = self.entries[i].0.clone();
            let secret = self.entries[i].1.clone();
            assert(self.entries()[i as int] == (self.entries@[i as int].0@, self.entries@[i as int].1@));
            pairs.push((name, secret));
            assert(pairs@[i as int].0@ == self.entries()[i as int].0);
        }
        proof {
            assert forall|i: int| 0 <= i < pairs@.len() implies {
                &&& self@.contains_key(#[trigger] pairs@[i].0@)
                &&& self@[pairs@[i].0@] == pairs@[i].1@
            } by {
                lemma_map_of_entry(self.entries(), i);
            }
            assert forall|i: int, j: int|
                0 <= i < pairs@.len() && 0 <= j < pairs@.len() && i != j implies #[trigger] pairs@[i].0@
                    != #[trigger] pairs@[j].0@ by {
                assert(names_of(self.entries())[i] == self.entries()[i].0);
                assert(names_of(self.entries())[j] == self.entries()[j].0);
            }
            assert forall|name: Seq<char>| #[trigger] self@.contains_key(name) implies exists|i: int|
                0 <= i < pairs@.len() && #[trigger] pairs@[i].0@ == name by {
                let j = index_of_name(self.entries(), name);
                assert(pairs@[j].0@ == name);
            }
        }
        pairs
    }
}

} // verus!
