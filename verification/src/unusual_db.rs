use vstd::prelude::*;
use crate::chars::chars_of;

verus! {

/// The key whose value clients may read but never change.
pub open spec fn version_key() -> Seq<char> {
    "version"@
}

/// The value the store starts with under the version key.
pub open spec fn version_value() -> Seq<char> {
    "My Version"@
}

/// The map that the entries `s` stand for; a later entry for a key wins.
pub open spec fn entries_map(s: Seq<(Seq<char>, Seq<char>)>) -> Map<Seq<char>, Seq<char>>
    decreases s.len(),
{
    if s.len() == 0 {
        Map::empty()
    } else {
        entries_map(s.drop_last()).insert(s.last().0, s.last().1)
    }
}

/// No two entries of `s` share a key.
pub open spec fn distinct_keys(s: Seq<(Seq<char>, Seq<char>)>) -> bool {
    forall|i: int, j: int| 0 <= i < j < s.len() ==> (#[trigger] s[i]).0 != (#[trigger] s[j]).0
}

/// Where the first `=` of `msg` is, or the length of `msg` when it has none.
pub open spec fn eq_position(msg: Seq<char>) -> int
    decreases msg.len(),
{
    if msg.len() == 0 {
        0
    } else if msg[0] == '=' {
        0
    } else {
        1 + eq_position(msg.drop_first())
    }
}

/// How the store `m` reacts to the request `msg`: its next contents and the
/// reply, if any. A request with an `=` sets the key before the first `=` to
/// the rest, unless that key is the version key; a request without one asks
/// for the value of the whole request as a key, and is answered with the key,
/// an `=` and the value, or nothing after the `=` when the key is unknown.
pub open spec fn spec_handle(m: Map<Seq<char>, Seq<char>>, msg: Seq<char>) -> (Map<Seq<char>, Seq<char>>, Option<Seq<char>>) {
    let p = eq_position(msg);
    if p < msg.len() {
        let key = msg.take(p);
        if key == version_key() {
            (m, None)
        } else {
            (m.insert(key, msg.skip(p + 1)), None)
        }
    } else {
        let value = if m.contains_key(msg) {
            m[msg]
        } else {
            Seq::empty()
        };
        (m, Some(msg + "="@ + value))
    }
}

/// Entries whose keys are distinct map each key to the value of its entry.
proof fn lemma_entries_map_at(s: Seq<(Seq<char>, Seq<char>)>, i: int)
    requires
        distinct_keys(s),
        0 <= i < s.len(),
    ensures
        entries_map(s).contains_key(s[i].0),
        entries_map(s)[s[i].0] == s[i].1,
    decreases s.len(),
{
    if i < s.len() - 1 {
        let init = s.drop_last();
        assert(distinct_keys(init));
        assert(init[i] == s[i]);
        lemma_entries_map_at(init, i);
        assert(s[i].0 != s[s.len() - 1].0);
    }
}

/// A key that no entry of `s` has is not in the map `s` stands for.
proof fn lemma_entries_map_absent(s: Seq<(Seq<char>, Seq<char>)>, key: Seq<char>)
    requires
        forall|i: int| 0 <= i < s.len() ==> (#[trigger] s[i]).0 != key,
    ensures
        !entries_map(s).contains_key(key),
    decreases s.len(),
{
    if s.len() > 0 {
        let init = s.drop_last();
        assert forall|i: int| 0 <= i < init.len() implies (#[trigger] init[i]).0 != key by {
            assert(init[i] == s[i]);
        }
        lemma_entries_map_absent(init, key);
        assert(s[s.len() - 1].0 != key);
    }
}

/// Replacing the value of entry `i` of `s`, whose keys are distinct, sets its
/// key to the new value in the map `s` stands for.
proof fn lemma_entries_map_update(s: Seq<(Seq<char>, Seq<char>)>, i: int, value: Seq<char>)
    requires
        distinct_keys(s),
        0 <= i < s.len(),
    ensures
        entries_map(s.update(i, (s[i].0, value))) == entries_map(s).insert(s[i].0, value),
    decreases s.len(),
{
    let t = s.update(i, (s[i].0, value));
    let init = s.drop_last();
    if i == s.len() - 1 {
        assert(t.drop_last() =~= init);
        assert forall|j: int| 0 <= j < init.len() implies (#[trigger] init[j]).0 != s[i].0 by {
            assert(s[j].0 != s[i].0);
        }
        lemma_entries_map_absent(init, s[i].0);
        assert(entries_map(t) =~= entries_map(s).insert(s[i].0, value));
    } else {
        assert(distinct_keys(init));
        lemma_entries_map_update(init, i, value);
        assert(t.drop_last() =~= init.update(i, (s[i].0, value)));
        assert(s[i].0 != s[s.len() - 1].0);
        assert(entries_map(t) =~= entries_map(s).insert(s[i].0, value));
    }
}

/// The store of an unusual database: text keys with text values.
///
/// The entries are kept in a `Vec` with distinct keys as the type's
/// invariant, rather than in a hash map: vstd's `HashMap` specifications hold
/// only for keys whose hashing and equality it models, which text keys are
/// not, so a map keyed by `String` would leave every lookup unproved.
pub struct UnusualDb {
    entries: Vec<(String, String)>,
}

impl View for UnusualDb {
    type V = Map<Seq<char>, Seq<char>>;

    closed spec fn view(&self) -> Map<Seq<char>, Seq<char>> {
        entries_map(self.entries_view())
    }
}

impl UnusualDb {
    /// The entries as characters, in order.
    closed spec fn entries_view(&self) -> Seq<(Seq<char>, Seq<char>)> {
        self.entries@.map_values(|e: (String, String)| (e.0@, e.1@))
    }

    #[verifier::type_invariant]
    closed spec fn well_formed(&self) -> bool {
        distinct_keys(self.entries_view())
    }

    /// A store that holds only the version.
    pub fn new() -> (db: UnusualDb)
        ensures
            db@ == Map::<Seq<char>, Seq<char>>::empty().insert(version_key(), version_value()),
    {
        let mut entries: Vec<(String, String)> = Vec::new();
        entries.push((String::from_str("version"), String::from_str("My Version")));
        let db = UnusualDb { entries };
        proof {
            let v = db.entries_view();
            assert(v.len() == 1);
            assert(v.last() == (version_key(), version_value()));
            assert(v.drop_last() =~= Seq::<(Seq<char>, Seq<char>)>::empty());
            assert(entries_map(v.drop_last()) == Map::<Seq<char>, Seq<char>>::empty());
            assert(db@ =~= Map::<Seq<char>, Seq<char>>::empty().insert(version_key(), version_value()));
        }
        db
    }

    /// Where the entry for `key` is, if there is one.
    fn find(&self, key: &String) -> (res: Option<usize>)
        ensures
            match res {
                Some(i) => i < self.entries_view().len() && self.entries_view()[i as int].0 == key@,
                None => forall|i: int|
                    0 <= i < self.entries_view().len() ==> (#[trigger] self.entries_view()[i]).0
                        != key@,
            },
    {
        let mut i: usize = 0;
        while i < self.entries.len()
            invariant
                i <= self.entries@.len(),
                self.entries_view().len() == self.entries@.len(),
                forall|j: int| 0 <= j < i ==> (#[trigger] self.entries_view()[j]).0 != key@,
            decreases self.entries@.len() - i,
        {
            assert(self.entries_view()[i as int].0 == self.entries@[i as int].0@);
            if self.entries[i].0 == *key {
                return Some(i);
            }
            i = i + 1;
        }
        None
    }

    /// The value stored under `key`, if any.
    pub fn get(&self, key: &String) -> (res: Option<String>)
        ensures
            match res {
                Some(v) => self@.contains_key(key@) && v@ == self@[key@],
                None => !self@.contains_key(key@),
            },
    {
        proof {
            use_type_invariant(self);
        }
        match self.find(key) {
            Some(i) => {
                proof {
                    lemma_entries_map_at(self.entries_view(), i as int);
                }
                Some(self.entries[i].1.clone())
            },
            None => {
                proof {
                    lemma_entries_map_absent(self.entries_view(), key@);
                }
                None
            },
        }
    }

    /// Stores `value` under `key`, replacing what was there.
    pub fn insert(&mut self, key: String, value: String)
        ensures
            final(self)@ == old(self)@.insert(key@, value@),
    {
        proof {
            use_type_invariant(&*self);
        }
        let ghost before = self.entries_view();
        match self.find(&key) {
            Some(i) => {
                let mut entries: Vec<(String, String)> = Vec::new();
                std::mem::swap(&mut entries, &mut self.entries);
                entries.set(i, (key, value));
                proof {
                    let after = entries@.map_values(|e: (String, String)| (e.0@, e.1@));
                    assert(after =~= before.update(i as int, (before[i as int].0, value@)));
                    lemma_entries_map_update(before, i as int, value@);
                }
                self.entries = entries;
            },
            None => {
                let mut entries: Vec<(String, String)> = Vec::new();
                std::mem::swap(&mut entries, &mut self.entries);
                let ghost k = key@;
                let ghost v = value@;
                entries.push((key, value));
                proof {
                    let after = entries@.map_values(|e: (String, String)| (e.0@, e.1@));
                    assert(after =~= before.push((k, v)));
                    assert(after.drop_last() =~= before);
                    assert forall|a: int, b: int| 0 <= a < b < after.len() implies (
                    #[trigger] after[a]).0 != (#[trigger] after[b]).0 by {
                        if b == after.len() - 1 {
                            assert(after[a] == before[a]);
                        } else {
                            assert(after[a] == before[a]);
                            assert(after[b] == before[b]);
                        }
                    }
                }
                self.entries = entries;
            },
        }
    }

    /// Serves one request `msg` (see `spec_handle`), and gives the reply to
    /// send back, if any.
    pub fn handle(&mut self, msg: &str) -> (res: Option<String>)
        ensures
            final(self)@ == spec_handle(old(self)@, msg@).0,
            match res {
                Some(reply) => spec_handle(old(self)@, msg@).1 == Some(reply@),
                None => spec_handle(old(self)@, msg@).1 is None,
            },
    {
        let chars = chars_of(msg);
        let n = chars.len();
        let mut p: usize = 0;
        while p < n && chars[p] != '='
            invariant
                p <= n,
                n == chars@.len(),
                chars@ == msg@,
                forall|j: int| 0 <= j < p ==> chars@[j] != '=',
            decreases n - p,
        {
            p = p + 1;
        }
        proof {
            lemma_eq_position(msg@, p as int);
        }
        if p < n {
            let key = String::from_str(msg.substring_char(0, p));
            let value = String::from_str(msg.substring_char(p + 1, n));
            let version = String::from_str("version");
            proof {
                assert(key@ =~= msg@.take(p as int));
                assert(value@ =~= msg@.skip(p + 1));
            }
            if key == version {
                None
            } else {
                self.insert(key, value);
                None
            }
        } else {
            let key = String::from_str(msg);
            let mut reply = String::from_str(msg);
            reply.append("=");
            match self.get(&key) {
                Some(v) => reply.append(v.as_str()),
                None => {
                    proof {
                        assert(reply@ + Seq::<char>::empty() =~= reply@);
                    }
                },
            }
            Some(reply)
        }
    }
}

/// The first `=` of `msg` is at `p` when none comes before it and `p` is
/// either an `=` or the end.
proof fn lemma_eq_position(msg: Seq<char>, p: int)
    requires
        0 <= p <= msg.len(),
        forall|j: int| 0 <= j < p ==> msg[j] != '=',
        p < msg.len() ==> msg[p] == '=',
    ensures
        eq_position(msg) == p,
    decreases p,
{
    if p > 0 {
        let rest = msg.drop_first();
        assert forall|j: int| 0 <= j < p - 1 implies rest[j] != '=' by {
            assert(rest[j] == msg[j + 1]);
        }
        lemma_eq_position(rest, p - 1);
    }
}

/// No request changes the value stored under the version key.
pub proof fn law_version_is_fixed(m: Map<Seq<char>, Seq<char>>, msg: Seq<char>)
    ensures
        spec_handle(m, msg).0.contains_key(version_key()) == m.contains_key(version_key()),
        m.contains_key(version_key()) ==> spec_handle(m, msg).0[version_key()] == m[version_key()],
{
}

/// A request without `=` leaves the store as it was.
pub proof fn law_query_changes_nothing(m: Map<Seq<char>, Seq<char>>, msg: Seq<char>)
    requires
        forall|j: int| 0 <= j < msg.len() ==> msg[j] != '=',
    ensures
        spec_handle(m, msg).0 == m,
{
    lemma_eq_position(msg, msg.len() as int);
}

/// After `key=value` is stored, asking for `key` answers `key=value`,
/// unless `key` is the version key.
pub proof fn law_query_reads_back_insert(
    m: Map<Seq<char>, Seq<char>>,
    key: Seq<char>,
    value: Seq<char>,
)
    requires
        forall|j: int| 0 <= j < key.len() ==> key[j] != '=',
        key != version_key(),
    ensures
        spec_handle(spec_handle(m, key + "="@ + value).0, key).1 == Some(key + "="@ + value),
{
    reveal_strlit("=");
    let msg = key + "="@ + value;
    assert forall|j: int| 0 <= j < key.len() implies msg[j] != '=' by {
        assert(msg[j] == key[j]);
    }
    assert(msg[key.len() as int] == '=');
    lemma_eq_position(msg, key.len() as int);
    assert(msg.take(key.len() as int) =~= key);
    assert(msg.skip(key.len() as int + 1) =~= value);
    lemma_eq_position(key, key.len() as int);
}

/// Storing `key=value` leaves every other key as it was: present or absent,
/// and with its value.
pub proof fn law_insert_leaves_other_keys(
    m: Map<Seq<char>, Seq<char>>,
    key: Seq<char>,
    value: Seq<char>,
    other: Seq<char>,
)
    requires
        forall|j: int| 0 <= j < key.len() ==> key[j] != '=',
        other != key,
    ensures
        spec_handle(m, key + "="@ + value).0.contains_key(other) == m.contains_key(other),
        m.contains_key(other) ==> spec_handle(m, key + "="@ + value).0[other] == m[other],
{
    reveal_strlit("=");
    let msg = key + "="@ + value;
    assert forall|j: int| 0 <= j < key.len() implies msg[j] != '=' by {
        assert(msg[j] == key[j]);
    }
    assert(msg[key.len() as int] == '=');
    lemma_eq_position(msg, key.len() as int);
    assert(msg.take(key.len() as int) =~= key);
}

/// Asking for a key that was never stored answers the key and an `=`.
pub proof fn law_unknown_key_reads_empty(m: Map<Seq<char>, Seq<char>>, key: Seq<char>)
    requires
        forall|j: int| 0 <= j < key.len() ==> key[j] != '=',
        !m.contains_key(key),
    ensures
        spec_handle(m, key).1 == Some(key + "="@),
{
    lemma_eq_position(key, key.len() as int);
    assert(key + "="@ + Seq::<char>::empty() =~= key + "="@);
}

} // verus!
