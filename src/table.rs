//! A table keyed by hostname, built once and read by every connection.
//!
//! Entries are kept in a vector with pairwise distinct hostnames; the table
//! stands for the map from each hostname to its value. When a hostname is
//! inserted again its value is replaced, so a list fed in order keeps, for
//! each hostname, the value of its last occurrence.

use vstd::prelude::*;

verus! {

/// The map that a list of (hostname, value) pairs gives, later pairs
/// overriding earlier ones with the same hostname.
pub open spec fn host_map<T>(s: Seq<(String, T)>) -> Map<Seq<char>, T>
    decreases s.len(),
{
    if s.len() == 0 {
        Map::empty()
    } else {
        host_map(s.drop_last()).insert(s.last().0@, s.last().1)
    }
}

/// No hostname occurs twice.
pub open spec fn keys_unique<T>(s: Seq<(String, T)>) -> bool {
    forall|i: int, j: int| 0 <= i < j < s.len() ==> s[i].0@ != s[j].0@
}

/// A hostname has a value exactly when some pair names it.
pub proof fn lemma_host_map_dom<T>(s: Seq<(String, T)>, h: Seq<char>)
    ensures
        host_map(s).contains_key(h) <==> exists|i: int| 0 <= i < s.len() && s[i].0@ == h,
    decreases s.len(),
{
    if s.len() > 0 {
        let p = s.drop_last();
        lemma_host_map_dom(p, h);
        if host_map(s).contains_key(h) && h != s.last().0@ {
            let i = choose|i: int| 0 <= i < p.len() && p[i].0@ == h;
            assert(s[i] == p[i]);
        }
        if exists|i: int| 0 <= i < s.len() && s[i].0@ == h {
            let i = choose|i: int| 0 <= i < s.len() && s[i].0@ == h;
            if i < p.len() {
                assert(p[i] == s[i]);
            }
        }
    }
}

/// A pair that no later pair overrides gives its hostname's value.
pub proof fn lemma_host_map_last_wins<T>(s: Seq<(String, T)>, i: int)
    requires
        0 <= i < s.len(),
        forall|j: int| i < j < s.len() ==> s[j].0@ != s[i].0@,
    ensures
        host_map(s).contains_key(s[i].0@),
        host_map(s)[s[i].0@] == s[i].1,
    decreases s.len(),
{
    if i < s.len() - 1 {
        let p = s.drop_last();
        assert(p[i] == s[i]);
        lemma_host_map_last_wins(p, i);
        assert(s.last() == s[s.len() - 1]);
    }
}

/// Replacing the value of a hostname that already has a pair.
proof fn lemma_host_map_update<T>(s: Seq<(String, T)>, j: int, k: String, v: T)
    requires
        keys_unique(s),
        0 <= j < s.len(),
        s[j].0@ == k@,
    ensures
        host_map(s.update(j, (k, v))) =~= host_map(s).insert(k@, v),
    decreases s.len(),
{
    let u = s.update(j, (k, v));
    let p = s.drop_last();
    if j == s.len() - 1 {
        assert(u.drop_last() =~= p);
    } else {
        assert(u.drop_last() =~= p.update(j, (k, v)));
        lemma_host_map_update(p, j, k, v);
        assert(s.last().0@ != k@);
    }
}

/// Hostnames mapped to values; no hostname is held twice.
pub struct HostTable<T> {
    entries: Vec<(String, T)>,
}

impl<T> View for HostTable<T> {
    type V = Map<Seq<char>, T>;

    closed spec fn view(&self) -> Map<Seq<char>, T> {
        host_map(self.entries@)
    }
}

impl<T> HostTable<T> {
    #[verifier::type_invariant]
    spec fn inv(self) -> bool {
        keys_unique(self.entries@)
    }

    /// The table with no hostname.
    pub fn new() -> (r: Self)
        ensures
            r@ == Map::<Seq<char>, T>::empty(),
    {
        HostTable { entries: Vec::new() }
    }

    /// Where `host` stands among the entries, if it does.
    fn position(&self, host: &String) -> (r: Option<usize>)
        ensures
            match r {
                Some(j) => j < self.entries@.len() && self.entries@[j as int].0@ == host@,
                None => forall|j: int|
                    0 <= j < self.entries@.len() ==> self.entries@[j].0@ != host@,
            },
    {
        let mut j: usize = 0;
        while j < self.entries.len()
            invariant
                j <= self.entries@.len(),
                forall|i: int| 0 <= i < j ==> self.entries@[i].0@ != host@,
            decreases self.entries@.len() - j,
        {
            if self.entries[j].0 == *host {
                return Some(j);
            }
            j = j + 1;
        }
        None
    }

    /// Maps `host` to `value`, replacing what it was mapped to.
    pub fn insert(&mut self, host: String, value: T)
        ensures
            final(self)@ == old(self)@.insert(host@, value),
    {
        proof {
            use_type_invariant(&*self);
        }
        let pos = self.position(&host);
        let mut entries: Vec<(String, T)> = Vec::new();
        std::mem::swap(&mut self.entries, &mut entries);
        let ghost prev = entries@;
        match pos {
            Some(j) => {
                proof {
                    lemma_host_map_update(prev, j as int, host, value);
                }
                entries.set(j, (host, value));
                assert(keys_unique(entries@));
            },
            None => {
                entries.push((host, value));
                assert(entries@.drop_last() =~= prev);
                assert(keys_unique(entries@));
            },
        }
        std::mem::swap(&mut self.entries, &mut entries);
    }

    /// The value of `host`, if the table has one.
    pub fn get(&self, host: &str) -> (r: Option<&T>)
        ensures
            match r {
                Some(v) => self@.contains_key(host@) && *v == self@[host@],
                None => !self@.contains_key(host@),
            },
    {
        proof {
            use_type_invariant(self);
        }
        let key = host.to_owned();
        match self.position(&key) {
            Some(j) => {
                proof {
                    lemma_host_map_last_wins(self.entries@, j as int);
                }
                Some(&self.entries[j].1)
            },
            None => {
                proof {
                    lemma_host_map_dom(self.entries@, host@);
                }
                None
            },
        }
    }

    /// Builds the table from a list of pairs; where a hostname occurs more
    /// than once, its last pair is the one kept.
    pub fn from_pairs(pairs: Vec<(String, T)>) -> (r: Self)
        ensures
            r@ == host_map(pairs@),
    {
        let ghost all = pairs@;
        let mut rest = pairs;
        let mut table = HostTable::new();
        while rest.len() > 0
            invariant
                host_map(all) == host_map(rest@).union_prefer_right(table@),
            decreases rest@.len(),
        {
            let ghost before = rest@;
            let (host, value) = rest.pop().unwrap();
            assert(rest@ =~= before.drop_last());
            proof {
                assert(before.last() == (host, value));
            }
            if table.get(host.as_str()).is_none() {
                let ghost t = table@;
                table.insert(host, value);
                assert(host_map(before).union_prefer_right(t) =~= host_map(rest@).union_prefer_right(
                    table@,
                ));
            } else {
                assert(host_map(before).union_prefer_right(table@) =~= host_map(
                    rest@,
                ).union_prefer_right(table@));
            }
        }
        assert(host_map(rest@) =~= Map::<Seq<char>, T>::empty());
        assert(host_map(all) =~= table@);
        table
    }
}

} // verus!
