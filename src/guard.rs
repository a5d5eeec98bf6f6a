use vstd::prelude::*;

verus! {

/// Number of recorded failures at which an address is banned from a file.
pub const BAN_THRESHOLD: u64 = 3;

/// What a candidate key means for a file identifier.
#[derive(Debug, Clone, Copy, PartialEq, Eq, Structural)]
pub enum Outcome {
    /// The file has a registered key and the candidate equals it.
    Accept,
    /// The file has a registered key and the candidate differs from it.
    WrongKey,
    /// The file has no registered key yet.
    Unregistered,
}

/// A (file identifier, caller address) pair, as the counters and bans see it.
pub type Pair = (Seq<char>, Seq<char>);

/// The registry after registering `key` for `file`: the first registration wins.
pub open spec fn registered(keys: Map<Seq<char>, u8>, file: Seq<char>, key: u8) -> Map<Seq<char>, u8> {
    if keys.contains_key(file) {
        keys
    } else {
        keys.insert(file, key)
    }
}

/// The outcome of presenting `key` for `file` to the registry `keys`.
pub open spec fn outcome_of(keys: Map<Seq<char>, u8>, file: Seq<char>, key: u8) -> Outcome {
    if !keys.contains_key(file) {
        Outcome::Unregistered
    } else if keys[file] == key {
        Outcome::Accept
    } else {
        Outcome::WrongKey
    }
}

/// The recorded failures of `address` on `file`; zero when none were recorded.
pub open spec fn failures(attempts: Map<Pair, nat>, file: Seq<char>, address: Seq<char>) -> nat {
    if attempts.contains_key((file, address)) {
        attempts[(file, address)]
    } else {
        0
    }
}

/// One more failure; the counter stops at the largest value it can hold.
pub open spec fn bumped(count: nat) -> nat {
    if count < u64::MAX {
        count + 1
    } else {
        count
    }
}

/// The counters after one more failure of `address` on `file`.
pub open spec fn counted(attempts: Map<Pair, nat>, file: Seq<char>, address: Seq<char>) -> Map<Pair, nat> {
    attempts.insert((file, address), bumped(failures(attempts, file, address)))
}

/// The bans after one more failure of `address` on `file`: the address is
/// banned when its counter reaches the threshold.
pub open spec fn banned_after(
    attempts: Map<Pair, nat>,
    bans: Set<Pair>,
    file: Seq<char>,
    address: Seq<char>,
) -> Set<Pair> {
    if bumped(failures(attempts, file, address)) == BAN_THRESHOLD {
        bans.insert((file, address))
    } else {
        bans
    }
}

/// Whether `address` is banned from `file`: only a file with a key can ban.
pub open spec fn banned_in(keys: Map<Seq<char>, u8>, bans: Set<Pair>, file: Seq<char>, address: Seq<char>) -> bool {
    keys.contains_key(file) && bans.contains((file, address))
}

/// The registry entries `e` hold exactly the keys of `m`.
spec fn keys_match(e: Seq<(String, u8)>, m: Map<Seq<char>, u8>) -> bool {
    &&& forall|i: int| 0 <= i < e.len() ==> m.contains_key(#[trigger] e[i].0@) && m[e[i].0@] == e[i].1
    &&& forall|f: Seq<char>| #[trigger] m.contains_key(f) ==> exists|i: int| 0 <= i < e.len() && e[i].0@ == f
}

/// The ban entries `b` hold exactly the pairs of `s`.
spec fn bans_match(b: Seq<(String, String)>, s: Set<Pair>) -> bool {
    &&& forall|i: int| 0 <= i < b.len() ==> s.contains((#[trigger] b[i].0@, b[i].1@))
    &&& forall|p: Pair| #[trigger] s.contains(p) ==> exists|i: int| 0 <= i < b.len() && (b[i].0@, b[i].1@) == p
}

/// The counter entries `a` name each pair once and hold exactly the counters of `m`.
spec fn attempts_match(a: Seq<(String, String, u64)>, m: Map<Pair, nat>) -> bool {
    &&& forall|i: int, j: int| 0 <= i < j < a.len() ==> (a[i].0@, a[i].1@) != (a[j].0@, a[j].1@)
    &&& forall|i: int|
        0 <= i < a.len() ==> m.contains_key((#[trigger] a[i].0@, a[i].1@)) && m[(a[i].0@, a[i].1@)] == a[i].2 as nat
    &&& forall|p: Pair| #[trigger] m.contains_key(p) ==> exists|i: int| 0 <= i < a.len() && (a[i].0@, a[i].1@) == p
}

/// Once a file has a key, registering another key for it changes nothing: the
/// first registration fixes the key for good.
pub proof fn lemma_first_registration_wins(keys: Map<Seq<char>, u8>, file: Seq<char>, first: u8, later: u8)
    requires
        !keys.contains_key(file),
    ensures
        registered(keys, file, first).contains_key(file),
        registered(keys, file, first)[file] == first,
        registered(registered(keys, file, first), file, later) == registered(keys, file, first),
{
}

/// Starting from no recorded failure and no ban, three failures of one
/// address on a registered file ban the address, and one or two do not.
pub proof fn lemma_third_failure_bans(
    keys: Map<Seq<char>, u8>,
    attempts: Map<Pair, nat>,
    bans: Set<Pair>,
    file: Seq<char>,
    address: Seq<char>,
)
    requires
        keys.contains_key(file),
        failures(attempts, file, address) == 0,
        !bans.contains((file, address)),
    ensures
        ({
            let attempts1 = counted(attempts, file, address);
            let bans1 = banned_after(attempts, bans, file, address);
            let attempts2 = counted(attempts1, file, address);
            let bans2 = banned_after(attempts1, bans1, file, address);
            let bans3 = banned_after(attempts2, bans2, file, address);
            &&& !banned_in(keys, bans1, file, address)
            &&& !banned_in(keys, bans2, file, address)
            &&& banned_in(keys, bans3, file, address)
        }),
{
    let attempts1 = counted(attempts, file, address);
    let attempts2 = counted(attempts1, file, address);
    assert(failures(attempts1, file, address) == 1);
    assert(failures(attempts2, file, address) == 2);
}

/// The access-control state: the key of each registered file, the failed
/// attempts of each (file, address) pair, and the banned pairs.
pub struct FileData {
    encrypted_file: Vec<(String, u8)>,
    banned_ip: Vec<(String, String)>,
    ip_attempts: Vec<(String, String, u64)>,
    key_model: Ghost<Map<Seq<char>, u8>>,
    ban_model: Ghost<Set<Pair>>,
    attempt_model: Ghost<Map<Pair, nat>>,
}

impl FileData {
    /// The registered key of each file identifier.
    pub closed spec fn keys(&self) -> Map<Seq<char>, u8> {
        self.key_model@
    }

    /// The failed-attempt counter of each (file, address) pair that has one.
    pub closed spec fn attempts(&self) -> Map<Pair, nat> {
        self.attempt_model@
    }

    /// The banned (file, address) pairs.
    pub closed spec fn bans(&self) -> Set<Pair> {
        self.ban_model@
    }

    /// The stored entries agree with the three models above.
    pub closed spec fn wf(&self) -> bool {
        &&& keys_match(self.encrypted_file@, self.key_model@)
        &&& bans_match(self.banned_ip@, self.ban_model@)
        &&& attempts_match(self.ip_attempts@, self.attempt_model@)
    }

    /// An empty state: no keys, no counters, no bans.
    pub fn new() -> (r: FileData)
        ensures
            r.wf(),
            r.keys() == Map::<Seq<char>, u8>::empty(),
            r.attempts() == Map::<Pair, nat>::empty(),
            r.bans() == Set::<Pair>::empty(),
    {
        FileData {
            encrypted_file: Vec::new(),
            banned_ip: Vec::new(),
            ip_attempts: Vec::new(),
            key_model: Ghost(Map::empty()),
            ban_model: Ghost(Set::empty()),
            attempt_model: Ghost(Map::empty()),
        }
    }

    /// The registered key of `file`, if any.
    fn find_key(&self, file: &String) -> (r: Option<u8>)
        requires
            self.wf(),
        ensures
            r == (if self.keys().contains_key(file@) {
                Some(self.keys()[file@])
            } else {
                None::<u8>
            }),
    {
        let mut i: usize = 0;
        while i < self.encrypted_file.len()
            invariant
                self.wf(),
                i <= self.encrypted_file@.len(),
                forall|j: int| 0 <= j < i ==> self.encrypted_file@[j].0@ != file@,
            decreases self.encrypted_file@.len() - i,
        {
            if self.encrypted_file[i].0 == *file {
                return Some(self.encrypted_file[i].1);
            }
            i = i + 1;
        }
        None
    }

    /// Whether `address` is banned from `file`. A file without a registered
    /// key never bans anyone.
    pub fn is_banned(&self, file: &String, address: &String) -> (r: bool)
        requires
            self.wf(),
        ensures
            r == banned_in(self.keys(), self.bans(), file@, address@),
            !self.keys().contains_key(file@) ==> !r,
    {
        if self.find_key(file).is_none() {
            return false;
        }
        self.ban_listed(file, address)
    }

    /// Whether the pair (`file`, `address`) is in the ban list.
    fn ban_listed(&self, file: &String, address: &String) -> (r: bool)
        requires
            self.wf(),
        ensures
            r == self.bans().contains((file@, address@)),
    {
        let mut i: usize = 0;
        while i < self.banned_ip.len()
            invariant
                self.wf(),
                i <= self.banned_ip@.len(),
                forall|j: int|
                    0 <= j < i ==> (self.banned_ip@[j].0@, self.banned_ip@[j].1@) != (file@, address@),
            decreases self.banned_ip@.len() - i,
        {
            if self.banned_ip[i].0 == *file && self.banned_ip[i].1 == *address {
                return true;
            }
            i = i + 1;
        }
        false
    }

    /// Compares `key` with the registered key of `file`.
    pub fn check_key(&self, file: &String, key: u8) -> (r: Outcome)
        requires
            self.wf(),
        ensures
            r == outcome_of(self.keys(), file@, key),
    {
        match self.find_key(file) {
            None => Outcome::Unregistered,
            Some(k) => if k == key {
                Outcome::Accept
            } else {
                Outcome::WrongKey
            },
        }
    }

    /// Registers `key` for `file_name` unless the file already has a key, in
    /// which case nothing changes.
    pub fn add_encrypted_file(&mut self, file_name: String, key: u8)
        requires
            old(self).wf(),
        ensures
            final(self).wf(),
            final(self).keys() == registered(old(self).keys(), file_name@, key),
            final(self).attempts() == old(self).attempts(),
            final(self).bans() == old(self).bans(),
    {
        if self.find_key(&file_name).is_none() {
            let ghost f = file_name@;
            self.encrypted_file.push((file_name, key));
            self.key_model = Ghost(self.key_model@.insert(f, key));
            assert forall|i: int| 0 <= i < self.encrypted_file@.len() implies self.key_model@.contains_key(
                #[trigger] self.encrypted_file@[i].0@) && self.key_model@[self.encrypted_file@[i].0@]
                == self.encrypted_file@[i].1 by {
                if i < old(self).encrypted_file@.len() {
                    assert(old(self).encrypted_file@[i] == self.encrypted_file@[i]);
                    assert(old(self).key_model@.contains_key(old(self).encrypted_file@[i].0@));
                }
            }
            assert forall|g: Seq<char>| #[trigger] self.key_model@.contains_key(g) implies exists|i: int|
                0 <= i < self.encrypted_file@.len() && self.encrypted_file@[i].0@ == g by {
                if g == f {
                    let last = self.encrypted_file@.len() - 1;
                    assert(self.encrypted_file@[last].0@ == g);
                } else {
                    let i = choose|i: int|
                        0 <= i < old(self).encrypted_file@.len() && old(self).encrypted_file@[i].0@ == g;
                    assert(self.encrypted_file@[i].0@ == g);
                }
            }
            assert(keys_match(self.encrypted_file@, self.key_model@));
        }
    }

    /// Bans `ip` from `file_name`; banning a banned pair again changes nothing.
    pub fn add_banned_ip(&mut self, file_name: String, ip: String)
        requires
            old(self).wf(),
        ensures
            final(self).wf(),
            final(self).bans() == old(self).bans().insert((file_name@, ip@)),
            final(self).keys() == old(self).keys(),
            final(self).attempts() == old(self).attempts(),
    {
        if self.ban_listed(&file_name, &ip) {
            assert(self.ban_model@.insert((file_name@, ip@)) =~= self.ban_model@);
            return;
        }
        let ghost p = (file_name@, ip@);
        self.banned_ip.push((file_name, ip));
        self.ban_model = Ghost(self.ban_model@.insert(p));
        assert forall|i: int| 0 <= i < self.banned_ip@.len() implies self.ban_model@.contains(
            (#[trigger] self.banned_ip@[i].0@, self.banned_ip@[i].1@)) by {
            if i < old(self).banned_ip@.len() {
                assert(old(self).banned_ip@[i] == self.banned_ip@[i]);
            }
        }
        assert forall|q: Pair| #[trigger] self.ban_model@.contains(q) implies exists|i: int|
            0 <= i < self.banned_ip@.len() && (self.banned_ip@[i].0@, self.banned_ip@[i].1@) == q by {
            if q == p {
                let last = self.banned_ip@.len() - 1;
                assert((self.banned_ip@[last].0@, self.banned_ip@[last].1@) == q);
            } else {
                let i = choose|i: int|
                    0 <= i < old(self).banned_ip@.len() && (old(self).banned_ip@[i].0@, old(
                        self,
                    ).banned_ip@[i].1@) == q;
                assert((self.banned_ip@[i].0@, self.banned_ip@[i].1@) == q);
            }
        }
        assert(bans_match(self.banned_ip@, self.ban_model@));
    }

    /// Records one more failed attempt of `ip` on `file_name`, and bans the
    /// address when its counter reaches the threshold. The counter stops at
    /// `u64::MAX` rather than wrapping.
    pub fn change_ip_attempts(&mut self, file_name: String, ip: String)
        requires
            old(self).wf(),
        ensures
            final(self).wf(),
            final(self).attempts() == counted(old(self).attempts(), file_name@, ip@),
            final(self).bans() == banned_after(old(self).attempts(), old(self).bans(), file_name@, ip@),
            final(self).keys() == old(self).keys(),
    {
        let ghost p = (file_name@, ip@);
        let mut i: usize = 0;
        let mut found = false;
        while i < self.ip_attempts.len()
            invariant
                self.wf(),
                i <= self.ip_attempts@.len(),
                p == (file_name@, ip@),
                found ==> i < self.ip_attempts@.len() && (self.ip_attempts@[i as int].0@,
                    self.ip_attempts@[i as int].1@) == p,
                !found ==> forall|j: int|
                    0 <= j < i ==> (self.ip_attempts@[j].0@, self.ip_attempts@[j].1@) != p,
            ensures
                self.wf(),
                found ==> i < self.ip_attempts@.len() && (self.ip_attempts@[i as int].0@,
                    self.ip_attempts@[i as int].1@) == p,
                !found ==> forall|j: int|
                    0 <= j < self.ip_attempts@.len() ==> (self.ip_attempts@[j].0@,
                    self.ip_attempts@[j].1@) != p,
            decreases self.ip_attempts@.len() - i + (if found { 0int } else { 1int }),
        {
            if self.ip_attempts[i].0 == file_name && self.ip_attempts[i].1 == ip {
                found = true;
                break;
            }
            i = i + 1;
        }
        let count: u64;
        if found {
            let old_count = self.ip_attempts[i].2;
            count = if old_count < u64::MAX { old_count + 1 } else { old_count };
            let ghost before = self.ip_attempts@;
            self.ip_attempts.set(i, (file_name.clone(), ip.clone(), count));
            self.attempt_model = Ghost(self.attempt_model@.insert(p, count as nat));
            assert forall|j: int| 0 <= j < self.ip_attempts@.len() implies self.attempt_model@.contains_key(
                (#[trigger] self.ip_attempts@[j].0@, self.ip_attempts@[j].1@))
                && self.attempt_model@[(self.ip_attempts@[j].0@, self.ip_attempts@[j].1@)]
                == self.ip_attempts@[j].2 as nat by {
                if j != i {
                    assert(before[j] == self.ip_attempts@[j]);
                    assert((before[j].0@, before[j].1@) != (before[i as int].0@, before[i as int].1@));
                }
            }
            assert forall|j: int, k: int|
                0 <= j < k < self.ip_attempts@.len() implies (self.ip_attempts@[j].0@,
                self.ip_attempts@[j].1@) != (self.ip_attempts@[k].0@, self.ip_attempts@[k].1@) by {
                assert((before[j].0@, before[j].1@) != (before[k].0@, before[k].1@));
            }
            assert forall|q: Pair| #[trigger] self.attempt_model@.contains_key(q) implies exists|j: int|
                0 <= j < self.ip_attempts@.len() && (self.ip_attempts@[j].0@, self.ip_attempts@[j].1@)
                    == q by {
                if q == p {
                    assert((self.ip_attempts@[i as int].0@, self.ip_attempts@[i as int].1@) == q);
                } else {
                    let j = choose|j: int|
                        0 <= j < before.len() && (before[j].0@, before[j].1@) == q;
                    assert((self.ip_attempts@[j].0@, self.ip_attempts@[j].1@) == q);
                }
            }
        } else {
            count = 1;
            let ghost before = self.ip_attempts@;
            proof {
                if self.attempt_model@.contains_key(p) {
                    let j = choose|j: int| 0 <= j < before.len() && (before[j].0@, before[j].1@) == p;
                    assert((before[j].0@, before[j].1@) != p);
                }
            }
            self.ip_attempts.push((file_name.clone(), ip.clone(), count));
            self.attempt_model = Ghost(self.attempt_model@.insert(p, 1));
            assert forall|j: int| 0 <= j < self.ip_attempts@.len() implies self.attempt_model@.contains_key(
                (#[trigger] self.ip_attempts@[j].0@, self.ip_attempts@[j].1@))
                && self.attempt_model@[(self.ip_attempts@[j].0@, self.ip_attempts@[j].1@)]
                == self.ip_attempts@[j].2 as nat by {
                if j < before.len() {
                    assert(before[j] == self.ip_attempts@[j]);
                    assert(old(self).attempt_model@.contains_key((before[j].0@, before[j].1@)));
                }
            }
            assert forall|j: int, k: int|
                0 <= j < k < self.ip_attempts@.len() implies (self.ip_attempts@[j].0@,
                self.ip_attempts@[j].1@) != (self.ip_attempts@[k].0@, self.ip_attempts@[k].1@) by {
                if k < before.len() {
                    assert((before[j].0@, before[j].1@) != (before[k].0@, before[k].1@));
                } else {
                    assert(before[j] == self.ip_attempts@[j]);
                }
            }
            assert forall|q: Pair| #[trigger] self.attempt_model@.contains_key(q) implies exists|j: int|
                0 <= j < self.ip_attempts@.len() && (self.ip_attempts@[j].0@, self.ip_attempts@[j].1@)
                    == q by {
                if q == p {
                    let last = self.ip_attempts@.len() - 1;
                    assert((self.ip_attempts@[last].0@, self.ip_attempts@[last].1@) == q);
                } else {
                    let j = choose|j: int|
                        0 <= j < before.len() && (before[j].0@, before[j].1@) == q;
                    assert((self.ip_attempts@[j].0@, self.ip_attempts@[j].1@) == q);
                }
            }
        }
        assert(attempts_match(self.ip_attempts@, self.attempt_model@));
        assert(self.attempt_model@ == counted(old(self).attempts(), file_name@, ip@));
        if count == BAN_THRESHOLD {
            self.add_banned_ip(file_name, ip);
        }
    }
}

} // verus!
