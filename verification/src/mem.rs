//! The in-memory data model: a credential, the credential map of one
//! user (`Keeper`), and the decrypted working session.

use vstd::prelude::*;

verus! {

/// One stored credential: a `(url, username, password)` triple.
#[derive(Debug)]
pub struct Privacy {
    pub url: String,
    pub username: String,
    pub password: String,
}

/// The mathematical value of a [`Privacy`]: its three fields as
/// character sequences.
pub struct PrivacyV {
    pub url: Seq<char>,
    pub username: Seq<char>,
    pub password: Seq<char>,
}

impl View for Privacy {
    type V = PrivacyV;

    open spec fn view(&self) -> PrivacyV {
        PrivacyV { url: self.url@, username: self.username@, password: self.password@ }
    }
}

impl Clone for Privacy {
    fn clone(&self) -> (r: Self)
        ensures
            r@ == self@,
    {
        Privacy {
            url: self.url.clone(),
            username: self.username.clone(),
            password: self.password.clone(),
        }
    }
}

/// One enumerated entry: a credential together with the opaque id it is
/// filed under.
#[derive(Debug)]
pub struct PrivacySerialize {
    pub hash: String,
    pub credential: Privacy,
}

/// The mathematical value of a [`PrivacySerialize`].
pub struct PrivacySerializeV {
    pub hash: Seq<char>,
    pub credential: PrivacyV,
}

impl View for PrivacySerialize {
    type V = PrivacySerializeV;

    open spec fn view(&self) -> PrivacySerializeV {
        PrivacySerializeV { hash: self.hash@, credential: self.credential@ }
    }
}

/// The decrypted credential set belonging to one user: the owner's
/// username and a mapping from credential id to credential.
#[derive(Debug)]
pub struct Keeper {
    pub username: String,
    pub heap: Vec<(String, Privacy)>,
}

/// The mathematical value of a [`Keeper`]: the username and the id/
/// credential pairs in their stored order.
pub struct KeeperV {
    pub username: Seq<char>,
    pub heap: Seq<(Seq<char>, PrivacyV)>,
}

impl View for Keeper {
    type V = KeeperV;

    open spec fn view(&self) -> KeeperV {
        KeeperV {
            username: self.username@,
            heap: self.heap@.map_values(|e: (String, Privacy)| (e.0@, e.1@)),
        }
    }
}

/// Whether an id is filed in the given id/credential pairs.
pub open spec fn contains_key(s: Seq<(Seq<char>, PrivacyV)>, id: Seq<char>) -> bool {
    exists|i: int| 0 <= i < s.len() && #[trigger] s[i].0 == id
}

/// No id is filed twice.
pub open spec fn unique_keys(s: Seq<(Seq<char>, PrivacyV)>) -> bool {
    forall|i: int, j: int| 0 <= i < j < s.len() ==> (#[trigger] s[i]).0 != (#[trigger] s[j]).0
}

/// The credential filed under an id, assuming the id is present.
pub open spec fn value_of(s: Seq<(Seq<char>, PrivacyV)>, id: Seq<char>) -> PrivacyV {
    s[choose|i: int| 0 <= i < s.len() && #[trigger] s[i].0 == id].1
}

impl KeeperV {
    /// Keys are unique: no id is filed twice.
    pub open spec fn wf(self) -> bool {
        unique_keys(self.heap)
    }
}

impl Keeper {
    /// A fresh, empty vault owned by the given username.
    pub fn create(username: String) -> (k: Keeper)
        ensures
            k@.username == username@,
            k@.heap.len() == 0,
            k@.wf(),
    {
        let k = Keeper { username, heap: Vec::new() };
        proof {
            assert(k@.heap =~= Seq::<(Seq<char>, PrivacyV)>::empty());
        }
        k
    }

    /// The username this vault belongs to.
    pub fn username(&self) -> (r: &str)
        ensures
            r@ == self@.username,
    {
        self.username.as_str()
    }

    /// The position of an id in the stored pairs, if it is present.
    fn position(&self, id: &str) -> (r: Option<usize>)
        ensures
            match r {
                Some(i) => 0 <= i < self@.heap.len() && self@.heap[i as int].0 == id@,
                None => !contains_key(self@.heap, id@),
            },
    {
        let ghost hs = self@.heap;
        let mut i: usize = 0;
        while i < self.heap.len()
            invariant
                0 <= i <= self.heap.len(),
                hs == self@.heap,
                hs.len() == self.heap.len(),
                forall|j: int| 0 <= j < i ==> (#[trigger] hs[j]).0 != id@,
            decreases self.heap.len() - i,
        {
            let pair = &self.heap[i];
            if crate::encoding::str_eq(pair.0.as_str(), id) {
                proof {
                    assert(hs[i as int].0 == id@);
                }
                return Some(i);
            }
            i = i + 1;
        }
        None
    }

    /// Files a credential under the given id.  A fresh id is appended;
    /// re-filing an existing id overwrites the credential.
    pub fn add(&mut self, unique_hashtag: String, url: String, username: String, password: String)
        ensures
            final(self)@.username == old(self)@.username,
            old(self)@.wf() ==> final(self)@.wf(),
            contains_key(final(self)@.heap, unique_hashtag@),
            old(self)@.wf() ==> value_of(final(self)@.heap, unique_hashtag@) == (PrivacyV {
                url: url@,
                username: username@,
                password: password@,
            }),
            !contains_key(old(self)@.heap, unique_hashtag@) ==> final(self)@.heap == old(
                self,
            )@.heap.push((unique_hashtag@, PrivacyV { url: url@, username: username@, password: password@ })),
            forall|id: Seq<char>|
                id != unique_hashtag@ ==> #[trigger] contains_key(final(self)@.heap, id)
                    == contains_key(old(self)@.heap, id),
            old(self)@.wf() ==> forall|id: Seq<char>|
                id != unique_hashtag@ && contains_key(old(self)@.heap, id) ==> #[trigger] value_of(
                    final(self)@.heap,
                    id,
                ) == value_of(old(self)@.heap, id),
    {
        let p = Privacy { url, username, password };
        let pos = self.position(unique_hashtag.as_str());
        let ghost oldh = self@.heap;
        let ghost pv = p@;
        let ghost h = unique_hashtag@;
        match pos {
            Some(i) => {
                self.heap[i] = (unique_hashtag, p);
                proof {
                    assert(self@.heap =~= oldh.update(i as int, (h, pv)));
                    lemma_pairs_update(oldh, i as int, h, pv);
                }
            },
            None => {
                self.heap.push((unique_hashtag, p));
                proof {
                    assert(self@.heap =~= oldh.push((h, pv)));
                    lemma_pairs_push(oldh, h, pv);
                }
            },
        }
    }

    /// Unfiles the credential under the given id; reports whether the id
    /// was present.
    pub fn remove(&mut self, unique_hashtag: &str) -> (r: bool)
        ensures
            r == contains_key(old(self)@.heap, unique_hashtag@),
            final(self)@.username == old(self)@.username,
            old(self)@.wf() ==> final(self)@.wf(),
            !contains_key(final(self)@.heap, unique_hashtag@) || !old(self)@.wf(),
            !r ==> *final(self) == *old(self),
            old(self)@.wf() ==> forall|id: Seq<char>|
                id != unique_hashtag@ ==> #[trigger] contains_key(final(self)@.heap, id)
                    == contains_key(old(self)@.heap, id),
            old(self)@.wf() ==> forall|id: Seq<char>|
                id != unique_hashtag@ && contains_key(old(self)@.heap, id) ==> #[trigger] value_of(
                    final(self)@.heap,
                    id,
                ) == value_of(old(self)@.heap, id),
    {
        let pos = self.position(unique_hashtag);
        let ghost oldh = self@.heap;
        let ghost h = unique_hashtag@;
        match pos {
            Some(i) => {
                self.heap.remove(i);
                proof {
                    assert(self@.heap =~= oldh.remove(i as int));
                    if unique_keys(oldh) {
                        lemma_pairs_remove(oldh, i as int);
                    }
                }
                true
            },
            None => false,
        }
    }

    /// Overwrites the credential under the given id; absent ids are left
    /// untouched.
    pub fn update(&mut self, unique_hashtag: &String, url: String, username: String, password: String)
        ensures
            final(self)@.username == old(self)@.username,
            old(self)@.wf() ==> final(self)@.wf(),
            !contains_key(old(self)@.heap, unique_hashtag@) ==> final(self)@ == old(self)@,
            old(self)@.wf() && contains_key(old(self)@.heap, unique_hashtag@) ==> {
                &&& contains_key(final(self)@.heap, unique_hashtag@)
                &&& value_of(final(self)@.heap, unique_hashtag@) == (PrivacyV {
                    url: url@,
                    username: username@,
                    password: password@,
                })
            },
            forall|id: Seq<char>|
                id != unique_hashtag@ ==> #[trigger] contains_key(final(self)@.heap, id)
                    == contains_key(old(self)@.heap, id),
            old(self)@.wf() ==> forall|id: Seq<char>|
                id != unique_hashtag@ && contains_key(old(self)@.heap, id) ==> #[trigger] value_of(
                    final(self)@.heap,
                    id,
                ) == value_of(old(self)@.heap, id),
    {
        let pos = self.position(unique_hashtag.as_str());
        let ghost oldh = self@.heap;
        let ghost h = unique_hashtag@;
        match pos {
            Some(i) => {
                let p = Privacy { url, username, password };
                let ghost pv = p@;
                let id_copy = unique_hashtag.clone();
                self.heap[i] = (id_copy, p);
                proof {
                    assert(self@.heap =~= oldh.update(i as int, (h, pv)));
                    lemma_pairs_update(oldh, i as int, h, pv);
                }
            },
            None => {},
        }
    }

    /// The credential filed under an id, if any.
    pub fn entry(&self, unique_hashtag: &str) -> (r: Option<&Privacy>)
        ensures
            r is Some <==> contains_key(self@.heap, unique_hashtag@),
            self@.wf() && r is Some ==> r->0@ == value_of(self@.heap, unique_hashtag@),
    {
        match self.position(unique_hashtag) {
            Some(i) => {
                let ghost hs = self@.heap;
                proof {
                    if self@.wf() {
                        let j = choose|j: int| 0 <= j < hs.len() && #[trigger] hs[j].0 == unique_hashtag@;
                        assert(j == i as int);
                    }
                }
                Some(&self.heap[i].1)
            },
            None => None,
        }
    }

    /// All entries, each credential paired with its id, in stored order.
    pub fn entries(&self) -> (r: Vec<PrivacySerialize>)
        ensures
            r@.len() == self@.heap.len(),
            forall|i: int|
                0 <= i < r@.len() ==> (#[trigger] r@[i])@.hash == self@.heap[i].0 && r@[i]@.credential
                    == self@.heap[i].1,
    {
        let mut out: Vec<PrivacySerialize> = Vec::new();
        let mut i: usize = 0;
        while i < self.heap.len()
            invariant
                0 <= i <= self.heap.len(),
                self@.heap.len() == self.heap.len(),
                out@.len() == i,
                forall|j: int|
                    0 <= j < i ==> (#[trigger] out@[j])@.hash == self@.heap[j].0 && out@[j]@.credential
                        == self@.heap[j].1,
            decreases self.heap.len() - i,
        {
            let pair = &self.heap[i];
            out.push(PrivacySerialize { hash: pair.0.clone(), credential: pair.1.clone() });
            i = i + 1;
        }
        out
    }
}

/// Updating position `i` with a pair keyed by the id that already stood
/// there keeps the keys unique and rewrites only that id's value.
proof fn lemma_pairs_update(s: Seq<(Seq<char>, PrivacyV)>, i: int, id: Seq<char>, v: PrivacyV)
    requires
        0 <= i < s.len(),
        s[i].0 == id,
    ensures
        ({
            let t = s.update(i, (id, v));
            &&& contains_key(t, id)
            &&& forall|o: Seq<char>| o != id ==> #[trigger] contains_key(t, o) == contains_key(s, o)
            &&& unique_keys(s) ==> {
                &&& unique_keys(t)
                &&& value_of(t, id) == v
                &&& forall|o: Seq<char>|
                    o != id && contains_key(s, o) ==> #[trigger] value_of(t, o) == value_of(s, o)
            }
        }),
{
    let t = s.update(i, (id, v));
    assert(t[i].0 == id);
    assert(contains_key(t, id));
    assert forall|o: Seq<char>| o != id implies #[trigger] contains_key(t, o) == contains_key(s, o) by {
        if contains_key(t, o) {
            let k = choose|k: int| 0 <= k < t.len() && #[trigger] t[k].0 == o;
            assert(s[k].0 == o);
        }
        if contains_key(s, o) {
            let k = choose|k: int| 0 <= k < s.len() && #[trigger] s[k].0 == o;
            assert(k != i);
            assert(t[k].0 == o);
        }
    }
    if unique_keys(s) {
        assert forall|x: int, y: int| 0 <= x < y < t.len() implies (#[trigger] t[x]).0 != (
        #[trigger] t[y]).0 by {
            assert(s[x].0 != s[y].0);
        }
        let j = choose|j: int| 0 <= j < t.len() && #[trigger] t[j].0 == id;
        assert(j == i) by {
            if j != i {
                assert(s[j].0 == id);
                if j < i {
                    assert(s[j].0 != s[i].0);
                } else {
                    assert(s[i].0 != s[j].0);
                }
            }
        }
        assert(value_of(t, id) == v);
        assert forall|o: Seq<char>| o != id && contains_key(s, o) implies #[trigger] value_of(t, o)
            == value_of(s, o) by {
            let k = choose|k: int| 0 <= k < s.len() && #[trigger] s[k].0 == o;
            assert(k != i);
            assert(t[k].0 == o);
            let k2 = choose|k2: int| 0 <= k2 < t.len() && #[trigger] t[k2].0 == o;
            assert(k2 != i);
            assert(s[k2].0 == o);
            if k != k2 {
                if k < k2 {
                    assert(s[k].0 != s[k2].0);
                } else {
                    assert(s[k2].0 != s[k].0);
                }
            }
            assert(value_of(t, o) == t[k2].1);
            assert(value_of(s, o) == s[k].1);
        }
    }
}

/// Appending a pair keyed by a fresh id keeps the keys unique, files the
/// new value, and leaves every other id's value in place.
proof fn lemma_pairs_push(s: Seq<(Seq<char>, PrivacyV)>, id: Seq<char>, v: PrivacyV)
    requires
        !contains_key(s, id),
    ensures
        ({
            let t = s.push((id, v));
            &&& contains_key(t, id)
            &&& forall|o: Seq<char>| o != id ==> #[trigger] contains_key(t, o) == contains_key(s, o)
            &&& unique_keys(s) ==> {
                &&& unique_keys(t)
                &&& value_of(t, id) == v
                &&& forall|o: Seq<char>|
                    o != id && contains_key(s, o) ==> #[trigger] value_of(t, o) == value_of(s, o)
            }
        }),
{
    let t = s.push((id, v));
    let n = s.len() as int;
    assert(t[n].0 == id);
    assert(contains_key(t, id));
    assert forall|o: Seq<char>| o != id implies #[trigger] contains_key(t, o) == contains_key(s, o) by {
        if contains_key(t, o) {
            let k = choose|k: int| 0 <= k < t.len() && #[trigger] t[k].0 == o;
            assert(k < n);
            assert(s[k].0 == o);
        }
        if contains_key(s, o) {
            let k = choose|k: int| 0 <= k < s.len() && #[trigger] s[k].0 == o;
            assert(t[k].0 == o);
        }
    }
    if unique_keys(s) {
        assert forall|x: int, y: int| 0 <= x < y < t.len() implies (#[trigger] t[x]).0 != (
        #[trigger] t[y]).0 by {
            if y < n {
                assert(s[x].0 != s[y].0);
            } else {
                assert(t[x].0 == s[x].0);
                assert(!(s[x].0 == id));
            }
        }
        let j = choose|j: int| 0 <= j < t.len() && #[trigger] t[j].0 == id;
        assert(j == n) by {
            if j < n {
                assert(s[j].0 == id);
            }
        }
        assert(value_of(t, id) == v);
        assert forall|o: Seq<char>| o != id && contains_key(s, o) implies #[trigger] value_of(t, o)
            == value_of(s, o) by {
            let k = choose|k: int| 0 <= k < s.len() && #[trigger] s[k].0 == o;
            assert(t[k].0 == o);
            let k2 = choose|k2: int| 0 <= k2 < t.len() && #[trigger] t[k2].0 == o;
            assert(k2 < n);
            assert(s[k2].0 == o);
            if k != k2 {
                if k < k2 {
                    assert(s[k].0 != s[k2].0);
                } else {
                    assert(s[k2].0 != s[k].0);
                }
            }
            assert(value_of(t, o) == t[k2].1);
            assert(value_of(s, o) == s[k].1);
        }
    }
}

/// Removing position `i` keeps the keys unique, unfiles that id, and
/// leaves every other id's presence and value in place.
proof fn lemma_pairs_remove(s: Seq<(Seq<char>, PrivacyV)>, i: int)
    requires
        0 <= i < s.len(),
        unique_keys(s),
    ensures
        ({
            let t = s.remove(i);
            &&& unique_keys(t)
            &&& !contains_key(t, s[i].0)
            &&& forall|o: Seq<char>|
                o != s[i].0 ==> #[trigger] contains_key(t, o) == contains_key(s, o)
            &&& forall|o: Seq<char>|
                o != s[i].0 && contains_key(s, o) ==> #[trigger] value_of(t, o) == value_of(s, o)
        }),
{
    let t = s.remove(i);
    let id = s[i].0;
    assert forall|x: int, y: int| 0 <= x < y < t.len() implies (#[trigger] t[x]).0 != (
    #[trigger] t[y]).0 by {
        let sx: int = if x < i { x } else { x + 1 };
        let sy: int = if y < i { y } else { y + 1 };
        assert(t[x] == s[sx]);
        assert(t[y] == s[sy]);
        assert(s[sx].0 != s[sy].0);
    }
    assert forall|k: int| 0 <= k < t.len() implies (#[trigger] t[k]).0 != id by {
        let sk: int = if k < i { k } else { k + 1 };
        assert(t[k] == s[sk]);
        assert(sk != i);
        if sk < i {
            assert(s[sk].0 != s[i].0);
        } else {
            assert(s[i].0 != s[sk].0);
        }
    }
    assert forall|o: Seq<char>| o != id implies #[trigger] contains_key(t, o) == contains_key(s, o) by {
        if contains_key(t, o) {
            let k = choose|k: int| 0 <= k < t.len() && #[trigger] t[k].0 == o;
            let sk: int = if k < i { k } else { k + 1 };
            assert(t[k] == s[sk]);
            assert(s[sk].0 == o);
        }
        if contains_key(s, o) {
            let k = choose|k: int| 0 <= k < s.len() && #[trigger] s[k].0 == o;
            assert(k != i);
            let tk: int = if k < i { k } else { k - 1 };
            assert(t[tk] == s[k]);
            assert(t[tk].0 == o);
        }
    }
    assert forall|o: Seq<char>| o != id && contains_key(s, o) implies #[trigger] value_of(t, o)
        == value_of(s, o) by {
        let k = choose|k: int| 0 <= k < s.len() && #[trigger] s[k].0 == o;
        assert(k != i);
        let tk: int = if k < i { k } else { k - 1 };
        assert(t[tk] == s[k]);
        assert(t[tk].0 == o);
        let k2 = choose|k2: int| 0 <= k2 < t.len() && #[trigger] t[k2].0 == o;
        let sk2: int = if k2 < i { k2 } else { k2 + 1 };
        assert(t[k2] == s[sk2]);
        assert(s[sk2].0 == o);
        if sk2 != k {
            if sk2 < k {
                assert(s[sk2].0 != s[k].0);
            } else {
                assert(s[k].0 != s[sk2].0);
            }
        }
        assert(value_of(t, o) == t[k2].1);
        assert(value_of(s, o) == s[k].1);
    }
}

/// The sole decrypted working copy of one vault, together with its key
/// material and the file it persists to.
pub struct UserSession {
    /// The vault file's name: `<username>.pwdb`.
    pub file: String,
    /// The key-wrap nonce, fixed for the lifetime of the vault file.
    pub nonce: [u8; 16],
    /// The data key encrypted under the master key.
    pub encrypted_key: [u8; 32],
    /// The plaintext data key; never serialized.
    pub key: [u8; 32],
    /// The decrypted vault.
    pub keeper: Keeper,
}

} // verus!
