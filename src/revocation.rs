use vstd::prelude::*;
use crate::hex::push_char;
use crate::token::{validate, validation, TokenConfig};

verus! {

/// The namespaced store key under which a token's revocation is recorded.
pub open spec fn revocation_key_of(token: Seq<char>) -> Seq<char> {
    seq!['b', 'l', ':'] + token
}

/// The store key for a token: `bl:` followed by the token.
pub fn revocation_key(token: &str) -> (r: String)
    ensures
        r@ == revocation_key_of(token@),
{
    let mut k = String::new();
    push_char(&mut k, 'b');
    push_char(&mut k, 'l');
    push_char(&mut k, ':');
    k.append(token);
    proof { assert(k@ =~= revocation_key_of(token@)); }
    k
}

/// The time-to-live of a revocation entry for a token expiring at `exp`, written at
/// `now`: its remaining validity, or nothing when it has already expired.
pub fn revocation_ttl(exp: u64, now: u64) -> (r: Option<u64>)
    ensures
        r == (if now < exp { Some((exp - now) as u64) } else { None::<u64> }),
{
    if now < exp {
        Some(exp - now)
    } else {
        None
    }
}

/// Whether a store mapping keys to expiry times holds a live entry for `token` at `now`.
pub open spec fn revoked_in(m: Map<Seq<char>, u64>, token: Seq<char>, now: u64) -> bool {
    m.contains_key(revocation_key_of(token)) && now < m[revocation_key_of(token)]
}

/// The store after revoking `token` at `now`: a token that validates gets an entry
/// that lives exactly until the token expires; any other token needs none.
pub open spec fn revoked_state(m: Map<Seq<char>, u64>, token: Seq<char>, key: Seq<u8>, now: u64) -> Map<Seq<char>, u64> {
    match validation(token, key, now) {
        Ok(c) => m.insert(revocation_key_of(token), c.exp),
        Err(_) => m,
    }
}

/// An in-process expiring store of revoked tokens: each entry is a key and the time
/// at which it lapses.
pub struct RevocationStore {
    entries: Vec<(String, u64)>,
}

impl RevocationStore {
    pub closed spec fn wf(&self) -> bool {
        forall|i: int, j: int|
            0 <= i < j < self.entries@.len() ==> (#[trigger] self.entries@[i]).0@ != (#[trigger] self.entries@[j]).0@
    }

    pub closed spec fn view(&self) -> Map<Seq<char>, u64> {
        Map::new(
            |k: Seq<char>| exists|i: int| 0 <= i < self.entries@.len() && self.entries@[i].0@ == k,
            |k: Seq<char>| self.entries@[choose|i: int| 0 <= i < self.entries@.len() && self.entries@[i].0@ == k].1,
        )
    }

    pub fn new() -> (r: RevocationStore)
        ensures
            r.wf(),
            r.view() == Map::<Seq<char>, u64>::empty(),
    {
        let r = RevocationStore { entries: Vec::new() };
        proof { assert(r.view() =~= Map::<Seq<char>, u64>::empty()); }
        r
    }

    /// Sets the entry for `k` to lapse at `until`.
    fn put(&mut self, k: String, until: u64)
        requires
            old(self).wf(),
        ensures
            final(self).wf(),
            final(self).view() == old(self).view().insert(k@, until),
    {
        let ghost old_entries = self.entries@;
        let mut i: usize = 0;
        while i < self.entries.len()
            invariant
                i <= self.entries@.len(),
                self.entries@ == old_entries,
                old(self).entries@ == old_entries,
                self.wf(),
                forall|j: int| 0 <= j < i ==> (#[trigger] self.entries@[j]).0@ != k@,
            decreases self.entries@.len() - i,
        {
            if self.entries[i].0 == k {
                let ghost ki = k@;
                let ghost before = self.view();
                assert(before =~= old(self).view());
                self.entries.set(i, (k, until));
                proof {
                    let e = self.entries@;
                    assert forall|a: int, b: int| 0 <= a < b < e.len() implies (#[trigger] e[a]).0@ != (#[trigger] e[b]).0@ by {
                        assert(old_entries[a].0@ != old_entries[b].0@);
                    }
                    assert forall|q: Seq<char>| #[trigger] self.view().contains_key(q) == before.insert(ki, until).contains_key(q) by {
                        if q != ki && before.contains_key(q) {
                            let w = choose|j: int| 0 <= j < old_entries.len() && old_entries[j].0@ == q;
                            assert(e[w].0@ == q);
                        }
                        if q != ki && self.view().contains_key(q) {
                            let w = choose|j: int| 0 <= j < e.len() && e[j].0@ == q;
                            assert(old_entries[w].0@ == q);
                        }
                        if q == ki {
                            assert(e[i as int].0@ == q);
                        }
                    }
                    assert forall|q: Seq<char>| #[trigger] self.view().contains_key(q) implies self.view()[q] == before.insert(ki, until)[q] by {
                        let w = choose|j: int| 0 <= j < e.len() && e[j].0@ == q;
                        if q == ki {
                            assert(e[i as int].0@ == q);
                            assert(w == i);
                        } else {
                            let w0 = choose|j: int| 0 <= j < old_entries.len() && old_entries[j].0@ == q;
                            assert(e[w0].0@ == q);
                            assert(w == w0);
                        }
                    }
                    assert(self.view() =~= before.insert(ki, until));
                }
                return;
            }
            i = i + 1;
        }
        let ghost ki = k@;
        let ghost before = self.view();
        self.entries.push((k, until));
        proof {
            let e = self.entries@;
            let last = old_entries.len() as int;
            assert forall|a: int, b: int| 0 <= a < b < e.len() implies (#[trigger] e[a]).0@ != (#[trigger] e[b]).0@ by {
                if b < last {
                    assert(old_entries[a].0@ != old_entries[b].0@);
                }
            }
            assert forall|q: Seq<char>| #[trigger] self.view().contains_key(q) == before.insert(ki, until).contains_key(q) by {
                if q != ki && before.contains_key(q) {
                    let w = choose|j: int| 0 <= j < old_entries.len() && old_entries[j].0@ == q;
                    assert(e[w].0@ == q);
                }
                if q != ki && self.view().contains_key(q) {
                    let w = choose|j: int| 0 <= j < e.len() && e[j].0@ == q;
                    assert(w != last);
                    assert(old_entries[w].0@ == q);
                }
                if q == ki {
                    assert(e[last].0@ == q);
                }
            }
            assert forall|q: Seq<char>| #[trigger] self.view().contains_key(q) implies self.view()[q] == before.insert(ki, until)[q] by {
                let w = choose|j: int| 0 <= j < e.len() && e[j].0@ == q;
                if q == ki {
                    assert(e[last].0@ == q);
                    assert(w == last);
                } else {
                    let w0 = choose|j: int| 0 <= j < old_entries.len() && old_entries[j].0@ == q;
                    assert(e[w0].0@ == q);
                    assert(w == w0);
                }
            }
            assert(self.view() =~= before.insert(ki, until));
        }
    }

    /// Whether `token` has a live revocation entry at `now`.
    pub fn is_revoked(&self, token: &str, now: u64) -> (r: bool)
        requires
            self.wf(),
        ensures
            r == revoked_in(self.view(), token@, now),
    {
        let k = revocation_key(token);
        let mut i: usize = 0;
        while i < self.entries.len()
            invariant
                i <= self.entries@.len(),
                self.wf(),
                k@ == revocation_key_of(token@),
                forall|j: int| 0 <= j < i ==> (#[trigger] self.entries@[j]).0@ != k@,
            decreases self.entries@.len() - i,
        {
            if self.entries[i].0 == k {
                proof {
                    let w = choose|j: int| 0 <= j < self.entries@.len() && self.entries@[j].0@ == k@;
                    assert(self.entries@[i as int].0@ == k@);
                    assert(w == i);
                }
                return now < self.entries[i].1;
            }
            i = i + 1;
        }
        false
    }

    /// Drops every entry that has lapsed at `now`; live entries are kept as they are.
    pub fn purge_expired(&mut self, now: u64)
        requires
            old(self).wf(),
        ensures
            final(self).wf(),
            forall|k: Seq<char>| #[trigger] final(self).view().contains_key(k)
                <==> (old(self).view().contains_key(k) && now < old(self).view()[k]),
            forall|k: Seq<char>| #[trigger] final(self).view().contains_key(k)
                ==> final(self).view()[k] == old(self).view()[k],
    {
        let ghost src = self.entries@;
        let ghost old_view = self.view();
        let mut kept: Vec<(String, u64)> = Vec::new();
        let ghost mut idx: Seq<int> = Seq::empty();
        let ghost mut inv: Seq<int> = Seq::empty();
        let mut i: usize = 0;
        while i < self.entries.len()
            invariant
                i <= src.len(),
                self.entries@ == src,
                old(self).wf(),
                old(self).entries@ == src,
                idx.len() == kept@.len(),
                inv.len() == i,
                forall|a: int| 0 <= a < kept@.len() ==> 0 <= #[trigger] idx[a] < i && kept@[a] == src[idx[a]] && now < src[idx[a]].1,
                forall|a: int, c: int| 0 <= a < c < kept@.len() ==> #[trigger] idx[a] < #[trigger] idx[c],
                forall|b: int| 0 <= b < i && now < src[b].1 ==> 0 <= #[trigger] inv[b] < kept@.len() && idx[inv[b]] == b,
            decreases src.len() - i,
        {
            if now < self.entries[i].1 {
                let k = self.entries[i].0.clone();
                let until = self.entries[i].1;
                proof {
                    inv = inv.push(kept@.len() as int);
                    idx = idx.push(i as int);
                }
                kept.push((k, until));
            } else {
                proof { inv = inv.push(0); }
            }
            i = i + 1;
        }
        self.entries = kept;
        proof {
            let e = self.entries@;
            assert forall|a: int, c: int| 0 <= a < c < e.len() implies (#[trigger] e[a]).0@ != (#[trigger] e[c]).0@ by {
                assert(idx[a] < idx[c]);
                assert(src[idx[a]].0@ != src[idx[c]].0@);
            }
            assert forall|k: Seq<char>| #[trigger] self.view().contains_key(k)
                <==> (old_view.contains_key(k) && now < old_view[k]) by {
                if self.view().contains_key(k) {
                    let a = choose|a: int| 0 <= a < e.len() && e[a].0@ == k;
                    assert(src[idx[a]].0@ == k);
                    let w = choose|j: int| 0 <= j < src.len() && src[j].0@ == k;
                    assert(w == idx[a]);
                }
                if old_view.contains_key(k) && now < old_view[k] {
                    let w = choose|j: int| 0 <= j < src.len() && src[j].0@ == k;
                    assert(e[inv[w]].0@ == k);
                }
            }
            assert forall|k: Seq<char>| #[trigger] self.view().contains_key(k) implies self.view()[k] == old_view[k] by {
                let a = choose|a: int| 0 <= a < e.len() && e[a].0@ == k;
                assert(src[idx[a]].0@ == k);
                let w = choose|j: int| 0 <= j < src.len() && src[j].0@ == k;
                assert(w == idx[a]);
            }
        }
    }

    /// Records `token` as revoked until its own expiry; a token that does not
    /// validate at `now` leaves the store unchanged. Revoking twice equals revoking once.
    pub fn revoke(&mut self, token: &str, config: &TokenConfig, now: u64)
        requires
            old(self).wf(),
        ensures
            final(self).wf(),
            final(self).view() == revoked_state(old(self).view(), token@, config.secret@, now),
    {
        match validate(token, config, now) {
            Ok(c) => {
                let k = revocation_key(token);
                self.put(k, c.exp);
            },
            Err(_) => {},
        }
    }
}

/// Revoking the same token twice leaves the store as revoking it once.
pub proof fn law_revoke_idempotent(m: Map<Seq<char>, u64>, token: Seq<char>, key: Seq<u8>, now: u64)
    ensures
        revoked_state(revoked_state(m, token, key, now), token, key, now) == revoked_state(m, token, key, now),
{
    match validation(token, key, now) {
        Ok(c) => {
            assert(m.insert(revocation_key_of(token), c.exp).insert(revocation_key_of(token), c.exp)
                =~= m.insert(revocation_key_of(token), c.exp));
        },
        Err(_) => {},
    }
}

} // verus!
