//! The hierarchy: an ordered sequence of peers, insertion order = join
//! order. The front is the currently expected leader; the list as a whole is
//! the succession order used during failover. The admin appends on an
//! accepted join and removes on a detected disconnect; a member advances the
//! front with [`Hierarchy::next_leader`] when its admin connection is lost.

use vstd::prelude::*;

use crate::peer::{Peer, PeerView};

verus! {

/// The largest index at which `x` occurs in `s`, or `-1` if it does not
/// occur at all.
pub open spec fn last_index_of<T>(s: Seq<T>, x: T) -> int
    decreases s.len(),
{
    if s.len() == 0 {
        -1
    } else if s.last() == x {
        s.len() - 1
    } else {
        last_index_of(s.drop_last(), x)
    }
}

/// `s` with the last occurrence of `x` removed; `s` unchanged when `x` does
/// not occur. Removing the most recent occurrence makes removal the exact
/// inverse of a just-performed append.
pub open spec fn remove_last_match<T>(s: Seq<T>, x: T) -> Seq<T> {
    let i = last_index_of(s, x);
    if i < 0 {
        s
    } else {
        s.remove(i)
    }
}

/// What `last_index_of` returns: a valid index of `x` after which `x` does
/// not occur again, or `-1` when `x` does not occur at all.
pub proof fn lemma_last_index_of<T>(s: Seq<T>, x: T)
    ensures
        last_index_of(s, x) == -1 || (0 <= last_index_of(s, x) < s.len()),
        last_index_of(s, x) == -1 ==> forall|k: int| 0 <= k < s.len() ==> s[k] != x,
        last_index_of(s, x) >= 0 ==> s[last_index_of(s, x)] == x,
        last_index_of(s, x) >= 0 ==> forall|k: int|
            last_index_of(s, x) < k < s.len() ==> s[k] != x,
    decreases s.len(),
{
    if s.len() == 0 {
    } else if s.last() == x {
    } else {
        lemma_last_index_of(s.drop_last(), x);
        assert(forall|k: int| 0 <= k < s.len() - 1 ==> s[k] == s.drop_last()[k]);
    }
}

/// Appending a peer and then removing that same peer restores the sequence
/// exactly.
pub proof fn lemma_push_then_remove<T>(s: Seq<T>, x: T)
    ensures
        remove_last_match(s.push(x), x) == s,
{
    let t = s.push(x);
    assert(t.last() == x);
    assert(last_index_of(t, x) == s.len());
    assert(t.remove(s.len() as int) =~= s);
}

/// Ordered peer list encoding succession order for admin failover; index 0
/// is the current elected leader.
#[derive(Debug)]
pub struct Hierarchy(pub Vec<Peer>);

impl View for Hierarchy {
    type V = Seq<PeerView>;

    open spec fn view(&self) -> Seq<PeerView> {
        self.0@.map_values(|p: Peer| p@)
    }
}

impl Hierarchy {
    /// A fresh hierarchy holding only the peer that starts the room: the
    /// starting peer is its own leader.
    pub fn new(local: Peer) -> (h: Hierarchy)
        ensures
            h@ == seq![local@],
    {
        let h = Hierarchy(vec![local]);
        proof {
            assert(h@ =~= seq![local@]);
        }
        h
    }

    /// Append a peer at the back: it becomes the last candidate in the
    /// succession order. Used by the admin when it accepts a join.
    pub fn push(&mut self, peer: Peer)
        ensures
            final(self)@ == old(self)@.push(peer@),
    {
        let ghost before = self@;
        self.0.push(peer);
        proof {
            assert(self@ =~= before.push(peer@));
        }
    }

    /// Remove the last occurrence of `peer`, if any. Used by the admin when
    /// it detects a disconnect; removing the most recent occurrence makes a
    /// `push` followed by a `remove` of the same peer a no-op overall.
    #[verifier::loop_isolation(false)]
    pub fn remove(&mut self, peer: &Peer)
        ensures
            final(self)@ == remove_last_match(old(self)@, peer@),
    {
        let ghost s = self@;
        let mut j: usize = self.0.len();
        while j > 0
            invariant
                j <= self.0.len(),
                self@ == s,
                forall|k: int| j <= k < s.len() ==> s[k] != peer@,
            decreases j,
        {
            j = j - 1;
            if self.0[j] == *peer {
                proof {
                    assert(s[j as int] == self.0@[j as int]@);
                    assert(s[j as int] == peer@);
                    lemma_last_index_of(s, peer@);
                    let lio = last_index_of(s, peer@);
                    assert(lio >= 0);
                    if lio < j {
                        assert(s[j as int] != peer@);
                    }
                    if lio > j {
                        assert(s[lio] != peer@);
                    }
                    assert(lio == j);
                }
                self.0.remove(j);
                proof {
                    assert(self@ =~= s.remove(j as int));
                    assert(remove_last_match(s, peer@) == s.remove(j as int));
                    assert(self@ == remove_last_match(old(self)@, peer@));
                }
                return ;
            }
            proof {
                assert(s[j as int] == self.0@[j as int]@);
            }
        }
        proof {
            lemma_last_index_of(s, peer@);
            if last_index_of(s, peer@) >= 0 {
                assert(s[last_index_of(s, peer@)] == peer@);
                assert(false);
            }
        }
    }

    /// Advance the succession order on leader loss: drop the front (the
    /// failed leader) and return the new front, or `None` when no candidate
    /// is left. Mutates destructively.
    pub fn next_leader(&mut self) -> (r: Option<Peer>)
        ensures
            old(self)@.len() == 0 ==> final(self)@ == old(self)@ && r is None,
            old(self)@.len() > 0 ==> final(self)@ == old(self)@.skip(1),
            r is Some <==> old(self)@.len() >= 2,
            old(self)@.len() >= 2 ==> r == Some(r->Some_0) && r->Some_0@ == old(self)@[1],
    {
        let ghost before = self@;
        if self.0.len() == 0 {
            return None;
        }
        self.0.remove(0);
        proof {
            assert(self@ =~= before.skip(1));
        }
        if self.0.len() == 0 {
            None
        } else {
            Some(self.0[0].clone())
        }
    }

    /// Number of peers in the hierarchy.
    pub fn len(&self) -> (n: usize)
        ensures
            n == self@.len(),
    {
        self.0.len()
    }
}

impl Clone for Hierarchy {
    #[verifier::loop_isolation(false)]
    fn clone(&self) -> (r: Self)
        ensures
            r@ == self@,
    {
        let mut v: Vec<Peer> = Vec::new();
        let mut i: usize = 0;
        while i < self.0.len()
            invariant
                i <= self.0.len(),
                v@.len() == i,
                forall|k: int| 0 <= k < i ==> v@[k] == self.0@[k],
            decreases self.0.len() - i,
        {
            v.push(self.0[i].clone());
            i = i + 1;
        }
        let r = Hierarchy(v);
        proof {
            assert(r@ =~= self@);
        }
        r
    }
}

impl PartialEq for Hierarchy {
    #[verifier::loop_isolation(false)]
    fn eq(&self, other: &Self) -> (r: bool) {
        if self.0.len() != other.0.len() {
            proof {
                assert(self@.len() == self.0@.len());
                assert(other@.len() == other.0@.len());
            }
            return false;
        }
        let mut i: usize = 0;
        while i < self.0.len()
            invariant
                self.0.len() == other.0.len(),
                i <= self.0.len(),
                forall|k: int| 0 <= k < i ==> self.0@[k]@ == other.0@[k]@,
            decreases self.0.len() - i,
        {
            if !(self.0[i] == other.0[i]) {
                proof {
                    assert(self@[i as int] == self.0@[i as int]@);
                    assert(other@[i as int] == other.0@[i as int]@);
                    assert(self@[i as int] != other@[i as int]);
                    assert(self@ != other@);
                }
                return false;
            }
            i = i + 1;
        }
        proof {
            assert(forall|k: int| 0 <= k < self@.len() ==> self@[k] == self.0@[k]@);
            assert(forall|k: int| 0 <= k < other@.len() ==> other@[k] == other.0@[k]@);
            assert(self@ =~= other@);
        }
        true
    }
}

impl vstd::std_specs::cmp::PartialEqSpecImpl for Hierarchy {
    open spec fn obeys_eq_spec() -> bool {
        true
    }

    open spec fn eq_spec(&self, other: &Self) -> bool {
        self@ == other@
    }
}

} // verus!
