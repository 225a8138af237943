//! Seen-game store: the set of fingerprints already processed in this run.
//! Membership is decided by fingerprint equality; the set only grows, and an
//! insert of a fingerprint already present changes nothing.
use crate::pgn::{FpView, GameFingerprint};
use vstd::prelude::*;

verus! {

pub open spec fn fps_view(s: Seq<GameFingerprint>) -> Seq<FpView> {
    s.map_values(|f: GameFingerprint| f@)
}

/// The set of fingerprints of games already observed and processed.
pub struct SeenGames {
    seen: Vec<GameFingerprint>,
}

impl View for SeenGames {
    type V = Set<FpView>;

    closed spec fn view(&self) -> Set<FpView> {
        fps_view(self.seen@).to_set()
    }
}

impl SeenGames {
    /// A fresh store; nothing has been seen.
    pub fn load() -> (r: Self)
        ensures
            r@ == Set::<FpView>::empty(),
    {
        let r = SeenGames { seen: Vec::new() };
        proof {
            assert(r@ =~= Set::<FpView>::empty());
        }
        r
    }

    /// Whether this fingerprint has been seen.
    pub fn contains(&self, fp: &GameFingerprint) -> (r: bool)
        ensures
            r == self@.contains(fp@),
    {
        let n = self.seen.len();
        let mut i: usize = 0;
        while i < n
            invariant
                0 <= i <= n == self.seen@.len(),
                forall|k: int| 0 <= k < i ==> fps_view(self.seen@)[k] != fp@,
            decreases n - i,
        {
            if self.seen[i] == *fp {
                assert(fps_view(self.seen@)[i as int] == fp@);
                assert(fps_view(self.seen@).contains(fp@));
                return true;
            }
            i = i + 1;
        }
        assert(!fps_view(self.seen@).contains(fp@));
        false
    }

    /// Marks this fingerprint as seen. Returns true exactly when it was newly
    /// inserted; afterwards the store holds it either way.
    pub fn add(&mut self, fp: &GameFingerprint) -> (r: bool)
        ensures
            r == !old(self)@.contains(fp@),
            final(self)@ == old(self)@.insert(fp@),
    {
        if self.contains(fp) {
            proof {
                assert(self@.insert(fp@) =~= self@);
            }
            false
        } else {
            let ghost pre = self.seen@;
            self.seen.push(fp.clone());
            proof {
                assert(fps_view(self.seen@) =~= fps_view(pre).push(fp@));
                Seq::lemma_push_to_set_commute(fps_view(pre), fp@);
            }
            true
        }
    }
}

/// Inserting a fingerprint makes the store contain it, and inserting it again
/// changes nothing: with `add`'s contract, `add` answers true at most once
/// for a given fingerprint over any run, and `contains` holds after any
/// `add` of it.
pub proof fn lemma_store_dedup(s: Set<FpView>, fp: FpView)
    ensures
        s.insert(fp).contains(fp),
        s.insert(fp).insert(fp) == s.insert(fp),
{
    assert(s.insert(fp).insert(fp) =~= s.insert(fp));
}

} // verus!
