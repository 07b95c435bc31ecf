//! The envelope collection of one account: every known envelope, keyed by
//! its hash.

use vstd::prelude::*;

use std::collections::HashMap;

use crate::envelope::Envelope;
use crate::EnvelopeHash;

verus! {

broadcast use vstd::std_specs::hash::group_hash_axioms;

/// All envelopes of an account, keyed by envelope hash.
#[derive(Debug)]
pub struct Collection {
    pub envelopes: HashMap<EnvelopeHash, Envelope>,
}

/// The map a batch of envelopes builds: each stored under its own hash,
/// later entries overriding earlier ones.
pub open spec fn env_map(s: Seq<Envelope>) -> Map<u64, Envelope>
    decreases s.len(),
{
    if s.len() == 0 {
        Map::empty()
    } else {
        env_map(s.drop_last()).insert(s.last().hash, s.last())
    }
}

impl Collection {
    /// Build a collection from a batch of envelopes, in order: each is
    /// stored under its own hash.
    pub fn new(vec: Vec<Envelope>) -> (r: Collection)
        ensures
            r.envelopes@ == env_map(vec@),
    {
        let mut envelopes: HashMap<EnvelopeHash, Envelope> = HashMap::new();
        let mut rest = vec;
        let ghost all = rest@;
        proof {
            assert(all.subrange(0, 0) =~= Seq::<Envelope>::empty());
            assert(envelopes@ =~= env_map(all.subrange(0, 0)));
            assert(rest@ =~= all.subrange(all.len() - rest@.len(), all.len() as int));
        }
        loop
            invariant
                rest@.len() <= all.len(),
                rest@ == all.subrange(all.len() - rest@.len(), all.len() as int),
                envelopes@ == env_map(all.subrange(0, all.len() - rest@.len())),
            ensures
                envelopes@ == env_map(all.subrange(0, all.len() as int)),
            decreases rest@.len(),
        {
            if rest.len() == 0 {
                break;
            }
            let ghost k = all.len() - rest@.len();
            let e = rest.remove(0);
            proof {
                assert(e == all[k as int]);
                assert(rest@ =~= all.subrange(k + 1, all.len() as int));
            }
            let h = e.hash;
            envelopes.insert(h, e);
            proof {
                let p1 = all.subrange(0, k + 1);
                assert(p1.drop_last() =~= all.subrange(0, k as int));
                assert(p1.last() == all[k as int]);
            }
        }
        proof {
            assert(all.subrange(0, all.len() as int) =~= all);
        }
        Collection { envelopes }
    }

    /// How many envelopes are known.
    pub fn len(&self) -> (r: usize)
        ensures
            r == self.envelopes@.len(),
    {
        self.envelopes.len()
    }

    pub fn is_empty(&self) -> (r: bool)
        ensures
            r == (self.envelopes@.len() == 0),
    {
        self.envelopes.is_empty()
    }

    /// Insert an envelope under the given hash.
    pub fn insert(&mut self, hash: EnvelopeHash, envelope: Envelope)
        ensures
            final(self).envelopes@ == old(self).envelopes@.insert(hash, envelope),
    {
        self.envelopes.insert(hash, envelope);
    }
}

} // verus!
