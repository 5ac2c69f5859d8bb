//! In-memory store of PID gains, one record per application package name.
use vstd::prelude::*;
use vstd::string::StringSliceAdditionalSpecFns;

use crate::evolution::PidParams;
use crate::parse::bytes_eq;

verus! {

/// Why a load gave no gains.
#[derive(Clone, Copy, Debug, PartialEq, Eq, Structural)]
pub enum StoreError {
    /// No record exists for the package.
    NotFound,
}

/// Gains keyed by package name; saving a name that is present overwrites
/// its record.
pub struct PidStore {
    keys: Vec<Vec<u8>>,
    values: Vec<PidParams>,
}

impl View for PidStore {
    type V = Map<Seq<u8>, PidParams>;

    closed spec fn view(&self) -> Map<Seq<u8>, PidParams> {
        Map::new(
            |k: Seq<u8>| exists|i: int| 0 <= i < self.keys.len() && self.keys[i]@ == k,
            |k: Seq<u8>|
                self.values[choose|i: int| 0 <= i < self.keys.len() && self.keys[i]@ == k],
        )
    }
}

impl PidStore {
    /// One value per key, and no key twice.
    pub closed spec fn wf(&self) -> bool {
        &&& self.keys.len() == self.values.len()
        &&& forall|i: int, j: int|
            0 <= i < j < self.keys.len() ==> self.keys[i]@ != self.keys[j]@
    }

    proof fn lemma_lookup(&self, i: int)
        requires
            self.wf(),
            0 <= i < self.keys.len(),
        ensures
            self@.contains_key(self.keys[i]@),
            self@[self.keys[i]@] == self.values[i],
    {
        let k = self.keys[i]@;
        assert(exists|j: int| 0 <= j < self.keys.len() && self.keys[j]@ == k);
        let j = choose|j: int| 0 <= j < self.keys.len() && self.keys[j]@ == k;
        if j != i {
            assert(self.keys[j]@ != self.keys[i]@);
        }
    }

    pub fn new() -> (r: PidStore)
        ensures
            r.wf(),
            r@ == Map::<Seq<u8>, PidParams>::empty(),
    {
        let r = PidStore { keys: Vec::new(), values: Vec::new() };
        assert(r@ =~= Map::<Seq<u8>, PidParams>::empty());
        r
    }

    fn find(&self, key: &[u8]) -> (r: Option<usize>)
        requires
            self.wf(),
        ensures
            match r {
                Some(i) => i < self.keys.len() && self.keys[i as int]@ == key@,
                None => forall|i: int| 0 <= i < self.keys.len() ==> self.keys[i]@ != key@,
            },
    {
        let mut i: usize = 0;
        while i < self.keys.len()
            invariant
                i <= self.keys.len(),
                forall|j: int| 0 <= j < i ==> self.keys[j]@ != key@,
            decreases self.keys.len() - i,
        {
            if bytes_eq(self.keys[i].as_slice(), key) {
                return Some(i);
            }
            i = i + 1;
        }
        None
    }

    /// The gains stored for `package`; `NotFound` when it has no record.
    pub fn load_pid_params(&self, package: &str) -> (r: Result<PidParams, StoreError>)
        requires
            self.wf(),
        ensures
            self@.contains_key(package.spec_bytes()) ==> r == Ok::<PidParams, StoreError>(
                self@[package.spec_bytes()],
            ),
            !self@.contains_key(package.spec_bytes()) ==> r == Err::<PidParams, StoreError>(
                StoreError::NotFound,
            ),
    {
        match self.find(package.as_bytes()) {
            Some(i) => {
                proof {
                    self.lemma_lookup(i as int);
                }
                Ok(self.values[i])
            },
            None => {
                assert(!self@.contains_key(package.spec_bytes()));
                Err(StoreError::NotFound)
            },
        }
    }

    /// Stores `params` for `package`, inserting the record or overwriting
    /// all three gains of an existing one.
    pub fn save_pid_params(&mut self, package: &str, params: PidParams)
        requires
            old(self).wf(),
        ensures
            final(self).wf(),
            final(self)@ == old(self)@.insert(package.spec_bytes(), params),
    {
        let key = package.as_bytes();
        let ghost k = key@;
        let ghost before = self@;
        match self.find(key) {
            Some(i) => {
                self.values[i] = params;
                proof {
                    assert forall|j: int| 0 <= j < self.keys.len() implies #[trigger] self.keys[j]@
                        == old(self).keys[j]@ by {}
                    self.lemma_lookup(i as int);
                    assert forall|q: Seq<u8>| #[trigger] self@.contains_key(q) implies q == k
                        || before.contains_key(q) by {
                        let j = choose|j: int| 0 <= j < self.keys.len() && self.keys[j]@ == q;
                        old(self).lemma_lookup(j);
                    }
                    assert forall|q: Seq<u8>| before.contains_key(q) implies self@.contains_key(q)
                        && (q != k ==> self@[q] == before[q]) by {
                        let j = choose|j: int| 0 <= j < old(self).keys.len() && old(self).keys[j]@ == q;
                        old(self).lemma_lookup(j);
                        self.lemma_lookup(j);
                        if q != k {
                            assert(j != i);
                        }
                    }
                    assert(self@ =~= before.insert(k, params));
                }
            },
            None => {
                let mut owned: Vec<u8> = Vec::new();
                let mut b: usize = 0;
                while b < key.len()
                    invariant
                        b <= key.len(),
                        owned@ == key@.subrange(0, b as int),
                    decreases key.len() - b,
                {
                    owned.push(key[b]);
                    b = b + 1;
                }
                assert(owned@ =~= k);
                self.keys.push(owned);
                self.values.push(params);
                proof {
                    let n = old(self).keys.len() as int;
                    assert forall|j: int| 0 <= j < n implies #[trigger] self.keys[j]@
                        == old(self).keys[j]@ && self.values[j] == old(self).values[j] by {}
                    assert(self.keys[n]@ == k && self.values[n] == params);
                    self.lemma_lookup(n);
                    assert forall|q: Seq<u8>| #[trigger] self@.contains_key(q) implies q == k
                        || before.contains_key(q) by {
                        let j = choose|j: int| 0 <= j < self.keys.len() && self.keys[j]@ == q;
                        if j < n {
                            old(self).lemma_lookup(j);
                        }
                    }
                    assert forall|q: Seq<u8>| before.contains_key(q) implies self@.contains_key(q)
                        && (q != k ==> self@[q] == before[q]) by {
                        let j = choose|j: int| 0 <= j < n && old(self).keys[j]@ == q;
                        old(self).lemma_lookup(j);
                        self.lemma_lookup(j);
                    }
                    assert(self@.contains_key(k) && self@[k] == params);
                    assert forall|q: Seq<u8>| #[trigger] before.insert(k, params).contains_key(q)
                        implies self@.contains_key(q) by {
                        if q != k {
                            assert(before.contains_key(q));
                            let j = choose|j: int| 0 <= j < n && old(self).keys[j]@ == q;
                            assert(self.keys[j]@ == q);
                        }
                    }
                    assert(self@ =~= before.insert(k, params));
                }
            },
        }
    }
}

/// Saving gains for a package and then loading that package gives back
/// exactly those gains, whatever the store held before.
pub proof fn lemma_save_then_load(before: Map<Seq<u8>, PidParams>, package: Seq<u8>, x: PidParams)
    ensures
        before.insert(package, x).contains_key(package),
        before.insert(package, x)[package] == x,
{
}

} // verus!
