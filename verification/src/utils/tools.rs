use vstd::prelude::*;
use std::collections::HashMap;

verus! {

broadcast use vstd::std_specs::hash::group_hash_axioms;

/// Error returned when asking for several mutable references into one collection: a key
/// has no value, or two keys name the same value.
#[derive(Eq, PartialEq, Ord, PartialOrd, Clone, Copy, Debug, Structural)]
pub enum SplitMutError {
    NoValue,
    SameValue,
}

impl SplitMutError {
    /// The name of the error.
    pub fn to_string(&self) -> (r: String)
        ensures
            r@ == match *self {
                SplitMutError::NoValue => "NoValue"@,
                SplitMutError::SameValue => "SameValue"@,
            },
    {
        match self {
            SplitMutError::NoValue => String::from_str("NoValue"),
            SplitMutError::SameValue => String::from_str("SameValue"),
        }
    }
}

/// The outcome for slot `i` when several mutable references are requested at once: slot `i`
/// names the value `targets[i]` (``None`` if its key has no value). It fails with ``NoValue``
/// if there is no value, with ``SameValue`` if an earlier slot already names the same value,
/// and succeeds (``None``) otherwise.
pub open spec fn split_status(targets: Seq<Option<u64>>, i: int) -> Option<SplitMutError> {
    match targets[i] {
        None => Some(SplitMutError::NoValue),
        Some(t) => if exists|j: int| 0 <= j < i && #[trigger] targets[j] == Some(t) {
            Some(SplitMutError::SameValue)
        } else {
            None
        },
    }
}

/// A slot fails with ``NoValue`` exactly when its key has no value; a slot whose value an
/// earlier slot already names fails with ``SameValue``, and only then; so no two slots that
/// get their reference name the same value, and every slot with a value named by no earlier
/// slot gets its reference.
pub proof fn lemma_split_status(targets: Seq<Option<u64>>, i: int, j: int)
    requires
        0 <= j < i < targets.len(),
    ensures
        split_status(targets, i) == Some(SplitMutError::NoValue) <==> targets[i] is None,
        targets[i] is Some && targets[j] == targets[i] ==> split_status(targets, i) == Some(
            SplitMutError::SameValue,
        ),
        split_status(targets, i) is None && split_status(targets, j) is None ==> targets[i] != targets[j],
        split_status(targets, i) == Some(SplitMutError::SameValue) ==> exists|k: int|
            0 <= k < i && targets[k] == targets[i],
        split_status(targets, j) == Some(SplitMutError::SameValue) ==> exists|k: int|
            0 <= k < j && targets[k] == targets[j],
        targets[i] is Some && (forall|k: int| 0 <= k < i ==> targets[k] != targets[i]) ==> split_status(
            targets,
            i,
        ) is None,
{
    if targets[i] is Some && targets[j] == targets[i] {
        assert(targets[j] == Some(targets[i]->0));
    }
}

/// Decides which of several requested mutable references can be handed out: for every slot
/// the error it fails with, or ``None`` if it gets its reference (see ``split_status``).
pub fn split_mut_errors(targets: &Vec<Option<u64>>) -> (r: Vec<Option<SplitMutError>>)
    ensures
        r@.len() == targets@.len(),
        forall|i: int| 0 <= i < r@.len() ==> #[trigger] r@[i] == split_status(targets@, i),
        forall|i: int| 0 <= i < r@.len() ==> (#[trigger] r@[i] == Some(SplitMutError::NoValue)
            <==> targets@[i] is None),
        forall|i: int, j: int|
            0 <= j < i < r@.len() && targets@[i] is Some && #[trigger] targets@[j] == #[trigger] targets@[i]
                ==> r@[i] == Some(SplitMutError::SameValue),
        forall|i: int, j: int|
            0 <= j < r@.len() && 0 <= i < r@.len() && i != j && #[trigger] r@[i] is None && #[trigger] r@[j] is None
                ==> targets@[i] != targets@[j],
        forall|i: int|
            0 <= i < r@.len() && #[trigger] r@[i] == Some(SplitMutError::SameValue) ==> exists|j: int|
                0 <= j < i && targets@[j] == targets@[i],
{
    let mut r: Vec<Option<SplitMutError>> = Vec::new();
    let mut i: usize = 0;
    while i < targets.len()
        invariant
            i <= targets@.len(),
            r@.len() == i,
            forall|k: int| 0 <= k < i ==> #[trigger] r@[k] == split_status(targets@, k),
        decreases targets@.len() - i,
    {
        let status = match targets[i] {
            None => Some(SplitMutError::NoValue),
            Some(t) => {
                let mut j: usize = 0;
                let mut seen = false;
                while j < i
                    invariant
                        j <= i,
                        i < targets@.len(),
                        seen == exists|k: int| 0 <= k < j && #[trigger] targets@[k] == Some(t),
                    decreases i - j,
                {
                    if targets[j] == Some(t) {
                        seen = true;
                    }
                    j = j + 1;
                }
                if seen {
                    Some(SplitMutError::SameValue)
                } else {
                    None
                }
            },
        };
        r.push(status);
        i = i + 1;
    }
    r
}

/// Wether `m` holds all of the keys.
pub open spec fn holds_all<V>(m: Map<u64, V>, keys: Seq<u64>) -> bool {
    forall|i: int| 0 <= i < keys.len() ==> m.contains_key(#[trigger] keys[i])
}

/// Access to several immutable references of a collection at once; only yields a result if
/// all of the individual keys are present.
pub trait SplitGet<K, V> {
    fn get2(&self, k1: &K, k2: &K) -> Option<(&V, &V)>;

    fn get3(&self, k1: &K, k2: &K, k3: &K) -> Option<(&V, &V, &V)>;

    fn get4(&self, k1: &K, k2: &K, k3: &K, k4: &K) -> Option<(&V, &V, &V, &V)>;

    fn get5(&self, k1: &K, k2: &K, k3: &K, k4: &K, k5: &K) -> Option<(&V, &V, &V, &V, &V)>;
}

impl<V> SplitGet<u64, V> for HashMap<u64, V> {
    fn get2(&self, k1: &u64, k2: &u64) -> (r: Option<(&V, &V)>)
        ensures
            match r {
                Some(p) => holds_all(self@, seq![*k1, *k2]) && *p.0 == self@[*k1] && *p.1
                    == self@[*k2],
                None => !holds_all(self@, seq![*k1, *k2]),
            },
    {
        let r = Some((self.get(k1)?, self.get(k2)?));
        assert(seq![*k1, *k2][0] == *k1 && seq![*k1, *k2][1] == *k2);
        r
    }

    fn get3(&self, k1: &u64, k2: &u64, k3: &u64) -> (r: Option<(&V, &V, &V)>)
        ensures
            match r {
                Some(p) => holds_all(self@, seq![*k1, *k2, *k3]) && *p.0 == self@[*k1] && *p.1
                    == self@[*k2] && *p.2 == self@[*k3],
                None => !holds_all(self@, seq![*k1, *k2, *k3]),
            },
    {
        let ghost ks = seq![*k1, *k2, *k3];
        assert(ks[0] == *k1 && ks[1] == *k2 && ks[2] == *k3);
        Some((self.get(k1)?, self.get(k2)?, self.get(k3)?))
    }

    fn get4(&self, k1: &u64, k2: &u64, k3: &u64, k4: &u64) -> (r: Option<(&V, &V, &V, &V)>)
        ensures
            match r {
                Some(p) => holds_all(self@, seq![*k1, *k2, *k3, *k4]) && *p.0 == self@[*k1]
                    && *p.1 == self@[*k2] && *p.2 == self@[*k3] && *p.3 == self@[*k4],
                None => !holds_all(self@, seq![*k1, *k2, *k3, *k4]),
            },
    {
        let ghost ks = seq![*k1, *k2, *k3, *k4];
        assert(ks[0] == *k1 && ks[1] == *k2 && ks[2] == *k3 && ks[3] == *k4);
        Some((self.get(k1)?, self.get(k2)?, self.get(k3)?, self.get(k4)?))
    }

    fn get5(&self, k1: &u64, k2: &u64, k3: &u64, k4: &u64, k5: &u64) -> (r: Option<
        (&V, &V, &V, &V, &V),
    >)
        ensures
            match r {
                Some(p) => holds_all(self@, seq![*k1, *k2, *k3, *k4, *k5]) && *p.0 == self@[*k1]
                    && *p.1 == self@[*k2] && *p.2 == self@[*k3] && *p.3 == self@[*k4] && *p.4
                    == self@[*k5],
                None => !holds_all(self@, seq![*k1, *k2, *k3, *k4, *k5]),
            },
    {
        let ghost ks = seq![*k1, *k2, *k3, *k4, *k5];
        assert(ks[0] == *k1 && ks[1] == *k2 && ks[2] == *k3 && ks[3] == *k4 && ks[4] == *k5);
        Some((self.get(k1)?, self.get(k2)?, self.get(k3)?, self.get(k4)?, self.get(k5)?))
    }
}

} // verus!
