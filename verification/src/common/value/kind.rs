//! Kinds of permissible values.

use crate::text::strings;
use vstd::prelude::*;

pub mod binary;
pub mod numerical;

verus! {

/// A permissible value for a characteristic.
#[derive(Clone, Debug, PartialEq)]
pub enum Kind {
    /// A binary feature.
    ///
    /// Examples of binary features a "yes"/"no", "true"/"false", and
    /// "present"/"not present" determinations.
    Binary {
        /// The description.
        description: binary::Description,
    },
    /// A categorical feature.
    Categorical {
        /// The set of values that the feature can take on, each once.
        options: Vec<String>,
    },
    /// A numerical feature.
    Numerical {
        /// The type of numerical feature.
        kind: numerical::Type,
        /// A description of the units of measurement.
        units: String,
    },
}

impl Kind {
    /// What holds of every kind: the options of a categorical feature are
    /// a set, none of them occurs twice.
    pub open spec fn wf(self) -> bool {
        match self {
            Kind::Categorical { options } => strings(options@).no_duplicates(),
            _ => true,
        }
    }

    /// A categorical feature with the options of `options`, each once, in
    /// the order in which they first occur.
    pub fn categorical(options: Vec<String>) -> (kind: Kind)
        ensures
            kind.wf(),
            kind matches Kind::Categorical { options: kept } && strings(kept@).to_set()
                == strings(options@).to_set(),
    {
        let mut kept: Vec<String> = Vec::new();
        let mut i: usize = 0;
        assert(strings(options@).take(0).to_set() =~= strings(kept@).to_set());
        while i < options.len()
            invariant
                i <= options.len(),
                strings(kept@).no_duplicates(),
                strings(kept@).to_set() == strings(options@).take(i as int).to_set(),
            decreases options.len() - i,
        {
            let ghost before = strings(kept@);
            let ghost seen = strings(options@).take(i as int);
            let found = contains(&kept, &options[i]);
            if !found {
                kept.push(options[i].clone());
                assert(strings(kept@) =~= before.push(options@[i as int]@));
            }
            i += 1;
            proof {
                let now = strings(options@).take(i as int);
                assert(now =~= seen.push(options@[i - 1]@));
                assert forall|x: Seq<char>| strings(kept@).to_set().contains(x)
                    == now.to_set().contains(x) by {
                    if now.contains(x) {
                        let k = choose|k: int| 0 <= k < now.len() && now[k] == x;
                        if k < seen.len() {
                            assert(seen[k] == x);
                            assert(seen.to_set().contains(x));
                            assert(before.contains(x));
                            let j = choose|j: int| 0 <= j < before.len() && before[j] == x;
                            assert(strings(kept@)[j] == x);
                        } else if found {
                            assert(before.contains(x));
                        } else {
                            assert(strings(kept@)[before.len() as int] == x);
                        }
                    }
                    if strings(kept@).contains(x) {
                        let j = choose|j: int|
                            0 <= j < strings(kept@).len() && strings(kept@)[j] == x;
                        if j < before.len() {
                            assert(before[j] == x);
                            assert(before.to_set().contains(x));
                            assert(seen.contains(x));
                            let k = choose|k: int| 0 <= k < seen.len() && seen[k] == x;
                            assert(now[k] == x);
                        } else {
                            assert(now[i - 1] == x);
                        }
                    }
                }
                assert(strings(kept@).to_set() =~= now.to_set());
            }
        }
        assert(strings(options@).take(i as int) =~= strings(options@));
        Kind::Categorical { options: kept }
    }
}

/// Whether `option` is among `options`.
fn contains(options: &Vec<String>, option: &String) -> (r: bool)
    ensures
        r == strings(options@).contains(option@),
{
    let mut i: usize = 0;
    while i < options.len()
        invariant
            i <= options.len(),
            forall|j: int| 0 <= j < i ==> strings(options@)[j] != option@,
        decreases options.len() - i,
    {
        if options[i] == *option {
            assert(strings(options@)[i as int] == option@);
            return true;
        }
        i += 1;
    }
    false
}

} // verus!
