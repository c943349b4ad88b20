//! How many directory steps separate two files.
use vstd::prelude::*;

use crate::path::{common_prefix_len, components_of, path_components, shared_prefix_len};
use crate::text::chars_of;

verus! {

/// The number of directory steps between the directories of two files: up from one to
/// their deepest shared directory, then down to the other.
///
/// Files in the same directory are 0 apart; a file one directory below the other's is 1
/// apart; two files in sibling directories are 2 apart.
#[derive(Debug, Clone, Copy, PartialEq, Eq)]
pub struct ModuleDistance {
    steps: usize,
}

/// The directory components of a file path: all components but the last.
pub open spec fn directory_components(path: Seq<char>) -> Seq<Seq<char>> {
    let c = path_components(path);
    if c.len() == 0 {
        c
    } else {
        c.drop_last()
    }
}

/// The steps between the directories of two files.
pub open spec fn steps_between(a: Seq<char>, b: Seq<char>) -> nat {
    let da = directory_components(a);
    let db = directory_components(b);
    let shared = common_prefix_len(da, db);
    ((da.len() - shared) + (db.len() - shared)) as nat
}

impl ModuleDistance {
    pub closed spec fn spec_steps(self) -> nat {
        self.steps as nat
    }

    /// The distance between the directories of two files, read off their spellings.
    pub fn between(path_a: &str, path_b: &str) -> (distance: ModuleDistance)
        ensures
            distance.spec_steps() == if steps_between(path_a@, path_b@) > usize::MAX {
                usize::MAX as nat
            } else {
                steps_between(path_a@, path_b@)
            },
    {
        let a = components_of(&chars_of(path_a));
        let b = components_of(&chars_of(path_b));
        let mut da = a;
        if da.len() > 0 {
            da.pop();
        }
        let mut db = b;
        if db.len() > 0 {
            db.pop();
        }
        proof {
            assert(da.deep_view() =~= directory_components(path_a@));
            assert(db.deep_view() =~= directory_components(path_b@));
            crate::path::lemma_common_prefix_len(da.deep_view(), db.deep_view());
        }
        let shared = shared_prefix_len(&da, &db);
        ModuleDistance { steps: (da.len() - shared).saturating_add(db.len() - shared) }
    }

    /// The number of steps.
    pub fn steps(self) -> (steps: usize)
        ensures
            steps == self.spec_steps(),
    {
        self.steps
    }
}

} // verus!
