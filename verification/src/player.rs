//! A player: a unique name and a table of integer stats.

use vstd::prelude::*;

verus! {

/// A named player with integer stats, keyed by stat code.  Stat lookup
/// is ASCII-case-insensitive and takes the first entry that matches.
#[derive(Debug)]
pub struct Player {
    pub name: String,
    pub stats: Vec<(String, i32)>,
}

impl Clone for Player {
    fn clone(&self) -> (r: Self)
        ensures
            r.name == self.name,
            r.stats@ == self.stats@,
    {
        let mut stats: Vec<(String, i32)> = Vec::new();
        let mut i: usize = 0;
        while i < self.stats.len()
            invariant
                i <= self.stats.len(),
                stats@.len() == i,
                forall|k: int| 0 <= k < i ==> stats@[k] == self.stats@[k],
            decreases self.stats.len() - i,
        {
            stats.push((self.stats[i].0.clone(), self.stats[i].1));
            i = i + 1;
        }
        proof {
            assert(stats@ =~= self.stats@);
        }
        Player { name: self.name.clone(), stats }
    }
}

} // verus!
