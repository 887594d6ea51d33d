use vstd::prelude::*;

verus! {

/// Number of worker units to run: one per available core, capped by an optional override.
pub fn worker_count(available_cores: usize, limit: Option<usize>) -> (r: usize)
    ensures
        r == match limit {
            Some(n) => if n < available_cores { n } else { available_cores },
            None => available_cores,
        },
{
    match limit {
        Some(n) => if n < available_cores { n } else { available_cores },
        None => available_cores,
    }
}

} // verus!
