use vstd::prelude::*;

verus! {

/// What the planner asks of a plan's statistics.
pub trait PlanControl {
    /// The estimated number of distinct values of the named field.
    spec fn distinct_values(&self, field_name: Seq<char>) -> usize;

    /// The estimated number of distinct values of the named field.
    fn num_distinct_values(&self, field_name: &str) -> (r: usize)
        ensures
            r == self.distinct_values(field_name@),
    ;
}

} // verus!
