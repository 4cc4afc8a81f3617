use vstd::prelude::*;

use crate::drift::lists_violations;

verus! {

/// Holonomy group around dialogue cycles: its generators (as matrices) and
/// the net drift accumulated around a cycle.
#[derive(Debug)]
pub struct HolonomyGroup<T> {
    pub generators: Vec<Vec<T>>,
    pub drift: T,
}

impl<T> HolonomyGroup<T> {
    pub fn new(generators: Vec<Vec<T>>, drift: T) -> (h: Self)
        ensures
            h.generators == generators,
            h.drift == drift,
    {
        HolonomyGroup { generators, drift }
    }
}

/// A loop of the timeline whose holonomy drifts beyond a threshold, with the
/// agents scheduled over it.
#[derive(Debug)]
pub struct HolonomyReport<T> {
    pub loop_path: Vec<usize>,
    pub drift: T,
    pub agent_ids: Vec<String>,
}

/// `reports` holds, in loop order, one report for each loop flagged in
/// `exceeded`: that loop's path and drift, and the agents `agent_ids`.
pub open spec fn reports_flagged_loops<T>(
    loops: Seq<Vec<usize>>,
    drifts: Seq<T>,
    exceeded: Seq<bool>,
    agent_ids: Seq<String>,
    reports: Seq<HolonomyReport<T>>,
) -> bool {
    exists|flagged: Seq<usize>|
        #[trigger] lists_violations(exceeded, flagged) && flagged.len() == reports.len() && forall|j: int|
            0 <= j < reports.len() ==> {
                &&& (#[trigger] reports[j]).loop_path@ == loops[flagged[j] as int]@
                &&& reports[j].drift == drifts[flagged[j] as int]
                &&& reports[j].agent_ids@ == agent_ids
            }
}

/// The holonomy reports of the loops whose drift exceeds the threshold,
/// given each loop's drift and whether it exceeds the threshold.
pub fn select_reports<T: Copy>(
    loops: &Vec<Vec<usize>>,
    drifts: &Vec<T>,
    exceeded: &Vec<bool>,
    agent_ids: &Vec<String>,
) -> (reports: Vec<HolonomyReport<T>>)
    requires
        drifts@.len() == loops@.len(),
        exceeded@.len() == loops@.len(),
    ensures
        reports_flagged_loops(loops@, drifts@, exceeded@, agent_ids@, reports@),
{
    let mut reports: Vec<HolonomyReport<T>> = Vec::new();
    let ghost mut flagged: Seq<usize> = Seq::empty();
    let mut i: usize = 0;
    while i < loops.len()
        invariant
            drifts@.len() == loops@.len(),
            exceeded@.len() == loops@.len(),
            i <= loops@.len(),
            forall|a: int, b: int| 0 <= a < b < flagged.len() ==> flagged[a] < flagged[b],
            forall|a: int| 0 <= a < flagged.len() ==> flagged[a] < i,
            forall|s: usize| #[trigger] flagged.contains(s) <==> (s < i && exceeded@[s as int]),
            flagged.len() == reports@.len(),
            forall|j: int|
                0 <= j < reports@.len() ==> {
                    &&& (#[trigger] reports@[j]).loop_path@ == loops@[flagged[j] as int]@
                    &&& reports@[j].drift == drifts@[flagged[j] as int]
                    &&& reports@[j].agent_ids@ == agent_ids@
                },
        decreases loops@.len() - i,
    {
        let ghost before = flagged;
        if exceeded[i] {
            let path = copy_indices(&loops[i]);
            let ids = copy_strings(agent_ids);
            reports.push(HolonomyReport { loop_path: path, drift: drifts[i], agent_ids: ids });
            proof {
                flagged = flagged.push(i);
            }
        }
        proof {
            assert forall|s: usize| #[trigger] flagged.contains(s) <==> (s < i + 1 && exceeded@[s as int]) by {
                if exceeded@[i as int] {
                    if s == i {
                        assert(flagged[flagged.len() - 1] == s);
                    }
                    if flagged.contains(s) && s != i {
                        let k = choose|k: int| 0 <= k < flagged.len() && flagged[k] == s;
                        assert(before[k] == s);
                    }
                    if before.contains(s) {
                        let k = choose|k: int| 0 <= k < before.len() && before[k] == s;
                        assert(flagged[k] == s);
                    }
                }
            }
        }
        i = i + 1;
    }
    proof {
        assert(lists_violations(exceeded@, flagged));
    }
    reports
}

/// A copy of a list of indices.
fn copy_indices(v: &Vec<usize>) -> (r: Vec<usize>)
    ensures
        r@ == v@,
{
    let mut r: Vec<usize> = Vec::with_capacity(v.len());
    let mut i: usize = 0;
    while i < v.len()
        invariant
            i <= v@.len(),
            r@ == v@.subrange(0, i as int),
        decreases v@.len() - i,
    {
        r.push(v[i]);
        i = i + 1;
    }
    r
}

/// A copy of a list of strings.
fn copy_strings(v: &Vec<String>) -> (r: Vec<String>)
    ensures
        r@ == v@,
{
    let mut r: Vec<String> = Vec::with_capacity(v.len());
    let mut i: usize = 0;
    while i < v.len()
        invariant
            i <= v@.len(),
            r@ == v@.subrange(0, i as int),
        decreases v@.len() - i,
    {
        r.push(v[i].clone());
        i = i + 1;
    }
    r
}

} // verus!
