use vstd::prelude::*;

use crate::matrix::Matrix;
use crate::numfmt::dec_rep;
use crate::render::{join, matrix_rows_rep, mzn_matrix_rep, mzn_matrix_string, usize_to_string};

verus! {

/// A travelling salesman instance with time windows: the number of nodes
/// (depot included), the distances between any two nodes, and the time window
/// in which each node must be reached. Distances and window bounds are held
/// in ten-thousandths, as the instance files carry four-decimal numbers.
#[derive(Clone)]
pub struct TSPTW {
    /// The number of nodes (including depot)
    pub nb_nodes: usize,
    /// This is the distance matrix between any two nodes
    pub distances: Matrix<usize>,
    /// This vector encodes the time windows to reach any vertex
    pub timewindows: Vec<TimeWindow>,
}

/// The position of the salesman in his tour.
#[derive(Clone, Copy, Hash, PartialEq, Eq, Structural)]
pub struct Position(u16);

/// A time window: a closed time interval.
#[derive(Debug, Copy, Clone)]
pub struct TimeWindow {
    pub earliest: usize,
    pub latest: usize,
}

/// One time window as the solver reads it: both bounds, comma separated.
pub open spec fn tw_pair_rep(tw: TimeWindow) -> Seq<char> {
    dec_rep(tw.earliest as nat) + ", "@ + dec_rep(tw.latest as nat)
}

/// All time windows as one bracketed matrix row per window.
pub open spec fn tw_matrix_rep(tws: Seq<TimeWindow>) -> Seq<char> {
    "[| "@ + join(tws.map_values(|t: TimeWindow| tw_pair_rep(t)), "|"@) + " |]"@
}

/// The instance in the solver's textual input encoding.
pub open spec fn tsptw_mzn_rep(t: &TSPTW, instance_name: Seq<char>) -> Seq<char> {
    "\ninstance_name = \""@ + instance_name + "\";\nn = "@ + dec_rep(t.nb_nodes as nat)
        + ";\ndistance = "@ + mzn_matrix_rep(matrix_rows_rep(&t.distances)) + ";\ntime_window = "@
        + tw_matrix_rep(t.timewindows@) + ";"@
}

impl TSPTW {
    /// Renders the instance in the format the solver reads on its input.
    pub fn to_minizinc(&self, instance_name: &str) -> (r: String)
        requires
            self.distances.wf(),
        ensures
            r@ == tsptw_mzn_rep(self, instance_name@),
    {
        let mut out = "\ninstance_name = \"".to_owned();
        out.append(instance_name);
        out.append("\";\nn = ");
        let n = usize_to_string(self.nb_nodes);
        out.append(n.as_str());
        out.append(";\ndistance = ");
        let d = self.dist_matrix();
        out.append(d.as_str());
        out.append(";\ntime_window = ");
        let t = self.tw_matrix();
        out.append(t.as_str());
        out.append(";");
        proof {
            assert(out@ =~= tsptw_mzn_rep(self, instance_name@));
        }
        out
    }

    fn dist_matrix(&self) -> (r: String)
        requires
            self.distances.wf(),
        ensures
            r@ == mzn_matrix_rep(matrix_rows_rep(&self.distances)),
    {
        mzn_matrix_string(&self.distances)
    }

    fn tw_matrix(&self) -> (r: String)
        ensures
            r@ == tw_matrix_rep(self.timewindows@),
    {
        let ghost reps = self.timewindows@.map_values(|t: TimeWindow| tw_pair_rep(t));
        let mut out = "[| ".to_owned();
        let mut i: usize = 0;
        proof {
            assert(reps.subrange(0, 0) =~= Seq::<Seq<char>>::empty());
            assert(out@ =~= "[| "@ + join(reps.subrange(0, 0), "|"@));
        }
        while i < self.timewindows.len()
            invariant
                0 <= i <= self.timewindows@.len(),
                reps == self.timewindows@.map_values(|t: TimeWindow| tw_pair_rep(t)),
                out@ == "[| "@ + join(reps.subrange(0, i as int), "|"@),
            decreases self.timewindows@.len() - i,
        {
            if i > 0 {
                out.append("|");
            }
            let e = usize_to_string(self.timewindows[i].earliest);
            out.append(e.as_str());
            out.append(", ");
            let l = usize_to_string(self.timewindows[i].latest);
            out.append(l.as_str());
            proof {
                assert(reps.subrange(0, i as int + 1).drop_last() =~= reps.subrange(0, i as int));
                assert(reps.subrange(0, i as int + 1).last() == reps[i as int]);
                assert(out@ =~= "[| "@ + join(reps.subrange(0, i as int + 1), "|"@));
            }
            i += 1;
        }
        out.append(" |]");
        proof {
            assert(reps.subrange(0, self.timewindows@.len() as int) =~= reps);
            assert(out@ =~= tw_matrix_rep(self.timewindows@));
        }
        out
    }
}

} // verus!
