use vstd::prelude::*;

use crate::matrix::Matrix;
use crate::numfmt::dec_rep;
use crate::render::{
    matrix_rows_rep, mzn_matrix_rep, mzn_matrix_string, mzn_rows_string, num_list_rep,
    num_list_string, num_row_rep, usize_to_string,
};

verus! {

/// A pigment sequencing problem instance: how many item kinds there are, how
/// many periods the plan covers, the changeover costs between kinds, the
/// per-kind stocking costs, and the per-kind demand in each period.
#[derive(Clone)]
pub struct Psp {
    pub n_items: usize,
    pub horizon: usize,
    pub changeover: Matrix<usize>,
    pub stocking: Vec<usize>,
    pub demands: Vec<Vec<usize>>,
}

/// The instance in the solver's textual input encoding.
pub open spec fn psp_mzn_rep(p: &Psp) -> Seq<char> {
    "\nn = "@ + dec_rep(p.n_items as nat) + ";\nhorizon = "@ + dec_rep(p.horizon as nat)
        + ";\nchangeover = "@ + mzn_matrix_rep(matrix_rows_rep(&p.changeover)) + ";\nstocking = "@
        + num_list_rep(p.stocking@) + ";\ndemands = "@ + mzn_matrix_rep(
        p.demands@.map_values(|v: Vec<usize>| num_row_rep(v@)),
    ) + ";\n"@
}

impl Psp {
    /// Renders the instance in the format the solver reads on its input.
    pub fn to_minizinc(&self) -> (r: String)
        requires
            self.changeover.wf(),
        ensures
            r@ == psp_mzn_rep(self),
    {
        let mut out = "\nn = ".to_owned();
        let n = usize_to_string(self.n_items);
        out.append(n.as_str());
        out.append(";\nhorizon = ");
        let h = usize_to_string(self.horizon);
        out.append(h.as_str());
        out.append(";\nchangeover = ");
        let co = self.co_matrix();
        out.append(co.as_str());
        out.append(";\nstocking = ");
        let st = num_list_string(&self.stocking);
        out.append(st.as_str());
        out.append(";\ndemands = ");
        let dm = self.dem_matrix();
        out.append(dm.as_str());
        out.append(";\n");
        proof {
            assert(out@ =~= psp_mzn_rep(self));
        }
        out
    }

    fn co_matrix(&self) -> (r: String)
        requires
            self.changeover.wf(),
        ensures
            r@ == mzn_matrix_rep(matrix_rows_rep(&self.changeover)),
    {
        mzn_matrix_string(&self.changeover)
    }

    fn dem_matrix(&self) -> (r: String)
        ensures
            r@ == mzn_matrix_rep(self.demands@.map_values(|v: Vec<usize>| num_row_rep(v@))),
    {
        mzn_rows_string(&self.demands)
    }
}

} // verus!
