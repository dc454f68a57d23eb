use vstd::prelude::*;

use crate::matrix::Matrix;
use crate::numfmt::{dec_rep, u64_to_string};

verus! {

/// The parts joined with the separator between neighbours.
pub open spec fn join(parts: Seq<Seq<char>>, sep: Seq<char>) -> Seq<char>
    decreases parts.len(),
{
    if parts.len() == 0 {
        Seq::empty()
    } else if parts.len() == 1 {
        parts[0]
    } else {
        join(parts.drop_last(), sep) + sep + parts.last()
    }
}

/// One row of numbers, comma separated.
pub open spec fn num_row_rep(row: Seq<usize>) -> Seq<char> {
    join(row.map_values(|x: usize| dec_rep(x as nat)), ","@)
}

/// The rows of a numeric matrix, each rendered comma separated.
pub open spec fn matrix_rows_rep(m: &Matrix<usize>) -> Seq<Seq<char>> {
    Seq::new(
        m.spec_rows(),
        |i: int|
            num_row_rep(
                m.contents().subrange(i * m.spec_cols() as int, (i + 1) * m.spec_cols() as int),
            ),
    )
}

/// A matrix in the solver's input syntax: rows joined with pipes between
/// square brackets.
pub open spec fn mzn_matrix_rep(rows: Seq<Seq<char>>) -> Seq<char> {
    "[|"@ + join(rows, " | "@) + "|]"@
}

/// A list of numbers in bracketed debug syntax.
pub open spec fn num_list_rep(s: Seq<usize>) -> Seq<char> {
    "["@ + join(s.map_values(|x: usize| dec_rep(x as nat)), ", "@) + "]"@
}

pub(crate) fn usize_to_string(x: usize) -> (r: String)
    ensures
        r@ == dec_rep(x as nat),
{
    u64_to_string(x as u64)
}

/// One comma-separated row of numbers.
pub fn num_row_string(row: &[usize]) -> (r: String)
    ensures
        r@ == num_row_rep(row@),
{
    let ghost mapped = row@.map_values(|x: usize| dec_rep(x as nat));
    let mut out = String::new();
    let mut j: usize = 0;
    proof {
        assert(mapped.subrange(0, 0) =~= Seq::<Seq<char>>::empty());
    }
    while j < row.len()
        invariant
            0 <= j <= row@.len(),
            mapped == row@.map_values(|x: usize| dec_rep(x as nat)),
            out@ == join(mapped.subrange(0, j as int), ","@),
        decreases row@.len() - j,
    {
        if j > 0 {
            out.append(",");
        }
        let s = usize_to_string(row[j]);
        out.append(s.as_str());
        proof {
            assert(mapped.subrange(0, j as int + 1).drop_last() =~= mapped.subrange(0, j as int));
            assert(mapped.subrange(0, j as int + 1).last() == mapped[j as int]);
            assert(out@ =~= join(mapped.subrange(0, j as int + 1), ","@));
        }
        j += 1;
    }
    proof {
        assert(mapped.subrange(0, row@.len() as int) =~= mapped);
    }
    out
}

/// A whole numeric matrix in the solver's input syntax.
pub fn mzn_matrix_string(m: &Matrix<usize>) -> (r: String)
    requires
        m.wf(),
    ensures
        r@ == mzn_matrix_rep(matrix_rows_rep(m)),
{
    let ghost rows = matrix_rows_rep(m);
    let mut out = "[|".to_owned();
    let n = m.rows();
    let mut i: usize = 0;
    proof {
        assert(rows.subrange(0, 0) =~= Seq::<Seq<char>>::empty());
        assert(out@ =~= "[|"@ + join(rows.subrange(0, 0), " | "@));
    }
    while i < n
        invariant
            0 <= i <= n,
            n == m.spec_rows(),
            m.wf(),
            rows == matrix_rows_rep(m),
            out@ == "[|"@ + join(rows.subrange(0, i as int), " | "@),
        decreases n - i,
    {
        if i > 0 {
            out.append(" | ");
        }
        let line = num_row_string(m.row(i));
        out.append(line.as_str());
        proof {
            assert(rows.subrange(0, i as int + 1).drop_last() =~= rows.subrange(0, i as int));
            assert(rows.subrange(0, i as int + 1).last() == rows[i as int]);
            assert(out@ =~= "[|"@ + join(rows.subrange(0, i as int + 1), " | "@));
        }
        i += 1;
    }
    out.append("|]");
    proof {
        assert(rows.subrange(0, n as int) =~= rows);
        assert(out@ =~= mzn_matrix_rep(rows));
    }
    out
}

/// Rows given as a vector of vectors, in the solver's input syntax.
pub fn mzn_rows_string(rows: &Vec<Vec<usize>>) -> (r: String)
    ensures
        r@ == mzn_matrix_rep(rows@.map_values(|v: Vec<usize>| num_row_rep(v@))),
{
    let ghost reps = rows@.map_values(|v: Vec<usize>| num_row_rep(v@));
    let mut out = "[|".to_owned();
    let mut i: usize = 0;
    proof {
        assert(reps.subrange(0, 0) =~= Seq::<Seq<char>>::empty());
        assert(out@ =~= "[|"@ + join(reps.subrange(0, 0), " | "@));
    }
    while i < rows.len()
        invariant
            0 <= i <= rows@.len(),
            reps == rows@.map_values(|v: Vec<usize>| num_row_rep(v@)),
            out@ == "[|"@ + join(reps.subrange(0, i as int), " | "@),
        decreases rows@.len() - i,
    {
        if i > 0 {
            out.append(" | ");
        }
        let line = num_row_string(rows[i].as_slice());
        out.append(line.as_str());
        proof {
            assert(reps.subrange(0, i as int + 1).drop_last() =~= reps.subrange(0, i as int));
            assert(reps.subrange(0, i as int + 1).last() == reps[i as int]);
            assert(out@ =~= "[|"@ + join(reps.subrange(0, i as int + 1), " | "@));
        }
        i += 1;
    }
    out.append("|]");
    proof {
        assert(reps.subrange(0, rows@.len() as int) =~= reps);
        assert(out@ =~= mzn_matrix_rep(reps));
    }
    out
}

/// A list of numbers in bracketed debug syntax.
pub fn num_list_string(s: &Vec<usize>) -> (r: String)
    ensures
        r@ == num_list_rep(s@),
{
    let ghost mapped = s@.map_values(|x: usize| dec_rep(x as nat));
    let mut out = "[".to_owned();
    let mut j: usize = 0;
    proof {
        assert(mapped.subrange(0, 0) =~= Seq::<Seq<char>>::empty());
        assert(out@ =~= "["@ + join(mapped.subrange(0, 0), ", "@));
    }
    while j < s.len()
        invariant
            0 <= j <= s@.len(),
            mapped == s@.map_values(|x: usize| dec_rep(x as nat)),
            out@ == "["@ + join(mapped.subrange(0, j as int), ", "@),
        decreases s@.len() - j,
    {
        if j > 0 {
            out.append(", ");
        }
        let num = usize_to_string(s[j]);
        out.append(num.as_str());
        proof {
            assert(mapped.subrange(0, j as int + 1).drop_last() =~= mapped.subrange(0, j as int));
            assert(mapped.subrange(0, j as int + 1).last() == mapped[j as int]);
            assert(out@ =~= "["@ + join(mapped.subrange(0, j as int + 1), ", "@));
        }
        j += 1;
    }
    out.append("]");
    proof {
        assert(mapped.subrange(0, s@.len() as int) =~= mapped);
        assert(out@ =~= num_list_rep(s@));
    }
    out
}

} // verus!
