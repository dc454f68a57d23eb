use vstd::prelude::*;

verus! {

/// Where the run label's first component starts: right after the last
/// separator of the prefix before `j`, or at the front when that prefix holds
/// no separator.
pub open spec fn bench_start(s: Seq<char>, j: int) -> int {
    match s.subrange(0, j).index_of_last('/') {
        Some(k) => k + 1,
        None => 0,
    }
}

/// An instance path a run label can be read from: it has a separator, a
/// nonempty final component, a nonempty component right before that, and
/// neither component is a relative-path dot form.
pub open spec fn label_input_ok(s: Seq<char>) -> bool {
    &&& s.index_of_last('/') is Some
    &&& {
        let j = s.index_of_last('/').unwrap();
        &&& j + 1 < s.len()
        &&& bench_start(s, j) < j
        &&& s.subrange(j + 1, s.len() as int) != "."@
        &&& s.subrange(j + 1, s.len() as int) != ".."@
        &&& s.subrange(bench_start(s, j), j) != "."@
        &&& s.subrange(bench_start(s, j), j) != ".."@
    }
}

/// The run label of an instance path: the name of the directory holding the
/// file, a separator, and the file's own name.
pub open spec fn label_rep(s: Seq<char>) -> Seq<char> {
    let j = s.index_of_last('/').unwrap();
    s.subrange(bench_start(s, j), j) + "/"@ + s.subrange(j + 1, s.len() as int)
}

fn rfind_slash_below(s: &str, hi: usize, n: usize) -> (r: Option<usize>)
    requires
        n == s@.len(),
        hi <= n,
    ensures
        match r {
            Some(j) => j < hi && s@[j as int] == '/' && forall|t: int| j < t < hi ==> s@[t] != '/',
            None => forall|t: int| 0 <= t < hi ==> s@[t] != '/',
        },
{
    let mut k = hi;
    while k > 0
        invariant
            0 <= k <= hi <= n,
            n == s@.len(),
            forall|t: int| k <= t < hi ==> s@[t] != '/',
        decreases k,
    {
        k -= 1;
        if s.get_char(k) == '/' {
            return Some(k);
        }
    }
    None
}

/// The run label of an instance path: `"<benchmark directory>/<file name>"`,
/// read from the two final path components.
pub fn name(fname: &str) -> (r: String)
    requires
        label_input_ok(fname@),
    ensures
        r@ == label_rep(fname@),
{
    let n = fname.unicode_len();
    let j: usize;
    match rfind_slash_below(fname, n, n) {
        Some(found) => {
            j = found;
            proof {
                fname@.index_of_last_ensures('/');
                let jj = fname@.index_of_last('/').unwrap();
                assert(fname@[jj] == '/');
                assert(!(jj < j) && !(jj > j));
            }
        },
        None => {
            proof {
                fname@.index_of_last_ensures('/');
                let jj = fname@.index_of_last('/').unwrap();
                assert(fname@[jj] == '/');
                assert(false);
            }
            j = 0;
        },
    }
    let start: usize;
    match rfind_slash_below(fname, j, n) {
        Some(k) => {
            start = k + 1;
            proof {
                let pre = fname@.subrange(0, j as int);
                pre.index_of_last_ensures('/');
                assert(pre[k as int] == fname@[k as int]);
                match pre.index_of_last('/') {
                    Some(k2) => {
                        assert(pre[k2] == fname@[k2]);
                        assert(!(k2 < k) && !(k2 > k));
                        assert(bench_start(fname@, j as int) == k + 1);
                    },
                    None => {
                        assert(pre.contains(pre[k as int]));
                        assert(false);
                    },
                }
            }
        },
        None => {
            start = 0;
            proof {
                let pre = fname@.subrange(0, j as int);
                pre.index_of_last_ensures('/');
                match pre.index_of_last('/') {
                    Some(k2) => {
                        assert(pre[k2] == fname@[k2]);
                        assert(false);
                    },
                    None => {},
                }
                assert(bench_start(fname@, j as int) == 0);
            }
        },
    }
    let bench = fname.substring_char(start, j);
    let file = fname.substring_char(j + 1, n);
    let mut out = bench.to_owned();
    out.append("/");
    out.append(file);
    proof {
        assert(out@ =~= label_rep(fname@));
    }
    out
}

} // verus!
