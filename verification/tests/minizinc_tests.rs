use mznlaunch::matrix::Matrix;
use mznlaunch::psp::Psp;
use mznlaunch::tsptw::{TimeWindow, TSPTW};

#[test]
fn psp_renders_solver_input() {
    let mut changeover: Matrix<usize> = Matrix::new(2, 2, 0);
    *changeover.at_mut(0, 1) = 3;
    *changeover.at_mut(1, 0) = 2;
    let psp = Psp {
        n_items: 2,
        horizon: 3,
        changeover,
        stocking: vec![5, 7],
        demands: vec![vec![0, 1, 0], vec![1, 0, 1]],
    };
    let expected = "\nn = 2;\nhorizon = 3;\nchangeover = [|0,3 | 2,0|];\nstocking = [5, 7];\ndemands = [|0,1,0 | 1,0,1|];\n";
    assert_eq!(psp.to_minizinc(), expected);
}

#[test]
fn tsptw_renders_solver_input() {
    let mut distances: Matrix<usize> = Matrix::new(2, 2, 0);
    *distances.at_mut(0, 1) = 15000;
    *distances.at_mut(1, 0) = 15000;
    let t = TSPTW {
        nb_nodes: 2,
        distances,
        timewindows: vec![
            TimeWindow { earliest: 0, latest: 100000 },
            TimeWindow { earliest: 20000, latest: 60000 },
        ],
    };
    let expected = "\ninstance_name = \"ab/cd\";\nn = 2;\ndistance = [|0,15000 | 15000,0|];\ntime_window = [| 0, 100000|20000, 60000 |];";
    assert_eq!(t.to_minizinc("ab/cd"), expected);
}

#[test]
fn empty_psp_renders_empty_collections() {
    let psp = Psp {
        n_items: 0,
        horizon: 0,
        changeover: Matrix::new(0, 0, 0),
        stocking: vec![],
        demands: vec![],
    };
    let expected = "\nn = 0;\nhorizon = 0;\nchangeover = [||];\nstocking = [];\ndemands = [||];\n";
    assert_eq!(psp.to_minizinc(), expected);
}
