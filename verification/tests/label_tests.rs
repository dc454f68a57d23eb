use mznlaunch::label::name;

#[test]
fn label_of_relative_path() {
    assert_eq!(name("bench1/inst01"), "bench1/inst01");
}

#[test]
fn label_of_nested_path() {
    assert_eq!(name("data/bench2/x.txt"), "bench2/x.txt");
}

#[test]
fn label_of_absolute_path() {
    assert_eq!(name("/data/bench2/x.txt"), "bench2/x.txt");
}
