use counterfeit::error::ErrorKind;
use counterfeit::rotation::MultiFileIndexMap;
use counterfeit::rotation::RotationTable;

fn files(names: &[&str]) -> Vec<String> {
    names.iter().map(|name| name.to_string()).collect()
}

#[test]
fn selection_rotates_through_the_candidates() {
    let mut table = RotationTable::new();
    let candidates = files(&["d/get_a.json", "d/get_b.json", "d/get_c.json"]);
    assert_eq!(table.select("d", &candidates).unwrap(), "d/get_a.json");
    assert_eq!(table.select("d", &candidates).unwrap(), "d/get_b.json");
    assert_eq!(table.select("d", &candidates).unwrap(), "d/get_c.json");
    assert_eq!(table.select("d", &candidates).unwrap(), "d/get_a.json");
}

#[test]
fn record_is_one_past_the_served_index() {
    let mut table = RotationTable::new();
    let candidates = files(&["a", "b", "c"]);
    assert_eq!(table.stored("d"), 0);
    table.select("d", &candidates).unwrap();
    assert_eq!(table.stored("d"), 1);
    table.select("d", &candidates).unwrap();
    assert_eq!(table.stored("d"), 2);
    table.select("d", &candidates).unwrap();
    assert_eq!(table.stored("d"), 3);
    table.select("d", &candidates).unwrap();
    assert_eq!(table.stored("d"), 1);
}

#[test]
fn stale_record_restarts_at_the_first_candidate() {
    let mut table = RotationTable::new();
    let many = files(&["1", "2", "3", "4", "5", "6"]);
    for _ in 0..5 {
        table.select("d", &many).unwrap();
    }
    assert_eq!(table.stored("d"), 5);
    let few = files(&["1", "2"]);
    assert_eq!(table.select("d", &few).unwrap(), "1");
    assert_eq!(table.stored("d"), 1);
}

#[test]
fn record_equal_to_the_count_restarts_too() {
    let mut table = RotationTable::new();
    let two = files(&["1", "2"]);
    table.select("d", &two).unwrap();
    table.select("d", &two).unwrap();
    assert_eq!(table.stored("d"), 2);
    assert_eq!(table.select("d", &two).unwrap(), "1");
}

#[test]
fn single_candidate_is_served_every_time() {
    let mut table = RotationTable::new();
    let one = files(&["only"]);
    for _ in 0..3 {
        assert_eq!(table.select("d", &one).unwrap(), "only");
        assert_eq!(table.stored("d"), 1);
    }
}

#[test]
fn nothing_to_select_leaves_the_table_alone() {
    let mut table = RotationTable::new();
    let failure = table.select("d", &Vec::new()).unwrap_err();
    assert_eq!(failure.kind(), ErrorKind::NotFound);
    assert_eq!(failure.message(), "No files available");
    assert_eq!(table.stored("d"), 0);
    let candidates = files(&["a", "b"]);
    table.select("d", &candidates).unwrap();
    table.select("d", &Vec::new()).unwrap_err();
    assert_eq!(table.stored("d"), 1);
    assert_eq!(table.select("d", &candidates).unwrap(), "b");
}

#[test]
fn every_selection_advances_the_index_by_one() {
    let mut table = RotationTable::new();
    let candidates = files(&["0", "1", "2", "3"]);
    let others = files(&["x", "y", "z"]);
    let requests = 10;
    for turn in 0..requests {
        assert_eq!(table.select("d", &candidates).unwrap(), (turn % 4).to_string());
        if turn % 3 == 0 {
            table.select("other", &others).unwrap();
        }
    }
    assert_eq!(table.stored("d") % 4, requests % 4);
    assert_eq!(table.stored("other"), 1);
}

#[test]
fn shared_table_rotates_across_handles() {
    let shared = MultiFileIndexMap::new();
    let other = shared.share();
    let candidates = files(&["d/get_a.json", "d/get_b.json"]);
    assert_eq!(shared.select("d", &candidates).unwrap(), "d/get_a.json");
    assert_eq!(other.select("d", &candidates).unwrap(), "d/get_b.json");
    assert_eq!(shared.select("d", &candidates).unwrap(), "d/get_a.json");
    assert_eq!(other.stored("d"), 1);
}

#[test]
fn shared_table_reports_nothing_to_select() {
    let shared = MultiFileIndexMap::new();
    let failure = shared.select("d", &Vec::new()).unwrap_err();
    assert_eq!(failure.kind(), ErrorKind::NotFound);
    assert_eq!(shared.stored("d"), 0);
}
