use ip_blocker::util::readvector;

#[test]
fn sample_vectors() {
    let data = readvector();
    assert_eq!(data, vec![vec![[1, 2, 3, 4], [5, 6, 7, 8]], vec![[9, 10, 11, 12]]]);
}
