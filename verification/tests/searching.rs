use algorithms_rs::searching::liner;
use random::Source;

#[test]
fn test_liner_search() {
    let data_set = vec![21, 22, 31, 4, 55, 67];
    assert_eq!(liner::search(&data_set, &4), Some(3));
    assert_eq!(liner::search(&data_set, &666), None);

    let data_set = [21, 22, 31, 4, 55, 67];
    assert_eq!(liner::search(&data_set, &4), Some(3));
    assert_eq!(liner::search(&data_set, &666), None);

    let data_set = "abcdef";
    assert_eq!(liner::search(data_set.as_bytes(), &b'c'), Some(2));
    assert_eq!(liner::search(data_set.as_bytes(), &b'h'), None);

    let data_set = "abcdef".to_string();
    assert_eq!(liner::search(data_set.as_bytes(), &b'c'), Some(2));
    assert_eq!(liner::search(data_set.as_bytes(), &b'h'), None);
}

#[test]
fn bench_liner_search() {
    let mut gen = random::Xorshift128Plus::new([0, 100]);
    let data_set: Vec<i32> = gen.iter().take(30).collect();
    for _ in 0..1000 {
        liner::search(&data_set, &4);
    }
}

#[test]
fn search_first_match_and_empty() {
    let data_set = [9, 9, 9];
    assert_eq!(liner::search(&data_set, &9), Some(0));
    let empty: [i32; 0] = [];
    assert_eq!(liner::search(&empty, &9), None);
}
