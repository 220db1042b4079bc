use yamlette::composer::{dict_size, list_size};
use yamlette::orchestra::chord::{Chord, EmptyDict, EmptyList, Omap, Pairs, SetOf};

#[test]
fn size() {
    let size = "halo".chord_size();
    assert_eq!(1, size);

    let size = ().chord_size();
    assert_eq!(1, size);

    let size = list_size(&[
        ().chord_size(),
        1.chord_size(),
        "2".chord_size(),
        list_size(&[
            4.chord_size(),
            dict_size(&[("a".chord_size(), 1.chord_size()), ("b".chord_size(), 4.chord_size())]),
            3.chord_size(),
        ]),
        ().chord_size(),
    ]);
    assert_eq!(13, size);
}

#[test]
fn chord_size_of_collections() {
    assert_eq!(EmptyList.chord_size(), 1);
    assert_eq!(EmptyDict.chord_size(), 1);
    assert_eq!(vec![1u8, 2, 3].chord_size(), 4);
    assert_eq!(vec![vec![1u8, 2], vec![]].chord_size(), 5);
    assert_eq!(Omap(vec![("a", 1i32), ("b", 2i32)]).chord_size(), 5);
    assert_eq!(Pairs(vec![("a", vec![1u8])]).chord_size(), 4);
    assert_eq!(SetOf(vec!["x".to_string()]).chord_size(), 2);
}

#[test]
fn sizes_of_empty_compositions() {
    assert_eq!(list_size(&[]), 1);
    assert_eq!(dict_size(&[]), 1);
}

#[test]
fn deque_chord_size_counts_itself_and_its_items() {
    let mut d: std::collections::VecDeque<u8> = std::collections::VecDeque::new();
    assert_eq!(d.chord_size(), 1);
    d.push_back(1);
    d.push_back(2);
    d.push_front(0);
    assert_eq!(d.chord_size(), 4);
    let nested: std::collections::VecDeque<Vec<u8>> = std::collections::VecDeque::from(vec![vec![1, 2], vec![]]);
    assert_eq!(nested.chord_size(), 5);
}
