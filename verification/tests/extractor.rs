use std::collections::HashMap;
use yamlette::book::extractor::pointer::Pointer;
use yamlette::book::extractor::traits::{Dict, FromPointer, List};
use yamlette::book::volume::Volume;
use yamlette::book::word::{TagName, Word};
use yamlette::model::yaml::integer::IntValue;

// A mapping { name: "demo", list: [1, 2, 3], alias: *list, bin: !!binary }
fn sample() -> Volume {
    let mut vol = Volume::new();
    vol.gist.push((None, 0, Word::Mapping(TagName::Static("tag:yaml.org,2002:map"))));
    vol.gist.push((None, 1, Word::Str("name".to_string())));
    vol.gist.push((None, 1, Word::Str("demo".to_string())));
    vol.gist.push((None, 1, Word::Str("list".to_string())));
    vol.gist.push((Some("l".to_string()), 1, Word::Sequence(TagName::Static("tag:yaml.org,2002:seq"))));
    vol.gist.push((None, 2, Word::Int(IntValue::from(1u8))));
    vol.gist.push((None, 2, Word::Int(IntValue::from(2u8))));
    vol.gist.push((None, 2, Word::Int(IntValue::from(300i32))));
    vol.gist.push((None, 1, Word::Str("alias".to_string())));
    vol.gist.push((None, 1, Word::Alias(4)));
    vol.gist.push((None, 1, Word::Str("c".to_string())));
    vol.gist.push((None, 1, Word::Bin(vec![1, 2, 3])));
    vol
}

#[test]
fn pointer_new_on_empty_volume() {
    let vol = Volume::new();
    assert!(Pointer::new(&vol).is_none());
}

#[test]
fn pointer_walks_siblings() {
    let vol = sample();
    let root = Pointer::new(&vol).unwrap();
    assert!(root.next_sibling().is_none());
    assert_eq!(root.count_siblings(), 1);
    let key = root.into_map().unwrap();
    assert_eq!(key.count_siblings(), 8);
    let value = key.next_sibling().unwrap();
    assert_eq!(value.into::<String>(), Some("demo".to_string()));
    assert_eq!(value.into::<&str>(), Some("demo"));
    assert!(value.into::<i64>().is_none());
    assert!(key.into_seq().is_none());
}

#[test]
fn pointer_reads_sequence_items() {
    let vol = sample();
    let list = Pointer::new(&vol).unwrap().into_map().unwrap().next_sibling().unwrap().next_sibling().unwrap().next_sibling().unwrap();
    let first = list.into_seq().unwrap();
    assert_eq!(first.count_siblings(), 3);
    assert_eq!(first.into::<u8>(), Some(1));
    let third = first.next_sibling().unwrap().next_sibling().unwrap();
    assert_eq!(third.into::<i64>(), Some(300));
    assert_eq!(third.into::<u8>(), None);
    assert!(third.next_sibling().is_none());
}

#[test]
fn pointer_follows_aliases() {
    let vol = sample();
    let mut p = Pointer::new(&vol).unwrap().into_map().unwrap();
    for _ in 0..5 {
        p = p.next_sibling().unwrap();
    }
    assert!(matches!(p.to_word(), Word::Alias(4)));
    assert!(matches!(p.unalias().to_word(), Word::Sequence(_)));
    let item = p.into_seq().unwrap();
    assert_eq!(item.into::<u16>(), Some(1));
}

#[test]
fn pointer_compares_by_reading() {
    let vol = sample();
    let key = Pointer::new(&vol).unwrap().into_map().unwrap();
    assert!(key.eq(&"name".to_string()));
    assert!(!key.eq(&"list".to_string()));
    assert!(!key.eq(&5i64));
    let demo = key.next_sibling().unwrap();
    assert!(demo.eq(&"demo".to_string()));
    assert_eq!(<char as FromPointer>::from_pointer(demo), None);
}

#[test]
fn pointer_reads_char_and_bytes() {
    let vol = sample();
    let key = Pointer::new(&vol).unwrap().into_map().unwrap();
    let mut p = key;
    for _ in 0..6 {
        p = p.next_sibling().unwrap();
    }
    assert_eq!(<char as FromPointer>::from_pointer(p), Some('c'));
    let bin = p.next_sibling().unwrap();
    assert_eq!(bin.into::<Vec<u8>>(), Some(vec![1, 2, 3]));
    assert_eq!(<&Vec<u8> as FromPointer>::from_pointer(bin), Some(&vec![1u8, 2, 3]));
    assert!(bin.into::<bool>().is_none());
}

#[test]
fn list_and_dict_collect_values() {
    let vol = sample();
    let root = Pointer::new(&vol).unwrap();
    let seq = root.into_map().unwrap().next_sibling().unwrap().next_sibling().unwrap().next_sibling().unwrap();
    let mut list: Vec<u8> = List::list_new();
    list.list_reserve(3);
    let mut p = seq.into_seq();
    while let Some(ptr) = p {
        list.list_update(ptr);
        p = ptr.next_sibling();
    }
    assert_eq!(list, vec![1, 2]);

    let mut dict: HashMap<String, String> = Dict::dict_new();
    dict.dict_reserve(1);
    let key = root.into_map().unwrap();
    dict.dict_update(key, key.next_sibling().unwrap());
    let list_key = key.next_sibling().unwrap().next_sibling().unwrap();
    dict.dict_update(list_key, list_key.next_sibling().unwrap());
    assert_eq!(dict.len(), 1);
    assert_eq!(dict.get("name"), Some(&"demo".to_string()));
}
