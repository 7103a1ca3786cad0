use omflink::group::Group;
use omflink::index_map::IndexMap;
use omflink::lnames::LNames;
use omflink::omf_vec::OmfVec;

#[test]
fn group_basics() {
    let mut group = Group::new(1);

    assert_eq!(group.name, 1);

    group.add(1);
    group.add(2);
    group.add(2);

    assert_eq!(group.members.len(), 2);

    assert!(group.has(1));
    assert!(group.has(2));
    assert!(!group.has(3));
}

#[test]
fn iterates() {
    let mut group = Group::new(1);

    assert_eq!(group.name, 1);

    group.add(1);
    group.add(2);
    group.add(2);
    group.add(3);

    let mut iter = group.iter();

    assert_eq!(iter.next(), Some(1));
    assert_eq!(iter.next(), Some(2));
    assert_eq!(iter.next(), Some(3));
    assert_eq!(iter.next(), None);
}

#[test]
fn group_members_by_position() {
    let mut group = Group::new(7);
    group.add(5);
    group.add(3);
    group.add(5);
    assert_eq!(group.len(), 2);
    assert_eq!(group.member(0), 5);
    assert_eq!(group.member(1), 3);
    assert_eq!(group.base, 0);
}

#[test]
fn index_map_basics() {
    let mut indices = IndexMap::new();

    assert_eq!(indices.len(), 0);
    assert_eq!(indices.add(42), 1);
    assert_eq!(indices.len(), 1);

    assert_eq!(indices.get(0), 0);
    assert_eq!(indices.get(1), 42);
}

#[test]
fn index_map_valid_indices() {
    let mut indices = IndexMap::new();
    assert!(indices.is_valid_index(0));
    assert!(!indices.is_valid_index(1));
    indices.add(7);
    assert!(indices.is_valid_index(1));
    assert!(!indices.is_valid_index(2));
}

#[test]
fn lnames_basics() {
    let mut lnames = LNames::new();

    assert_eq!(lnames.len(), 0);
    assert_eq!(lnames.add("ABC"), 1);
    assert_eq!(lnames.len(), 1);

    assert_eq!(lnames.get(0), "");
    assert_eq!(lnames.get(1), "ABC");
}

#[test]
fn find_or_add() {
    let mut lnames = LNames::new();

    assert_eq!(lnames.len(), 0);
    assert_eq!(lnames.add("ABC"), 1);
    assert_eq!(lnames.len(), 1);

    assert_eq!(lnames.find_or_add("ABC"), 1);
    assert_eq!(lnames.len(), 1);
    assert_eq!(lnames.find_or_add("DEF"), 2);
    assert_eq!(lnames.len(), 2);
}

#[test]
fn find_or_add_is_case_sensitive_and_finds_first() {
    let mut lnames = LNames::new();
    assert_eq!(lnames.add("abc"), 1);
    assert_eq!(lnames.add("ABC"), 2);
    assert_eq!(lnames.add("ABC"), 3);
    assert_eq!(lnames.find_or_add("ABC"), 2);
    assert_eq!(lnames.find_or_add("Abc"), 4);
    assert_eq!(lnames.len(), 4);
}

#[test]
fn omf_vec_basics() {
    let mut v = OmfVec::new();

    assert_eq!(v.len(), 0);

    v.push(1);
    assert_eq!(v.len(), 1);
    assert_eq!(*v.get(1), 1);

    v.set(1, 2);

    assert_eq!(v.len(), 1);
    assert_eq!(*v.get(1), 2);

    assert_eq!(v.add(42), 2);
}

#[test]
fn omf_vec_valid_indices() {
    let mut v = OmfVec::new();
    assert!(!v.is_valid_index(0));
    assert!(!v.is_valid_index(1));
    v.push(9u8);
    assert!(!v.is_valid_index(0));
    assert!(v.is_valid_index(1));
    assert!(!v.is_valid_index(2));
}

#[test]
fn iterate() {
    let mut v = OmfVec::new();

    v.push(1);
    v.push(2);
    v.push(3);

    let mut iter = v.iter();

    assert_eq!(iter.next(), Some(&1));
    assert_eq!(iter.next(), Some(&2));
    assert_eq!(iter.next(), Some(&3));
    assert_eq!(iter.next(), None);
}
