use wnfs::cid::{Cid, CidSet};
use wnfs::keyset::{copy_bytes, KeySet};
use wnfs::lex::{rank, Rank};

fn cid(bytes: &[u8]) -> Cid {
    Cid::from_bytes(bytes.to_vec())
}

#[test]
fn rank_is_lexicographic() {
    assert_eq!(rank(&[], &[]), Rank::Same);
    assert_eq!(rank(&[], &[0]), Rank::Before);
    assert_eq!(rank(&[0], &[]), Rank::After);
    assert_eq!(rank(&[1, 2, 3], &[1, 2, 3]), Rank::Same);
    assert_eq!(rank(&[1, 2], &[1, 2, 0]), Rank::Before);
    assert_eq!(rank(&[1, 3], &[1, 2, 9]), Rank::After);
    assert_eq!(rank(&[0, 255], &[1]), Rank::Before);
    assert_eq!(rank(&[200], &[100, 100]), Rank::After);
}

#[test]
fn cid_keeps_its_bytes() {
    let c = cid(&[1, 0x55, 0x1e, 0x20, 7]);
    assert_eq!(c.as_bytes(), &vec![1, 0x55, 0x1e, 0x20, 7]);
    assert_eq!(c.to_bytes(), vec![1, 0x55, 0x1e, 0x20, 7]);
    assert_eq!(c.clone(), c);
    assert_ne!(c, cid(&[1, 0x55, 0x1e, 0x20, 8]));
    assert_eq!(c.rank(&cid(&[2])), Rank::Before);
    assert_eq!(c.rank(&c), Rank::Same);
    assert_eq!(cid(&[2]).rank(&c), Rank::After);
    assert_eq!(copy_bytes(&[4, 5, 6]), vec![4, 5, 6]);
}

#[test]
fn set_holds_each_member_once_in_order() {
    let mut set = CidSet::new();
    assert!(set.is_empty());
    assert!(set.first().is_none());
    assert!(set.insert(cid(&[5])));
    assert!(set.insert(cid(&[1, 9])));
    assert!(set.insert(cid(&[3])));
    assert!(!set.insert(cid(&[5])));
    assert!(set.insert(cid(&[1])));
    assert_eq!(set.len(), 4);
    assert!(!set.is_empty());
    assert_eq!(set.to_vec(), vec![cid(&[1]), cid(&[1, 9]), cid(&[3]), cid(&[5])]);
    assert_eq!(set.get(2), cid(&[3]));
    assert_eq!(set.first(), Some(cid(&[1])));
    assert!(set.contains(&cid(&[1, 9])));
    assert!(!set.contains(&cid(&[1, 8])));
    assert!(!set.contains(&cid(&[])));
}

#[test]
fn from_vec_and_union() {
    let a = CidSet::from_vec(&vec![cid(&[3]), cid(&[1]), cid(&[3]), cid(&[2])]);
    assert_eq!(a.to_vec(), vec![cid(&[1]), cid(&[2]), cid(&[3])]);
    let b = CidSet::from_vec(&vec![cid(&[4]), cid(&[2]), cid(&[0])]);
    let ab = a.union(&b);
    let ba = b.union(&a);
    assert_eq!(
        ab.to_vec(),
        vec![cid(&[0]), cid(&[1]), cid(&[2]), cid(&[3]), cid(&[4])]
    );
    assert!(ab.equals(&ba));
    assert!(a.union(&a).equals(&a));
    assert!(!a.equals(&b));
    assert!(a.union(&CidSet::new()).equals(&a));
    assert!(CidSet::singleton(cid(&[7])).equals(&CidSet::from_vec(&vec![cid(&[7]), cid(&[7])])));
    assert!(a.clone().equals(&a));
}

#[test]
fn key_set_places() {
    let mut set = KeySet::new();
    assert_eq!(set.insert(vec![5]), (0, true));
    assert_eq!(set.insert(vec![9]), (1, true));
    assert_eq!(set.insert(vec![7]), (1, true));
    assert_eq!(set.insert(vec![9]), (2, false));
    assert_eq!(set.insert(vec![]), (0, true));
    assert_eq!(set.to_vec(), vec![vec![], vec![5], vec![7], vec![9]]);
    assert_eq!(set.len(), 4);
    assert_eq!(set.get(3), &vec![9]);
    assert_eq!(set.index_of(&[7]), Some(2));
    assert_eq!(set.index_of(&[8]), None);
    assert_eq!(set.position(&[8]), 3);
    assert_eq!(set.position(&[10]), 4);
    assert_eq!(set.position(&[]), 0);
    assert!(set.contains(&[5]));
    assert!(!set.contains(&[6]));
    let other = KeySet::from_vec(&vec![vec![9], vec![7], vec![5], vec![], vec![5]]);
    assert!(set.equals(&other));
    assert!(set.union(&other).equals(&set));
    assert!(set.clone().equals(&set));
}
