use irlf::connectioniterator::chainclone::{ChainClone, IteratorGiver};
use irlf::connectioniterator::nesting::Nesting;

#[test]
fn chain() {
    let giver = |i: u64, v: Vec<&'static str>| IteratorGiver { iface: i, items: v };
    let mut chain = ChainClone::new(
        Nesting::new(),
        99u64,
        vec![
            giver(43, vec!["a", "b", "c"]),
            giver(44, vec!["d", "e", "f"]),
            giver(45, vec!["h", "i", "j"]),
            giver(46, vec!["k", "l", "m"]),
        ],
    );
    assert_eq!(
        chain.collect(),
        vec!["a", "b", "c", "d", "e", "f", "h", "i", "j", "k", "l", "m"]
    );
}

#[test]
fn empty_chain_yields_nothing() {
    let mut chain: ChainClone<u8, u8> = ChainClone::new(Nesting::new(), 0, vec![]);
    assert_eq!(chain.next(), None);
    assert_eq!(chain.collect(), Vec::<u8>::new());
}

#[test]
fn empty_giver_in_the_middle_is_skipped() {
    let mut chain = ChainClone::new(
        Nesting::new(),
        0u8,
        vec![
            IteratorGiver { iface: 1u8, items: vec![1u32, 2] },
            IteratorGiver { iface: 2u8, items: vec![] },
            IteratorGiver { iface: 3u8, items: vec![3u32] },
        ],
    );
    assert_eq!(chain.next(), Some(1));
    assert_eq!(chain.collect(), vec![2, 3]);
}

#[test]
fn nesting_consumers_see_later_producers() {
    let mut n: Nesting<u8> = Nesting::new();
    n.start_producer(1);
    n.start_consumer();
    assert_eq!(n.active(), None);
    n.start_producer(2);
    n.start_producer(3);
    assert_eq!(n.active(), Some(&[2u8, 3][..]));
    n.stop_producer();
    assert_eq!(n.active(), Some(&[2u8][..]));
    n.stop_consumer();
    assert_eq!(n.active(), Some(&[1u8, 2][..]));
}

#[test]
fn a_checkpoint_replays_from_where_it_was_taken() {
    let mut chain = ChainClone::new(
        Nesting::new(),
        7u8,
        vec![
            IteratorGiver { iface: 1u8, items: vec![1u32, 2] },
            IteratorGiver { iface: 2u8, items: vec![3u32] },
        ],
    );
    assert_eq!(chain.next(), Some(1));
    let mut copy = chain.checkpoint();
    assert_eq!(chain.collect(), vec![2, 3]);
    assert_eq!(copy.collect(), vec![2, 3]);
    let mut n = copy.finish();
    n.start_consumer();
    assert_eq!(n.active(), None);
    n.stop_consumer();
    assert_eq!(n.active(), Some(&[7u8][..]));
}
