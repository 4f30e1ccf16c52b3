use liveness::rwu::{invalid_node, LiveNode, RWUTable, Variable, INV_INV_FALSE, INV_INV_TRUE, RWU};

fn dead(used: bool) -> RWU {
    RWU { reader: invalid_node(), writer: invalid_node(), used }
}

#[test]
fn a_new_table_is_all_dead() {
    let t = RWUTable::new(3, 2).unwrap();
    assert_eq!(t.num_live_nodes(), 3);
    assert_eq!(t.num_vars(), 2);
    for ln in 0..3 {
        for var in 0..2 {
            assert_eq!(t.get(LiveNode(ln), Variable(var)), dead(false));
            assert!(t.is_dead_unused(LiveNode(ln), Variable(var)));
            assert!(!t.get_reader(LiveNode(ln), Variable(var)).is_valid());
            assert!(!t.get_writer(LiveNode(ln), Variable(var)).is_valid());
            assert!(!t.get_used(LiveNode(ln), Variable(var)));
        }
    }
}

#[test]
fn table_size_is_bounded_by_the_tags() {
    assert!(RWUTable::new(usize::MAX, 2).is_none());
    assert!(RWUTable::new(0x1_0000, 0x1_0000).is_none());
    assert!(RWUTable::new(0, 0).is_some());
    assert!(RWUTable::new(0, 5).is_some());
    assert_eq!(INV_INV_FALSE, u32::MAX);
    assert_eq!(INV_INV_TRUE, u32::MAX - 1);
    assert_eq!(LiveNode(7).get(), 7);
    assert_eq!(Variable(9).get(), 9);
    assert!(LiveNode(0).is_valid());
    assert!(!invalid_node().is_valid());
    assert_eq!(invalid_node(), LiveNode(u32::MAX));
}

#[test]
fn assign_then_get() {
    let mut t = RWUTable::new(3, 2).unwrap();
    let full = RWU { reader: LiveNode(2), writer: LiveNode(1), used: true };
    t.assign_unpacked(LiveNode(1), Variable(1), full);
    assert_eq!(t.get(LiveNode(1), Variable(1)), full);
    assert_eq!(t.get_reader(LiveNode(1), Variable(1)), LiveNode(2));
    assert_eq!(t.get_writer(LiveNode(1), Variable(1)), LiveNode(1));
    assert!(t.get_used(LiveNode(1), Variable(1)));
    // Its neighbours in the row and in the column are untouched.
    assert_eq!(t.get(LiveNode(1), Variable(0)), dead(false));
    assert_eq!(t.get(LiveNode(0), Variable(1)), dead(false));
    assert_eq!(t.get(LiveNode(2), Variable(1)), dead(false));
    // A degenerate fact goes back to a tag.
    t.assign_unpacked(LiveNode(1), Variable(1), dead(true));
    assert_eq!(t.get(LiveNode(1), Variable(1)), dead(true));
    assert!(!t.is_dead_unused(LiveNode(1), Variable(1)));
    t.assign_unpacked(LiveNode(1), Variable(1), dead(false));
    assert!(t.is_dead_unused(LiveNode(1), Variable(1)));
}

#[test]
fn copy_shares_and_later_writes_do_not_leak() {
    let mut t = RWUTable::new(3, 1).unwrap();
    let a = RWU { reader: LiveNode(0), writer: invalid_node(), used: false };
    let b = RWU { reader: invalid_node(), writer: LiveNode(2), used: true };
    t.assign_unpacked(LiveNode(0), Variable(0), a);
    t.copy_packed(LiveNode(1), LiveNode(0), Variable(0));
    assert_eq!(t.get(LiveNode(1), Variable(0)), a);
    t.assign_unpacked(LiveNode(0), Variable(0), b);
    assert_eq!(t.get(LiveNode(0), Variable(0)), b);
    assert_eq!(t.get(LiveNode(1), Variable(0)), a);
    t.copy_packed(LiveNode(1), LiveNode(2), Variable(0));
    assert_eq!(t.get(LiveNode(1), Variable(0)), dead(false));
}

#[test]
fn reset_keeps_only_the_used_flag() {
    let mut t = RWUTable::new(1, 2).unwrap();
    t.assign_unpacked(
        LiveNode(0),
        Variable(0),
        RWU { reader: LiveNode(0), writer: LiveNode(0), used: true },
    );
    t.assign_unpacked(
        LiveNode(0),
        Variable(1),
        RWU { reader: LiveNode(0), writer: invalid_node(), used: false },
    );
    t.assign_inv_inv(LiveNode(0), Variable(0));
    t.assign_inv_inv(LiveNode(0), Variable(1));
    assert_eq!(t.get(LiveNode(0), Variable(0)), dead(true));
    assert_eq!(t.get(LiveNode(0), Variable(1)), dead(false));
}
