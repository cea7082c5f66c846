use lib::id::NodeId;
use std::collections::HashMap;

#[test]
fn ids_are_distinct_keys() {
    let mut table = HashMap::new();
    table.insert(NodeId(0), "a");
    table.insert(NodeId(1), "b");
    assert_eq!(table.get(&NodeId(0)), Some(&"a"));
    assert_eq!(table.get(&NodeId(1)), Some(&"b"));
    assert_ne!(NodeId(0), NodeId(1));
    assert_eq!(NodeId(7).index(), 7);
}
