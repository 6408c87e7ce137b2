use dataflow_ops::address::{NodeAddress, RemapTable};
use dataflow_ops::data::{DataType, Message, Record, Update};
use dataflow_ops::graph::{DomainNodes, Graph, StateMap};
use dataflow_ops::identity::Identity;
use dataflow_ops::ingredient::Ingredient;

/// A base node feeding one identity operator, schemas final and one
/// commit applied, as the engine would drive it.
fn setup() -> (Identity, NodeAddress) {
    let mut g = Graph::new();
    let base = g.add_node(vec!["x".to_string(), "y".to_string(), "z".to_string()]);
    let me = g.add_node(vec!["x".to_string(), "y".to_string(), "z".to_string()]);
    let mut op = Identity::new(base);
    op.on_connected(&g);
    let mut remap = RemapTable::new();
    remap.insert(base, base);
    op.on_commit(me, &remap);
    (op, base)
}

#[test]
fn it_forwards() {
    let (mut op, base) = setup();

    let left = Record::Positive(vec![DataType::Int(1), DataType::Text("a".to_string())]);
    let msg = Message {
        from: base,
        data: Update::Records(vec![left.clone()]),
    };
    match op.on_input(msg, &DomainNodes::new(), &StateMap::new()).unwrap() {
        Update::Records(rs) => {
            assert_eq!(rs, vec![left]);
        }
    }
}

#[test]
fn identity_it_suggests_indices() {
    let (op, _) = setup();
    let me = NodeAddress::Global(1);
    let idx = op.suggest_indexes(me);
    assert_eq!(idx.len(), 0);
}

#[test]
fn identity_it_resolves() {
    let (op, base) = setup();
    assert_eq!(op.resolve(0), Some(vec![(base, 0)]));
    assert_eq!(op.resolve(1), Some(vec![(base, 1)]));
    assert_eq!(op.resolve(2), Some(vec![(base, 2)]));
}

#[test]
fn identity_describes() {
    let (op, _) = setup();
    assert_eq!(op.description(), "≡");
}

#[test]
fn identity_planning_answers() {
    let (op, _) = setup();
    assert!(!op.should_materialize());
    assert!(!op.will_query(true));
    assert!(!op.will_query(false));
}

#[test]
fn identity_commit_rewrites_ancestors() {
    let old = NodeAddress::Local(0);
    let new = NodeAddress::Global(5);
    let mut op = Identity::new(old);
    assert_eq!(op.ancestors(), vec![old]);

    let mut remap = RemapTable::new();
    remap.insert(old, new);
    op.on_commit(NodeAddress::Global(7), &remap);
    assert_eq!(op.ancestors(), vec![new]);
}

#[test]
fn identity_forwards_negative_records() {
    let (mut op, base) = setup();

    let gone = Record::Negative(vec![DataType::Int(2), DataType::Null]);
    let msg = Message {
        from: base,
        data: Update::Records(vec![gone.clone()]),
    };
    match op.on_input(msg, &DomainNodes::new(), &StateMap::new()).unwrap() {
        Update::Records(rs) => {
            assert_eq!(rs, vec![gone]);
        }
    }
}
