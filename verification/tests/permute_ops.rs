use dataflow_ops::address::{NodeAddress, RemapTable};
use dataflow_ops::data::{DataType, Message, Record, Update};
use dataflow_ops::graph::{DomainNodes, Graph, StateMap};
use dataflow_ops::ingredient::Ingredient;
use dataflow_ops::permute::Permute;

fn text(s: &str) -> DataType {
    DataType::Text(s.to_string())
}

/// A base node with the given field names feeding one permuter, schemas
/// final and one commit applied, as the engine would drive it.
fn setup_with(fields: &[&str], emit: &[usize]) -> (Permute, NodeAddress) {
    let mut g = Graph::new();
    let schema: Vec<String> = fields.iter().map(|f| f.to_string()).collect();
    let base = g.add_node(schema.clone());
    let me = g.add_node(schema);
    let mut op = Permute::new(base, emit);
    op.on_connected(&g);
    let mut remap = RemapTable::new();
    remap.insert(base, base);
    op.on_commit(me, &remap);
    (op, base)
}

fn setup(all: bool) -> (Permute, NodeAddress) {
    if all {
        setup_with(&["x", "y", "z"], &[0, 1, 2])
    } else {
        setup_with(&["x", "y", "z"], &[2, 0])
    }
}

fn run_one_row(op: &mut Permute, base: NodeAddress, row: Vec<DataType>) -> Vec<Record> {
    let msg = Message {
        from: base,
        data: Update::Records(vec![Record::Positive(row)]),
    };
    match op.on_input(msg, &DomainNodes::new(), &StateMap::new()).unwrap() {
        Update::Records(rs) => rs,
    }
}

#[test]
fn it_describes() {
    let (p, _) = setup(false);
    assert_eq!(p.description(), "π[2, 0]");
}

#[test]
fn it_describes_all() {
    let (p, _) = setup(true);
    assert_eq!(p.description(), "π[*]");
}

#[test]
fn it_forwards_some() {
    let (mut p, base) = setup(false);

    let rec = vec![text("a"), text("b"), text("c")];
    let rs = run_one_row(&mut p, base, rec);
    assert_eq!(rs, vec![Record::Positive(vec![text("c"), text("a")])]);
}

#[test]
fn it_forwards_all() {
    let (mut p, base) = setup(true);

    let rec = vec![text("a"), text("b"), text("c")];
    let rs = run_one_row(&mut p, base, rec);
    assert_eq!(
        rs,
        vec![Record::Positive(vec![text("a"), text("b"), text("c")])]
    );
}

#[test]
fn permute_it_suggests_indices() {
    let me = NodeAddress::Global(1);
    let (p, _) = setup(false);
    let idx = p.suggest_indexes(me);
    assert_eq!(idx.len(), 0);
}

#[test]
fn permute_it_resolves() {
    let (p, base) = setup(false);
    assert_eq!(p.resolve(0), Some(vec![(base, 2)]));
    assert_eq!(p.resolve(1), Some(vec![(base, 0)]));
}

#[test]
fn it_resolves_all() {
    let (p, base) = setup(true);
    assert_eq!(p.resolve(0), Some(vec![(base, 0)]));
    assert_eq!(p.resolve(1), Some(vec![(base, 1)]));
    assert_eq!(p.resolve(2), Some(vec![(base, 2)]));
}

#[test]
fn permute_matches_naive_gather() {
    // A walk of this emit specification leaves the emitted range and has
    // to hand the parked value to an earlier unsettled output.
    let (mut p, base) = setup_with(&["w", "x", "y", "z"], &[3, 2, 0]);

    let rec = vec![text("a"), text("b"), text("c"), text("d")];
    let rs = run_one_row(&mut p, base, rec.clone());
    let expect: Vec<DataType> = vec![3usize, 2, 0].iter().map(|&i| rec[i].clone()).collect();
    assert_eq!(rs, vec![Record::Positive(expect)]);
}

#[test]
fn permute_drops_every_column() {
    let (mut p, base) = setup_with(&["x", "y", "z"], &[]);
    assert_eq!(p.description(), "π[]");

    let rs = run_one_row(&mut p, base, vec![text("a"), text("b"), text("c")]);
    assert_eq!(rs, vec![Record::Positive(vec![])]);
}

#[test]
fn permute_describes_multidigit_columns() {
    let fields = [
        "a", "b", "c", "d", "e", "f", "g", "h", "i", "j", "k", "l",
    ];
    let (p, _) = setup_with(&fields[..], &[10, 3]);
    assert_eq!(p.description(), "π[10, 3]");
}

#[test]
fn permute_keeps_negative_sign() {
    let (mut p, base) = setup(false);

    let msg = Message {
        from: base,
        data: Update::Records(vec![Record::Negative(vec![text("a"), text("b"), text("c")])]),
    };
    match p.on_input(msg, &DomainNodes::new(), &StateMap::new()).unwrap() {
        Update::Records(rs) => {
            assert_eq!(rs, vec![Record::Negative(vec![text("c"), text("a")])]);
        }
    }
}

#[test]
fn permute_commit_collapse_is_idempotent() {
    let (mut p, base) = setup(true);
    assert_eq!(p.description(), "π[*]");

    // A second commit with the same mapping must not reintroduce the
    // collapsed emit specification or change behavior.
    let me = NodeAddress::Global(1);
    let mut remap = RemapTable::new();
    remap.insert(base, base);
    remap.insert(me, me);
    p.on_commit(me, &remap);
    assert_eq!(p.description(), "π[*]");

    let rec = vec![text("a"), text("b"), text("c")];
    let rs = run_one_row(&mut p, base, rec.clone());
    assert_eq!(rs, vec![Record::Positive(rec)]);
}

#[test]
fn permute_commit_rewrites_ancestors() {
    let old = NodeAddress::Local(0);
    let new = NodeAddress::Global(9);
    let mut p = Permute::new(old, &[1, 0]);
    assert_eq!(p.ancestors(), vec![old]);

    let mut remap = RemapTable::new();
    remap.insert(old, new);
    p.on_commit(NodeAddress::Global(3), &remap);
    assert_eq!(p.ancestors(), vec![new]);
}

#[test]
fn permute_planning_answers() {
    let (p, _) = setup(false);
    assert!(!p.should_materialize());
    assert!(!p.will_query(true));
    assert!(p.will_query(false));
}

#[test]
fn state_map_lookup() {
    let (_, base) = setup(false);
    let states = StateMap::new();
    assert!(states.rows_for(base).is_none());

    let cached = vec![Record::Positive(vec![text("a")])];
    let states = StateMap {
        states: vec![(base, cached.clone())],
    };
    assert_eq!(states.rows_for(base), Some(&cached));
    assert!(states.rows_for(NodeAddress::Global(42)).is_none());
}

#[test]
fn domain_nodes_membership() {
    let nodes = DomainNodes {
        members: vec![NodeAddress::Global(1), NodeAddress::Global(2)],
    };
    assert!(nodes.contains(NodeAddress::Global(2)));
    assert!(!nodes.contains(NodeAddress::Global(3)));
    assert!(!DomainNodes::new().contains(NodeAddress::Global(1)));
}

#[test]
fn remap_table_translates() {
    let mut remap = RemapTable::new();
    remap.insert(NodeAddress::Local(0), NodeAddress::Global(4));
    remap.insert(NodeAddress::Local(1), NodeAddress::Global(5));
    assert_eq!(remap.translate(NodeAddress::Local(0)), NodeAddress::Global(4));
    assert_eq!(remap.translate(NodeAddress::Local(1)), NodeAddress::Global(5));
}
