use cubecl_opt::graph::FlowGraph;
use cubecl_opt::{AtomicCounter, Program};

#[test]
fn nodes_get_rising_indices_and_vacated_ones_again() {
    let mut g = FlowGraph::new();
    assert_eq!(g.add_node(), Some(0));
    assert_eq!(g.add_node(), Some(1));
    assert_eq!(g.add_node(), Some(2));
    assert_eq!(g.node_indices(), vec![0, 1, 2]);
    assert!(g.remove_node(1));
    assert!(!g.remove_node(1));
    assert!(!g.contains_node(1));
    assert!(g.contains_node(2));
    assert_eq!(g.node_indices(), vec![0, 2]);
    assert!(g.remove_node(0));
    // the index that was vacated last comes first
    assert_eq!(g.add_node(), Some(0));
    assert_eq!(g.add_node(), Some(1));
    assert_eq!(g.add_node(), Some(3));
}

#[test]
fn neighbours_come_newest_first() {
    let mut g = FlowGraph::new();
    for _ in 0..4 {
        g.add_node();
    }
    assert!(g.add_edge(0, 1));
    assert!(g.add_edge(0, 2));
    assert!(g.add_edge(3, 2));
    assert!(g.add_edge(0, 3));
    assert!(g.add_edge(1, 2));
    assert_eq!(g.successors(0), vec![3, 2, 1]);
    assert_eq!(g.predecessors(2), vec![1, 3, 0]);
    assert_eq!(g.successors(2), Vec::<u32>::new());
    assert_eq!(g.successors(9), Vec::<u32>::new());
}

#[test]
fn the_newest_of_two_equal_edges_leaves() {
    let mut g = FlowGraph::new();
    for _ in 0..3 {
        g.add_node();
    }
    g.add_edge(0, 1);
    g.add_edge(0, 2);
    g.add_edge(0, 1);
    assert_eq!(g.successors(0), vec![1, 2, 1]);
    assert!(g.remove_edge(0, 1));
    assert_eq!(g.successors(0), vec![2, 1]);
    assert_eq!(g.predecessors(1), vec![0]);
    assert!(g.remove_edge(0, 1));
    assert!(!g.remove_edge(0, 1));
    assert_eq!(g.successors(0), vec![2]);
    assert!(!g.remove_edge(2, 0));
}

#[test]
fn a_node_leaves_with_its_edges() {
    let mut g = FlowGraph::new();
    for _ in 0..3 {
        g.add_node();
    }
    g.add_edge(0, 1);
    g.add_edge(1, 2);
    g.add_edge(0, 2);
    g.add_edge(1, 1);
    assert!(g.remove_node(1));
    assert_eq!(g.successors(0), vec![2]);
    assert_eq!(g.predecessors(2), vec![0]);
}

#[test]
fn immediate_dominators_of_a_diamond() {
    let mut g = FlowGraph::new();
    for _ in 0..6 {
        g.add_node();
    }
    // 0 -> 1 -> 3, 0 -> 2 -> 3, 3 -> 4; 5 stands alone
    g.add_edge(0, 1);
    g.add_edge(0, 2);
    g.add_edge(1, 3);
    g.add_edge(2, 3);
    g.add_edge(3, 4);
    assert_eq!(
        g.immediate_dominators(0),
        vec![None, Some(0), Some(0), Some(0), Some(3), None]
    );
    assert_eq!(
        g.immediate_dominators(1),
        vec![None, None, None, Some(1), Some(3), None]
    );
}

fn diamond() -> Program {
    let mut p = Program::new();
    for _ in 0..5 {
        p.add_block().unwrap();
    }
    p.add_edge(0, 1).unwrap();
    p.add_edge(0, 2).unwrap();
    p.add_edge(1, 3).unwrap();
    p.add_edge(2, 3).unwrap();
    p.add_edge(3, 4).unwrap();
    p
}

#[test]
fn dominance_frontiers_of_a_diamond() {
    let mut p = diamond();
    p.fill_dom_frontiers();
    assert_eq!(p.blocks[0].dom_frontiers, Vec::<u32>::new());
    assert_eq!(p.blocks[1].dom_frontiers, vec![3]);
    assert_eq!(p.blocks[2].dom_frontiers, vec![3]);
    assert_eq!(p.blocks[3].dom_frontiers, Vec::<u32>::new());
}

#[test]
fn dead_blocks_leave_but_not_the_return_block() {
    let mut p = diamond();
    // 5 and 6 cannot be reached, and 6 is the return block
    p.add_block().unwrap();
    p.add_block().unwrap();
    p.add_edge(5, 3).unwrap();
    p.add_edge(5, 6).unwrap();
    p.insert_phi(3, (0, 0), cubecl_opt::Item { elem: cubecl_opt::Elem::Bool, vectorization: 1 });
    let keys = |p: &Program| -> Vec<u32> {
        p.blocks[3].phi_nodes[0].entries.iter().map(|e| e.0).collect()
    };
    assert_eq!(keys(&p), vec![5, 2, 1]);
    let mut counter = AtomicCounter::new(0);
    p.eliminate_dead_blocks(6, &mut counter);
    assert_eq!(counter.get(), 1);
    assert_eq!(p.node_ids(), vec![0, 1, 2, 3, 4, 6]);
    assert_eq!(p.predecessors(3), vec![2, 1]);
    assert_eq!(keys(&p), vec![2, 1]);
    assert_eq!(p.predecessors(6), Vec::<u32>::new());
    // nothing is left to remove
    p.eliminate_dead_blocks(6, &mut counter);
    assert_eq!(counter.get(), 1);
}
