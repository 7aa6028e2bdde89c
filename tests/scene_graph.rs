use bee2d::entity::{Component, ComponentRef, GameObject};
use bee2d::scene::{SceneError, SceneGraph};

fn graph_of(n: usize) -> SceneGraph {
    let mut g = SceneGraph::new();
    for _ in 0..n {
        g.add_node();
    }
    g
}

#[test]
fn root_node_chain_is_itself() {
    let g = graph_of(3);
    assert_eq!(g.ancestor_chain(1), vec![1]);
    assert_eq!(g.parent(1), None);
}

#[test]
fn chain_runs_from_root_to_leaf() {
    let mut g = graph_of(4);
    assert_eq!(g.set_parent(1, Some(3)), Ok(()));
    assert_eq!(g.set_parent(0, Some(1)), Ok(()));
    assert_eq!(g.set_parent(2, Some(0)), Ok(()));
    assert_eq!(g.ancestor_chain(2), vec![3, 1, 0, 2]);
    assert_eq!(g.ancestor_chain(3), vec![3]);
}

#[test]
fn reparenting_changes_the_chain() {
    let mut g = graph_of(2);
    let r: usize = 0;
    let c: usize = 1;
    assert_eq!(g.set_parent(c, Some(r)), Ok(()));
    assert_eq!(g.ancestor_chain(c), vec![r, c]);
    let p = g.add_node();
    assert_eq!(g.set_parent(c, Some(p)), Ok(()));
    assert_eq!(g.ancestor_chain(c), vec![p, c]);
    assert_eq!(g.parent(c), Some(p));
    assert_eq!(g.children(r), Vec::<usize>::new());
    assert_eq!(g.children(p), vec![c]);
    assert_eq!(g.subtree(p), vec![c, p]);
}

#[test]
fn cycles_are_refused() {
    let mut g = graph_of(3);
    assert_eq!(g.set_parent(1, Some(0)), Ok(()));
    assert_eq!(g.set_parent(2, Some(1)), Ok(()));
    assert_eq!(g.set_parent(0, Some(2)), Err(SceneError::Cycle));
    assert_eq!(g.set_parent(0, Some(0)), Err(SceneError::Cycle));
    assert_eq!(g.set_parent(1, Some(2)), Err(SceneError::Cycle));
    assert_eq!(g.parent(0), None);
    assert_eq!(g.ancestor_chain(2), vec![0, 1, 2]);
}

#[test]
fn unknown_nodes_are_refused() {
    let mut g = graph_of(2);
    assert_eq!(g.set_parent(5, None), Err(SceneError::UnknownNode));
    assert_eq!(g.set_parent(0, Some(2)), Err(SceneError::UnknownNode));
    assert_eq!(g.parent(7), None);
    assert_eq!(g.len(), 2);
}

#[test]
fn clearing_a_parent_makes_a_root() {
    let mut g = graph_of(2);
    assert_eq!(g.set_parent(1, Some(0)), Ok(()));
    assert_eq!(g.set_parent(1, None), Ok(()));
    assert_eq!(g.ancestor_chain(1), vec![1]);
}

#[test]
fn subtree_holds_all_descendants() {
    let mut g = graph_of(6);
    assert_eq!(g.set_parent(3, Some(1)), Ok(()));
    assert_eq!(g.set_parent(5, Some(3)), Ok(()));
    assert_eq!(g.set_parent(0, Some(1)), Ok(()));
    assert_eq!(g.set_parent(4, Some(2)), Ok(()));
    assert_eq!(g.subtree(1), vec![0, 1, 3, 5]);
    assert_eq!(g.subtree(3), vec![3, 5]);
    assert_eq!(g.children(1), vec![0, 3]);
    assert!(g.has_ancestor_or_self(5, 1));
    assert!(g.has_ancestor_or_self(5, 5));
    assert!(!g.has_ancestor_or_self(4, 1));
}

#[test]
fn game_object_gets_a_root_node() {
    let mut g = graph_of(2);
    let mut obj: GameObject<Counter> = GameObject::new(String::from("player"), &mut g);
    assert_eq!(obj.name(), "player");
    assert_eq!(obj.transform(), 2);
    assert!(obj.components().is_empty());
    obj.attach_component(Counter { ticks: 1 });
    obj.attach_component(Counter { ticks: 2 });
    assert_eq!(obj.components(), &vec![Counter { ticks: 1 }, Counter { ticks: 2 }]);
    obj.set_name(String::from("hero"));
    assert_eq!(obj.name(), "hero");
    assert_eq!(obj.transform(), 2);
    assert_eq!(obj.components().len(), 2);
    assert_eq!(g.len(), 3);
    assert_eq!(g.parent(2), None);
}

#[derive(Debug, PartialEq)]
struct Counter {
    ticks: u32,
}

impl Component for Counter {
    fn start(&mut self) {
        self.ticks = 0;
    }

    fn update(&mut self) {
        self.ticks += 1;
    }

    fn draw(&mut self) {}

    fn box_clone(&self) -> Box<Self> {
        Box::new(Counter { ticks: self.ticks })
    }
}

#[test]
fn duplicated_component_is_independent() {
    let slot = ComponentRef::new(4, Counter { ticks: 3 });
    assert_eq!(slot.owner, 4);
    let mut copy = slot.component.box_clone();
    assert_eq!(*copy, slot.component);
    copy.update();
    assert_eq!(copy.ticks, 4);
    assert_eq!(slot.component.ticks, 3);
}
