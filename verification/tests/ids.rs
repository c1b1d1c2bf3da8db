use frey::ids::{AgentId, AgentPath, TurnId};


#[test]
fn counter_ids_are_sequential_and_never_random() {
    let a = TurnId::first();
    let b = a.next();
    assert_eq!(b.index(), 1);
    assert_eq!(a.next(), b, "the same input always produces the same next id");
    assert_eq!(b.to_string(), "turn-1");
}

#[test]
fn agent_paths_nest_and_render() {
    let root = AgentPath::root();
    assert!(root.is_root());
    assert_eq!(root.to_string(), "root");
    assert_eq!(root.parent(), None);

    let researcher = root.child(AgentId::new("researcher"));
    let fetcher = researcher.child(AgentId::new("fetcher"));
    assert_eq!(fetcher.to_string(), "root/researcher/fetcher");
    assert_eq!(fetcher.depth(), 2);
    assert_eq!(fetcher.parent().as_ref(), Some(&researcher));
}

#[test]
fn ancestry_is_reflexive_and_directional() {
    let root = AgentPath::root();
    let a = root.child(AgentId::new("a"));
    let b = root.child(AgentId::new("b"));
    let a_child = a.child(AgentId::new("c"));

    assert!(root.is_ancestor_of(&a_child), "the root is an ancestor of everything");
    assert!(a.is_ancestor_of(&a_child));
    assert!(a.is_ancestor_of(&a), "reflexive");
    assert!(!b.is_ancestor_of(&a_child), "siblings are not ancestors");
    assert!(!a_child.is_ancestor_of(&a), "descendants are not ancestors of their parents");
}
