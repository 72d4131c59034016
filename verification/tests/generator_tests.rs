use arbitrary::Unstructured;
use policy_slicing::tinytodo_generator::{
    application, construct_mapping, entity_to_group_entry, make_orphan, make_uid, option_to_vec,
    tree_to_entities, Entity, GenError, HasId, NameGenerator, TeamTree, TinyTodoConfig,
};

#[test]
fn make_uid_assembles_group_and_name() {
    let u = make_uid("User", "alice");
    assert_eq!(u.text(), "User::\"alice\"");
    let t = make_uid("Team", "admin");
    assert_eq!(t.text(), "Team::\"admin\"");
}

#[test]
fn application_uid_is_fixed() {
    assert_eq!(application().text(), "Application::\"TinyTodo\"");
}

#[test]
fn is_user_looks_for_the_user_marker() {
    assert!(make_uid("User", "alice").is_user());
    assert!(!make_uid("Team", "alice").is_user());
    assert!(!application().is_user());
    // The marker may sit anywhere in the text.
    assert!(make_uid("Team", "User").is_user());
}

#[test]
fn group_entry_copies_id_and_parents() {
    let e = Entity {
        euid: make_uid("User", "bob"),
        parents: vec![make_uid("Team", "interns"), make_uid("Team", "temps")],
    };
    let (id, parents) = entity_to_group_entry(&e);
    assert_eq!(id, e.euid);
    assert_eq!(parents, e.parents);
}

#[test]
fn construct_mapping_pairs_each_entity_with_its_id() {
    let a = Entity {
        euid: make_uid("User", "a"),
        parents: vec![],
    };
    let b = Entity {
        euid: make_uid("User", "b"),
        parents: vec![],
    };
    let mapping = construct_mapping(vec![a.clone(), b.clone()]);
    assert_eq!(mapping.len(), 2);
    assert_eq!(mapping[0].0, a.id());
    assert_eq!(mapping[0].1.euid, a.euid);
    assert_eq!(mapping[1].0, b.id());
    assert_eq!(mapping[1].1.euid, b.euid);
}

#[test]
fn construct_mapping_keeps_the_last_of_duplicate_ids() {
    // Two entities share an id: only the later one survives, as a map
    // keyed by id would keep it.
    let early = Entity {
        euid: make_uid("User", "a"),
        parents: vec![],
    };
    let late = Entity {
        euid: make_uid("User", "a"),
        parents: vec![make_uid("Team", "t")],
    };
    let other = Entity {
        euid: make_uid("User", "b"),
        parents: vec![],
    };
    let mapping = construct_mapping(vec![early, other.clone(), late.clone()]);
    assert_eq!(mapping.len(), 2);
    assert_eq!(mapping[0].0, other.id());
    assert_eq!(mapping[0].1.parents, other.parents);
    assert_eq!(mapping[1].0, late.id());
    assert_eq!(mapping[1].1.parents, late.parents);
}

#[test]
fn option_to_vec_keeps_the_value() {
    assert_eq!(option_to_vec(Some(5u64)), vec![5u64]);
    assert_eq!(option_to_vec(None::<u64>), Vec::<u64>::new());
}

#[test]
fn orphans_are_parented_on_the_application() {
    let e = make_orphan(make_uid("List", "chores"));
    assert_eq!(e.euid.text(), "List::\"chores\"");
    assert_eq!(e.parents.len(), 1);
    assert_eq!(e.parents[0], application());
}

#[test]
fn tree_flattening_visits_left_right_node() {
    let t = TeamTree::node(
        make_uid("Team", "root"),
        TeamTree::Leaf(Some(make_uid("Team", "left"))),
        TeamTree::Leaf(Some(make_uid("Team", "right"))),
    );
    let entities = tree_to_entities(t, None);
    assert_eq!(entities.len(), 3);
    assert_eq!(entities[0].euid.text(), "Team::\"left\"");
    assert_eq!(entities[0].parents[0].text(), "Team::\"root\"");
    assert_eq!(entities[1].euid.text(), "Team::\"right\"");
    assert_eq!(entities[1].parents[0].text(), "Team::\"root\"");
    assert_eq!(entities[2].euid.text(), "Team::\"root\"");
    assert!(entities[2].parents.is_empty());
}

#[test]
fn empty_leaves_flatten_to_nothing() {
    let t = TeamTree::node(
        make_uid("Team", "solo"),
        TeamTree::Leaf(None),
        TeamTree::Leaf(None),
    );
    let entities = tree_to_entities(t, Some(make_uid("Team", "parent")));
    assert_eq!(entities.len(), 1);
    assert_eq!(entities[0].euid.text(), "Team::\"solo\"");
    assert_eq!(entities[0].parents[0].text(), "Team::\"parent\"");
}

#[test]
fn default_config_sizes() {
    let c = TinyTodoConfig::default();
    let l = c.apply_config();
    assert_eq!(l.tasks, 20);
    assert_eq!(l.lists, 0);
    assert_eq!(l.users, 0);
    assert_eq!(l.requests, 0);
    assert_eq!(l.team_depth, 0);
    assert!(c.cedar_only);
    assert_eq!(c.size(), 0);
}

#[test]
fn uniform_config_takes_the_log_for_depth() {
    assert_eq!(TinyTodoConfig::with(8, true).apply_config().team_depth, 3);
    assert_eq!(TinyTodoConfig::with(7, true).apply_config().team_depth, 2);
    assert_eq!(TinyTodoConfig::with(1, false).apply_config().team_depth, 0);
    assert_eq!(TinyTodoConfig::with(0, false).apply_config().team_depth, 0);
    let c = TinyTodoConfig::with(16, false);
    let l = c.apply_config();
    assert_eq!(l.tasks, 16);
    assert_eq!(l.lists, 16);
    assert_eq!(l.users, 16);
    assert_eq!(l.requests, 16);
    assert_eq!(l.team_depth, 4);
    assert!(!c.cedar_only);
    assert_eq!(c.size(), 16);
}

#[test]
fn fresh_names_are_capitals_and_unique() {
    let data: Vec<u8> = (0u8..200u8).collect();
    let mut u = Unstructured::new(&data);
    let mut gen = NameGenerator::default();
    let first = gen.fresh(&mut u).unwrap();
    let second = gen.fresh(&mut u).unwrap();
    assert_eq!(first.len(), 5);
    assert_eq!(second.len(), 5);
    assert!(first.chars().all(|c| c.is_ascii_uppercase()));
    assert!(second.chars().all(|c| c.is_ascii_uppercase()));
    assert_ne!(first, second);
}

#[test]
fn exhausted_randomness_repeats_and_gives_up() {
    // With no data every draw falls back to the range start, so the
    // first name is all `A`s and the second draw can never be fresh.
    let mut u = Unstructured::new(&[]);
    let mut gen = NameGenerator::new();
    let first = gen.fresh(&mut u).unwrap();
    assert_eq!(first, "AAAAA");
    assert_eq!(gen.fresh(&mut u), Err(GenError::Exhausted));
}
