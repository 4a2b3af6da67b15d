use tcge::flat_router::Lens;
use tcge::flat_router::LensMoveEvent;
use tcge::flat_router::LensState;
use tcge::flat_router::Node;
use tcge::flat_router::Router;

fn no_node_setup(_n: &mut Node) {}

fn no_lens_setup(_l: &mut Lens) {}

#[test]
fn flat_router_nodes_by_index() {
    let mut router = Router::new();
    router.new_node("a", None, &no_node_setup);
    router.new_node("b", Some(1), &no_node_setup);
    assert_eq!(router.nodes.get_node_id("a"), Some(1));
    assert_eq!(router.nodes.get_node_id("b"), Some(2));
    assert_eq!(router.nodes.get_node_id("c"), None);
    let b = router.nodes.get_node_by_id(2).as_ref().unwrap();
    assert_eq!(b.parent, Some(1));
    assert!(b.is_named("b"));
    let a = router.nodes.get_node_by_id(1).as_ref().unwrap();
    assert!(b.is_child_of(a));
    assert!(router.nodes.get_node_by_id(9).is_none());
}

#[test]
fn flat_router_lens_settles_at_root() {
    let mut router = Router::new();
    router.new_node("a", None, &no_node_setup);
    router.new_lens("cam", &no_lens_setup);
    assert!(!router.update());
    assert!(!router.update());
    let lens = router.lenses.get_mut_lens_by_id(0).unwrap();
    assert_eq!(lens.path, vec![0]);
    assert!(matches!(lens.state, LensState::Idle));
}

#[test]
fn flat_router_lens_follows_relative_path() {
    let mut router = Router::new();
    router.new_node("a", None, &no_node_setup);
    router.new_node("b", Some(1), &no_node_setup);
    router.new_lens("cam", &no_lens_setup);
    router.update();
    router.update();
    router.lenses.get_mut_lens_by_id(0).unwrap().state = LensState::Moving("a/b".to_string(), 0);
    for _ in 0..10 {
        router.update();
    }
    let lens = router.lenses.get_mut_lens_by_id(0).unwrap();
    assert_eq!(lens.path, vec![0, 1, 2]);
    assert!(matches!(lens.state, LensState::Idle));
}

#[test]
fn flat_router_lens_destruction() {
    let mut router = Router::new();
    router.new_lens("cam", &no_lens_setup);
    router.update();
    router.lenses.get_mut_lens_by_id(0).unwrap().state = LensState::Destruction;
    assert!(router.update());
    assert!(router.lenses.get_mut_lens_by_id(0).is_none());
}

#[test]
fn flat_router_event_at_unknown_lens_changes_nothing() {
    let mut router = Router::new();
    router.new_lens("cam", &no_lens_setup);
    router.fire_event_at_lens("other", &LensMoveEvent::Finished);
    let lens = router.lenses.get_mut_lens_by_id(0).unwrap();
    assert!(lens.path.is_empty());
    assert!(matches!(lens.state, LensState::Idle));
}

#[test]
fn flat_router_lens_aborts_on_unknown_name() {
    let mut router = Router::new();
    router.new_node("a", None, &no_node_setup);
    router.new_lens("cam", &no_lens_setup);
    router.update();
    router.update();
    router.lenses.get_mut_lens_by_id(0).unwrap().state = LensState::Moving("zzz".to_string(), 0);
    for _ in 0..5 {
        router.update();
    }
    let lens = router.lenses.get_mut_lens_by_id(0).unwrap();
    assert_eq!(lens.path, vec![0]);
    assert!(matches!(lens.state, LensState::Idle));
}

#[test]
fn flat_router_ready_check() {
    let mut router = Router::new();
    router.new_node("a", None, &no_node_setup);
    router.new_lens("cam", &no_lens_setup);
    assert!(router.is_ready());
    assert_eq!(router.try_update(), Some(false));
    router.lenses.get_mut_lens_by_id(0).unwrap().path.push(7);
    assert!(!router.is_ready());
    assert_eq!(router.try_update(), None);
    router.lenses.get_mut_lens_by_id(0).unwrap().path.pop();
    router.lenses.get_mut_lens_by_id(0).unwrap().state = LensState::Moving("é".to_string(), 1);
    assert!(!router.is_ready());
    router.lenses.get_mut_lens_by_id(0).unwrap().state = LensState::Moving("é".to_string(), 2);
    assert!(router.is_ready());
}
