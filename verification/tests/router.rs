use tcge::client::TickEvent;
use tcge::router::event::Wrapper;
use tcge::router::lens::Context;
use tcge::router::lens::Handler;
use tcge::router::lens::Lens;
use tcge::router::lens::State;
use tcge::router::node::Node;
use tcge::router::Router;

struct Counter {
    seen: std::rc::Rc<std::cell::Cell<usize>>,
}

impl Handler for Counter {
    fn on_event(&mut self, _event: &mut Wrapper, _context: &mut Context) -> State {
        self.seen.set(self.seen.get() + 1);
        State::Idle
    }
}

fn no_setup(_n: &mut Node) {}

fn two_level_router() -> (Router, usize, usize) {
    let mut router = Router::new();
    let a = router.new_node("a", None, &no_setup);
    let b = router.new_node("b", Some(a), &no_setup);
    (router, a, b)
}

fn run_until_still(router: &mut Router) {
    for _ in 0..20 {
        router.update();
    }
}

#[test]
fn router_starts_with_root() {
    let router = Router::new();
    let root = router.nodes.get_node_by_id(0).unwrap();
    assert_eq!(root.id, 0);
    assert_eq!(root.name, "");
    assert_eq!(root.lens_count, 0);
    assert_eq!(router.nodes.next_id, 1);
    assert!(router.lenses.lenses.is_empty());
}

#[test]
fn router_nodes_get_fresh_ids() {
    let (router, a, b) = two_level_router();
    assert_eq!((a, b), (1, 2));
    let nb = router.nodes.get_node_by_id(b).unwrap();
    assert_eq!(nb.parent, Some(a));
    assert!(nb.is_named("b"));
    assert!(nb.is_child_of(router.nodes.get_node_by_id(a).unwrap()));
    assert_eq!(router.nodes.get_node_by_id(a).unwrap().parent, Some(0));
    assert_eq!(router.nodes.get_path_as_string(&[0, a, b]), Ok("/a/b".to_string()));
    assert_eq!(router.nodes.get_path_as_string(&[0, 7]), Err(()));
}

#[test]
fn router_lens_moves_to_target() {
    let (mut router, a, b) = two_level_router();
    let seen = std::rc::Rc::new(std::cell::Cell::new(0));
    let handler_seen = seen.clone();
    router.new_lens("cam", &move |l: &mut Lens| -> Option<Box<dyn Handler>> {
        l.state = State::Moving("/a/b".to_string(), 0);
        Some(Box::new(Counter { seen: handler_seen.clone() }))
    });
    run_until_still(&mut router);
    let lens = router.lenses.get_lens_by_name("cam").unwrap();
    assert_eq!(lens.path, vec![0, a, b]);
    assert_eq!(lens.path_str, "/a/b");
    assert!(matches!(lens.state, State::Idle));
    assert_eq!(router.nodes.get_node_by_id(0).unwrap().lens_count, 1);
    assert_eq!(router.nodes.get_node_by_id(a).unwrap().lens_count, 1);
    assert_eq!(router.nodes.get_node_by_id(b).unwrap().lens_count, 1);
    assert!(seen.get() >= 1);
}

#[test]
fn router_lens_aborts_on_unknown_node() {
    let (mut router, _a, _b) = two_level_router();
    router.new_lens("cam", &|l: &mut Lens| -> Option<Box<dyn Handler>> {
        l.state = State::Moving("/nope".to_string(), 0);
        None
    });
    run_until_still(&mut router);
    let lens = router.lenses.get_lens_by_name("cam").unwrap();
    assert_eq!(lens.path, vec![0]);
    assert!(matches!(lens.state, State::Idle));
}

#[test]
fn router_lens_destruction_removes_it() {
    let (mut router, a, _b) = two_level_router();
    router.new_lens("cam", &|l: &mut Lens| -> Option<Box<dyn Handler>> {
        l.state = State::Moving("/a".to_string(), 0);
        None
    });
    run_until_still(&mut router);
    assert_eq!(router.nodes.get_node_by_id(a).unwrap().lens_count, 1);
    router.lenses.get_mut_lens_by_name("cam").unwrap().state = State::Destruction;
    assert!(router.update());
    assert!(router.lenses.lenses.is_empty());
    assert_eq!(router.nodes.get_node_by_id(a).unwrap().lens_count, 0);
    assert_eq!(router.nodes.get_node_by_id(0).unwrap().lens_count, 0);
}

#[test]
fn router_event_reaches_idle_lens() {
    let (mut router, _a, _b) = two_level_router();
    let seen = std::rc::Rc::new(std::cell::Cell::new(0));
    let handler_seen = seen.clone();
    router.new_lens("cam", &move |_l: &mut Lens| -> Option<Box<dyn Handler>> {
        Some(Box::new(Counter { seen: handler_seen.clone() }))
    });
    run_until_still(&mut router);
    let before = seen.get();
    router.fire_event_at_lens("cam", &TickEvent {});
    assert_eq!(seen.get(), before + 1);
    router.fire_event_at_lens("nobody", &TickEvent {});
    assert_eq!(seen.get(), before + 1);
}

#[test]
fn router_lens_lookup() {
    let (mut router, _a, _b) = two_level_router();
    router.new_lens("one", &|_l: &mut Lens| -> Option<Box<dyn Handler>> { None });
    router.new_lens("two", &|_l: &mut Lens| -> Option<Box<dyn Handler>> { None });
    assert_eq!(router.lenses.get_lens_by_id(1).unwrap().name, "two");
    assert!(router.lenses.get_lens_by_id(2).is_none());
    assert!(router.lenses.get_lens_by_name("one").is_some());
    assert!(router.lenses.get_lens_by_name("three").is_none());
    assert!(router.lenses.get_mut_lens_by_id(0).is_some());
}

struct Marker;

impl tcge::router::comp::Component for Marker {
    fn get_type_name(&self) -> &'static str {
        "Marker"
    }
    fn on_attachment(&mut self, _node_id: usize) {}
    fn on_detachment(&mut self, _node_id: usize) {}
    fn on_load(&mut self) {}
    fn on_unload(&mut self) {}
}

#[test]
fn router_context_component_lookup() {
    let (mut router, a, b) = two_level_router();
    let t = std::any::TypeId::of::<Marker>();
    let nowhere = Lens { name: "x".to_string(), path: vec![], path_str: String::new(), state: State::Idle };
    {
        let ctx = tcge::router::context::Context::new(&nowhere, &mut router.nodes);
        assert_eq!(
            ctx.get_component(t).err(),
            Some(tcge::router::comp::ComponentAccessError::NodeNotFound { node_id: 0 })
        );
    }
    let at_b = Lens { name: "y".to_string(), path: vec![0, a, b], path_str: "/a/b".to_string(), state: State::Idle };
    {
        let ctx = tcge::router::context::Context::new(&at_b, &mut router.nodes);
        assert_eq!(
            ctx.get_component(t).err(),
            Some(tcge::router::comp::ComponentAccessError::NodeNotFound { node_id: b })
        );
        assert_eq!(ctx.get_lensed_node_id(), Some(b));
        assert_eq!(ctx.get_lensed_node_name(), Some("b"));
    }
    assert!(router.nodes.set_node_component(a, t, Box::new(Marker)));
    let mut ctx = tcge::router::context::Context::new(&at_b, &mut router.nodes);
    assert_eq!(ctx.get_component(t).ok().unwrap().get_type_name(), "Marker");
    assert!(ctx.get_mut_component(t).is_ok());
}

#[test]
fn router_ready_check() {
    let (mut router, a, _b) = two_level_router();
    assert!(router.is_ready());
    router.new_lens("cam", &|l: &mut Lens| -> Option<Box<dyn Handler>> {
        l.state = State::Moving("/a".to_string(), 0);
        None
    });
    assert!(router.is_ready());
    for _ in 0..10 {
        assert!(router.try_update().is_some());
        assert!(router.is_ready());
    }
    assert_eq!(router.nodes.get_node_by_id(a).unwrap().lens_count, 1);
    router.nodes.get_mut_node_by_id(a).unwrap().lens_count = 5;
    assert!(!router.is_ready());
    assert_eq!(router.try_update(), None);
    router.nodes.get_mut_node_by_id(a).unwrap().lens_count = 1;
    router.lenses.get_mut_lens_by_name("cam").unwrap().state = State::Moving("é".to_string(), 1);
    assert!(!router.is_ready());
    router.lenses.get_mut_lens_by_name("cam").unwrap().state = State::Idle;
    assert!(router.is_ready());
    router.new_node("a", None, &no_setup);
    assert!(!router.is_ready());
}

#[test]
fn router_event_skips_busy_lens() {
    let (mut router, _a, _b) = two_level_router();
    let seen = std::rc::Rc::new(std::cell::Cell::new(0));
    let handler_seen = seen.clone();
    router.new_lens("cam", &move |_l: &mut Lens| -> Option<Box<dyn Handler>> {
        Some(Box::new(Counter { seen: handler_seen.clone() }))
    });
    run_until_still(&mut router);
    router.lenses.get_mut_lens_by_name("cam").unwrap().state = State::Destruction;
    let before = seen.get();
    router.fire_event_at_lens("cam", &TickEvent {});
    assert_eq!(seen.get(), before);
    assert!(matches!(router.lenses.get_mut_lens_by_name("cam").unwrap().state, State::Destruction));
}

struct Other;

impl tcge::router::comp::Component for Other {
    fn get_type_name(&self) -> &'static str {
        "Other"
    }
    fn on_attachment(&mut self, _node_id: usize) {}
    fn on_detachment(&mut self, _node_id: usize) {}
    fn on_load(&mut self) {}
    fn on_unload(&mut self) {}
}

#[test]
fn router_component_found_at_nearest_holder() {
    let (mut router, a, b) = two_level_router();
    let marker = std::any::TypeId::of::<Marker>();
    let other = std::any::TypeId::of::<Other>();
    assert!(router.nodes.set_node_component(a, marker, Box::new(Marker)));
    assert!(router.nodes.set_node_component(b, other, Box::new(Other)));
    assert_eq!(router.nodes.get_node_component(b, marker).unwrap().get_type_name(), "Marker");
    assert_eq!(router.nodes.get_node_component(b, other).unwrap().get_type_name(), "Other");
    assert!(router.nodes.get_node_component(a, other).is_none());
    assert!(router.nodes.set_node_component(b, marker, Box::new(Other)));
    assert_eq!(router.nodes.get_node_component(b, marker).unwrap().get_type_name(), "Other");
}

#[test]
fn router_root_path_string() {
    let (router, a, _b) = two_level_router();
    assert_eq!(router.nodes.get_path_as_string(&[0]), Ok("/".to_string()));
    assert_eq!(router.nodes.get_path_as_string(&[]), Ok("/".to_string()));
    assert_eq!(router.nodes.get_path_as_string(&[0, a]), Ok("/a".to_string()));
}

#[test]
fn router_destroyed_lens_leaves_with_its_handler() {
    let (mut router, _a, _b) = two_level_router();
    let seen = std::rc::Rc::new(std::cell::Cell::new(0));
    router.new_lens("gone", &|_l: &mut Lens| -> Option<Box<dyn Handler>> { None });
    let handler_seen = seen.clone();
    router.new_lens("kept", &move |_l: &mut Lens| -> Option<Box<dyn Handler>> {
        Some(Box::new(Counter { seen: handler_seen.clone() }))
    });
    router.lenses.get_mut_lens_by_name("gone").unwrap().state = State::Destruction;
    router.update();
    assert_eq!(router.lenses.lenses.len(), 1);
    assert_eq!(router.lenses.handlers.len(), 1);
    assert_eq!(router.lenses.lenses[0].name, "kept");
    run_until_still(&mut router);
    let before = seen.get();
    router.fire_event_at_lens("kept", &TickEvent {});
    assert_eq!(seen.get(), before + 1);
}

#[test]
fn router_settle_state_only_from_idle() {
    let mut lens = Lens { name: "x".to_string(), path: vec![0], path_str: "/".to_string(), state: State::Idle };
    tcge::router::event::settle_state(&mut lens, State::Destruction);
    assert!(matches!(lens.state, State::Destruction));
    tcge::router::event::settle_state(&mut lens, State::Idle);
    assert!(matches!(lens.state, State::Destruction));
}

#[test]
fn router_move_event_counts_along_path() {
    let (mut router, a, _b) = two_level_router();
    router.new_lens("cam", &|l: &mut Lens| -> Option<Box<dyn Handler>> {
        l.state = State::Moving("/a".to_string(), 0);
        None
    });
    run_until_still(&mut router);
    router.fire_event_at_lens("cam", &tcge::router::lens::MoveEvent::EnterNode);
    assert_eq!(router.nodes.get_node_by_id(a).unwrap().lens_count, 3);
    router.fire_event_at_lens("cam", &tcge::router::lens::MoveEvent::LeaveNode);
    router.fire_event_at_lens("cam", &tcge::router::lens::MoveEvent::LeaveNode);
    assert_eq!(router.nodes.get_node_by_id(a).unwrap().lens_count, 0);
    router.fire_event_at_lens("cam", &tcge::router::lens::MoveEvent::LeaveNode);
    assert_eq!(router.nodes.get_node_by_id(a).unwrap().lens_count, 0);
}
