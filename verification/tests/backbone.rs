use std::any::TypeId;
use tcge::backbone::comps::ComponentAccessError;
use tcge::backbone::comps::WrapperComponent;
use tcge::backbone::update_path;
use tcge::backbone::Backbone;
use tcge::backbone::Context;
use tcge::backbone::Event;
use tcge::backbone::Handler;
use tcge::backbone::Node;
use tcge::backbone::NodeId;
use tcge::backbone::PathChange;
use tcge::backbone::Phase;
use tcge::backbone::State;
use tcge::backbone::Wrapper;

struct Ping;

impl Event for Ping {
    fn get_type_name(&self) -> &'static str {
        "Ping"
    }
}

struct Recorder {
    phases: std::rc::Rc<std::cell::RefCell<Vec<(usize, Phase)>>>,
}

impl Handler for Recorder {
    fn on_event(&mut self, event: &mut Wrapper, context: &mut Context) {
        self.phases.borrow_mut().push((context.current.get_inner(), event.get_phase()));
    }
}

fn settle(b: &mut Backbone) {
    for _ in 0..20 {
        b.update();
    }
}

#[test]
fn backbone_moves_to_named_node() {
    let mut b = Backbone::new();
    let root = b.root_get_id();
    assert_eq!(root.get_inner(), 0);
    let x = b.node_new(root, "x", None).unwrap();
    let y = b.node_new(x, "y", None).unwrap();
    assert!(b.node_new(NodeId::new(99), "z", None).is_err());
    assert!(b.location_set("/x/y").is_ok());
    settle(&mut b);
    assert!(matches!(b.get_state(), State::Idle));
    assert_eq!(b.location_get_str(), "/x/y");
    assert_eq!(b.location_get_node(), Some(y));
    assert_eq!(b.location_get().len(), 3);
    assert_eq!(b.path_to_string(&[root, x]), Ok("/x".to_string()));
    assert_eq!(b.path_to_string(&[root]), Ok("/".to_string()));
    assert_eq!(b.root_get().get_name(), "");
}

#[test]
fn backbone_stops_on_unknown_node() {
    let mut b = Backbone::new();
    let root = b.root_get_id();
    b.node_new(root, "x", None).unwrap();
    settle(&mut b);
    assert!(b.location_set("/y").is_ok());
    settle(&mut b);
    match b.get_state() {
        State::Stop(Some(msg)) => assert_eq!(msg, "Failed to change path: Could not find node: y"),
        _ => panic!("expected the backbone to stop"),
    }
    assert!(!b.update());
    assert!(b.location_set("/x").is_err());
}

#[test]
fn backbone_stop_halts_updates() {
    let mut b = Backbone::new();
    b.stop();
    assert!(matches!(b.get_state(), State::Stop(None)));
    assert!(!b.update());
    assert!(b.location_get().is_empty());
}

#[test]
fn update_path_steps() {
    let mut nodes: rustc_hash::FxHashMap<usize, Node> = rustc_hash::FxHashMap::default();
    nodes.insert(0, Node::new(NodeId::new(0), "", NodeId::new(0)));
    nodes.insert(1, Node::new(NodeId::new(1), "x", NodeId::new(0)));
    nodes.insert(2, Node::new(NodeId::new(2), "y", NodeId::new(1)));
    let root = NodeId::new(0);
    let x = NodeId::new(1);
    let mut off = 0usize;
    assert!(matches!(update_path(&nodes, "/x", &mut off, &[]), PathChange::ToRoot));
    assert_eq!(off, 0);
    assert!(matches!(update_path(&nodes, "/x", &mut off, &[root, x]), PathChange::ToSuper));
    assert_eq!(off, 0);
    match update_path(&nodes, "/x", &mut off, &[root]) {
        PathChange::ToNode(id) => assert_eq!(id, x),
        _ => panic!("expected a step to x"),
    }
    assert_eq!(off, 2);
    assert!(matches!(update_path(&nodes, "/x", &mut off, &[root, x]), PathChange::End));
    let mut off = 0usize;
    assert!(matches!(update_path(&nodes, "../y", &mut off, &[root, x]), PathChange::ToSuper));
    assert_eq!(off, 3);
    let mut off = 0usize;
    assert!(matches!(update_path(&nodes, "./y", &mut off, &[root, x]), PathChange::ToSelf));
    assert_eq!(off, 2);
    match update_path(&nodes, "./y", &mut off, &[root, x]) {
        PathChange::ToNode(id) => assert_eq!(id, NodeId::new(2)),
        _ => panic!("expected a step to y"),
    }
    let mut off = 0usize;
    match update_path(&nodes, "q", &mut off, &[root]) {
        PathChange::Error(msg) => assert_eq!(msg, "Could not find node: q"),
        _ => panic!("expected an error"),
    }
}

#[test]
fn backbone_components_found_upwards() {
    let mut b = Backbone::new();
    let root = b.root_get_id();
    let x = b.node_new(root, "x", None).unwrap();
    let y = b.node_new(x, "y", None).unwrap();
    let t = TypeId::of::<WrapperComponent<u32>>();
    assert_eq!(b.component_get_by_node(y, t).err(), Some(ComponentAccessError::DoesNotExist));
    assert_eq!(b.component_get(t).err(), Some(ComponentAccessError::PathIsNull));
    b.node_component_attach(x, t, Box::new(WrapperComponent::new("counter", 5u32)));
    let found = b.component_get_by_node(y, t).ok().unwrap();
    assert_eq!(found.get_type_name(), "counter");
    assert!(b.component_get_by_node(root, t).is_err());
    assert!(b.component_get_mut_by_node(y, t).is_ok());
    b.location_set("/x/y").unwrap();
    settle(&mut b);
    assert!(b.component_get(t).is_ok());
    assert!(b.component_get_mut(t).is_ok());
}

#[test]
fn backbone_event_phases_reach_handlers() {
    let phases = std::rc::Rc::new(std::cell::RefCell::new(Vec::new()));
    let mut b = Backbone::new();
    let root = b.root_get_id();
    let x = b
        .node_new(root, "x", Some(Box::new(Recorder { phases: phases.clone() })))
        .unwrap();
    let ping = Ping;
    let mut w = Wrapper::new(&ping);
    assert!(!b.fire_event_phases(&mut w));
    assert!(phases.borrow().is_empty());
    b.location_set("/x").unwrap();
    settle(&mut b);
    let mut w = Wrapper::new(&ping);
    assert!(b.fire_event_phases(&mut w));
    let seen = phases.borrow().clone();
    let xi = x.get_inner();
    assert_eq!(seen, vec![(xi, Phase::Propagation), (xi, Phase::Action), (xi, Phase::Bubbling)]);
}

#[test]
fn backbone_event_state_applies_when_idle() {
    let mut b = Backbone::new();
    settle(&mut b);
    b.apply_event_state(State::Stop(None));
    assert!(matches!(b.get_state(), State::Stop(None)));
    b.apply_event_state(State::Idle);
    assert!(matches!(b.get_state(), State::Stop(None)));
}

#[test]
fn wrapper_flags_and_state() {
    let ping = Ping;
    let mut w = Wrapper::new(&ping);
    assert_eq!(w.get_phase(), Phase::Creation);
    w.prevent_default();
    w.stop_propagation();
    w.stop_bubbling();
    w.new_state(State::Stop(None));
    assert!(matches!(w.get_new_state(), State::Stop(None)));
    assert!(matches!(w.take_new_state(), State::Stop(None)));
    assert!(matches!(w.get_new_state(), State::Idle));
    w.stop();
    assert!(matches!(w.get_new_state(), State::Idle));
}

#[test]
fn state_replacement_rules() {
    assert!(State::Idle.can_replace());
    assert!(!State::Stop(None).can_replace());
    assert!(State::Idle == State::Idle);
    assert!(State::Move("/a".to_string(), 0) == State::Move("/b".to_string(), 1));
    assert!(!(State::Idle == State::Stop(None)));
    let _ = PathChange::End;
    let _ = update_path;
}

#[test]
fn backbone_try_update_refuses_to_leave_root() {
    let mut b = Backbone::new();
    assert_eq!(b.try_update(), Some(true));
    assert_eq!(b.location_get().len(), 1);
    settle(&mut b);
    assert!(b.location_set("../").is_ok());
    assert_eq!(b.try_update(), None);
    assert!(matches!(b.get_state(), State::Move(_, 0)));
    assert_eq!(b.location_get().len(), 1);
    assert_eq!(b.location_get_str(), "/");
    b.stop();
    assert_eq!(b.try_update(), Some(false));
}

#[test]
fn backbone_phases_without_handlers_end_in_bubbling() {
    let mut b = Backbone::new();
    let root = b.root_get_id();
    b.node_new(root, "x", None).unwrap();
    b.location_set("/x").unwrap();
    settle(&mut b);
    let ping = Ping;
    let mut w = Wrapper::new(&ping);
    assert!(b.fire_event_phases(&mut w));
    assert_eq!(w.get_phase(), Phase::Bubbling);
}

#[test]
fn backbone_root_handler_sees_passing_events() {
    let phases = std::rc::Rc::new(std::cell::RefCell::new(Vec::new()));
    let mut b = Backbone::new();
    let root = b.root_get_id();
    b.set_root_node_handler(Box::new(Recorder { phases: phases.clone() }));
    b.node_new(root, "x", None).unwrap();
    b.location_set("/x").unwrap();
    settle(&mut b);
    let ping = Ping;
    let mut w = Wrapper::new(&ping);
    assert!(b.fire_event_phases(&mut w));
    let seen = phases.borrow().clone();
    let ri = root.get_inner();
    assert_eq!(seen, vec![(ri, Phase::Propagation), (ri, Phase::Bubbling)]);
}

#[test]
fn backbone_accepts_and_hands_over_states() {
    let mut b = Backbone::new();
    assert!(b.accepts_event(false));
    assert!(!b.hand_over_state(State::Move("é".to_string(), 1)));
    assert!(matches!(b.get_state(), State::Idle));
    assert!(b.hand_over_state(State::Stop(None)));
    assert!(matches!(b.get_state(), State::Stop(None)));
    assert!(!b.accepts_event(false));
    assert!(b.accepts_event(true));
}

#[test]
fn update_path_trailing_slash_ends() {
    let mut nodes: rustc_hash::FxHashMap<usize, Node> = rustc_hash::FxHashMap::default();
    nodes.insert(0, Node::new(NodeId::new(0), "", NodeId::new(0)));
    nodes.insert(1, Node::new(NodeId::new(1), "a", NodeId::new(0)));
    let root = NodeId::new(0);
    let a = NodeId::new(1);
    let mut off = 2usize;
    assert!(matches!(update_path(&nodes, "/a/", &mut off, &[root, a]), PathChange::End));
    assert_eq!(off, 3);
    let mut b = Backbone::new();
    let r = b.root_get_id();
    let x = b.node_new(r, "x", None).unwrap();
    b.location_set("/x//").unwrap();
    settle(&mut b);
    assert!(matches!(b.get_state(), State::Idle));
    assert_eq!(b.location_get_node(), Some(x));
}

#[test]
fn wrapper_takes_next_event_and_passes_up() {
    let ping = Ping;
    let mut w = Wrapper::new(&ping);
    assert!(w.take_next_event(0).is_none());
    w.new_state(State::Fire(Box::new(Ping)));
    assert!(w.take_next_event(11).is_none());
    assert!(matches!(w.get_new_state(), State::Fire(_)));
    let next = w.take_next_event(10).unwrap();
    assert_eq!(next.get_type_name(), "Ping");
    assert!(matches!(w.get_new_state(), State::Idle));
    w.pass_up(State::Idle);
    assert!(matches!(w.get_new_state(), State::Idle));
    w.pass_up(State::Stop(None));
    assert!(matches!(w.get_new_state(), State::Stop(None)));
}
