use shepherd::mqtt::{ClientAction, HandlerRegistry, Handlers, MqttClient, MqttEvent};

fn client() -> MqttClient {
    MqttClient::new("shepherd-run".to_string(), "localhost".to_string(), 1883)
}

#[test]
fn new_client_has_no_handlers() {
    let c = client();
    assert_eq!(c.handler_count(), 0);
    assert_eq!(c.on_event(&MqttEvent::Publish("robot/control".to_string())), ClientAction::Dispatch(vec![]));
}

#[test]
fn handler_ids_count_up_and_run_in_order() {
    let mut c = client();
    assert_eq!(c.add_handler("a".to_string()), 0);
    assert_eq!(c.add_handler("b".to_string()), 1);
    assert_eq!(c.add_handler("a".to_string()), 2);
    assert_eq!(c.handler_count(), 3);
    assert_eq!(c.on_event(&MqttEvent::Publish("a".to_string())), ClientAction::Dispatch(vec![0, 2]));
    assert_eq!(c.on_event(&MqttEvent::Publish("b".to_string())), ClientAction::Dispatch(vec![1]));
    assert_eq!(c.on_event(&MqttEvent::Publish("c".to_string())), ClientAction::Dispatch(vec![]));
}

#[test]
fn topics_match_exactly() {
    let mut c = client();
    c.add_handler("#".to_string());
    assert_eq!(c.on_event(&MqttEvent::Publish("robot/log".to_string())), ClientAction::Dispatch(vec![]));
    assert_eq!(c.on_event(&MqttEvent::Publish("#".to_string())), ClientAction::Dispatch(vec![0]));
}

#[test]
fn other_events() {
    let c = client();
    assert_eq!(c.on_event(&MqttEvent::Connect("shepherd-run".to_string())), ClientAction::Continue);
    assert_eq!(c.on_event(&MqttEvent::Disconnect), ClientAction::Finish);
    assert_eq!(c.on_event(&MqttEvent::Other), ClientAction::Continue);
}

#[test]
fn registry_register_and_get() {
    let mut r = HandlerRegistry::new();
    assert!(r.get(&"t".to_string()).is_none());
    r.register("t".to_string(), 7);
    r.register("u".to_string(), 1);
    r.register("t".to_string(), 3);
    assert_eq!(r.get(&"t".to_string()), Some(&vec![7, 3]));
    assert_eq!(r.get(&"u".to_string()), Some(&vec![1]));
    assert!(r.get(&"v".to_string()).is_none());
}

#[test]
fn handlers_for_topic() {
    let mut h = Handlers::new();
    assert_eq!(h.count(), 0);
    assert_eq!(h.add("x".to_string()), 0);
    assert_eq!(h.add("y".to_string()), 1);
    assert_eq!(h.for_topic(&"x".to_string()), vec![0]);
    assert_eq!(h.for_topic(&"z".to_string()), Vec::<usize>::new());
    assert_eq!(h.count(), 2);
}
