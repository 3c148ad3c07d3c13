use pi_dash::hub::{Delivery, Hub, HUB_CAPACITY};
use pi_dash::session::{decide, ClientFrame, SessionAction, SessionEvent};

#[test]
fn publish_without_subscribers() {
    let hub = Hub::new(HUB_CAPACITY);
    assert_eq!(hub.subscriber_count(), 0);
    for _ in 0..1000 {
        assert_eq!(hub.publish("snapshot".to_string()), 0);
    }
}

#[test]
fn lagging_subscriber_learns_the_gap() {
    let hub = Hub::new(4);
    let mut sub = hub.subscribe();
    assert_eq!(hub.subscriber_count(), 1);
    for k in 0..10 {
        assert_eq!(hub.publish(format!("m{}", k)), 1);
    }
    assert_eq!(sub.try_next(), Delivery::Lagged(6));
    for k in 6..10 {
        assert_eq!(sub.try_next(), Delivery::Message(format!("m{}", k)));
    }
    assert_eq!(sub.try_next(), Delivery::Empty);
    hub.publish("fresh".to_string());
    assert_eq!(sub.try_next(), Delivery::Message("fresh".to_string()));
}

#[test]
fn subscribers_see_messages_in_order() {
    let hub = Hub::new(8);
    let mut a = hub.subscribe();
    let mut b = hub.subscribe();
    assert_eq!(hub.subscriber_count(), 2);
    hub.publish("one".to_string());
    hub.publish("two".to_string());
    assert_eq!(a.try_next(), Delivery::Message("one".to_string()));
    assert_eq!(b.try_next(), Delivery::Message("one".to_string()));
    assert_eq!(a.try_next(), Delivery::Message("two".to_string()));
    drop(a);
    assert_eq!(hub.subscriber_count(), 1);
    assert_eq!(b.try_next(), Delivery::Message("two".to_string()));
}

#[test]
fn closed_hub() {
    let hub = Hub::new(2);
    let mut sub = hub.subscribe();
    drop(hub);
    assert_eq!(sub.try_next(), Delivery::Closed);
}

#[test]
fn session_decisions() {
    let m = "x".to_string();
    assert_eq!(
        decide(SessionEvent::Broadcast(Delivery::Message(m.clone()))),
        SessionAction::Forward(m)
    );
    assert_eq!(decide(SessionEvent::Broadcast(Delivery::Lagged(7))), SessionAction::NoteLag(7));
    assert_eq!(decide(SessionEvent::Broadcast(Delivery::Empty)), SessionAction::Wait);
    assert_eq!(decide(SessionEvent::Broadcast(Delivery::Closed)), SessionAction::Stop);
    assert_eq!(
        decide(SessionEvent::Client(ClientFrame::Ping(vec![1, 2]))),
        SessionAction::Pong(vec![1, 2])
    );
    assert_eq!(decide(SessionEvent::Client(ClientFrame::Close)), SessionAction::Stop);
    assert_eq!(decide(SessionEvent::Client(ClientFrame::StreamEnded)), SessionAction::Stop);
    assert_eq!(decide(SessionEvent::Client(ClientFrame::Other)), SessionAction::Wait);
    assert_eq!(decide(SessionEvent::SendFailed), SessionAction::Stop);
}
