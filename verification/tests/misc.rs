use dessa::exports::imgui;
use dessa::mumblelink::should_publish;
use dessa::release;
use dessa::websockets::{start_message, ClientCount};

#[test]
fn every_hundredth_tick_is_published() {
    assert!(should_publish(0));
    assert!(should_publish(100));
    assert!(should_publish(4200));
    assert!(!should_publish(1));
    assert!(!should_publish(199));
}

#[test]
fn client_count_follows_connections() {
    let mut c = ClientCount::new();
    assert_eq!(c.get(), 0);
    c.opened();
    c.opened();
    assert_eq!(c.get(), 2);
    c.closed();
    assert_eq!(c.get(), 1);
    c.closed();
    assert_eq!(c.get(), 0);
}

#[test]
fn clients_are_greeted() {
    assert_eq!(start_message(), "{\"start\": 1}");
}

#[test]
fn callbacks_without_work_return() {
    imgui(true);
    imgui(false);
    release();
    dessa::discord_presence::teardown();
}
