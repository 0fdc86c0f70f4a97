use vellum_fe::webui::{WebUiConsumer, WebUiSubscriptions};

#[test]
fn two_remote_clients_last_consumer_releases_upstream() {
    let mut subs = WebUiSubscriptions::new();
    subs.webui_subscribe(WebUiConsumer::Remote(1), "bigshot");
    subs.webui_subscribe(WebUiConsumer::Remote(2), "bigshot");

    // Client 1 closes its panel: no upstream unsubscribe.
    assert!(!subs.webui_unsubscribe(WebUiConsumer::Remote(1), "bigshot"));
    assert!(subs.is_watched("bigshot"));

    // Last consumer leaves: the page is released.
    assert!(subs.webui_unsubscribe(WebUiConsumer::Remote(2), "bigshot"));
    assert!(!subs.is_watched("bigshot"));
}

#[test]
fn local_plus_remote_share_page() {
    let mut subs = WebUiSubscriptions::new();
    subs.webui_subscribe(WebUiConsumer::Local, "map/main");
    subs.webui_subscribe(WebUiConsumer::Remote(9), "map/main");

    assert!(subs.webui_client_gone(9).is_empty(), "phone drop must not unsubscribe the desktop's page");
    assert!(subs.webui_unsubscribe(WebUiConsumer::Local, "map/main"));
}

#[test]
fn duplicate_subscribes_do_not_leak() {
    let mut subs = WebUiSubscriptions::new();
    for _ in 0..3 {
        subs.webui_subscribe(WebUiConsumer::Remote(4), "bigshot");
    }
    assert!(subs.webui_unsubscribe(WebUiConsumer::Remote(4), "bigshot"));
    assert!(subs.pages().is_empty());
}

#[test]
fn abrupt_disconnect_releases_only_that_clients_pages() {
    let mut subs = WebUiSubscriptions::new();
    subs.webui_subscribe(WebUiConsumer::Remote(1), "solo");
    subs.webui_subscribe(WebUiConsumer::Remote(1), "shared");
    subs.webui_subscribe(WebUiConsumer::Remote(2), "shared");
    subs.webui_subscribe(WebUiConsumer::Remote(2), "other");

    assert_eq!(subs.webui_client_gone(1), vec!["solo".to_string()], "only the sole-consumer page unsubscribes");
    assert!(subs.is_watched("shared"));
    assert!(subs.is_watched("other"));

    // Gone again (duplicate disconnect event) is a no-op.
    assert!(subs.webui_client_gone(1).is_empty());
}

#[test]
fn unsubscribe_without_subscription_is_silent() {
    let mut subs = WebUiSubscriptions::new();
    assert!(!subs.webui_unsubscribe(WebUiConsumer::Remote(1), "nope"));
    subs.webui_subscribe(WebUiConsumer::Remote(2), "page");
    assert!(!subs.webui_unsubscribe(WebUiConsumer::Remote(3), "page"));
    assert!(subs.is_watched("page"));
    assert!(subs.contains(WebUiConsumer::Remote(2), "page"));
    assert!(!subs.contains(WebUiConsumer::Remote(3), "page"));
}

#[test]
fn bridge_reconnect_replays_union() {
    let mut subs = WebUiSubscriptions::new();
    subs.webui_subscribe(WebUiConsumer::Local, "desktop-page");
    subs.webui_subscribe(WebUiConsumer::Remote(1), "phone-page");
    subs.webui_subscribe(WebUiConsumer::Remote(2), "phone-page");

    let mut pages = subs.pages();
    pages.sort();
    assert_eq!(pages, vec!["desktop-page".to_string(), "phone-page".to_string()]);
}

#[test]
fn a_client_leaving_releases_each_of_its_sole_pages_once() {
    let mut subs = WebUiSubscriptions::new();
    subs.webui_subscribe(WebUiConsumer::Remote(5), "a");
    subs.webui_subscribe(WebUiConsumer::Remote(5), "b");
    subs.webui_subscribe(WebUiConsumer::Local, "b");
    subs.webui_subscribe(WebUiConsumer::Remote(5), "c");
    let mut released = subs.webui_client_gone(5);
    released.sort();
    assert_eq!(released, vec!["a".to_string(), "c".to_string()]);
    assert_eq!(subs.pages(), vec!["b".to_string()]);
}
