use blooming_light::relay::{Held, Relay};

fn texts(v: &[&str]) -> Vec<String> {
    v.iter().map(|s| s.to_string()).collect()
}

#[test]
fn released_after_delay_in_order() {
    let mut r = Relay::new();
    assert_eq!(r.advance(&texts(&["a", "b"]), 0, 100, false), Vec::<String>::new());
    assert_eq!(r.advance(&texts(&["c"]), 50, 100, false), Vec::<String>::new());
    assert_eq!(r.advance(&vec![], 100, 100, false), texts(&["a", "b"]));
    assert_eq!(r.held, vec![Held { msg: "c".to_string(), arrived: 50 }]);
    assert_eq!(r.advance(&vec![], 149, 100, false), Vec::<String>::new());
    assert_eq!(r.advance(&vec![], 150, 100, false), texts(&["c"]));
    assert!(r.held.is_empty());
}

#[test]
fn paused_messages_wait_aside() {
    let mut r = Relay::new();
    r.advance(&texts(&["a"]), 0, 10, false);
    assert_eq!(r.advance(&texts(&["b"]), 20, 10, true), Vec::<String>::new());
    assert_eq!(r.waiting, texts(&["b"]));
    assert_eq!(r.held.len(), 1);
    // On resuming, what was set aside is held from now, before the new ones.
    assert_eq!(r.advance(&texts(&["c"]), 30, 10, false), texts(&["a"]));
    assert!(r.waiting.is_empty());
    assert_eq!(
        r.held,
        vec![
            Held { msg: "b".to_string(), arrived: 30 },
            Held { msg: "c".to_string(), arrived: 30 },
        ]
    );
    assert_eq!(r.advance(&vec![], 40, 10, false), texts(&["b", "c"]));
}

#[test]
fn zero_delay_releases_at_once() {
    let mut r = Relay::new();
    assert_eq!(r.advance(&texts(&["x", "y"]), 5, 0, false), texts(&["x", "y"]));
}

#[test]
fn clock_behind_arrival_releases_nothing() {
    let mut r = Relay::new();
    r.advance(&texts(&["x"]), 1000, 0, false);
    r.advance(&texts(&["y"]), 2000, 10, false);
    assert_eq!(r.advance(&vec![], 1500, 10, false), Vec::<String>::new());
}

#[test]
fn removed_message_is_not_released() {
    let mut r = Relay::new();
    r.advance(&texts(&["a", "b", "c"]), 0, 10, false);
    assert_eq!(r.remove_at(1), "b");
    assert_eq!(r.advance(&vec![], 10, 10, false), texts(&["a", "c"]));
}
