use blooming_light::demo::{demo_catalog, pick_phrase};
use blooming_light::feed::{next_seed, FeedAction, FeedEvent, SyntheticFeed, INITIAL_SEED};
use rand::rngs::StdRng;
use rand::SeedableRng;

fn phrases(n: usize) -> Vec<String> {
    (0..n).map(|i| format!("phrase{i}")).collect()
}

#[test]
fn seed_sequence() {
    assert_eq!(next_seed(INITIAL_SEED), 1416995363);
    assert_eq!(next_seed(1416995363), 395240224);
    assert_eq!(next_seed(395240224), 1540007129);
    assert_eq!(next_seed(u32::MAX), 1043980748);
    assert_eq!(next_seed(0), 12345);
}

#[test]
fn tick_forwards_phrase_at_seed() {
    let list = phrases(51);
    let mut f = SyntheticFeed::new();
    assert_eq!(f.step(FeedEvent::Tick, &list), FeedAction::Forward("phrase41".to_string()));
    assert_eq!(f.seed, 1416995363);
    assert_eq!(f.step(FeedEvent::Tick, &list), FeedAction::Forward("phrase16".to_string()));
    assert_eq!(f.step(FeedEvent::Tick, &list), FeedAction::Forward("phrase11".to_string()));
}

#[test]
fn stop_or_lost_consumer_exits() {
    let list = phrases(3);
    let mut f = SyntheticFeed::new();
    assert_eq!(f.step(FeedEvent::Stop, &list), FeedAction::Exit);
    assert_eq!(f.seed, INITIAL_SEED);
    assert_eq!(f.step(FeedEvent::ForwardFailed, &list), FeedAction::Exit);
    assert_eq!(f.step(FeedEvent::Tick, &list), FeedAction::Forward("phrase2".to_string()));
}

#[test]
fn catalog_prefers_loaded_phrases() {
    let builtin = phrases(2);
    assert_eq!(demo_catalog(Some(vec!["x".to_string()]), builtin.clone()), vec!["x".to_string()]);
    assert_eq!(demo_catalog(Some(vec![]), builtin.clone()), builtin);
    assert_eq!(demo_catalog(None, builtin.clone()), builtin);
}

#[test]
fn picked_phrase_is_from_the_list() {
    let list = phrases(5);
    let mut rng = StdRng::seed_from_u64(7);
    for _ in 0..50 {
        let p = pick_phrase(&mut rng, &list);
        assert!(list.contains(&p));
    }
    let one = vec!["only".to_string()];
    assert_eq!(pick_phrase(&mut rng, &one), "only");
}
