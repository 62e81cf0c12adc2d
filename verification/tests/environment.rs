use jlox::environment::Environment;
use jlox::expr::{Function, LiteralValue};
use jlox::number::Number;

fn number(n: i64) -> LiteralValue {
    LiteralValue::Number(Number::from_integer(n).unwrap())
}

#[test]
fn try_init() {
    let _environment = Environment::new();
}

#[test]
fn root_frame_binds_the_clock() {
    let environment = Environment::new();
    assert_eq!(environment.current(), 0);
    assert_eq!(environment.frame_count(), 1);
    match environment.get("clock", None) {
        Some(LiteralValue::Callable { name, arity, fun }) => {
            assert_eq!(name, "clock");
            assert_eq!(arity, 0);
            assert!(matches!(fun, Function::Clock));
        }
        other => panic!("no clock: {:?}", other),
    }
    assert_eq!(environment.get("clock", Some(0)), environment.get("clock", None));
}

#[test]
fn define_inserts_and_overwrites_in_current_frame() {
    let mut environment = Environment::new();
    assert_eq!(environment.get("a", None), None);
    environment.define("a".to_string(), number(1));
    assert_eq!(environment.get("a", None), Some(number(1)));
    environment.define("a".to_string(), number(2));
    assert_eq!(environment.get("a", None), Some(number(2)));
    assert_eq!(environment.get("a", Some(0)), Some(number(2)));
}

#[test]
fn dynamic_lookup_walks_to_the_root() {
    let mut environment = Environment::new();
    environment.define("a".to_string(), number(1));
    environment.enclose();
    environment.define("b".to_string(), number(2));
    environment.enclose();
    assert_eq!(environment.current(), 2);
    assert_eq!(environment.frame_count(), 3);
    assert_eq!(environment.get("a", None), Some(number(1)));
    assert_eq!(environment.get("b", None), Some(number(2)));
    assert_eq!(environment.get("c", None), None);
}

#[test]
fn lookup_by_distance_reads_one_frame_only() {
    let mut environment = Environment::new();
    environment.define("a".to_string(), number(1));
    environment.enclose();
    environment.define("a".to_string(), number(2));
    environment.enclose();
    assert_eq!(environment.get("a", Some(0)), None);
    assert_eq!(environment.get("a", Some(1)), Some(number(2)));
    assert_eq!(environment.get("a", Some(2)), Some(number(1)));
    assert_eq!(environment.get("a", None), Some(number(2)));
}

#[test]
fn shadowing_leaves_the_outer_binding() {
    let mut environment = Environment::new();
    environment.define("a".to_string(), number(1));
    let outer = environment.current();
    environment.enclose();
    environment.define("a".to_string(), number(2));
    assert_eq!(environment.get("a", None), Some(number(2)));
    environment.enter(outer);
    assert_eq!(environment.get("a", None), Some(number(1)));
}

#[test]
fn dynamic_assign_updates_the_first_binding_or_nothing() {
    let mut environment = Environment::new();
    environment.define("a".to_string(), number(1));
    environment.enclose();
    assert!(environment.assign("a", number(5), None));
    assert_eq!(environment.get("a", Some(1)), Some(number(5)));
    assert_eq!(environment.get("a", Some(0)), None);
    assert!(!environment.assign("missing", number(9), None));
    assert_eq!(environment.get("missing", None), None);
    environment.define("a".to_string(), number(7));
    assert!(environment.assign("a", number(8), None));
    assert_eq!(environment.get("a", Some(0)), Some(number(8)));
    assert_eq!(environment.get("a", Some(1)), Some(number(5)));
}

#[test]
fn assign_by_distance_is_unconditional() {
    let mut environment = Environment::new();
    environment.enclose();
    environment.enclose();
    assert!(environment.assign("fresh", number(3), Some(1)));
    assert_eq!(environment.get("fresh", Some(1)), Some(number(3)));
    assert_eq!(environment.get("fresh", Some(0)), None);
    assert_eq!(environment.get("fresh", Some(2)), None);
    assert!(environment.assign("fresh", number(4), Some(1)));
    assert_eq!(environment.get("fresh", None), Some(number(4)));
}

#[test]
fn sibling_frames_share_their_parent() {
    let mut environment = Environment::new();
    environment.enclose();
    let parent = environment.current();
    environment.define("x".to_string(), number(1));
    environment.enclose();
    let first = environment.current();
    environment.enter(parent);
    environment.enclose();
    let second = environment.current();
    assert_ne!(first, second);
    environment.enter(first);
    assert!(environment.assign("x", number(2), Some(1)));
    environment.enter(second);
    assert_eq!(environment.get("x", Some(1)), Some(number(2)));
    assert!(environment.assign("x", number(3), None));
    environment.enter(first);
    assert_eq!(environment.get("x", None), Some(number(3)));
    environment.enter(0);
    assert_eq!(environment.get("x", None), None);
}

#[test]
fn depth_counts_the_links_to_the_root() {
    let mut environment = Environment::new();
    assert_eq!(environment.depth(), 0);
    environment.enclose();
    environment.enclose();
    assert_eq!(environment.depth(), 2);
    environment.enter(1);
    assert_eq!(environment.depth(), 1);
    environment.enclose();
    assert_eq!(environment.depth(), 2);
    assert_eq!(environment.frame_count(), 4);
}

#[test]
fn newest_frame_is_removed_unless_it_lasts() {
    let mut environment = Environment::new();
    environment.enclose();
    let first = environment.current();
    environment.define("a".to_string(), number(1));
    environment.release(first);
    assert_eq!(environment.frame_count(), 2);
    environment.enter(0);
    environment.release(first);
    assert_eq!(environment.frame_count(), 1);
    environment.release(0);
    assert_eq!(environment.frame_count(), 1);

    environment.enclose();
    let kept = environment.current();
    environment.capture();
    assert_eq!(environment.captured(), 2);
    environment.enclose();
    let inner = environment.current();
    environment.enter(0);
    environment.release(kept);
    assert_eq!(environment.frame_count(), 3);
    environment.release(inner);
    assert_eq!(environment.frame_count(), 2);
    environment.release(kept);
    assert_eq!(environment.frame_count(), 2);
    environment.capture();
    assert_eq!(environment.captured(), 2);
}
