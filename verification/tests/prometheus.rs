use keeper::prometheus::Emitter;

#[test]
fn a_new_emitter_has_written_nothing() {
    let e = Emitter::new();
    assert_eq!(e.out(), "");
    assert!(!e.is_defined("up"));
}

#[test]
fn values_come_under_the_header_of_their_statistic() {
    let mut e = Emitter::new();
    e.define("up", "gauge", "is it up?");
    e.define("load", "counter", "how much");
    assert!(e.is_defined("up") && e.is_defined("load") && !e.is_defined("down"));
    assert_eq!(e.out(), "");
    e.emit_i64("up", "web1", "ping", 1);
    e.emit_i32("load", "web1", "ping", -7);
    e.emit_i64("up", "db-2", "ping", i64::MIN);
    assert_eq!(
        e.out(),
        "# TYPE up gauge\n# HELP up is it up?\nup{host=\"web1\",name=\"ping\"}\t1\n\
         # TYPE load counter\n# HELP load how much\nload{host=\"web1\",name=\"ping\"}\t-7\n\
         up{host=\"db-2\",name=\"ping\"}\t-9223372036854775808\n"
    );
}

#[test]
fn a_statistic_defined_anew_keeps_its_header_if_written() {
    let mut e = Emitter::new();
    e.define("up", "gauge", "first");
    e.define("up", "counter", "second");
    e.emit_i32("up", "h1", "j1", 2);
    e.define("up", "summary", "third");
    e.emit_i32("up", "h1", "j1", 3);
    assert_eq!(
        e.out(),
        "# TYPE up counter\n# HELP up second\nup{host=\"h1\",name=\"j1\"}\t2\nup{host=\"h1\",name=\"j1\"}\t3\n"
    );
}
