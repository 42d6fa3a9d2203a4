use metricrs::codec::{decode_result, frame_len};
use metricrs::instrument::CounterWrite;
use metricrs::instrument::Write;
use metricrs::registry::SharedStore;
use metricrs::store::MutableData;
use metricrs::token::Token;
use metricrs::wire::{InstrumentKind, WireError};

fn labels(pairs: &[(&str, &str)]) -> Vec<(String, String)> {
    pairs.iter().map(|(k, v)| (k.to_string(), v.to_string())).collect()
}

fn token(name: &str, pairs: &[(&str, &str)]) -> Token {
    Token::new(name.to_string(), labels(pairs))
}

#[test]
fn token_hash_is_deterministic() {
    let a = token("db.queries", &[("table", "users"), ("op", "select")]);
    let b = token("db.queries", &[("table", "users"), ("op", "select")]);
    assert_eq!(a.hash, b.hash);
    assert_eq!(a.name, "db.queries");
    assert_eq!(a.labels.len(), 2);
}

#[test]
fn deterministic_hash_across_fresh_strings() {
    let (a, b) = metricrs::token::deterministic_hash(
        "m".to_string(),
        labels(&[("l", "1")]),
        "m".to_string(),
        labels(&[("l", "1")]),
    );
    assert_eq!(a.hash, b.hash);
}

#[test]
fn token_label_order_is_significant() {
    let a = token("db.queries", &[("table", "users"), ("op", "select")]);
    let b = token("db.queries", &[("op", "select"), ("table", "users")]);
    assert_ne!(a.hash, b.hash);
}

#[test]
fn token_separators_keep_fields_apart() {
    let a = token("ab", &[]);
    let b = token("a", &[("b", "")]);
    assert_ne!(a.hash, b.hash);
}

#[test]
fn same_token_yields_same_cell() {
    let store = SharedStore::new();
    let c1 = store.counter(token("requests", &[("code", "200")]));
    let c2 = store.counter(token("requests", &[("code", "200")]));
    c1.increment(5);
    c2.increment(7);
    c2.absolute(100);
    c1.increment(1);
    let cell = store.get(InstrumentKind::Counter, token("requests", &[("code", "200")]));
    assert_eq!(Write(cell).load_bits(), 101);
}

#[test]
fn one_cell_per_token_in_one_store() {
    let mut d = MutableData::new();
    let (a, b) = metricrs::store::one_cell_per_token(
        &mut d,
        InstrumentKind::Counter,
        token("x", &[("k", "v")]),
        token("x", &[("k", "v")]),
    );
    Write(a).store_bits(5);
    assert_eq!(Write(b).load_bits(), 5);
}

#[test]
fn version_counts_distinct_tokens_only() {
    let mut d = MutableData::new();
    let t = token("a", &[]);
    let cell = d.get(InstrumentKind::Counter, t);
    assert_eq!(d.collect(0).version, 1);
    // value updates and repeated lookups leave the version alone
    Write(cell).store_bits(999);
    let _ = d.get(InstrumentKind::Counter, token("a", &[]));
    let _ = d.get(InstrumentKind::Counter, token("a", &[]));
    assert_eq!(d.collect(0).version, 1);
    let _ = d.get(InstrumentKind::Gauge, token("b", &[("x", "y")]));
    assert_eq!(d.collect(0).version, 2);
}

#[test]
fn collect_gates_metadata_on_version() {
    let mut d = MutableData::new();
    let t = token("hits", &[("route", "/")]);
    let hash = t.hash;
    let cell = d.get(InstrumentKind::Counter, t);
    Write(cell).store_bits(3);
    let first = d.collect(0);
    assert_eq!(first.version, 1);
    assert_eq!(first.metadatas.len(), 1);
    assert_eq!(first.metadatas[0].hash, hash);
    assert_eq!(first.metadatas[0].name, "hits");
    assert_eq!(first.values.len(), 1);
    assert_eq!(first.values[0].hash, hash);
    assert_eq!(first.values[0].value, 3);
    let second = d.collect(first.version);
    assert_eq!(second.metadatas.len(), 0);
    assert_eq!(second.values.len(), 1);
    assert_eq!(second.values[0].value, 3);
}

#[test]
fn query_round_trip_against_shared_store() {
    let store = SharedStore::new();
    let t = token("jobs.done", &[("queue", "mail")]);
    let hash = t.hash;
    let counter = store.counter(t);
    counter.increment(9);

    // a client that saw nothing yet gets values and the metadata snapshot
    let frame1 = store.respond(&0u64.to_le_bytes()).expect("well-formed query");
    assert_eq!(frame_len(&frame1[0..4]) as usize, frame1.len() - 4);
    let r1 = decode_result(&frame1[4..]).expect("server answers decode");
    assert_eq!(r1.version, 1);
    assert_eq!(r1.metadatas.len(), 1);
    assert_eq!(r1.metadatas[0].hash, hash);
    assert_eq!(r1.metadatas[0].kind, InstrumentKind::Counter);
    assert_eq!(r1.metadatas[0].name, "jobs.done");
    assert_eq!(r1.metadatas[0].labels, labels(&[("queue", "mail")]));
    assert_eq!(r1.values.len(), 1);
    assert_eq!(r1.values[0].hash, hash);
    assert_eq!(r1.values[0].value, 9);

    // a client that is up to date still gets values, but no metadata
    let frame2 = store.respond(&r1.version.to_le_bytes()).expect("well-formed query");
    let r2 = decode_result(&frame2[4..]).expect("server answers decode");
    assert_eq!(r2.version, 1);
    assert_eq!(r2.metadatas.len(), 0);
    assert_eq!(r2.values.len(), 1);
    assert_eq!(r2.values[0].value, 9);
}

#[test]
fn malformed_query_fails_only_that_exchange() {
    let store = SharedStore::new();
    let _ = store.counter(token("c", &[]));
    // a short body spells no query: the session would end with this error
    assert_eq!(store.respond(&[1, 2, 3]), Err(WireError::Malformed));
    // the store is unharmed and a fresh exchange is served normally
    let ok = store.respond(&0u64.to_le_bytes()).expect("later queries still work");
    let r = decode_result(&ok[4..]).expect("decodes");
    assert_eq!(r.metadatas.len(), 1);
}

#[test]
fn gauge_bits_update_by_compare_and_swap() {
    let store = SharedStore::new();
    let w = Write(store.get(InstrumentKind::Gauge, token("temp", &[])));
    assert_eq!(w.load_bits(), 0);

    // the retry loop a gauge backend runs: read, rework as a float, swap
    for delta in [2.5f64, -1.0f64] {
        loop {
            let cur = w.load_bits();
            let next = (f64::from_bits(cur) + delta).to_bits();
            if w.exchange_bits(cur, next).is_ok() {
                break;
            }
        }
    }
    assert_eq!(w.load_bits(), 1.5f64.to_bits());
    assert_eq!(f64::from_bits(w.load_bits()), 1.5);

    // set and histogram-record are plain swaps: last write wins
    w.store_bits(4.25f64.to_bits());
    assert_eq!(f64::from_bits(w.load_bits()), 4.25);
}

#[test]
fn absolute_overwrites_and_increment_adds() {
    let mut d = MutableData::new();
    let w = Write(d.get(InstrumentKind::Counter, token("n", &[])));
    w.increment(10);
    w.increment(5);
    assert_eq!(w.load_bits(), 15);
    w.absolute(7);
    assert_eq!(w.load_bits(), 7);
}

#[test]
fn noop_counter_discards_everything() {
    let c: metricrs::instrument::Counter<Write> = metricrs::instrument::Counter::Noop;
    c.increment(5);
    c.absolute(10);
}
