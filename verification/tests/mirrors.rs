use renegadex_patcher::error::Error;
use renegadex_patcher::fetch::check_mirrors;
use renegadex_patcher::mirrors::{Mirror, Mirrors, NamedUrl};

fn named(url: &str) -> NamedUrl {
    NamedUrl { name: format!("mirror {}", url), url: url.to_string() }
}

fn three_mirrors() -> Mirrors {
    Mirrors::new(
        vec![named("http://a/"), named("http://b/"), named("http://c/")],
        vec![Some(vec!["1.1.1.1:80".to_string()]), Some(vec!["2.2.2.2:80".to_string()]), Some(vec![])],
        "5.0".to_string(),
    )
}

#[test]
fn new_keeps_only_resolved_mirrors() {
    let m = Mirrors::new(
        vec![named("http://a/"), named("not a url"), named("http://c/")],
        vec![Some(vec!["1.1.1.1:80".to_string()]), None, Some(vec!["3.3.3.3:80".to_string()])],
        "5.0".to_string(),
    );
    assert_eq!(m.len(), 2);
    assert!(!m.is_empty());
    let mut m = m;
    let first = m.get_mirror().unwrap();
    assert_eq!(first.base, "http://a/");
    assert_eq!(first.slot, 0);
    assert_eq!(first.address(), "http://a/5.0");
    assert_eq!(first.patchfile_url("instructions.json"), "http://a/5.0/instructions.json");
    assert_eq!(first.speed_millis, 10000);
    assert_eq!(first.ping_micros, 1_000_000);
}

#[test]
fn get_mirror_hands_out_the_least_used() {
    let mut m = three_mirrors();
    let a = m.get_mirror().unwrap();
    let b = m.get_mirror().unwrap();
    let c = m.get_mirror().unwrap();
    assert_eq!((a.slot, b.slot, c.slot), (0, 1, 2));
    assert_eq!(a.in_use, 1);
    m.release(&b);
    let again = m.get_mirror().unwrap();
    assert_eq!(again.slot, 1);
}

#[test]
fn get_mirror_skips_disabled_mirrors() {
    let mut m = three_mirrors();
    m.disable(0);
    let first = m.get_mirror().unwrap();
    assert_eq!(first.slot, 1);
    let second = m.get_mirror().unwrap();
    assert_eq!(second.slot, 2);
    m.remove(&second);
    let third = m.get_mirror().unwrap();
    assert_eq!(third.slot, 1);
    assert_eq!(third.in_use, 2);
}

#[test]
fn get_mirror_without_enabled_mirrors_fails() {
    let mut m = three_mirrors();
    m.disable(0);
    m.disable(1);
    m.disable(2);
    assert_eq!(m.get_mirror().unwrap_err(), Error::NoMirrors());
    let mut empty = Mirrors::new(vec![], vec![], "5.0".to_string());
    assert!(empty.is_empty());
    assert_eq!(empty.get_mirror().unwrap_err(), Error::NoMirrors());
    assert_eq!(check_mirrors(&empty), Err(Error::NoMirrors()));
    assert_eq!(check_mirrors(&three_mirrors()), Ok(()));
}

#[test]
fn fourth_error_disables_a_mirror() {
    let mut m = three_mirrors();
    let a = m.get_mirror().unwrap();
    for _ in 0..3 {
        m.increment_error_count(&a);
    }
    m.release(&a);
    let still = m.get_mirror().unwrap();
    assert_eq!(still.slot, 0);
    assert_eq!(still.error_count, 3);
    assert!(still.enabled);
    m.increment_error_count(&a);
    let next = m.get_mirror().unwrap();
    assert_ne!(next.slot, 0);
}

#[test]
fn release_undoes_get_mirror() {
    let mut m = three_mirrors();
    let a = m.get_mirror().unwrap();
    m.release(&a);
    let again = m.get_mirror().unwrap();
    assert_eq!(again.slot, 0);
    assert_eq!(again.in_use, 1);
}

fn tested(m: &Mirror, millis: u64) -> Result<Mirror, Error> {
    m.tested(Some(&"10000".to_string()), millis * 1000)
}

#[test]
fn speed_test_orders_fastest_first_and_disables_slow_ones() {
    let mut m = three_mirrors();
    let a = m.get_mirror().unwrap();
    let b = m.get_mirror().unwrap();
    let c = m.get_mirror().unwrap();
    m.release(&a);
    m.release(&b);
    m.release(&c);
    let results = vec![tested(&a, 300), tested(&b, 50), tested(&c, 201)];
    m.apply_test_results(results);
    assert_eq!(m.len(), 3);
    let first = m.get_mirror().unwrap();
    assert_eq!(first.base, "http://b/");
    assert_eq!(first.slot, 0);
    assert_eq!(first.speed_millis, 50);
    // c took 201 ms, more than four times 50 ms: disabled, like a (300 ms)
    let second = m.get_mirror().unwrap();
    assert_eq!(second.base, "http://b/");
    let third = m.get_mirror().unwrap();
    assert_eq!(third.base, "http://b/");
    assert_eq!(third.in_use, 4);
}

#[test]
fn exactly_four_times_slower_stays_enabled() {
    let mut m = three_mirrors();
    let a = m.get_mirror().unwrap();
    let b = m.get_mirror().unwrap();
    let c = m.get_mirror().unwrap();
    m.apply_test_results(vec![tested(&a, 200), tested(&b, 50), tested(&c, 201)]);
    let x = m.get_mirror().unwrap();
    let y = m.get_mirror().unwrap();
    assert_eq!(x.base, "http://b/");
    assert_eq!(y.base, "http://a/");
    assert_eq!(y.slot, 1);
}

#[test]
fn failed_speed_tests_drop_the_mirror() {
    let mut m = three_mirrors();
    let a = m.get_mirror().unwrap();
    let b = m.get_mirror().unwrap();
    let c = m.get_mirror().unwrap();
    let results = vec![
        a.tested(None, 1000),
        b.tested(Some(&"42".to_string()), 1000),
        tested(&c, 10),
    ];
    assert!(matches!(results[0], Err(Error::Message(_))));
    assert_eq!(results[1].as_ref().unwrap_err(), &Error::InvalidServer());
    m.apply_test_results(results);
    assert_eq!(m.len(), 1);
    assert_eq!(m.get_mirror().unwrap().base, "http://c/");
}

#[test]
fn equally_fast_mirrors_keep_their_order() {
    let mut m = three_mirrors();
    let a = m.get_mirror().unwrap();
    let b = m.get_mirror().unwrap();
    let c = m.get_mirror().unwrap();
    m.apply_test_results(vec![tested(&a, 80), tested(&b, 80), tested(&c, 20)]);
    let x = m.get_mirror().unwrap();
    let y = m.get_mirror().unwrap();
    let z = m.get_mirror().unwrap();
    assert_eq!((x.base.as_str(), y.base.as_str(), z.base.as_str()), ("http://c/", "http://a/", "http://b/"));
}

#[test]
fn a_list_stays_non_empty_whatever_is_disabled() {
    let mut m = three_mirrors();
    let n = m.len();
    assert!(n > 0);
    let a = m.get_mirror().unwrap();
    for _ in 0..6 {
        m.increment_error_count(&a);
    }
    m.remove(&a);
    for i in 0..n {
        m.disable(i);
        m.disable(i);
    }
    assert!(!m.is_empty());
    assert_eq!(m.len(), n);
    assert!(m.get_mirror().is_err());
    assert!(!m.is_empty());
}

#[test]
fn mirror_urls_parse_in_order() {
    let named = vec![named("https://one.example/patches/"), named("not a url"), named("http://10.0.0.1:8080/")];
    let urls = renegadex_patcher::mirrors::mirror_urls(&named);
    assert_eq!(urls.len(), 3);
    assert_eq!(urls[0].as_ref().map(|u| u.host_str().unwrap().to_string()), Some("one.example".to_string()));
    assert!(urls[1].is_none());
    assert_eq!(urls[2].as_ref().and_then(|u| u.port()), Some(8080));
}
