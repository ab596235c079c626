use fingerprint_collector::store::{Outcome, Store};

fn s(x: &str) -> String {
    x.to_string()
}

fn headers_a() -> Vec<(String, String)> {
    vec![(s("user-agent"), s("A")), (s("accept-language"), s("en"))]
}

fn headers_b() -> Vec<(String, String)> {
    vec![(s("user-agent"), s("B"))]
}

#[test]
fn first_report_creates_then_existing() {
    let mut st = Store::new();
    assert_eq!(st.report("1.2.3.4", s("color"), s("red"), headers_a(), 0), Outcome::Created);
    assert_eq!(st.report("1.2.3.4", s("depth"), s("24"), headers_a(), 1), Outcome::Existing);
    assert_eq!(st.len(), 1);
    assert!(st.contains("1.2.3.4"));
}

#[test]
fn scenario_color_and_font() {
    let mut st = Store::new();
    assert_eq!(st.report("1.2.3.4", s("color"), s("red"), headers_a(), 0), Outcome::Created);
    assert_eq!(st.report("1.2.3.4", s("font-name"), s("Arial"), headers_b(), 1), Outcome::Existing);
    let f = st.take("1.2.3.4").unwrap();
    assert_eq!(f.properties, vec![(s("color"), s("red"))]);
    assert_eq!(f.fonts, vec![s("Arial")]);
    assert_eq!(f.headers, headers_a());
    assert_eq!(f.timestamp, 0);
    assert_eq!(st.len(), 0);
}

#[test]
fn reports_accumulate_in_order() {
    let mut st = Store::new();
    let pairs = [
        ("a", "1"),
        ("font-name", "Arial"),
        ("b", "2"),
        ("font-name", "Courier"),
        ("a", "3"),
    ];
    for (i, (k, v)) in pairs.iter().enumerate() {
        st.report("10.0.0.1", s(k), s(v), headers_a(), i as i64);
    }
    let f = st.take("10.0.0.1").unwrap();
    assert_eq!(f.properties, vec![(s("a"), s("1")), (s("b"), s("2")), (s("a"), s("3"))]);
    assert_eq!(f.fonts, vec![s("Arial"), s("Courier")]);
    assert_eq!(f.timestamp, 0);
}

#[test]
fn one_creation_per_lifecycle() {
    let mut st = Store::new();
    let mut created = 0;
    for i in 0..20 {
        let o = st.report("5.6.7.8", s("k"), format!("{}", i), headers_a(), i);
        if o.arms_export() {
            created += 1;
        }
    }
    assert_eq!(created, 1);
    assert!(st.take("5.6.7.8").is_some());
    assert!(st.take("5.6.7.8").is_none());
}

#[test]
fn take_absent_is_quiet() {
    let mut st = Store::new();
    assert!(st.take("9.9.9.9").is_none());
    st.report("1.1.1.1", s("x"), s("y"), headers_a(), 3);
    assert!(st.take("9.9.9.9").is_none());
    assert_eq!(st.len(), 1);
    assert!(st.contains("1.1.1.1"));
}

#[test]
fn fresh_record_after_export() {
    let mut st = Store::new();
    st.report("1.2.3.4", s("color"), s("red"), headers_a(), 100);
    st.report("1.2.3.4", s("font-name"), s("Arial"), headers_a(), 101);
    let first = st.take("1.2.3.4").unwrap();
    assert_eq!(first.timestamp, 100);
    assert_eq!(st.report("1.2.3.4", s("depth"), s("24"), headers_b(), 200), Outcome::Created);
    let second = st.take("1.2.3.4").unwrap();
    assert_eq!(second.timestamp, 200);
    assert_eq!(second.properties, vec![(s("depth"), s("24"))]);
    assert!(second.fonts.is_empty());
    assert_eq!(second.headers, headers_b());
}

#[test]
fn headers_from_first_request_only() {
    let mut st = Store::new();
    st.report("2.2.2.2", s("a"), s("1"), headers_a(), 0);
    st.report("2.2.2.2", s("b"), s("2"), headers_b(), 1);
    st.report("2.2.2.2", s("c"), s("3"), Vec::new(), 2);
    let f = st.take("2.2.2.2").unwrap();
    assert_eq!(f.headers, headers_a());
}

#[test]
fn identities_kept_apart() {
    let mut st = Store::new();
    assert_eq!(st.report("1.1.1.1", s("color"), s("red"), headers_a(), 0), Outcome::Created);
    assert_eq!(st.report("2.2.2.2", s("color"), s("blue"), headers_b(), 1), Outcome::Created);
    assert_eq!(st.report("1.1.1.1", s("font-name"), s("Arial"), headers_b(), 2), Outcome::Existing);
    assert_eq!(st.report("2.2.2.2", s("font-name"), s("Times"), headers_a(), 3), Outcome::Existing);
    assert_eq!(st.len(), 2);
    let a = st.take("1.1.1.1").unwrap();
    assert_eq!(a.properties, vec![(s("color"), s("red"))]);
    assert_eq!(a.fonts, vec![s("Arial")]);
    assert_eq!(a.headers, headers_a());
    assert!(st.contains("2.2.2.2"));
    let b = st.take("2.2.2.2").unwrap();
    assert_eq!(b.properties, vec![(s("color"), s("blue"))]);
    assert_eq!(b.fonts, vec![s("Times")]);
    assert_eq!(b.headers, headers_b());
    assert_eq!(b.timestamp, 1);
}

#[test]
fn outcome_arms_only_on_creation() {
    assert!(Outcome::Created.arms_export());
    assert!(!Outcome::Existing.arms_export());
}

#[test]
fn interleaved_reports_stay_apart() {
    let mut st = Store::new();
    let ids = ["1.1.1.1", "2.2.2.2", "3.3.3.3"];
    for round in 0..4 {
        for (n, id) in ids.iter().enumerate() {
            let t = (round * 3 + n) as i64;
            let key = if round % 2 == 0 { s("k") } else { s("font-name") };
            st.report(id, key, format!("{}-{}", id, round), vec![(s("h"), format!("{}", t))], t);
        }
    }
    assert!(st.take("2.2.2.2").is_some());
    for (n, id) in ["1.1.1.1", "3.3.3.3"].iter().enumerate() {
        let f = st.take(id).unwrap();
        let first = if n == 0 { 0 } else { 2 };
        assert_eq!(f.timestamp, first);
        assert_eq!(f.headers, vec![(s("h"), format!("{}", first))]);
        assert_eq!(
            f.properties,
            vec![(s("k"), format!("{}-0", id)), (s("k"), format!("{}-2", id))]
        );
        assert_eq!(f.fonts, vec![format!("{}-1", id), format!("{}-3", id)]);
    }
    assert_eq!(st.len(), 0);
}
