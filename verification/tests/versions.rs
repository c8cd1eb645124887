use esmeril::requirement::{latest_stable, parse_req, Req};
use esmeril::version::{compare_prerelease, parse_version, text_compare, Precedence, Version};

fn v(s: &str) -> Version {
    parse_version(s).unwrap()
}

#[test]
fn version_ordering() {
    assert!(parse_version("1.12.0") < parse_version("1.13.0"));
    assert!(parse_version("1.13.0-rc.3") < parse_version("1.13.0"));
    assert!(parse_version("1.13.0-rc.3") > parse_version("1.12.0"));
    assert!(parse_version("1.13.0-rc.10") > parse_version("1.13.0-rc.3"));
    assert!(parse_version("1.0.0-alpha") < parse_version("1.0.0-beta"));
    assert_eq!(parse_version("1.2"), parse_version("1.2.0"));
}

#[test]
fn version_display() {
    assert_eq!(
        parse_version("1.13.0-rc.3").unwrap().to_string(),
        "1.13.0-rc.3"
    );
    assert_eq!(parse_version("1.12.0").unwrap().to_string(), "1.12.0");
}

#[test]
fn invalid_versions_rejected() {
    assert_eq!(parse_version("abc"), None);
    assert_eq!(parse_version("1.2.3.4"), None);
    assert_eq!(parse_version("1.2.x"), None);
}

#[test]
fn req_semantics() {
    let caret = parse_req("1.2.0").unwrap();
    assert!(caret.satisfies(&parse_version("1.2.0").unwrap()));
    assert!(caret.satisfies(&parse_version("1.9.0").unwrap()));
    assert!(!caret.satisfies(&parse_version("2.0.0").unwrap()));
    assert!(!caret.satisfies(&parse_version("1.1.9").unwrap()));

    let caret_zero = parse_req("0.2.1").unwrap();
    assert!(caret_zero.satisfies(&parse_version("0.2.1").unwrap()));
    assert!(caret_zero.satisfies(&parse_version("0.2.9").unwrap()));
    assert!(!caret_zero.satisfies(&parse_version("0.3.0").unwrap()));

    let exact = parse_req("=1.2.0").unwrap();
    assert!(exact.satisfies(&parse_version("1.2.0").unwrap()));
    assert!(!exact.satisfies(&parse_version("1.2.1").unwrap()));

    let tilde = parse_req("~1.2.0").unwrap();
    assert!(tilde.satisfies(&parse_version("1.2.9").unwrap()));
    assert!(!tilde.satisfies(&parse_version("1.3.0").unwrap()));
}

#[test]
fn parse_fills_missing_parts_and_trims() {
    let x = v("  7 ");
    assert_eq!((x.major, x.minor, x.patch), (7, 0, 0));
    assert!(x.prerelease.is_none());
    let y = v("1.2.3-beta.2");
    assert_eq!((y.major, y.minor, y.patch), (1, 2, 3));
    assert_eq!(y.prerelease.as_deref(), Some("beta.2"));
    assert!(y.is_stable() == false);
    assert!(v("1.2.3").is_stable());
    assert_eq!(parse_version(""), None);
    assert_eq!(parse_version("1..2"), None);
    assert_eq!(parse_version("18446744073709551616"), None);
    assert_eq!(v("18446744073709551615").major, u64::MAX);
}

#[test]
fn ordering_is_reflexive_and_antisymmetric_on_examples() {
    for s in ["1.0.0", "1.0.0-rc.1", "0.0.1-alpha.beta", "2.3"] {
        assert_eq!(v(s).compare(&v(s)), Precedence::Equal);
    }
    let pairs = [("1.0.0", "1.0.1"), ("1.0.0-rc.2", "1.0.0-rc.11"), ("1.0.0-a", "1.0.0")];
    for (a, b) in pairs {
        assert_eq!(v(a).compare(&v(b)), Precedence::Less);
        assert_eq!(v(b).compare(&v(a)), Precedence::Greater);
    }
}

#[test]
fn ordering_is_transitive_on_comparable_examples() {
    let a = v("1.0.0-rc.2");
    let b = v("1.0.0-rc.10");
    let c = v("1.0.0");
    assert_eq!(a.compare(&b), Precedence::Less);
    assert_eq!(b.compare(&c), Precedence::Less);
    assert_eq!(a.compare(&c), Precedence::Less);
}

#[test]
fn prerelease_segments_mix_numbers_and_text() {
    assert_eq!(compare_prerelease("rc.9", "rc.10"), Precedence::Less);
    assert_eq!(compare_prerelease("alpha", "alpha.1"), Precedence::Less);
    assert_eq!(compare_prerelease("beta", "alpha"), Precedence::Greater);
    assert_eq!(compare_prerelease("1", "1"), Precedence::Equal);
    // a numeric and a textual segment compare as text
    assert_eq!(compare_prerelease("9", "1a"), Precedence::Greater);
    let cs = |t: &str| t.chars().collect::<Vec<char>>();
    assert_eq!(text_compare(&cs("abc"), &cs("abd")), Precedence::Less);
    assert_eq!(text_compare(&cs("ab"), &cs("a")), Precedence::Greater);
}

#[test]
fn text_roundtrip_of_parsed_versions() {
    for s in ["1.2.3", "0.0.0", "10.20.30-rc.1", "4.5.6-x"] {
        let x = v(s);
        let again = v(&x.to_string());
        assert_eq!(again, x);
        assert_eq!(x.to_string(), s);
    }
}

#[test]
fn bare_requirement_is_caret() {
    for s in ["1.2.0", "0.2.1", "0.0.3"] {
        let bare = parse_req(s).unwrap();
        let caret = parse_req(&format!("^{s}")).unwrap();
        assert!(matches!(bare, Req::Caret(_)));
        assert!(matches!(caret, Req::Caret(_)));
        for probe in ["0.0.3", "0.0.4", "0.2.1", "0.2.5", "0.3.0", "1.2.0", "1.5.0", "2.0.0"] {
            assert_eq!(bare.satisfies(&v(probe)), caret.satisfies(&v(probe)));
        }
    }
}

#[test]
fn requirement_accepts_its_base() {
    for s in ["1.2.0", "^0.2.1", "~3.4.5", "=0.0.1"] {
        let r = parse_req(s).unwrap();
        let base = match &r {
            Req::Exact(b) | Req::Caret(b) | Req::Tilde(b) => b.duplicate(),
        };
        assert!(r.satisfies(&base));
    }
}

#[test]
fn caret_on_zero_zero_pins_the_patch() {
    let r = parse_req("0.0.3").unwrap();
    assert!(r.satisfies(&v("0.0.3")));
    assert!(!r.satisfies(&v("0.0.4")));
    assert!(!r.satisfies(&v("0.0.2")));
}

#[test]
fn bad_requirements_are_rejected() {
    assert!(parse_req("^x").is_none());
    assert!(parse_req("~").is_none());
    assert!(parse_req(">=1.0.0").is_none());
}

#[test]
fn latest_prefers_releases_over_prereleases() {
    let vs = vec![v("1.0.0"), v("2.0.0-rc.1"), v("1.5.0")];
    assert_eq!(latest_stable(&vs).unwrap().to_string(), "1.5.0");
    let pre = vec![v("2.0.0-rc.1"), v("2.0.0-rc.2")];
    assert!(latest_stable(&pre).is_none());
    assert!(latest_stable(&[]).is_none());
}

#[test]
fn caret_on_zero_major_keeps_the_zero() {
    let r = parse_req("^0.2.1").unwrap();
    assert!(r.satisfies(&v("0.2.5")));
    assert!(!r.satisfies(&v("1.2.0")));
    assert!(!r.satisfies(&v("1.2.5")));
    let z = parse_req("0.0.3").unwrap();
    assert!(!z.satisfies(&v("5.7.3")));
    assert!(!z.satisfies(&v("1.0.3")));
    assert!(z.satisfies(&v("0.0.3")));
}
