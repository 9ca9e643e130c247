use std::path::PathBuf;

use verse::batches::{batch_ranges, batch_row, has_unique_keys, BATCH_SIZE};
use verse::float_bits::{f32_bits_is_nan, f32_bits_le, f64_bits_is_nan, f64_bits_le};
use verse::session::{
    api_endpoint, auth_path, config_dir, join_path, load_auth, optimization_flag, token_expires_at, AuthError,
    AuthStore,
};

#[test]
fn join_path_matches_pathbuf() {
    for (base, rel) in [("/home/u", "auth.json"), ("dir/", "verse"), ("", "verse"), (".", ".config"), ("/a", "/abs")] {
        let expected = PathBuf::from(base).join(rel);
        assert_eq!(join_path(base, rel), expected.to_str().unwrap());
    }
}

#[test]
fn config_directory_choice() {
    let s = |x: &str| Some(x.to_string());
    assert_eq!(config_dir(s("/cfg"), s("/xdg"), s("/home/u")), "/cfg");
    assert_eq!(config_dir(None, s("/xdg"), s("/home/u")), "/xdg/verse");
    assert_eq!(config_dir(None, None, s("/home/u")), "/home/u/.config/verse");
    assert_eq!(config_dir(None, None, None), "./.config/verse");
    assert_eq!(auth_path("/home/u/.config/verse"), "/home/u/.config/verse/auth.json");
}

fn store(expires_at: u64) -> AuthStore {
    AuthStore { access_token: "tok".to_string(), token_type: "bearer".to_string(), expires_at }
}

#[test]
fn saved_login_expiry() {
    let ok = load_auth(store(100), 99).unwrap();
    assert_eq!(ok.access_token, "tok");
    assert_eq!(ok.expires_at, 100);
    assert_eq!(load_auth(store(100), 100).unwrap_err(), AuthError::Expired);
    assert_eq!(load_auth(store(100), 101).unwrap_err(), AuthError::Expired);
    assert_eq!(token_expires_at(1000, 3600), 4570);
    assert_eq!(token_expires_at(1000, 10), 1000);
}

#[test]
fn endpoints() {
    assert_eq!(api_endpoint("http://127.0.0.1:8000", "/api/model"), "http://127.0.0.1:8000/api/model");
    assert_eq!(api_endpoint("http://host//", "/api/users/login"), "http://host/api/users/login");
    assert_eq!(api_endpoint("", "/x"), "/x");
}

#[test]
fn optimization_setting() {
    for v in ["1", "true", "TRUE", "Yes", "oN"] {
        assert_eq!(optimization_flag(Some(v)), 1);
    }
    for v in ["0", "false", "", " on", "enabled"] {
        assert_eq!(optimization_flag(Some(v)), 0);
    }
    assert_eq!(optimization_flag(None), 0);
}

#[test]
fn batch_ranges_cover_records() {
    assert_eq!(batch_ranges(25, BATCH_SIZE), vec![(0, 10), (10, 20), (20, 25)]);
    assert_eq!(batch_ranges(20, BATCH_SIZE), vec![(0, 10), (10, 20)]);
    assert_eq!(batch_ranges(3, BATCH_SIZE), vec![(0, 3)]);
    assert_eq!(batch_ranges(0, BATCH_SIZE), vec![]);
}

#[test]
fn batch_rows_follow_headers() {
    let headers: Vec<String> = vec!["a".into(), "b".into(), "c".into()];
    let record: Vec<(String, String)> = vec![("c".into(), "3".into()), ("a".into(), "1".into())];
    assert_eq!(batch_row(&headers, &record), vec!["1", "", "3"]);
}

#[test]
fn record_keys_unique() {
    let ok: Vec<(String, String)> = vec![("c".into(), "3".into()), ("a".into(), "1".into())];
    assert!(has_unique_keys(&ok));
    assert!(has_unique_keys(&Vec::new()));
    let twice: Vec<(String, String)> =
        vec![("a".into(), "1".into()), ("b".into(), "2".into()), ("a".into(), "3".into())];
    assert!(!has_unique_keys(&twice));
}

#[test]
fn float_comparisons_match_native() {
    let vals32 = [0.0f32, -0.0, 1.0, -1.0, 2.45, f32::MIN_POSITIVE, 1e-45, -1e-45, f32::MAX, f32::MIN, f32::INFINITY, f32::NEG_INFINITY, f32::NAN];
    for a in vals32 {
        assert_eq!(f32_bits_is_nan(a.to_bits()), a.is_nan());
        for b in vals32 {
            assert_eq!(f32_bits_le(a.to_bits(), b.to_bits()), a <= b, "{} <= {}", a, b);
        }
    }
    let vals64 = [0.0f64, -0.0, 0.5, -7.25, 1e-320, -1e-320, f64::MAX, f64::MIN, f64::INFINITY, f64::NEG_INFINITY, f64::NAN];
    for a in vals64 {
        assert_eq!(f64_bits_is_nan(a.to_bits()), a.is_nan());
        for b in vals64 {
            assert_eq!(f64_bits_le(a.to_bits(), b.to_bits()), a <= b, "{} <= {}", a, b);
        }
    }
    // A NaN with the sign bit set and another payload is still NaN.
    assert!(f32_bits_is_nan(0xffc0_0001));
    assert!(f64_bits_is_nan(0xfff8_0000_0000_0001));
}
