//! What an opener asks for, and what the database is opened with.

use std::path::Path;

use fjall_js::config::{open_fjall, to_engine_config, DatabaseConfig, EngineConfig};
use fjall_js::double::whole_number;
use fjall_js::path::{FsPath, PathPart};
use fjall_js::surface::{open, open_readonly};

fn somewhere() -> FsPath {
    FsPath { parts: vec![PathPart::RootDir, PathPart::Normal(b"data".to_vec())] }
}

fn request(bytes: Option<f64>) -> DatabaseConfig {
    DatabaseConfig { path: somewhere(), cache_size_bytes: bytes.map(f64::to_bits) }
}

fn cache_meant(bytes: f64) -> Option<u64> {
    to_engine_config(&request(Some(bytes))).cache_size_bytes
}

fn capacity_at(path: &Path, cache_size_bytes: Option<u64>) -> u64 {
    let cfg = EngineConfig { path: somewhere(), cache_size_bytes };
    let keyspace = open_fjall(&cfg, fjall::Config::new(path)).open().unwrap();
    assert!(path.is_dir());
    keyspace.cache_capacity()
}

#[test]
fn the_asked_for_cache_size_is_set() {
    let tmp = tempfile::tempdir().unwrap();
    assert_eq!(capacity_at(&tmp.path().join("a"), Some(1)), 1);
    assert_eq!(capacity_at(&tmp.path().join("b"), Some(123_456)), 123_456);
}

#[test]
fn a_cache_of_nothing_is_not_set() {
    let tmp = tempfile::tempdir().unwrap();
    let default = fjall::Config::new(tmp.path().join("a")).open().unwrap().cache_capacity();
    assert!(default > 1);
    assert_eq!(capacity_at(&tmp.path().join("b"), None), default);
    assert_eq!(capacity_at(&tmp.path().join("c"), Some(0)), default);
}

#[test]
fn a_cache_size_is_cut_to_a_whole_number() {
    assert_eq!(cache_meant(1.0), Some(1));
    assert_eq!(cache_meant(1.999), Some(1));
    assert_eq!(cache_meant(2.0), Some(2));
    assert_eq!(cache_meant(16_777_216.5), Some(16_777_216));
    assert_eq!(cache_meant(9_007_199_254_740_993.0), Some(9_007_199_254_740_992));
}

#[test]
fn a_cache_size_that_is_too_large_is_the_largest() {
    assert_eq!(cache_meant(18_446_744_073_709_549_568.0), Some(18_446_744_073_709_549_568));
    assert_eq!(cache_meant(18_446_744_073_709_551_616.0), Some(u64::MAX));
    assert_eq!(cache_meant(1e300), Some(u64::MAX));
    assert_eq!(cache_meant(f64::MAX), Some(u64::MAX));
}

#[test]
fn a_cache_size_without_meaning_is_none() {
    assert_eq!(to_engine_config(&request(None)).cache_size_bytes, None);
    for bytes in [
        0.0,
        -0.0,
        0.999,
        -1.0,
        -1e300,
        f64::MIN_POSITIVE,
        f64::from_bits(1),
        f64::NAN,
        -f64::NAN,
        f64::INFINITY,
        f64::NEG_INFINITY,
    ] {
        assert_eq!(cache_meant(bytes), None);
    }
}

#[test]
fn whole_numbers_agree_with_floating_point() {
    for exponent in 0u64..2048 {
        for fraction in [0u64, 1, 0x8_0000_0000_0000, 0xa_bcde_f012_3456, 0xf_ffff_ffff_ffff] {
            for sign in [0u64, 1] {
                let bits = sign << 63 | exponent << 52 | fraction;
                let number = f64::from_bits(bits);
                let expected =
                    if number.is_finite() && number >= 1.0 { Some(number as u64) } else { None };
                assert_eq!(whole_number(bits), expected);
            }
        }
    }
}

#[test]
fn the_opened_directory_is_the_asked_for_one() {
    assert!(to_engine_config(&request(None)).path.same(&somewhere()));
    let task = open(request(Some(4096.0)));
    assert!(task.cfg.path.same(&somewhere()));
    assert_eq!(task.cfg.cache_size_bytes, Some(4096));
    let task = open_readonly(request(Some(0.5)));
    assert!(task.cfg.path.same(&somewhere()));
    assert_eq!(task.cfg.cache_size_bytes, None);
}
