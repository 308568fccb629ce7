use large_scale_redirects::dictionary::{DictionaryError, TargetDictionary};
use large_scale_redirects::fallback::{FallbackRule, FallbackTable};
use large_scale_redirects::index::{IndexError, KeyIndex};
use large_scale_redirects::resolver::{is_valid_default_status, InitError, Outcome, RedirectResolver};

/// A serialized index: each key, then its id in decimal, each field
/// followed by a zero byte.
fn index_blob(pairs: &[(&str, u64)]) -> Vec<u8> {
    let mut out = Vec::new();
    for (k, id) in pairs {
        out.extend_from_slice(k.as_bytes());
        out.push(0);
        out.extend_from_slice(id.to_string().as_bytes());
        out.push(0);
    }
    out
}

/// A serialized dictionary: each target followed by a zero byte.
fn dictionary_blob(targets: &[&str]) -> Vec<u8> {
    let mut out = Vec::new();
    for t in targets {
        out.extend_from_slice(t.as_bytes());
        out.push(0);
    }
    out
}

/// Serialized index and dictionary for `entries` of (path, stored target):
/// the dictionary holds the distinct targets in sorted order and the index
/// maps each path to the id of its target.
fn artifacts(entries: &[(&str, &str)]) -> (Vec<u8>, Vec<u8>) {
    let mut targets: Vec<&str> = entries.iter().map(|e| e.1).collect();
    targets.sort();
    targets.dedup();
    let mut keys: Vec<(&str, u64)> = entries
        .iter()
        .map(|(k, t)| (*k, targets.iter().position(|x| x == t).unwrap() as u64))
        .collect();
    keys.sort();
    (index_blob(&keys), dictionary_blob(&targets))
}

fn rules(pairs: &[(&str, &str)]) -> FallbackTable {
    FallbackTable::new(
        pairs
            .iter()
            .map(|(p, t)| FallbackRule::new(p.to_string(), t.to_string()))
            .collect(),
    )
}

fn load(entries: &[(&str, &str)], fallbacks: &[(&str, &str)], status: u16) -> RedirectResolver {
    let (index, dict) = artifacts(entries);
    RedirectResolver::init(&index, &dict, rules(fallbacks), status).unwrap()
}

fn redirect(target: &str, status: u16) -> Outcome {
    Outcome::Redirect { target: target.as_bytes().to_vec(), status }
}

#[test]
fn example_snapshot() {
    let r = load(
        &[("/old", "https://new.example/landing 301")],
        &[("/legacy/", "https://new.example/migrated")],
        302,
    );
    assert_eq!(r.resolve("/old"), redirect("https://new.example/landing", 301));
    assert_eq!(
        r.resolve("/legacy/foo"),
        redirect("https://new.example/migratedfoo", 302)
    );
    assert_eq!(r.resolve("/unmapped"), Outcome::NotFound);
}

#[test]
fn every_indexed_path_round_trips() {
    let entries = [
        ("/a", "https://x.example/one"),
        ("/b", "https://x.example/two 307"),
        ("/c", "https://x.example/one"),
        ("/d/e?q=1", "https://y.example/three 399"),
        ("/é", "https://y.example/accent"),
    ];
    let r = load(&entries, &[], 308);
    assert_eq!(r.resolve("/a"), redirect("https://x.example/one", 308));
    assert_eq!(r.resolve("/b"), redirect("https://x.example/two", 307));
    assert_eq!(r.resolve("/c"), redirect("https://x.example/one", 308));
    assert_eq!(r.resolve("/d/e?q=1"), redirect("https://y.example/three", 399));
    assert_eq!(r.resolve("/é"), redirect("https://y.example/accent", 308));
    assert_eq!(r.resolve("/d/e"), Outcome::NotFound);
    assert_eq!(r.default_status(), 308);
}

#[test]
fn out_of_range_suffix_uses_default_status() {
    let r = load(&[("/p", "https://x.example/page 999")], &[], 302);
    assert_eq!(r.resolve("/p"), redirect("https://x.example/page 999", 302));
}

#[test]
fn index_wins_over_fallback() {
    let r = load(
        &[("/a/b", "https://indexed.example")],
        &[("/a", "https://fallback.example")],
        301,
    );
    assert_eq!(r.resolve("/a/b"), redirect("https://indexed.example", 301));
    assert_eq!(r.resolve("/a/c"), redirect("https://fallback.example/c", 301));
}

#[test]
fn fallback_first_match_through_resolver() {
    let r = load(
        &[("/z", "https://z.example")],
        &[("/a", "https://first.example"), ("/a/b", "https://second.example")],
        303,
    );
    assert_eq!(r.resolve("/a/b/x"), redirect("https://first.example/b/x", 303));
}

#[test]
fn miss_without_fallback_is_not_found() {
    let r = load(&[("/a", "https://x.example")], &[("/b", "https://y.example")], 301);
    assert_eq!(r.resolve("/c"), Outcome::NotFound);
    assert_eq!(r.resolve(""), Outcome::NotFound);
}

#[test]
fn repeated_resolution_gives_same_outcome() {
    let r = load(
        &[("/old", "https://new.example/landing 301")],
        &[("/legacy/", "https://new.example/migrated")],
        302,
    );
    for path in ["/old", "/legacy/x", "/nothing"] {
        let first = r.resolve(path);
        for _ in 0..3 {
            assert_eq!(r.resolve(path), first);
        }
    }
}

#[test]
fn default_status_out_of_range_is_refused() {
    let (index, dict) = artifacts(&[("/a", "https://x.example")]);
    assert_eq!(
        RedirectResolver::init(&index, &dict, rules(&[]), 300).err(),
        Some(InitError::InvalidDefaultStatus(300))
    );
    assert_eq!(
        RedirectResolver::init(&index, &dict, rules(&[]), 400).err(),
        Some(InitError::InvalidDefaultStatus(400))
    );
    assert!(RedirectResolver::init(&index, &dict, rules(&[]), 301).is_ok());
    assert!(RedirectResolver::init(&index, &dict, rules(&[]), 399).is_ok());
}

#[test]
fn corrupt_index_is_refused() {
    let (_, dict) = artifacts(&[("/a", "https://x.example")]);
    assert!(matches!(
        RedirectResolver::init(&[1, 2, 3], &dict, rules(&[]), 301),
        Err(InitError::Index(IndexError::CorruptIndex(_)))
    ));
    for bad in [
        b"/a\0".to_vec(),
        b"/a\0x1\0".to_vec(),
        b"/a\0\0".to_vec(),
        b"/a\000000000000000000000\0".to_vec(),
        index_blob(&[("/b", 0), ("/a", 0)]),
        index_blob(&[("/a", 0), ("/a", 0)]),
    ] {
        assert!(matches!(
            KeyIndex::deserialize(&bad),
            Err(IndexError::CorruptIndex(_))
        ));
    }
}

#[test]
fn corrupt_dictionary_is_refused() {
    let (index, _) = artifacts(&[("/a", "https://x.example")]);
    assert!(matches!(
        RedirectResolver::init(&index, b"not a dictionary", rules(&[]), 301),
        Err(InitError::Dictionary(DictionaryError::CorruptDictionary(_)))
    ));
    assert!(matches!(
        TargetDictionary::deserialize(b"https://a"),
        Err(DictionaryError::CorruptDictionary(_))
    ));
}

#[test]
fn ids_past_the_dictionary_are_refused() {
    let index = index_blob(&[("/a", 0), ("/b", 5)]);
    let dict = dictionary_blob(&["https://x.example"]);
    assert_eq!(
        RedirectResolver::init(&index, &dict, rules(&[]), 301).err(),
        Some(InitError::MisalignedId(5))
    );
}

#[test]
fn empty_snapshot_only_falls_back() {
    let r = RedirectResolver::init(&[], &[], rules(&[("/x", "https://x.example")]), 301).unwrap();
    assert_eq!(r.resolve("/"), Outcome::NotFound);
    assert_eq!(r.resolve("/x/y"), redirect("https://x.example/y", 301));
    let d = TargetDictionary::build(&Vec::new()).unwrap();
    assert_eq!(d.len(), 0);
    assert_eq!(d.decode(0), Err(DictionaryError::IndexOutOfRange(0)));
}

#[test]
fn dictionary_decodes_by_id() {
    let d = TargetDictionary::deserialize(&dictionary_blob(&["https://a.example", "https://b.example 302"])).unwrap();
    assert_eq!(d.len(), 2);
    assert_eq!(d.decode(0), Ok(b"https://a.example".to_vec()));
    assert_eq!(d.decode(1), Ok(b"https://b.example 302".to_vec()));
    assert_eq!(d.decode(2), Err(DictionaryError::IndexOutOfRange(2)));
}

#[test]
fn index_looks_up_and_bounds_ids() {
    let index = KeyIndex::deserialize(&index_blob(&[("/a", 3), ("/b", 1)])).unwrap();
    assert_eq!(index.lookup(b"/a"), Some(3));
    assert_eq!(index.lookup(b"/b"), Some(1));
    assert_eq!(index.lookup(b"/c"), None);
    assert_eq!(index.id_at_or_above(2), Some(3));
    assert_eq!(index.id_at_or_above(4), None);
}

fn byte_list(items: &[&str]) -> Vec<Vec<u8>> {
    items.iter().map(|s| s.as_bytes().to_vec()).collect()
}

#[test]
fn built_index_gives_ranks() {
    let index = KeyIndex::build(&byte_list(&["/a", "/a/b", "/b", "/c"])).unwrap();
    assert_eq!(index.lookup(b"/a"), Some(0));
    assert_eq!(index.lookup(b"/a/b"), Some(1));
    assert_eq!(index.lookup(b"/b"), Some(2));
    assert_eq!(index.lookup(b"/c"), Some(3));
    assert_eq!(index.lookup(b"/d"), None);
    assert!(KeyIndex::build(&Vec::new()).unwrap().lookup(b"").is_none());
}

#[test]
fn unsorted_or_repeated_keys_are_refused() {
    assert!(matches!(
        KeyIndex::build(&byte_list(&["/b", "/a"])),
        Err(IndexError::UnsortedKeys(_))
    ));
    assert!(matches!(
        KeyIndex::build(&byte_list(&["/a", "/a"])),
        Err(IndexError::UnsortedKeys(_))
    ));
}

#[test]
fn built_dictionary_keeps_order() {
    let d = TargetDictionary::build(&byte_list(&["https://a", "https://b 302", "https://c"])).unwrap();
    assert_eq!(d.len(), 3);
    assert_eq!(d.decode(1), Ok(b"https://b 302".to_vec()));
    assert_eq!(d.decode(3), Err(DictionaryError::IndexOutOfRange(3)));
}

#[test]
fn targets_with_zero_bytes_are_refused() {
    let bad = vec![b"https://a".to_vec(), vec![b'h', 0, b'x']];
    assert!(matches!(
        TargetDictionary::build(&bad),
        Err(DictionaryError::Unstorable(_))
    ));
}

#[test]
fn targets_in_any_order_with_repeats_and_empties() {
    let strings = byte_list(&[
        "https://z.example",
        "https://a.example",
        "",
        "https://z.example",
        "https://m.example",
        "",
    ]);
    let d = TargetDictionary::build(&strings).unwrap();
    assert_eq!(d.len(), 6);
    for (i, s) in strings.iter().enumerate() {
        assert_eq!(d.decode(i as u64), Ok(s.clone()));
    }
    let d = TargetDictionary::deserialize(&dictionary_blob(&["https://b", "https://a", "https://b"]))
        .unwrap();
    assert_eq!(d.decode(0), Ok(b"https://b".to_vec()));
    assert_eq!(d.decode(1), Ok(b"https://a".to_vec()));
    assert_eq!(d.decode(2), Ok(b"https://b".to_vec()));
}

#[test]
fn ids_by_key_rank_with_unsorted_targets() {
    let index = index_blob(&[("/a", 0), ("/b", 1), ("/c", 2)]);
    let dict = dictionary_blob(&["https://z.example", "https://a.example 307", "https://z.example"]);
    let r = RedirectResolver::init(&index, &dict, rules(&[]), 302).unwrap();
    assert_eq!(r.resolve("/a"), redirect("https://z.example", 302));
    assert_eq!(r.resolve("/b"), redirect("https://a.example", 307));
    assert_eq!(r.resolve("/c"), redirect("https://z.example", 302));
}

#[test]
fn every_rank_addresses_its_target() {
    let n = 200usize;
    let keys: Vec<String> = (0..n).map(|i| format!("/page/{:05}", i * 7)).collect();
    // Targets in key order are neither sorted nor distinct.
    let host = |i: usize| format!("https://t{:02}.example/", (n - i) % 17);
    let targets: Vec<String> = (0..n)
        .map(|i| {
            if i % 3 == 0 {
                format!("{} {}", host(i), 301 + i % 99)
            } else {
                host(i)
            }
        })
        .collect();
    let index = KeyIndex::build(&keys.iter().map(|k| k.as_bytes().to_vec()).collect()).unwrap();
    let dict =
        TargetDictionary::build(&targets.iter().map(|t| t.as_bytes().to_vec()).collect()).unwrap();
    for i in 0..n {
        let id = index.lookup(keys[i].as_bytes()).unwrap();
        assert_eq!(id, i as u64);
        assert_eq!(dict.decode(id), Ok(targets[i].as_bytes().to_vec()));
    }
    let r = RedirectResolver::from_parts(index, dict, rules(&[]), 302).unwrap();
    for i in 0..n {
        let expected = if i % 3 == 0 {
            redirect(&host(i), (301 + i % 99) as u16)
        } else {
            redirect(&host(i), 302)
        };
        assert_eq!(r.resolve(&keys[i]), expected);
    }
}

#[test]
fn default_status_range_check() {
    assert!(!is_valid_default_status(300));
    assert!(is_valid_default_status(301));
    assert!(is_valid_default_status(399));
    assert!(!is_valid_default_status(400));
}
