use qbuild::base64::decode;
use qbuild::digest::{content_digest, hash_content};
use qbuild::environment::{ensure_path, env_map_to_vec, env_vec_to_map, override_env};
use qbuild::number::{decimal_text, parse_decimal, parse_u32, parse_usize, signed_decimal_text};
use qbuild::order::{sort_pairs, sort_paths, sort_texts};
use qbuild::path::{
    ancestors, clean_container_path, extension, file_name, has_parent_component,
    host_path_for_container_path, is_absolute, join_path, name_list, normalize_relative_path,
    parent, resolve_container_destination, with_extension,
};
use qbuild::random::{fresh_id, hyphenate};
use qbuild::raw_name::{bytes_of_name, is_raw, name_of_bytes};
use qbuild::text::{
    contains_text, ends_with, eq_ignore_ascii_case, has_text, is_white_space, join_all, lines, replace_char,
    split, split_once, starts_with, strip_prefix, to_ascii_lowercase, to_ascii_uppercase, trim,
    trim_end, trim_end_matches, trim_start, trim_start_matches,
};
use qbuild::text_map::StringMap;
use qbuild::users::{find_id, parse_uid_gid, resolve_user};
use std::path::Path;

const SAMPLES: [&str; 16] = [
    "",
    "/",
    "//",
    ".",
    "./",
    "..",
    "../a",
    "a",
    "a/",
    "/a//b/./c/",
    "a/..",
    "/a/b.tar.gz",
    ".hidden",
    "a/.hidden.x",
    "x.",
    "/a/../b",
];

fn words(values: &[&str]) -> Vec<String> {
    values.iter().map(|value| value.to_string()).collect()
}

fn lossy(path: Option<&Path>) -> Option<String> {
    path.map(|path| path.to_string_lossy().to_string())
}

#[test]
fn white_space_is_as_in_unicode() {
    for c in '\0'..=char::MAX {
        assert_eq!(is_white_space(c), c.is_whitespace(), "{:?}", c);
    }
}

#[test]
fn texts_are_trimmed_and_split() {
    for text in ["", " a ", "\u{a0}x\u{2003}", "a b", "\t\n", "aXbXX"] {
        assert_eq!(trim(text), text.trim());
        assert_eq!(trim_start(text), text.trim_start());
        assert_eq!(trim_end(text), text.trim_end());
        assert_eq!(trim_end_matches(text, 'X'), text.trim_end_matches('X'));
        assert_eq!(trim_start_matches(text, 'a'), text.trim_start_matches('a'));
        assert_eq!(split(text, 'X'), text.split('X').map(str::to_string).collect::<Vec<_>>());
        assert_eq!(
            split_once(text, 'X'),
            text.split_once('X').map(|(a, b)| (a.to_string(), b.to_string()))
        );
        assert_eq!(join_all(&split(text, 'X'), "X"), text);
        assert_eq!(replace_char(text, 'X', ':'), text.replace('X', ":"));
    }
}

#[test]
fn texts_are_cut_into_lines() {
    for text in ["", "\n", "a\nb", "a\r\nb\r\n", "a\n\nb\n", "a\r", "\r\n", "a\rb\n"] {
        assert_eq!(lines(text), text.lines().map(str::to_string).collect::<Vec<_>>());
    }
}

#[test]
fn texts_are_searched() {
    for (text, part) in [("abc", "b"), ("abc", ""), ("", ""), ("", "a"), ("aab", "ab"), ("ab", "abc")] {
        assert_eq!(contains_text(text, part), text.contains(part));
        assert_eq!(starts_with(text, part), text.starts_with(part));
        assert_eq!(ends_with(text, part), text.ends_with(part));
        assert_eq!(strip_prefix(text, part).as_deref(), text.strip_prefix(part));
    }
}

#[test]
fn ascii_letters_change_case() {
    let text = "aZ\u{e9}\u{c9}09_{`@[";
    assert_eq!(to_ascii_uppercase(text), text.to_ascii_uppercase());
    assert_eq!(to_ascii_lowercase(text), text.to_ascii_lowercase());
    assert!(eq_ignore_ascii_case("aS", "As"));
    assert!(!eq_ignore_ascii_case("as", "a"));
    assert!(!eq_ignore_ascii_case("\u{e9}", "\u{c9}"));
}

#[test]
fn numbers_read_back() {
    for n in [0u64, 7, 10, 99, 100, 4096, u64::MAX] {
        assert_eq!(decimal_text(n), n.to_string());
        assert_eq!(parse_decimal(&decimal_text(n), u64::MAX), Some(n));
    }
    for n in [0i64, -1, i64::MIN, i64::MAX, 12] {
        assert_eq!(signed_decimal_text(n), n.to_string());
    }
    for text in ["", "+", "+5", "-5", "007", "4294967295", "4294967296", "1x", " 1", "++1"] {
        assert_eq!(parse_u32(text), text.parse::<u32>().ok());
        assert_eq!(parse_usize(text), text.parse::<usize>().ok());
    }
}

#[test]
fn texts_are_ordered_as_bytes() {
    let items = ["b", "a", "", "\u{10000}", "\u{ffff}", "ab", "a/b", "a-b"];
    let mut expected = words(&items);
    expected.sort();
    assert_eq!(sort_texts(words(&items)), expected);
    let pairs: Vec<(String, String)> =
        vec![("b".into(), "1".into()), ("a".into(), "2".into()), ("a".into(), "1".into())];
    let mut expected = pairs.clone();
    expected.sort();
    assert_eq!(sort_pairs(pairs), expected);
}

#[test]
fn paths_are_ordered_by_their_names() {
    let items = ["a/b", "a", "a-b", "a!b", "b", "a/b/c"];
    let mut expected: Vec<&Path> = items.iter().map(Path::new).collect();
    expected.sort();
    let sorted = sort_paths(words(&items));
    let sorted: Vec<&Path> = sorted.iter().map(Path::new).collect();
    assert_eq!(sorted, expected);
}

#[test]
fn paths_are_taken_apart() {
    for sample in SAMPLES {
        let path = Path::new(sample);
        assert_eq!(is_absolute(sample), path.is_absolute(), "{}", sample);
        assert_eq!(
            file_name(sample),
            path.file_name().map(|name| name.to_string_lossy().to_string()),
            "{}",
            sample
        );
        assert_eq!(
            extension(sample),
            path.extension().map(|name| name.to_string_lossy().to_string()),
            "{}",
            sample
        );
        let found = parent(sample);
        assert_eq!(found.as_deref().map(Path::new), path.parent(), "{}", sample);
        assert_eq!(found, lossy(path.parent()), "{}", sample);
        let all: Vec<String> =
            path.ancestors().map(|path| path.to_string_lossy().to_string()).collect();
        assert_eq!(ancestors(sample), all, "{}", sample);
        for child in SAMPLES {
            assert_eq!(
                join_path(sample, child),
                path.join(child).to_string_lossy(),
                "{} {}",
                sample,
                child
            );
        }
    }
}

#[test]
fn extensions_are_replaced() {
    for sample in ["/a/b", "/a/b.tar.gz", "x", ".hidden", "a.b/c"] {
        assert_eq!(
            with_extension(sample, "tmp"),
            Path::new(sample).with_extension("tmp").to_string_lossy()
        );
    }
}

#[test]
fn container_paths_are_cleaned() {
    assert_eq!(clean_container_path("/a/./b/../c/"), "/a/b/c");
    assert_eq!(clean_container_path("a"), "/a");
    assert_eq!(clean_container_path("/../.."), "/");
    assert_eq!(clean_container_path(""), "/");
    assert_eq!(clean_container_path(&clean_container_path("/x//y/..")), "/x/y");
    assert_eq!(resolve_container_destination("/app", "x"), "/app/x");
    assert_eq!(resolve_container_destination("/app", "/x"), "/x");
    assert_eq!(resolve_container_destination("/app", "../../x"), "/app/x");
    assert_eq!(host_path_for_container_path("/r", "/a/b").unwrap(), "/r/a/b");
    assert_eq!(
        host_path_for_container_path("/r", "/a/../b").unwrap_err(),
        "Invalid container path '/a/../b'"
    );
    assert_eq!(normalize_relative_path("./a//b").as_deref(), Some("a/b"));
    assert_eq!(normalize_relative_path("/a"), None);
    assert_eq!(normalize_relative_path("a/.."), None);
    assert!(has_parent_component("a/../b"));
    assert!(!has_parent_component("a/..b"));
    assert_eq!(name_list("/a/./b//"), words(&["a", "b"]));
}

#[test]
fn environments_read_back() {
    let map = env_vec_to_map(&words(&["B=2", "A=1=x", "noise", "A=3"]));
    assert_eq!(map.len(), 2);
    assert_eq!(env_map_to_vec(&map), words(&["A=3", "B=2"]));
    assert_eq!(env_map_to_vec(&env_vec_to_map(&env_map_to_vec(&map))), env_map_to_vec(&map));
    let mut env = StringMap::new();
    ensure_path(&mut env);
    assert_eq!(
        env.get("PATH").map(String::as_str),
        Some("/usr/local/sbin:/usr/local/bin:/usr/sbin:/usr/bin:/sbin:/bin")
    );
    let mut own = StringMap::new();
    own.insert("PATH".to_string(), "/x".to_string());
    override_env(&mut env, &own);
    ensure_path(&mut env);
    assert_eq!(env.get("PATH").map(String::as_str), Some("/x"));
}

#[test]
fn maps_keep_the_last_value() {
    let mut map = StringMap::new();
    map.insert("k".to_string(), "1".to_string());
    map.insert("k".to_string(), "2".to_string());
    map.insert("j".to_string(), "3".to_string());
    assert_eq!(map.len(), 2);
    assert_eq!(map.get("k").map(String::as_str), Some("2"));
    map.remove("k");
    assert!(!map.contains_key("k"));
    map.remove("absent");
    assert_eq!(map.clone().len(), 1);
    assert_eq!(map.assignments(), words(&["j=3"]));
}

#[test]
fn users_are_resolved() {
    let passwd = "root:x:0:0:\nweb:x:33:44:\nbad:x:many:1:\nbad:x:8:1:\n";
    let group = "web:x:55:\nstaff:x:20:\n";
    assert_eq!(parse_uid_gid("7"), Some((7, 7)));
    assert_eq!(parse_uid_gid("7:8"), Some((7, 8)));
    assert_eq!(parse_uid_gid("7:x"), Some((7, 7)));
    assert_eq!(parse_uid_gid("x:8"), None);
    assert_eq!(find_id(passwd, "bad", 4), Some(8));
    assert_eq!(find_id(passwd, "web", 6), None);
    assert_eq!(resolve_user("runtime", None, passwd, group).unwrap(), None);
    assert_eq!(resolve_user("runtime", Some(" "), passwd, group).unwrap(), None);
    assert_eq!(resolve_user("runtime", Some("9"), "", "").unwrap(), Some((9, 9)));
    assert_eq!(resolve_user("runtime", Some("web"), passwd, group).unwrap(), Some((33, 55)));
    assert_eq!(resolve_user("runtime", Some("root"), passwd, group).unwrap(), Some((0, 0)));
    assert_eq!(
        resolve_user("runtime", Some("web:staff"), passwd, group).unwrap(),
        Some((33, 20))
    );
    assert_eq!(
        resolve_user("runtime", Some("none:staff"), passwd, group).unwrap_err(),
        "Failed to resolve runtime user 'none' inside image"
    );
}

#[test]
fn content_is_hashed() {
    assert_eq!(
        hash_content(b"hello world"),
        "b94d27b9934d3e08a52e52d7da7dabfac484efe37a5380ee9088f7ace2efcde9"
    );
    assert_eq!(
        content_digest(b"hello world"),
        "sha256:b94d27b9934d3e08a52e52d7da7dabfac484efe37a5380ee9088f7ace2efcde9"
    );
}

#[test]
fn random_ids_are_hyphenated() {
    assert_eq!(
        hyphenate("0123456789abcdef0123456789abcdef"),
        "01234567-89ab-cdef-0123-456789abcdef"
    );
    let id = fresh_id();
    assert_eq!(id.len(), 36);
    assert_eq!(id.matches('-').count(), 4);
    assert!(id.chars().all(|c| c == '-' || c.is_ascii_hexdigit()));
    assert_ne!(id, fresh_id());
}

#[test]
fn signs_are_decoded() {
    assert_eq!(decode(""), Some(Vec::new()));
    assert_eq!(decode("Zg=="), Some(b"f".to_vec()));
    assert_eq!(decode("Zm8="), Some(b"fo".to_vec()));
    assert_eq!(decode("Zm9v"), Some(b"foo".to_vec()));
    assert_eq!(decode("Zm9vYmFy"), Some(b"foobar".to_vec()));
    assert_eq!(decode("+/AZaz09"), Some(vec![0xfb, 0xf0, 0x19, 0x6b, 0x3d, 0x3d]));
    assert_eq!(decode("Zg="), None);
    assert_eq!(decode("Zh=="), None);
    assert_eq!(decode("Zg==Zg=="), None);
    assert_eq!(decode("Z g="), None);
}

#[test]
fn names_keep_every_byte() {
    let plain = "a/\u{e9}b".as_bytes().to_vec();
    assert_eq!(name_of_bytes(&plain), "a/\u{e9}b");
    assert!(!is_raw(&name_of_bytes(&plain)));
    assert_eq!(bytes_of_name("a/\u{e9}b"), plain);
    let raw = vec![b'a', b'/', 0xff, b'b', 0xc3, 0xa9];
    let name = name_of_bytes(&raw);
    assert!(is_raw(&name));
    assert_eq!(parent(&name).as_deref(), Some("a"));
    assert_eq!(bytes_of_name(&name), raw);
    assert_ne!(name, name_of_bytes(&vec![b'a', b'/', 0xfe, b'b', 0xc3, 0xa9]));
    let zero = vec![0, b'x'];
    assert_eq!(bytes_of_name(&name_of_bytes(&zero)), zero);
}

#[test]
fn lists_are_searched() {
    let list = vec!["a".to_string(), "b".to_string()];
    assert!(has_text(&list, "b"));
    assert!(!has_text(&list, "c"));
}
