use kiln::base64;
use kiln::codec::{json_bool, json_list, json_map, json_opt_str, json_opt_u64, json_pair, json_texts};
use kiln::http::{chunk, parse_query, segments, status_text, switch_protocols, write_final_chunk, Request, Response};
use kiln::num::{i32_text, parse_i32, parse_unsigned, u64_hex, u64_text};
use kiln::order::{name_set, sort_names};
use kiln::paths::path_join;
use kiln::text::{
    contains_str, join, lines, replace_char, rsplit_once, split, split_once, split_once_white, split_whitespace,
    strip_prefix, strip_suffix, to_ascii_lowercase, to_ascii_uppercase, trim, white,
};

#[test]
fn white_space_is_what_the_language_says() {
    for n in 0..0x11_0000u32 {
        if let Some(c) = char::from_u32(n) {
            assert_eq!(white(c), c.is_whitespace(), "{n:x}");
        }
    }
}

#[test]
fn texts_are_cut_as_the_language_does() {
    for s in ["", "a", " a b ", "x:y:z", "::", "a\r\nb\nc", "\n", "a\n\n", "é é", "\u{3000}x\u{a0}", "tab\tx"] {
        assert_eq!(trim(s), s.trim());
        assert_eq!(split(s, ':'), s.split(':').collect::<Vec<_>>());
        assert_eq!(split_once(s, ':'), s.split_once(':'));
        assert_eq!(rsplit_once(s, ':'), s.rsplit_once(':'));
        assert_eq!(split_whitespace(s), s.split_whitespace().collect::<Vec<_>>());
        assert_eq!(split_once_white(s), s.split_once(char::is_whitespace));
        assert_eq!(lines(s), s.lines().collect::<Vec<_>>());
        assert_eq!(to_ascii_lowercase(s), s.to_ascii_lowercase());
        assert_eq!(to_ascii_uppercase(s), s.to_ascii_uppercase());
        assert_eq!(strip_prefix(s, "x:"), s.strip_prefix("x:"));
        assert_eq!(strip_suffix(s, ":z"), s.strip_suffix(":z"));
        assert_eq!(contains_str(s, "y:"), s.contains("y:"));
        assert_eq!(replace_char(s, ':', "--"), s.replace(':', "--"));
    }
    assert_eq!(join(&vec!["a".to_string(), "b".to_string()], ", "), "a, b");
}

#[test]
fn numbers_are_written_and_read_as_the_language_does() {
    for n in [0, 1, 9, 10, 255, 256, u64::MAX] {
        assert_eq!(u64_text(n), n.to_string());
        assert_eq!(u64_hex(n), format!("{n:x}"));
        assert_eq!(parse_unsigned(&n.to_string(), u64::MAX), Some(n));
    }
    for n in [0, -1, 7, i32::MAX, i32::MIN] {
        assert_eq!(i32_text(n), n.to_string());
        assert_eq!(parse_i32(&n.to_string()), Some(n));
    }
    for s in ["", "+", "-", "+5", "-5", "5 ", "05", "99999999999999999999", "2147483648", "-2147483648", "x"] {
        assert_eq!(parse_unsigned(s, u64::MAX), s.parse::<u64>().ok(), "{s}");
        assert_eq!(parse_unsigned(s, 65535), s.parse::<u16>().ok().map(u64::from), "{s}");
        assert_eq!(parse_i32(s), s.parse::<i32>().ok(), "{s}");
    }
}

#[test]
fn paths_are_joined_as_the_language_does() {
    for base in ["/a", "/a/", "", "/", "rel"] {
        for part in ["b", "/abs", "b/c", "", "..", "."] {
            let want = std::path::Path::new(base).join(part);
            assert_eq!(path_join(base, part), want.to_str().unwrap());
        }
    }
}

#[test]
fn names_are_sorted_by_their_bytes() {
    let names: Vec<String> = ["b", "a", "é", "Z", "ab", "a"].iter().map(|s| s.to_string()).collect();
    let mut want = names.clone();
    want.sort();
    assert_eq!(sort_names(names.clone()), want);
    want.dedup();
    assert_eq!(name_set(names), want);
}

#[test]
fn json_is_written_as_serde_does() {
    for s in ["", "plain", "q\"b\\s/\u{8}\u{c}\n\r\t\u{1}\u{7f}é😀"] {
        assert_eq!(json_opt_str(&Some(s.to_string())), serde_json::to_string(s).unwrap());
        assert_eq!(json_texts(&vec![s.to_string()]), serde_json::to_string(&vec![s]).unwrap());
    }
    assert_eq!(json_opt_str(&None), "null");
    assert_eq!(json_opt_u64(Some(7)), "7");
    assert_eq!(json_opt_u64(None), "null");
    assert_eq!(json_bool(true), "true");
    let member = json_pair("k", "1");
    assert_eq!(json_map(&vec![member.clone(), json_pair("l", "[]")]), "{\"k\":1,\"l\":[]}");
    assert_eq!(json_list(&vec![]), "[]");
}

#[test]
fn base64_round_trips() {
    for (plain, coded) in [("", ""), ("f", "Zg=="), ("fo", "Zm8="), ("foo", "Zm9v"), ("foobar", "Zm9vYmFy")] {
        assert_eq!(base64::encode(plain.as_bytes()), coded);
        assert_eq!(base64::decode(coded).as_deref(), Some(plain.as_bytes()));
    }
    let all: Vec<u8> = (0..=255).collect();
    assert_eq!(base64::decode(&base64::encode(&all)), Some(all));
    assert!(base64::decode("a!bc").is_none());
}

#[test]
fn requests_are_read() {
    let r = Request::read_from(
        "GET /a/b?x=1&y=2&x=3&novalue HTTP/1.1\r\n",
        &vec!["Host: h\r\n".to_string(), "CONTENT-length:  12 \r\n".to_string(), "odd\r\n".to_string()],
    );
    assert_eq!((r.method.as_str(), r.path.as_str()), ("GET", "/a/b"));
    assert_eq!(r.parameter("x"), Some("3"));
    assert_eq!(r.parameter("y"), Some("2"));
    assert_eq!(r.parameter("z"), None);
    assert_eq!(r.header("host"), Some("h"));
    assert_eq!(r.body_len(), 12);
    assert_eq!(segments("//a///b/"), vec!["a", "b"]);
    assert_eq!(parse_query("a=1&b").len(), 1);
    assert!(r.bearer_token().is_none());
    let r = Request::read_from("GET / HTTP/1.1\r\n", &vec!["Authorization: Bearer tok\r\n".to_string()]);
    assert_eq!(r.bearer_token(), Some("tok"));
}

#[test]
fn responses_are_framed() {
    let mut out: Vec<u8> = b"before|".to_vec();
    Response::text(404, "gone").write_to(&mut out);
    assert_eq!(
        String::from_utf8(out).unwrap(),
        "before|HTTP/1.1 404 Not Found\r\nContent-Length: 4\r\nAccess-Control-Allow-Origin: *\r\nConnection: close\r\nContent-Type: text/plain; charset=utf-8\r\n\r\ngone"
    );
    assert_eq!(status_text(200), "OK");
    assert_eq!(chunk(&vec![7; 26])[..4], *b"1a\r\n");
    assert_eq!(write_final_chunk(), b"0\r\n\r\n");
    assert_eq!(
        String::from_utf8(switch_protocols("kiln-exec")).unwrap(),
        "HTTP/1.1 101 Switching Protocols\r\nUpgrade: kiln-exec\r\nConnection: Upgrade\r\n\r\n"
    );
}

#[test]
fn names_on_disk_are_told_apart() {
    assert_eq!(kiln::store::unique_suffix(7, 3), "7-3");
    assert_eq!(kiln::store::temporary_name("/s/images/a.json", "7-3"), "/s/images/a.json.tmp-7-3");
    let (store, _) = kiln::store::Store::open("/s".to_string());
    assert_eq!(store.containers_dir(), "/s/containers");
    let (registry, _) = kiln::registry_store::RegistryStore::open("/r".to_string());
    assert_eq!(registry.users_path(), "/r/users.json");
    assert_eq!(registry.audit_log_path(), "/r/audit.log");
    assert!(kiln::http::ends_head("\r\n"));
    assert!(kiln::http::ends_head(""));
    assert!(!kiln::http::ends_head("Host: a\r\n"));
}
