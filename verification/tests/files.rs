use loop_bridge::api::{api_error, health};
use loop_bridge::files::{
    check_directory, check_file, list_files, read_file_content, sort_entries, EntryMeta,
    FileEntry, FoundEntry, Preview, MAX_FILE_PREVIEW_BYTES,
};
use loop_bridge::json::{json_number, json_text, parse_json, Json};
use loop_bridge::paths::{file_name, is_pdf_path, lies_inside, requested_path, resolve_safe_path};

fn bytes(s: &str) -> Vec<u8> {
    s.as_bytes().to_vec()
}

fn file(name: &str, size: u64) -> FileEntry {
    FileEntry { name: name.to_string(), is_dir: false, size }
}

fn dir(name: &str) -> FileEntry {
    FileEntry { name: name.to_string(), is_dir: true, size: 0 }
}

fn found(name: &str, is_dir: bool, len: u64) -> FoundEntry {
    FoundEntry { name: name.to_string(), meta: Some(EntryMeta { is_dir, len }) }
}

#[test]
fn containment_goes_by_whole_parts() {
    assert!(lies_inside(&bytes("/work/a/b"), &bytes("/work")));
    assert!(lies_inside(&bytes("/work"), &bytes("/work")));
    assert!(lies_inside(&bytes("/anything"), &bytes("/")));
    assert!(lies_inside(&bytes("/work//a/./b"), &bytes("/work/a/")));
    assert!(!lies_inside(&bytes("/work-old"), &bytes("/work")));
    assert!(!lies_inside(&bytes("/"), &bytes("/work")));
    assert!(!lies_inside(&bytes("work/a"), &bytes("/work")));
    assert!(!lies_inside(&bytes("/a/../work"), &bytes("/work")));
}

#[test]
fn containment_agrees_with_std() {
    let paths = ["", "/", ".", "./a", "a", "a/b", "/a", "/a/b/", "//a", "/a/..", "a/./b", "..", "/."];
    for p in paths {
        for q in paths {
            assert_eq!(
                lies_inside(&bytes(p), &bytes(q)),
                std::path::Path::new(p).starts_with(q),
                "{p:?} {q:?}"
            );
        }
    }
}

#[test]
fn safe_path_accepts_what_lies_inside() {
    let r = resolve_safe_path(Some(bytes("/work/a")), Some(bytes("/work")));
    assert_eq!(r, Ok(bytes("/work/a")));
}

#[test]
fn safe_path_refuses_the_rest() {
    assert_eq!(
        resolve_safe_path(None, Some(bytes("/work"))),
        Err(api_error(404, "not_found"))
    );
    assert_eq!(resolve_safe_path(None, None), Err(api_error(404, "not_found")));
    assert_eq!(
        resolve_safe_path(Some(bytes("/work/a")), None),
        Err(api_error(500, "server_misconfigured"))
    );
    assert_eq!(
        resolve_safe_path(Some(bytes("/etc/passwd")), Some(bytes("/work"))),
        Err(api_error(404, "not_found"))
    );
}

#[test]
fn refusals_look_alike() {
    let root = || Some(bytes("/work"));
    assert_eq!(
        resolve_safe_path(Some(bytes("/work-old/x")), root()),
        resolve_safe_path(None, root())
    );
}

#[test]
fn requested_paths_are_relative() {
    assert_eq!(requested_path("//etc/x"), "etc/x");
    assert_eq!(requested_path("a/b"), "a/b");
    assert_eq!(requested_path("/"), "");
}

#[test]
fn file_names_agree_with_std() {
    for p in ["", "/", ".", "..", "a", "a/", "a/.", "a/..", "/x/y.pdf", "a//b", "é/ü.txt", "./."] {
        assert_eq!(
            file_name(p),
            std::path::Path::new(p).file_name().map(|n| n.to_string_lossy().to_string()),
            "{p:?}"
        );
    }
}

#[test]
fn pdf_paths_are_told_by_their_extension() {
    assert!(is_pdf_path("/x/y.pdf"));
    assert!(is_pdf_path("y.PdF"));
    assert!(is_pdf_path("a.b.pdf/"));
    assert!(is_pdf_path("..pdf"));
    assert!(!is_pdf_path(".pdf"));
    assert!(!is_pdf_path("pdf"));
    assert!(!is_pdf_path("a.pdf.txt"));
    assert!(!is_pdf_path("a.pdfx"));
    assert!(!is_pdf_path("x.pdf/.."));
    assert!(!is_pdf_path(""));
}

#[test]
fn listings_put_directories_first_and_names_in_order() {
    let out = sort_entries(vec![
        file("b", 1),
        dir("z"),
        file("a", 2),
        file("B", 3),
        dir("c"),
        file("é", 4),
        file("ab", 5),
    ]);
    assert_eq!(
        out,
        vec![dir("c"), dir("z"), file("B", 3), file("a", 2), file("ab", 5), file("b", 1), file("é", 4)]
    );
}

#[test]
fn listings_keep_equal_entries_as_they_stood() {
    let out = sort_entries(vec![file("x", 3), file("a", 0), file("x", 1), file("x", 2)]);
    assert_eq!(out, vec![file("a", 0), file("x", 3), file("x", 1), file("x", 2)]);
    assert_eq!(sort_entries(vec![]), vec![]);
}

#[test]
fn listings_agree_with_a_sort_of_std() {
    let names = ["q", "", "a", "q", "\u{10000}", "\u{ffff}", "aa", "Z", "a"];
    let make = || -> Vec<FileEntry> {
        let mut v = Vec::new();
        let mut i = 0;
        for n in names {
            v.push(FileEntry { name: n.to_string(), is_dir: i % 3 == 0, size: i });
            i += 1;
        }
        v
    };
    let mut expected = make();
    expected.sort_by(|a, b| b.is_dir.cmp(&a.is_dir).then_with(|| a.name.cmp(&b.name)));
    assert_eq!(sort_entries(make()), expected);
}

#[test]
fn list_files_answers_with_the_listing() {
    let r = list_files(
        "sub",
        Ok(vec![
            found("b.txt", false, 12),
            found(".git", true, 1),
            found("node_modules", true, 1),
            found("target", true, 1),
            FoundEntry { name: "gone".to_string(), meta: None },
            found("src", true, 4096),
        ]),
    );
    assert_eq!(
        json_text(&r.unwrap()),
        "{\"entries\":[{\"is_dir\":true,\"name\":\"src\",\"size\":4096},\
         {\"is_dir\":false,\"name\":\"b.txt\",\"size\":12}],\"path\":\"sub\"}"
    );
}

#[test]
fn list_files_tells_why_it_could_not() {
    let r = list_files("sub", Err("permission denied".to_string()));
    assert_eq!(r, Err(api_error(500, "permission denied")));
}

#[test]
fn only_directories_are_listed() {
    assert_eq!(check_directory(Some(EntryMeta { is_dir: true, len: 0 })), Ok(()));
    assert_eq!(check_directory(None), Err(api_error(404, "not_found")));
    assert_eq!(
        check_directory(Some(EntryMeta { is_dir: false, len: 0 })),
        Err(api_error(400, "not_a_directory"))
    );
}

#[test]
fn previews_are_bounded() {
    let at = |len| check_file("f", Some(EntryMeta { is_dir: false, len }));
    assert_eq!(MAX_FILE_PREVIEW_BYTES, 262144);
    assert_eq!(at(262144), Preview::Read);
    match at(262145) {
        Preview::Tell(j) => assert_eq!(
            json_text(&j),
            "{\"content\":null,\"message\":\"262145 bytes — larger than the 256KB preview limit.\",\
             \"path\":\"f\",\"size\":262145}"
        ),
        other => panic!("{other:?}"),
    }
}

#[test]
fn previews_of_nothing_are_refused() {
    assert_eq!(check_file("f", None), Preview::Refuse(api_error(404, "not_found")));
    assert_eq!(
        check_file("f", Some(EntryMeta { is_dir: true, len: 999999 })),
        Preview::Refuse(api_error(400, "is_a_directory"))
    );
}

#[test]
fn file_content_is_sent_as_text() {
    let r = read_file_content("f", 3, Ok(vec![0xc3, 0xa9, b'x']));
    assert_eq!(json_text(&r.unwrap()), "{\"content\":\"éx\",\"path\":\"f\",\"size\":3}");
}

#[test]
fn binary_files_are_not_sent() {
    let r = read_file_content("f", 2, Ok(vec![0xff, 0x00]));
    assert_eq!(
        json_text(&r.unwrap()),
        "{\"content\":null,\"message\":\"Binary file — not shown.\",\"path\":\"f\",\"size\":2}"
    );
    let e = read_file_content("f", 2, Err("gone".to_string()));
    assert_eq!(e, Err(api_error(500, "gone")));
}

#[test]
fn errors_have_one_member() {
    let e = api_error(418, "no");
    assert_eq!(e.status, 418);
    assert_eq!(json_text(&e.body), "{\"error\":\"no\"}");
}

#[test]
fn health_names_the_session() {
    assert_eq!(json_text(&health("s1")), "{\"session_id\":\"s1\",\"status\":\"ok\"}");
}

#[test]
fn json_is_read_and_written() {
    let j = parse_json(" {\"a\": [1, 2.5, null, true], \"b\": {\"c\": \"x\\n\"}} ").unwrap();
    assert_eq!(json_text(&j), "{\"a\":[1,2.5,null,true],\"b\":{\"c\":\"x\\n\"}}");
    assert_eq!(j.get("b").unwrap().text_member("c"), Some("x\n"));
    assert_eq!(j.get("a").unwrap().as_array().unwrap().len(), 4);
    assert_eq!(j.get("c"), None);
    assert_eq!(j.get("a").unwrap().as_str(), None);
    assert_eq!(parse_json("{"), None);
}

#[test]
fn json_members_are_read_back() {
    let j = Json::object().with("a", Json::Null).with("b", json_number(7)).with("a", Json::Bool(false));
    assert_eq!(j.get("a"), Some(&Json::Bool(false)));
    assert_eq!(j.get("b"), Some(&Json::Number(serde_json::Number::from(7u64))));
    assert_eq!(json_text(&j), "{\"a\":false,\"b\":7}");
    assert_eq!(Json::Null.with("a", Json::Null), Json::Null);
}

#[test]
fn json_goes_over_to_values_and_back() {
    let mut map = serde_json::Map::new();
    map.insert("a".to_string(), serde_json::Value::Array(vec![serde_json::Value::Bool(true)]));
    map.insert("b".to_string(), serde_json::Value::String("x".to_string()));
    let value = serde_json::Value::Object(map);
    let j = Json::from_value(value.clone());
    assert_eq!(j.get("a").unwrap().as_array().unwrap()[0], Json::Bool(true));
    assert_eq!(j.text_member("b"), Some("x"));
    assert_eq!(j.to_value(), value);
    let twice = Json::object().with("k", Json::Null).with("k", Json::text_of("last"));
    assert_eq!(twice.to_value().get("k").and_then(|v| v.as_str()), Some("last"));
}

#[test]
fn containment_nests() {
    let (a, b, c) = (bytes("/w/x/y"), bytes("/w/x"), bytes("/w"));
    assert!(lies_inside(&a, &b) && lies_inside(&b, &c) && lies_inside(&a, &c));
    assert!(!lies_inside(&c, &a));
}
