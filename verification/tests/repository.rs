use maven_uploader::http::{Body, Response};
use maven_uploader::metadata::{
    artifact_metadata, generate_metadata, metadata_response, version_metadata, ChildEntry,
    FileEntry, Generated, Listed,
};
use maven_uploader::repository::{
    below_root, cache_parent, checksum_target, content_type, extension_of, ignored_file, open_response, part_name, resolve,
    resolve_generated_checksum, safe_path, Digested, FetchStep, Located, Opened, RepoError,
    Resolution, Stage, Step, UpstreamFetch, UpstreamReply,
};
use maven_uploader::sha1::{sha1_hex, DigestReader, DigestStep, Sha1};
use maven_uploader::url::{decode_path, encode_path, hex_value, url_encode};
use maven_uploader::xml::xml_escape;

fn strings(parts: &[&str]) -> Vec<String> {
    parts.iter().map(|p| p.to_string()).collect()
}

fn bytes(parts: &[&str]) -> Vec<Vec<u8>> {
    parts.iter().map(|p| p.as_bytes().to_vec()).collect()
}

#[test]
fn rejects_traversal_and_decodes_safe_segments() {
    assert!(decode_path("../secret").is_none());
    assert!(decode_path("%2e%2e/secret").is_none());
    assert!(decode_path("g%72oup/a/artifact.jar").is_some());
    assert!(decode_path("g%2Fa/a.jar").is_none());
}

#[test]
fn decodes_escapes_of_either_case() {
    assert_eq!(decode_path("g%72oup/%E4%b8%ad").unwrap(), vec!["group", "中"]);
    assert_eq!(decode_path("a+b").unwrap(), vec!["a+b"]);
    assert_eq!(hex_value(b'f'), Some(15));
    assert_eq!(hex_value(b'F'), Some(15));
    assert_eq!(hex_value(b'9'), Some(9));
    assert_eq!(hex_value(b'g'), None);
}

#[test]
fn rejects_malformed_components() {
    for path in ["", "a//b", "a/", "%", "%4", "%zz", "%ff", ".", "a/./b", "a%5Cb", "c:", "%0a", "%7f"]
    {
        assert!(decode_path(path).is_none(), "{}", path);
    }
    assert!(decode_path("...").is_some());
}

#[test]
fn encodes_names_for_urls() {
    assert_eq!(url_encode("a-1.0_~Z"), "a-1.0_~Z");
    assert_eq!(url_encode("a b+中"), "a%20b%2B%E4%B8%AD");
    let names = strings(&["g r", "%", "中"]);
    assert_eq!(encode_path(&names), "g%20r/%25/%E4%B8%AD");
    assert_eq!(decode_path(&encode_path(&names)).unwrap(), names);
}

#[test]
fn escapes_generated_xml() {
    assert_eq!(xml_escape("a&<b>\"'"), "a&amp;&lt;b&gt;&quot;&apos;");
}

#[test]
fn escapes_every_character_once() {
    assert_eq!(xml_escape("&amp;"), "&amp;amp;");
    assert_eq!(xml_escape("1.0-中"), "1.0-中");
    assert_eq!(xml_escape(""), "");
}

#[test]
fn calculates_sha1() {
    let input = "abc".as_bytes();
    assert_eq!(sha1_hex(input), "a9993e364706816aba3e25717850c26c9cd0d89d");
}

#[test]
fn calculates_sha1_over_block_boundaries() {
    assert_eq!(sha1_hex(b""), "da39a3ee5e6b4b0d3255bfef95601890afd80709");
    assert_eq!(
        sha1_hex(b"abcdbcdecdefdefgefghfghighijhijkijkljklmklmnlmnomnopnopq"),
        "84983e441c3bd26ebaae4aa1f95129e5e54670f1"
    );
    let million = vec![b'a'; 1_000_000];
    assert_eq!(sha1_hex(&million), "34aa973cd4c4daa4f61eeb2bdbad27316534016f");
}

#[test]
fn a_digest_does_not_depend_on_the_pieces() {
    let message: Vec<u8> = (0..200u8).collect();
    for cut in [0, 1, 55, 56, 63, 64, 65, 128, 200] {
        let mut digest = Sha1::default();
        digest.update(&message[..cut]);
        digest.update(&message[cut..]);
        assert_eq!(digest.message_len(), 200);
        assert_eq!(digest.finalize(), sha1_hex(&message));
    }
}

fn read_all(reads: Vec<Result<&[u8], String>>) -> Option<Result<String, String>> {
    let mut reader = DigestReader::new();
    for read in reads {
        match reader.step(read) {
            DigestStep::More(next) => reader = next,
            DigestStep::Done(outcome) => return Some(outcome),
        }
    }
    None
}

#[test]
fn reads_a_message_to_its_end() {
    let expected = Some(Ok("a9993e364706816aba3e25717850c26c9cd0d89d".to_string()));
    assert_eq!(read_all(vec![Ok(b"abc"), Ok(b"")]), expected);
    assert_eq!(read_all(vec![Ok(b"a"), Ok(b"bc"), Ok(b""), Ok(b"more")]), expected);
    assert_eq!(read_all(vec![Ok(b"abc")]), None);
}

#[test]
fn a_failed_read_gives_no_digest() {
    let failed = Some(Err("disk".to_string()));
    assert_eq!(read_all(vec![Err("disk".to_string()), Ok(b"")]), failed);
    assert_eq!(read_all(vec![Ok(b"abc"), Err("disk".to_string())]), failed);
    let mut reader = DigestReader::new();
    assert_eq!(reader.message_len(), 0);
    reader = match reader.step(Ok(b"abc")) {
        DigestStep::More(next) => next,
        DigestStep::Done(_) => panic!("done"),
    };
    assert_eq!(reader.message_len(), 3);
}

#[test]
fn never_serves_state_or_parts() {
    assert!(ignored_file(Some("_remote.repositories")));
    assert!(ignored_file(Some("a.pom.lastUpdated")));
    assert!(ignored_file(Some("a.jar.part")));
    assert!(!ignored_file(Some("a.jar")));
    assert!(!ignored_file(None));
}

#[test]
fn knows_media_types() {
    assert_eq!(content_type(Some("pom")), "application/xml");
    assert_eq!(content_type(Some("xml")), "application/xml");
    assert_eq!(content_type(Some("json")), "application/json");
    for extension in ["jar", "war", "aar", "zip"] {
        assert_eq!(content_type(Some(extension)), "application/java-archive");
    }
    for extension in ["sha1", "md5", "sha256"] {
        assert_eq!(content_type(Some(extension)), "text/plain; charset=utf-8");
    }
    assert_eq!(content_type(Some("JAR")), "application/octet-stream");
    assert_eq!(content_type(None), "application/octet-stream");
}

#[test]
fn stays_inside_the_root() {
    let root = bytes(&["/", "repo"]);
    let names = strings(&["g", "a.jar"]);
    let inside = Located::Path(bytes(&["/", "repo", "g", "a.jar"]));
    assert!(safe_path(&root, &names, &inside).is_ok());
    let outside = Located::Path(bytes(&["/", "repository", "a.jar"]));
    assert!(matches!(safe_path(&root, &names, &outside), Err(RepoError::BadPath)));
    let above = Located::Path(bytes(&["/"]));
    assert!(matches!(safe_path(&root, &names, &above), Err(RepoError::BadPath)));
    assert!(matches!(safe_path(&root, &names, &Located::Missing), Err(RepoError::NotFound)));
    match safe_path(&root, &names, &Located::Failed("denied".to_string())) {
        Err(RepoError::Failed(reason)) => assert_eq!(reason, "解析仓库路径失败: denied"),
        _ => panic!("not failed"),
    }
    let inside = Located::Path(bytes(&["/", "repo"]));
    assert!(matches!(safe_path(&root, &strings(&[]), &inside), Err(RepoError::BadPath)));
    assert!(matches!(safe_path(&root, &strings(&["g", ""]), &inside), Err(RepoError::BadPath)));
}

#[test]
fn caches_into_directories_inside_the_root() {
    let root = bytes(&["/", "repo"]);
    assert!(cache_parent(&root, &Ok(bytes(&["/", "repo", "g"])), true).is_ok());
    assert!(matches!(
        cache_parent(&root, &Ok(bytes(&["/", "repo", "g"])), false),
        Err(RepoError::BadPath)
    ));
    assert!(matches!(
        cache_parent(&root, &Ok(bytes(&["/", "etc"])), true),
        Err(RepoError::BadPath)
    ));
    match cache_parent(&root, &Err("denied".to_string()), true) {
        Err(RepoError::Failed(reason)) => assert_eq!(reason, "解析 Maven 缓存目录失败: denied"),
        _ => panic!("not failed"),
    }
}

fn open_file(name: &str, is_file: bool) -> Opened {
    Opened::Open { is_file, length: 12, name: name.to_string(), exact: true }
}

#[test]
fn delivers_an_open_file() {
    let response = open_response(&open_file("a.pom", true)).unwrap();
    assert_eq!(response.status(), "200 OK");
    assert_eq!(response.content_type(), "application/xml");
    assert!(matches!(response.body(), Body::File(12)));
}

#[test]
fn finds_extensions() {
    assert_eq!(extension_of("a.tar.gz").as_deref(), Some("gz"));
    assert_eq!(extension_of("a.").as_deref(), Some(""));
    assert_eq!(extension_of("..a").as_deref(), Some("a"));
    for name in [".jar", "jar", "", "..", "."] {
        assert_eq!(extension_of(name), None, "{}", name);
    }
}

#[test]
fn a_name_that_is_not_text_has_a_media_type() {
    let opened = Opened::Open {
        is_file: true,
        length: 1,
        name: "\u{fffd}.jar".to_string(),
        exact: false,
    };
    assert_eq!(open_response(&opened).unwrap().content_type(), "application/java-archive");
    let opened = Opened::Open {
        is_file: true,
        length: 1,
        name: "\u{fffd}.lastUpdated".to_string(),
        exact: false,
    };
    assert!(open_response(&opened).is_ok());
}

#[test]
fn knows_what_lies_below_the_root() {
    let root = bytes(&["/", "repo"]);
    let path = bytes(&["/", "repo", "g", "a"]);
    assert_eq!(below_root(&root, &path).unwrap(), bytes(&["g", "a"]));
    assert_eq!(below_root(&root, &root).unwrap(), bytes(&[]));
    assert!(below_root(&root, &bytes(&["/", "repository", "g"])).is_none());
    assert!(below_root(&root, &bytes(&["/"])).is_none());
}

#[test]
fn delivers_nothing_else() {
    for opened in [
        Opened::Missing,
        open_file("a", false),
        open_file("a.lastUpdated", true),
        open_file("a.part", true),
    ] {
        assert!(matches!(open_response(&opened), Err(RepoError::NotFound)));
    }
    match open_response(&Opened::Failed("denied".to_string())) {
        Err(RepoError::Failed(reason)) => assert_eq!(reason, "打开仓库文件失败: denied"),
        _ => panic!("not failed"),
    }
    match open_response(&Opened::Unknown("gone".to_string())) {
        Err(RepoError::Failed(reason)) => assert_eq!(reason, "读取仓库文件信息失败: gone"),
        _ => panic!("not failed"),
    }
}

#[test]
fn takes_up_a_target_without_its_query() {
    let resolution = resolve("/g%72/a.jar?x=/../").unwrap();
    assert_eq!(*resolution.components(), vec!["gr", "a.jar"]);
    assert_eq!(resolution.stage(), Stage::File);
    for target in ["g/a.jar", "", "/", "/../a", "http://host/a", "?/a"] {
        assert!(matches!(resolve(target), Err(RepoError::BadPath)), "{}", target);
    }
}

#[test]
fn a_target_made_of_names_leads_back_to_them() {
    let names = strings(&["g?r", "a#b", "%41"]);
    let target = format!("/{}", encode_path(&names));
    assert_eq!(*resolve(&target).unwrap().components(), names);
}

fn found(length: u64) -> Result<Response, RepoError> {
    Ok(Response::ok("x", Body::File(length)))
}

fn run(target: &str, deliver: Option<Stage>) -> (Vec<Stage>, Result<Response, RepoError>) {
    let mut resolution: Resolution = resolve(target).unwrap();
    let mut stages = Vec::new();
    loop {
        stages.push(resolution.stage());
        let answer = if deliver == Some(resolution.stage()) {
            found(1)
        } else {
            Err(RepoError::NotFound)
        };
        match resolution.advance(answer) {
            Step::Try(next) => resolution = next,
            Step::Answer(answer) => return (stages, answer),
        }
    }
}

#[test]
fn an_existing_file_is_delivered_first() {
    let (stages, answer) = run("/g/maven-metadata.xml", Some(Stage::File));
    assert_eq!(stages, vec![Stage::File]);
    assert!(answer.is_ok());
}

#[test]
fn metadata_is_generated_last() {
    let (stages, answer) = run("/g/maven-metadata.xml", Some(Stage::Upstream));
    assert_eq!(stages, vec![Stage::File, Stage::Upstream]);
    assert!(answer.is_ok());
    let (stages, answer) = run("/g/maven-metadata.xml", Some(Stage::Metadata));
    assert_eq!(stages, vec![Stage::File, Stage::Upstream, Stage::Metadata]);
    assert!(answer.is_ok());
    let upstream = match resolve("/g/maven-metadata.xml").unwrap().advance(Err(RepoError::NotFound))
    {
        Step::Try(next) => next,
        Step::Answer(_) => panic!("answered"),
    };
    let trouble = Err(RepoError::UpstreamUnavailable("x".to_string()));
    assert!(matches!(
        upstream.advance(trouble),
        Step::Answer(Err(RepoError::UpstreamUnavailable(_)))
    ));
}

#[test]
fn checksums_are_computed_before_upstreams_are_asked() {
    let (stages, answer) = run("/g/a.jar.sha1", None);
    assert_eq!(stages, vec![Stage::File, Stage::Checksum, Stage::Upstream]);
    assert!(matches!(answer, Err(RepoError::NotFound)));
    let (stages, _) = run("/g/.sha1", None);
    assert_eq!(stages, vec![Stage::File, Stage::Upstream]);
    let (stages, _) = run("/g/a.jar", None);
    assert_eq!(stages, vec![Stage::File, Stage::Upstream]);
}

#[test]
fn an_error_ends_the_search() {
    let resolution = resolve("/g/maven-metadata.xml").unwrap();
    match resolution.advance(Err(RepoError::Failed("disk".to_string()))) {
        Step::Answer(Err(RepoError::Failed(reason))) => assert_eq!(reason, "disk"),
        _ => panic!("went on"),
    }
}

#[test]
fn finds_the_artifact_of_a_checksum() {
    assert_eq!(
        checksum_target(&strings(&["g", "a.jar.sha1"])).unwrap(),
        vec!["g", "a.jar"]
    );
    assert!(checksum_target(&strings(&["g", "a.jar.md5"])).is_none());
    assert!(checksum_target(&strings(&["g", ".sha1"])).is_none());
    assert!(checksum_target(&strings(&[])).is_none());
}

#[test]
fn states_the_checksum_in_a_line() {
    let digest = sha1_hex(b"abc");
    let response = resolve_generated_checksum(Digested::Read(Ok(digest))).unwrap();
    assert_eq!(response.content_type(), "text/plain; charset=utf-8");
    match response.body() {
        Body::Bytes(bytes) => {
            assert_eq!(bytes.as_slice(), b"a9993e364706816aba3e25717850c26c9cd0d89d\n");
        }
        _ => panic!("no bytes"),
    }
    assert!(matches!(
        resolve_generated_checksum(Digested::Missing),
        Err(RepoError::NotFound)
    ));
    match resolve_generated_checksum(Digested::Unopened("x".to_string())) {
        Err(RepoError::Failed(reason)) => assert_eq!(reason, "打开待校验文件失败: x"),
        _ => panic!("not failed"),
    }
    match resolve_generated_checksum(Digested::Read(Err("x".to_string()))) {
        Err(RepoError::Failed(reason)) => assert_eq!(reason, "计算 SHA-1 校验值失败: x"),
        _ => panic!("not failed"),
    }
}

fn status(code: u16, text: &str) -> UpstreamReply {
    UpstreamReply::Status(code, text.to_string())
}

fn fetch(replies: Vec<UpstreamReply>) -> (Vec<String>, Result<(), RepoError>) {
    let upstreams: Vec<String> = (0..replies.len()).map(|i| format!("https://u{}", i)).collect();
    let mut fetch = UpstreamFetch::new(&strings(&["g", "a b.jar"])).unwrap();
    let mut asked = Vec::new();
    let mut replies = replies.into_iter();
    loop {
        match fetch.next_url(&upstreams) {
            Some(url) => asked.push(url),
            None => return (asked, Err(fetch.conclude())),
        }
        match fetch.record(replies.next().unwrap()) {
            FetchStep::Again(next) => fetch = next,
            FetchStep::Take => return (asked, Ok(())),
        }
    }
}

#[test]
fn asks_upstreams_in_order_until_one_delivers() {
    let (asked, outcome) = fetch(vec![
        status(404, "404 Not Found"),
        UpstreamReply::Error("refused".to_string()),
        status(204, "204 No Content"),
        status(200, "200 OK"),
    ]);
    assert_eq!(
        asked,
        vec!["https://u0/g/a%20b.jar", "https://u1/g/a%20b.jar", "https://u2/g/a%20b.jar"]
    );
    assert!(outcome.is_ok());
}

#[test]
fn a_file_is_missing_where_every_upstream_says_so() {
    let (_, outcome) = fetch(vec![status(404, "x"), status(404, "y")]);
    assert!(matches!(outcome, Err(RepoError::NotFound)));
    let (asked, outcome) = fetch(vec![]);
    assert!(asked.is_empty());
    assert!(matches!(outcome, Err(RepoError::NotFound)));
}

#[test]
fn the_last_trouble_with_an_upstream_is_reported() {
    let (_, outcome) = fetch(vec![
        UpstreamReply::Error("refused".to_string()),
        status(500, "500 Internal Server Error"),
        status(404, "404 Not Found"),
    ]);
    match outcome {
        Err(RepoError::UpstreamUnavailable(message)) => assert_eq!(
            message,
            "upstream unavailable: Maven Central returned 500 Internal Server Error"
        ),
        _ => panic!("no trouble"),
    }
    let (_, outcome) = fetch(vec![status(301, "x"), UpstreamReply::Error("refused".to_string())]);
    match outcome {
        Err(RepoError::UpstreamUnavailable(message)) => {
            assert_eq!(message, "upstream unavailable: refused");
        }
        _ => panic!("no trouble"),
    }
    assert!(matches!(UpstreamFetch::new(&strings(&[])), Err(RepoError::BadPath)));
}

#[test]
fn names_unfinished_downloads() {
    assert_eq!(part_name("a.jar", 17), ".a.jar.part-17");
    assert_eq!(
        part_name("a", u128::MAX),
        ".a.part-340282366920938463463374607431768211455"
    );
}

fn child(name: Option<&str>, is_dir: bool) -> ChildEntry {
    ChildEntry { name: name.map(|n| n.to_string()), is_dir }
}

fn file(name: &str) -> FileEntry {
    FileEntry { name: name.to_string(), exact: true, is_file: true }
}

const ARTIFACT: &str = "<?xml version=\"1.0\" encoding=\"UTF-8\"?>\n<metadata>\n  <groupId>org.x</groupId>\n  <artifactId>a&amp;b</artifactId>\n  <versioning>\n    <latest>2.0</latest>\n    <release>2.0</release>\n    <versions><version>1.0</version><version>10.0</version><version>2.0</version></versions>\n    <lastUpdated>19700101000000</lastUpdated>\n  </versioning>\n</metadata>\n";

#[test]
fn describes_an_artifact_by_its_versions() {
    let directory = strings(&["org", "x", "a&b"]);
    assert_eq!(artifact_metadata(&directory, strings(&["2.0", "1.0", "10.0"])), ARTIFACT);
    assert_eq!(artifact_metadata(&directory, strings(&["10.0", "2.0", "1.0"])), ARTIFACT);
    let entries = vec![
        child(Some("10.0"), true),
        child(Some(".hidden"), true),
        child(Some("2.0"), true),
        child(Some("maven-metadata.xml"), false),
        child(None, true),
        child(Some("1.0"), true),
    ];
    match generate_metadata(&directory, &Listed::Entries(entries)) {
        Generated::Answer(Ok(response)) => match response.body() {
            Body::Bytes(bytes) => assert_eq!(bytes.as_slice(), ARTIFACT.as_bytes()),
            _ => panic!("no bytes"),
        },
        _ => panic!("no document"),
    }
}

#[test]
fn describes_an_artifact_without_a_group() {
    let document = artifact_metadata(&strings(&[]), strings(&[]));
    assert!(document.contains("<groupId></groupId>\n  <artifactId></artifactId>"));
    assert!(document.contains("<latest></latest>"));
}

#[test]
fn describes_only_what_lies_deep_enough() {
    let listed = Listed::Entries(vec![child(Some("a-1.jar"), false)]);
    assert!(matches!(
        generate_metadata(&strings(&["g", "a", "1"]), &listed),
        Generated::NeedsFiles
    ));
    assert!(matches!(
        generate_metadata(&strings(&["g", "a"]), &listed),
        Generated::Answer(Err(RepoError::NotFound))
    ));
}

#[test]
fn describes_only_directories() {
    let directory = strings(&["g", "a", "1"]);
    assert!(matches!(
        generate_metadata(&directory, &Listed::NotDirectory),
        Generated::Answer(Err(RepoError::NotFound))
    ));
    match generate_metadata(&directory, &Listed::Failed("denied".to_string())) {
        Generated::Answer(Err(RepoError::Failed(reason))) => {
            assert_eq!(reason, "读取 Maven 仓库目录失败: denied");
        }
        _ => panic!("not failed"),
    }
}

#[test]
fn describes_a_version_by_its_files() {
    let mut entries = vec![
        file("a-1-S.pom"),
        file("a-1-S-sources.jar"),
        file("a-1-S.jar"),
        file("a-1-S.jar.lastUpdated"),
        file("a-1-S."),
        file("a-1-S-.jar"),
        file("a-1-S-x"),
        file("a-1-Sx.jar"),
        file("b.jar"),
    ];
    entries.push(FileEntry { name: "a-1-S.dir".to_string(), exact: true, is_file: false });
    let expected = "<?xml version=\"1.0\" encoding=\"UTF-8\"?>\n<metadata>\n  <groupId>g.h</groupId>\n  <artifactId>a</artifactId>\n  <version>1-S</version>\n  <versioning>\n    <snapshot><localCopy>true</localCopy></snapshot>\n    <lastUpdated>19700101000000</lastUpdated>\n    <snapshotVersions><snapshotVersion><extension>jar</extension><classifier>sources</classifier><value>1-S</value><updated>19700101000000</updated></snapshotVersion><snapshotVersion><extension>jar</extension><value>1-S</value><updated>19700101000000</updated></snapshotVersion><snapshotVersion><extension>pom</extension><value>1-S</value><updated>19700101000000</updated></snapshotVersion></snapshotVersions>\n  </versioning>\n</metadata>\n";
    let directory = strings(&["g", "h", "a", "1-S"]);
    assert_eq!(version_metadata(&directory, &entries), expected);
    entries.reverse();
    assert_eq!(version_metadata(&directory, &entries), expected);
}

#[test]
fn delivers_generated_metadata() {
    let response = metadata_response("<é/>");
    assert_eq!(response.status(), "200 OK");
    assert_eq!(response.content_type(), "application/xml; charset=utf-8");
    match response.body() {
        Body::Bytes(bytes) => assert_eq!(bytes.as_slice(), "<é/>".as_bytes()),
        _ => panic!("no bytes"),
    }
}
