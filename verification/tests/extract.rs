use batch_translator::input::TransType;
use batch_translator::input::input;

#[test]
fn test_text_input() {
    let content = r#"
        你好。
        I'm fine.
        Good morning.
"#;
    let re = r#"^\s*.*[^\x00-\x7f].*"#;
    let textures = input(TransType::Text, "test.txt", &vec![re.to_string()], content).unwrap();
    assert_eq!(textures.lines.len(), 1);
    let textures = input(TransType::Text, "test.txt", &vec![], content).unwrap();
    assert_eq!(textures.lines.len(), 3);
}

#[test]
fn test_mtool_input() {
    let content = r#"
{
    "100": "100",
    "BGM": "BGM",
    "请原谅我": "请原谅我",
    "请原\"谅\"我": "请原\"谅\"我",
    "请原\"谅\"我": "请原\"谅\"我"
}
"#;
    let re = r#"^\s*".*[^\x00-\x7f].*"#;
    let textures = input(TransType::MTool, "m.json", &vec![re.to_string()], content).unwrap();
    for line in textures.lines.iter() {
        println!("{}", line.content);
    }
    assert_eq!(textures.lines.len(), 3);
}

#[test]
fn test_kiri_kiri_ks_input() {
    let content = r#"
;//======================================================//
;//■ファイル名：00_00
;//======================================================//
*00_01|思春期
[cm]

[bgm file="BGM05"]

;//★ＥＶ：聡志×陽子：側位　表情１／ペニス１／陽子の手０
[ev file="EVA01_01" rule="rule14"]

[cn name="聡　志"]
Hello.
[en]
*save|

[cn name="陽　子" voice="00_01_001"]
你好。
[en]
*save|

[cn name="陽　子" spvoice="00_01_002" storage="ト書き"]
今天天气不错
[en]
*save|
"#;
    let re = r#"^[^;*\[\n]\s*[^\s]+"#;
    let textures = input(TransType::Text, "k.ks", &vec![re.to_string()], content).unwrap();
    assert_eq!(textures.lines.len(), 3);
}

#[test]
fn test_ain_input() {
    let content = r#"
; 注释
;s[2227] = "角色1"
;s[2800] = "10801"
;m[293] = "好的"
;s[1934] = "角色2"
;s[2801] = "10802"
;m[300] = "请原谅我"
;m[300] = "请\"原谅\"我"
;m[300] = ""
"#;
    let re = r#"^;m\[\d+\]\s=\s".+""#;
    let textures = input(TransType::Replace, "a.ain", &vec![re.to_string()], content).unwrap();
    assert_eq!(textures.lines.len(), 3);
}

#[test]
fn text_extract_non_ascii_filter() {
    let content = "\n100\nBGM\n你好\n";
    let re = r#"^\s*.*[^\x00-\x7f].*"#;
    let textures = input(TransType::Text, "t.txt", &vec![re.to_string()], content).unwrap();
    assert_eq!(textures.lines.len(), 1);
    assert_eq!(textures.lines[0].content, "你好\n");
    assert_eq!(textures.lines[0].seek, 9);
    assert_eq!(textures.lines[0].size, 7);
    assert_eq!(textures.curr_index, 0);
    assert_eq!(textures.name, "t.txt");
}

#[test]
fn map_extract_non_ascii_filter() {
    let content = "{\n\"BGM\":\"BGM\",\n\"你好\":\"你好\"\n}\n";
    let re = r#"^\s*".*[^\x00-\x7f].*"#;
    let textures = input(TransType::MTool, "m.json", &vec![re.to_string()], content).unwrap();
    assert_eq!(textures.lines.len(), 1);
    assert_eq!(textures.lines[0].content, "\"你好\":\"你好\"\n");
    assert_eq!(textures.lines[0].seek, 15);
}

#[test]
fn invalid_filter_regex_is_rejected() {
    let content = "abc\n";
    let err = input(TransType::Text, "t.txt", &vec!["(".to_string()], content);
    assert!(err.is_err());
}

#[test]
fn extraction_is_deterministic() {
    let content = "alpha\n\nbeta\ngamma\n";
    let a = input(TransType::Text, "t.txt", &vec![], content).unwrap();
    let b = input(TransType::Text, "t.txt", &vec![], content).unwrap();
    assert_eq!(a.lines.len(), b.lines.len());
    for (x, y) in a.lines.iter().zip(b.lines.iter()) {
        assert_eq!(x.seek, y.seek);
        assert_eq!(x.size, y.size);
        assert_eq!(x.content, y.content);
    }
}

#[test]
fn byte_accounting_holds() {
    let content = "one\n\ntwo\nthree";
    let t = input(TransType::Text, "t.txt", &vec![], content).unwrap();
    assert_eq!(t.lines.len(), 3);
    let mut total: usize = 0;
    for i in 0..t.lines.len() {
        assert!(t.lines[i].size >= 1);
        assert!(t.lines[i].seek + t.lines[i].size <= content.len());
        if i + 1 < t.lines.len() {
            assert!(t.lines[i].seek + t.lines[i].size <= t.lines[i + 1].seek);
        }
        total += t.lines[i].size;
    }
    let skipped = content.len() - total;
    assert_eq!(total + skipped, content.len());
    assert_eq!(skipped, 1);
}
