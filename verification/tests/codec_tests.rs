use tasklist::codec::decode_tasks;
use tasklist::codec::encode_tasks;
use tasklist::codec::load_tasks;

fn strings(items: &[&str]) -> Vec<String> {
    items.iter().map(|s| s.to_string()).collect()
}

#[test]
fn encode_plain_list() {
    let text = encode_tasks(&strings(&["buy milk", "write report"]));
    assert_eq!(text, "[\"buy milk\",\"write report\"]");
}

#[test]
fn encode_empty_list() {
    assert_eq!(encode_tasks(&strings(&[])), "[]");
}

#[test]
fn encode_escapes_specials() {
    let text = encode_tasks(&strings(&["say \"hi\"", "a\\b", "tab\there", "line\nbreak"]));
    assert_eq!(text, "[\"say \\\"hi\\\"\",\"a\\\\b\",\"tab\\there\",\"line\\nbreak\"]");
}

#[test]
fn encode_escapes_rare_controls() {
    let text = encode_tasks(&strings(&["\u{1}\u{1f}"]));
    assert_eq!(text, "[\"\\u0001\\u001f\"]");
}

#[test]
fn decode_plain_list() {
    assert_eq!(
        decode_tasks("[\"a\",\"b\"]"),
        Some(strings(&["a", "b"]))
    );
    assert_eq!(decode_tasks("[]"), Some(strings(&[])));
}

#[test]
fn decode_rejects_malformed_text() {
    assert_eq!(decode_tasks(""), None);
    assert_eq!(decode_tasks("x"), None);
    assert_eq!(decode_tasks("["), None);
    assert_eq!(decode_tasks("[\"a\""), None);
    assert_eq!(decode_tasks("[\"a\",]"), None);
    assert_eq!(decode_tasks("[\"a\"]x"), None);
    assert_eq!(decode_tasks("[\"\\x\"]"), None);
    assert_eq!(decode_tasks("[\"\\u00g0\"]"), None);
    assert_eq!(decode_tasks("{\"a\":1}"), None);
    assert_eq!(decode_tasks("[1,2]"), None);
}

#[test]
fn decode_allows_whitespace_between_tokens() {
    assert_eq!(decode_tasks("[] "), Some(strings(&[])));
    assert_eq!(decode_tasks(" [ ] "), Some(strings(&[])));
    assert_eq!(decode_tasks("[\"a\",\"b\"]\n"), Some(strings(&["a", "b"])));
    assert_eq!(
        decode_tasks(" [ \"a\" , \"b\" ]\r\n"),
        Some(strings(&["a", "b"]))
    );
    assert_eq!(
        decode_tasks("[\n  \"a\",\n  \"b\"\n]"),
        Some(strings(&["a", "b"]))
    );
    assert_eq!(load_tasks("[] "), Some(strings(&[])));
}

#[test]
fn decode_keeps_whitespace_inside_strings() {
    assert_eq!(decode_tasks("[\" a \"]"), Some(strings(&[" a "])));
    // A raw tab or newline inside a string is a control character and stays
    // rejected; between tokens it is whitespace.
    assert_eq!(decode_tasks("[\"a\tb\"]"), None);
    assert_eq!(decode_tasks("[\"a\nb\"]"), None);
}

#[test]
fn decode_allows_every_escape_spelling() {
    assert_eq!(decode_tasks("[\"\\/\"]"), Some(strings(&["/"])));
    assert_eq!(decode_tasks("[\"\\u0041\"]"), Some(strings(&["A"])));
    assert_eq!(decode_tasks("[\"\\u004A\"]"), Some(strings(&["J"])));
    assert_eq!(decode_tasks("[\"\\u00Ff\"]"), Some(strings(&["\u{ff}"])));
    assert_eq!(decode_tasks("[\"\\u0008\"]"), Some(strings(&["\u{8}"])));
    assert_eq!(decode_tasks("[\"\\u2603\"]"), Some(strings(&["\u{2603}"])));
}

#[test]
fn decode_combines_surrogate_pairs() {
    assert_eq!(decode_tasks("[\"\\uD83D\\uDE42\"]"), Some(strings(&["🙂"])));
    assert_eq!(decode_tasks("[\"\\ud834\\udd1e\"]"), Some(strings(&["\u{1d11e}"])));
}

#[test]
fn decode_rejects_lone_surrogates() {
    assert_eq!(decode_tasks("[\"\\uD800\"]"), None);
    assert_eq!(decode_tasks("[\"\\uDC00\"]"), None);
    assert_eq!(decode_tasks("[\"\\uD800x\"]"), None);
    assert_eq!(decode_tasks("[\"\\uD800\\n\"]"), None);
    assert_eq!(decode_tasks("[\"\\uD800\\u0041\"]"), None);
}

#[test]
fn decoder_and_other_readers_agree_on_spellings() {
    // Each spelling is either read the same way by a separate JSON reader or
    // rejected by both.
    let texts = [
        "[] ",
        " [ \"a\" , \"b\" ]\n",
        "[\n  \"x y\"\n]",
        "[\"\\/\\u0041\\u004a\\u00ff\"]",
        "[\"\\uD83D\\uDE42\"]",
        "[\"a\",]",
        "[,]",
        "[\"a\" \"b\"]",
        "[\"\\uD800\"]",
        "[\"a\tb\"]",
        "[01]",
    ];
    for text in texts {
        let ours = decode_tasks(text);
        let theirs: Result<Vec<String>, serde_json::Error> = serde_json::from_str(text);
        match (ours, theirs) {
            (Some(v), Ok(w)) => assert_eq!(v, w, "differ on {:?}", text),
            (None, Err(_)) => {}
            (v, w) => panic!("disagree on {:?}: {:?} vs {:?}", text, v, w),
        }
    }
}

#[test]
fn round_trip_restores_every_list() {
    let cases: Vec<Vec<String>> = vec![
        strings(&[]),
        strings(&[""]),
        strings(&["buy milk"]),
        strings(&["a", "a", "a"]),
        strings(&["say \"hi\"", "back\\slash", "tab\t", "nl\n", "cr\r", "\u{8}\u{c}"]),
        strings(&["\u{0}", "\u{1f}", "héllo wörld", "日本語", "emoji 🙂"]),
    ];
    for items in cases {
        let text = encode_tasks(&items);
        assert_eq!(decode_tasks(&text), Some(items.clone()));
        assert_eq!(load_tasks(&text), Some(items));
    }
}

#[test]
fn load_treats_empty_content_as_empty_list() {
    assert_eq!(load_tasks(""), Some(strings(&[])));
    assert_eq!(load_tasks("[]"), Some(strings(&[])));
    assert_eq!(load_tasks("nonsense"), None);
}

#[test]
fn encoded_text_is_read_by_other_readers() {
    // What the encoder writes is ordinary notation that a separate reader
    // understands identically.
    let items = strings(&["say \"hi\"", "back\\slash", "tab\t", "nl\n", "\u{1}\u{1f}", "日本語"]);
    let text = encode_tasks(&items);
    let reread: Vec<String> = serde_json::from_str(&text).unwrap();
    assert_eq!(reread, items);
}

#[test]
fn other_writers_text_is_read_back() {
    // What a separate writer produces for the same list is read by this
    // decoder, so stores written by either reader load the same way.
    let items = strings(&["say \"hi\"", "back\\slash", "tab\t", "nl\n", "\u{1}\u{1f}", "日本語"]);
    let text = serde_json::to_string(&items).unwrap();
    assert_eq!(decode_tasks(&text), Some(items));
}
