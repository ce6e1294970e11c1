use std::path::{Path, PathBuf};

use usbws::authorized::{add, authorized_path, contains, load, print_table, Entry, Table};
use usbws::gate::{accept_initiator, authorize_initiator, check_target, no_pinning, Verdict};
use usbws::proto::{decode_qr, make_qr, Identity, Peer};
use usbws::text::{is_whitespace, trim};

const KEY_A: &str = "000102030405060708090a0b0c0d0e0f101112131415161718191a1b1c1d1e1f";
const KEY_B: &str = "ffeeddccbbaa99887766554433221100ffeeddccbbaa99887766554433221100";

fn key(text: &str) -> [u8; 32] {
    hex::decode(text).unwrap().try_into().unwrap()
}

fn peer(seed: u8, nick: &str) -> Peer {
    let me = Identity::from_seeds([seed; 32], [seed; 32]);
    decode_qr(&make_qr(&me, nick)).ok().unwrap()
}

fn same(a: &[Entry], b: &[Entry]) -> bool {
    a.len() == b.len() && (0..a.len()).all(|i| a[i].x_pub == b[i].x_pub && a[i].nick == b[i].nick)
}

#[test]
fn table_is_beside_the_identity_file() {
    assert_eq!(authorized_path(b"/tmp/idA"), b"/tmp/authorized");
    assert_eq!(
        authorized_path(b"/home/u/.config/usbws/identity"),
        b"/home/u/.config/usbws/authorized"
    );
    assert_eq!(authorized_path(b"identity"), b"authorized");
    assert_eq!(authorized_path(b"/identity"), b"/authorized");
    assert_eq!(authorized_path(b"/"), b"authorized");
    assert_eq!(authorized_path(b""), b"authorized");
}

#[test]
fn paths_are_taken_apart_as_the_system_does() {
    let mut paths: Vec<String> = vec![String::new()];
    let mut from = 0;
    for _ in 0..7 {
        let to = paths.len();
        for i in from..to {
            for part in ['/', '.', 'a'] {
                let mut longer = paths[i].clone();
                longer.push(part);
                paths.push(longer);
            }
        }
        from = to;
    }
    paths.push(String::from("/home/Zoë/schlüssel"));
    for path in paths {
        let expected = match Path::new(&path).parent() {
            Some(dir) => dir.join("authorized"),
            None => PathBuf::from("authorized"),
        };
        assert_eq!(
            authorized_path(path.as_bytes()),
            expected.to_str().unwrap().as_bytes(),
            "{path:?}"
        );
    }
}

#[test]
fn white_space_is_that_of_unicode() {
    for c in '\0'..=char::MAX {
        assert_eq!(is_whitespace(c), c.is_whitespace(), "{c:?}");
    }
}

#[test]
fn trimming() {
    let chars = |text: &str| text.chars().collect::<Vec<char>>();
    for text in ["", " ", "a", " a", "a ", "\t a b \u{3000}", "\u{200b}a"] {
        assert_eq!(trim(&chars(text)), &chars(text.trim())[..]);
    }
}

#[test]
fn missing_and_empty_files_are_empty_tables() {
    assert!(load(None).entries.is_empty());
    assert!(load(None).malformed.is_empty());
    assert!(load(Some("")).entries.is_empty());
    assert!(load(Some("\n  \n# nobody\n\t# either\n")).entries.is_empty());
    assert!(load(Some("\n  \n# nobody\n\t# either\n")).malformed.is_empty());
}

#[test]
fn lines_of_a_table() {
    let upper = KEY_B.to_uppercase();
    let text = format!("# owners\r\n{KEY_A}\r\n\n  {upper}\t my  laptop \u{2003}\nnonsense here\n{KEY_A} x");
    let table = load(Some(&text));
    assert_eq!(table.entries.len(), 3);
    assert_eq!(table.entries[0].x_pub, key(KEY_A));
    assert_eq!(table.entries[0].nick, "");
    assert_eq!(table.entries[1].x_pub, key(KEY_B));
    assert_eq!(table.entries[1].nick, "my  laptop");
    assert_eq!(table.entries[2].nick, "x");
    assert_eq!(table.malformed, ["nonsense here"]);
}

#[test]
fn malformed_lines_are_reported() {
    let short = &KEY_A[..62];
    let odd = &KEY_A[..63];
    let long = format!("{KEY_A}00");
    let bad = format!("g{}", &KEY_A[1..]);
    let wide = format!("é{}", &KEY_A[2..]);
    let text = format!("{short}\n {odd} a\n{long}\n{bad}\n{wide}\n");
    let table = load(Some(&text));
    assert!(table.entries.is_empty());
    assert_eq!(
        table.malformed,
        [short.to_string(), format!("{odd} a"), long, bad, wide]
    );
}

#[test]
fn membership() {
    let entries = load(Some(&format!("{KEY_A} a\n"))).entries;
    assert!(contains(&entries, &key(KEY_A)));
    assert!(!contains(&entries, &key(KEY_B)));
    assert!(!contains(&[], &key(KEY_A)));
}

#[test]
fn lines_to_append() {
    assert_eq!(add(None, &key(KEY_A), "").unwrap(), format!("{KEY_A}\n"));
    assert_eq!(add(Some(""), &key(KEY_A), "my box").unwrap(), format!("{KEY_A} my box\n"));
    assert!(add(Some(KEY_A), &key(KEY_A), "again").is_none());
    assert!(add(Some(&KEY_A.to_uppercase()), &key(KEY_A), "again").is_none());
    let file = format!("{KEY_A}\n");
    assert_eq!(add(Some(&file), &key(KEY_B), "").unwrap(), format!("{KEY_B}\n"));
}

#[test]
fn an_open_line_is_ended_first() {
    assert_eq!(add(Some(KEY_A), &key(KEY_B), "").unwrap(), format!("\n{KEY_B}\n"));
    assert_eq!(add(Some("# owners"), &key(KEY_B), "b").unwrap(), format!("\n{KEY_B} b\n"));
    assert_eq!(add(Some("\n \t"), &key(KEY_B), "").unwrap(), format!("{KEY_B}\n"));
}

#[test]
fn appending_to_an_open_line_keeps_it() {
    let mut text = "ab".repeat(32);
    text.push_str(&add(Some(&text), &[0xcd; 32], "").unwrap());
    let table = load(Some(&text));
    assert_eq!(table.entries.len(), 2);
    assert_eq!(table.entries[0].x_pub, [0xab; 32]);
    assert_eq!(table.entries[0].nick, "");
    assert_eq!(table.entries[1].x_pub, [0xcd; 32]);
    assert_eq!(table.entries[1].nick, "");
    assert!(add(Some(&text), &[0xcd; 32], "").is_none());
    assert!(add(Some(&text), &[0xab; 32], "").is_none());
}

#[test]
fn appending_lists_once() {
    let mut text = String::from("# owners");
    for (k, nick) in [(KEY_A, " a "), (KEY_B, ""), (KEY_A, "b")] {
        if let Some(line) = add(Some(&text), &key(k), nick) {
            text.push_str(&line);
        }
        assert!(contains(&load(Some(&text)).entries, &key(k)));
    }
    let table = load(Some(&text));
    assert_eq!(table.entries.len(), 2);
    assert_eq!(table.entries[0].nick, "a");
    assert!(table.malformed.is_empty());
}

#[test]
fn shown_table_reads_back() {
    let text = format!("{KEY_A}   one two \n# c\n{KEY_B}\n{KEY_A}\tthree\n");
    let table = load(Some(&text)).entries;
    let lines = print_table(&table);
    assert_eq!(
        lines,
        [format!("{KEY_A} one two"), KEY_B.to_string(), format!("{KEY_A} three")]
    );
    let mut shown = String::new();
    for line in &lines {
        shown.push_str(line);
        shown.push('\n');
    }
    assert!(same(&load(Some(&shown)).entries, &table));
    assert!(print_table(&[]).is_empty());
}

fn table(entries: Vec<Entry>, malformed: Vec<String>) -> Table {
    Table { entries, malformed }
}

#[test]
fn verdicts() {
    let (a, b) = (peer(1, "a"), peer(2, "b"));
    let empty = table(vec![], vec![]);
    let listed = table(vec![Entry { x_pub: a.x_pub, nick: String::new() }], vec![]);
    let malformed = table(vec![], vec![String::from("nonsense")]);
    assert_eq!(authorize_initiator(&a, true, None), Verdict::Unpinned);
    assert_eq!(authorize_initiator(&b, true, Some(&listed)), Verdict::Unpinned);
    assert_eq!(authorize_initiator(&a, false, None), Verdict::Unreadable);
    assert_eq!(authorize_initiator(&a, false, Some(&empty)), Verdict::FirstUse);
    assert_eq!(authorize_initiator(&a, false, Some(&listed)), Verdict::Listed);
    assert_eq!(authorize_initiator(&b, false, Some(&listed)), Verdict::Unlisted);
    assert_eq!(authorize_initiator(&a, false, Some(&malformed)), Verdict::Unlisted);
    assert!(Verdict::Unpinned.accepts());
    assert!(Verdict::FirstUse.accepts());
    assert!(Verdict::Listed.accepts());
    assert!(!Verdict::Unlisted.accepts());
    assert!(!Verdict::Unreadable.accepts());
}

#[test]
fn a_mistyped_key_does_not_open_the_gate() {
    let text = format!("{} owner\n", "ab".repeat(31));
    let table = load(Some(&text));
    assert!(table.entries.is_empty());
    assert!(!table.is_empty());
    assert_eq!(authorize_initiator(&peer(1, "a"), false, Some(&table)), Verdict::Unlisted);
}

#[test]
fn comments_leave_the_table_empty() {
    let table = load(Some("\n# owners\n  # none yet\n\t"));
    assert!(table.is_empty());
    assert_eq!(authorize_initiator(&peer(1, "a"), false, Some(&table)), Verdict::FirstUse);
}

#[test]
fn first_use_pins_the_initiator() {
    let (a, b) = (peer(1, "laptop"), peer(2, "stranger"));
    for start in ["", "# owners", "# owners\n", "\n  "] {
        let mut text = String::from(start);
        let table = load(Some(&text));
        assert_eq!(authorize_initiator(&a, false, Some(&table)), Verdict::FirstUse);
        text.push_str(&add(Some(&text), &a.x_pub, &a.nick).unwrap());
        let table = load(Some(&text));
        assert_eq!(authorize_initiator(&a, false, Some(&table)), Verdict::Listed);
        assert_eq!(authorize_initiator(&b, false, Some(&table)), Verdict::Unlisted);
    }
}

#[test]
fn pinning_is_switched_off_by_one() {
    assert!(no_pinning(Some("1")));
    assert!(!no_pinning(Some("")));
    assert!(!no_pinning(Some("0")));
    assert!(!no_pinning(Some("11")));
    assert!(!no_pinning(Some("true")));
    assert!(!no_pinning(None));
}

#[test]
fn targets_need_a_port() {
    assert!(check_target("127.0.0.1:3240"));
    assert!(check_target("[::1]:3240"));
    assert!(check_target(":"));
    assert!(!check_target("localhost"));
    assert!(!check_target(""));
}

#[test]
fn appending_behind_white_space() {
    let text = format!("# owners\n{KEY_B} b\n \t ");
    let line = add(Some(&text), &key(KEY_A), "a").unwrap();
    let table = load(Some(&format!("{text}{line}")));
    assert_eq!(table.entries.len(), 2);
    assert_eq!(table.entries[0].nick, "b");
    assert_eq!(table.entries[1].x_pub, key(KEY_A));
    assert_eq!(table.entries[1].nick, "a");
    assert!(table.malformed.is_empty());
}

#[test]
fn a_nick_lists_nobody() {
    let nick = format!(" first\n{KEY_B} second\n");
    let line = add(None, &key(KEY_A), &nick).unwrap();
    assert_eq!(line, format!("{KEY_A}  first {KEY_B} second \n"));
    let table = load(Some(&line));
    assert_eq!(table.entries.len(), 1);
    assert_eq!(table.entries[0].x_pub, key(KEY_A));
    assert_eq!(table.entries[0].nick, format!("first {KEY_B} second"));
    assert!(table.malformed.is_empty());
    assert!(!contains(&table.entries, &key(KEY_B)));
}

#[test]
fn the_accepted_initiator_is_handed_on() {
    let owner = peer(1, "laptop");
    let digits = hex::encode(owner.x_pub);
    // The first one is accepted, and listed.
    for (file, line) in [
        (None, format!("{digits} laptop\n")),
        (Some("# owners"), format!("\n{digits} laptop\n")),
    ] {
        let (accepted, listing) = accept_initiator(peer(1, "laptop"), false, Some(file));
        let accepted = accepted.unwrap();
        assert_eq!(accepted.x_pub, owner.x_pub);
        assert_eq!(accepted.ed_pub, owner.ed_pub);
        assert_eq!(accepted.nick, "laptop");
        assert_eq!(listing, Some(line));
    }
    // Nobody else is ever listed.
    let file = format!("{digits} laptop\n");
    let (accepted, listing) = accept_initiator(peer(1, "laptop"), false, Some(Some(&file)));
    assert_eq!(accepted.unwrap().id, owner.id);
    assert_eq!(listing, None);
    let (accepted, listing) = accept_initiator(peer(2, "stranger"), false, Some(Some(&file)));
    assert!(accepted.is_none());
    assert_eq!(listing, None);
    let (accepted, listing) = accept_initiator(peer(2, "stranger"), true, None);
    assert_eq!(accepted.unwrap().id, peer(2, "").id);
    assert_eq!(listing, None);
    let (accepted, listing) = accept_initiator(peer(1, "laptop"), false, None);
    assert!(accepted.is_none());
    assert_eq!(listing, None);
    let (accepted, listing) = accept_initiator(peer(1, "laptop"), false, Some(Some("nonsense")));
    assert!(accepted.is_none());
    assert_eq!(listing, None);
}
