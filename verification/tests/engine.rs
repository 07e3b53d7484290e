use keybuddy::config::{
    apply_config_line, parse_config_line, resolve_key_token, strip_quotes_if_any, ConfigLine,
    KeyValueData, KeyValueStore, LineOutcome, ValueParseError,
};
use keybuddy::devices::{select_device, DeviceFilter, DeviceSelectError, XinputEntry};
use keybuddy::dispatch::{command_parts, split_program};
use keybuddy::events::{decode_event, key_down_code, EventRecord};
use keybuddy::key_codes::{code_from_key_name, key_name_from_code, EventType, RawCodes};
use keybuddy::key_tree::FindOutcome;
use keybuddy::matcher::{MatchOutcome, SequenceMatcher};
use keybuddy::numbers::{check_float_text, parse_isize_text, parse_u16_text};
use keybuddy::text::{str_eq, text_contains, trim_str};
use keybuddy::{KeySequence, KTree};

fn seq_of(codes: &[u16]) -> KeySequence {
    KeySequence::from(&codes.to_vec())
}

// --- the tree ---

#[test]
fn insert_then_find_returns_command() {
    let mut t = KTree::new();
    t.add(&seq_of(&[1, 2, 3]), Some("echo hi".to_string()));
    match t.find(&seq_of(&[1, 2, 3])) {
        FindOutcome::Found(c) => assert_eq!(c, "echo hi"),
        _ => panic!("expected the registered command"),
    }
}

#[test]
fn insert_empty_sequence_sets_root_command() {
    let mut t = KTree::new();
    t.add(&seq_of(&[]), Some("root".to_string()));
    match t.find(&seq_of(&[])) {
        FindOutcome::Found(c) => assert_eq!(c, "root"),
        _ => panic!("expected the root command"),
    }
}

#[test]
fn unrelated_sequences_do_not_interfere() {
    let mut t = KTree::new();
    t.add(&seq_of(&[1, 2]), Some("one".to_string()));
    t.add(&seq_of(&[3, 4]), Some("two".to_string()));
    match t.find(&seq_of(&[1, 2])) {
        FindOutcome::Found(c) => assert_eq!(c, "one"),
        _ => panic!("first registration was disturbed"),
    }
    match t.find(&seq_of(&[3, 4])) {
        FindOutcome::Found(c) => assert_eq!(c, "two"),
        _ => panic!("second registration missing"),
    }
}

#[test]
fn reinsert_replaces_without_duplicating_nodes() {
    let mut t = KTree::new();
    t.add(&seq_of(&[5, 6]), Some("old".to_string()));
    let nodes_before = t.dump().len();
    t.add(&seq_of(&[5, 6]), Some("new".to_string()));
    let nodes_after = t.dump().len();
    assert_eq!(nodes_before, nodes_after);
    match t.find(&seq_of(&[5, 6])) {
        FindOutcome::Found(c) => assert_eq!(c, "new"),
        _ => panic!("expected the replacing command"),
    }
}

#[test]
fn prefix_without_command_is_distinguished() {
    let mut t = KTree::new();
    t.add(&seq_of(&[7, 8, 9]), Some("deep".to_string()));
    // The prefix exists but carries no command.
    assert!(matches!(t.find(&seq_of(&[7, 8])), FindOutcome::Prefix));
    // The full path carries the command.
    assert!(matches!(t.find(&seq_of(&[7, 8, 9])), FindOutcome::Found(_)));
    // An unregistered extension is a plain no-match, not a failure.
    assert!(matches!(t.find(&seq_of(&[7, 8, 9, 10])), FindOutcome::NoMatch));
    assert!(matches!(t.find(&seq_of(&[7, 1])), FindOutcome::NoMatch));
}

#[test]
fn dump_renders_depth_first() {
    let mut t = KTree::new();
    t.add(&seq_of(&[1, 2]), Some("a".to_string()));
    t.add(&seq_of(&[1, 3]), Some("b".to_string()));
    let rows = t.dump();
    // root, 1, 2, 3 -- the subtree of 1 before anything else.
    assert_eq!(rows.len(), 4);
    assert_eq!(rows[0].depth, 0);
    assert_eq!(rows[1].key, 1);
    assert_eq!(rows[1].depth, 1);
    assert_eq!(rows[2].key, 2);
    assert_eq!(rows[2].depth, 2);
    assert_eq!(rows[3].key, 3);
    assert_eq!(rows[3].depth, 2);
    assert_eq!(rows[2].command.as_deref(), Some("a"));
    assert_eq!(rows[3].command.as_deref(), Some("b"));
}

#[test]
fn key_sequences_compare_elementwise() {
    assert!(seq_of(&[1, 2, 3]) == seq_of(&[1, 2, 3]));
    assert!(seq_of(&[1, 2, 3]) != seq_of(&[1, 2]));
    assert!(seq_of(&[1, 2, 3]) != seq_of(&[1, 2, 4]));
    assert_eq!(seq_of(&[4, 5]).len(), 2);
}

// --- the matcher ---

#[test]
fn matcher_fires_once_and_resets() {
    let mut t = KTree::new();
    t.add(&seq_of(&[10, 11, 12]), Some("echo hi".to_string()));
    let mut m = SequenceMatcher::new(t, 2000, None);
    assert!(matches!(m.on_key(10, 100), MatchOutcome::Pending));
    assert!(matches!(m.on_key(11, 200), MatchOutcome::Pending));
    match m.on_key(12, 300) {
        MatchOutcome::Dispatch(c) => assert_eq!(c, "echo hi"),
        _ => panic!("expected a dispatch after the third key"),
    }
    // The buffer was reset: the same burst fires again from scratch.
    assert!(matches!(m.on_key(10, 400), MatchOutcome::Pending));
    assert!(matches!(m.on_key(11, 500), MatchOutcome::Pending));
    assert!(matches!(m.on_key(12, 600), MatchOutcome::Dispatch(_)));
}

#[test]
fn matcher_timeout_resets_buffer() {
    let mut t = KTree::new();
    t.add(&seq_of(&[20, 21]), Some("late".to_string()));
    let mut m = SequenceMatcher::new(t, 2000, None);
    assert!(matches!(m.on_key(20, 0), MatchOutcome::Pending));
    // The gap exceeds the delay: the running sequence at the second key is
    // just [21], which starts no registered sequence.
    assert!(matches!(m.on_key(21, 3000), MatchOutcome::NoMatch));
}

#[test]
fn matcher_within_delay_keeps_buffer() {
    let mut t = KTree::new();
    t.add(&seq_of(&[20, 21]), Some("fast".to_string()));
    let mut m = SequenceMatcher::new(t, 2000, None);
    assert!(matches!(m.on_key(20, 0), MatchOutcome::Pending));
    assert!(matches!(m.on_key(21, 2000), MatchOutcome::Dispatch(_)));
}

#[test]
fn quit_sentinel_terminates_without_dispatch() {
    let mut t = KTree::new();
    t.add(&seq_of(&[30]), Some("stop".to_string()));
    let mut m = SequenceMatcher::new(t, 2000, Some("stop".to_string()));
    assert!(matches!(m.on_key(30, 10), MatchOutcome::Quit));
}

#[test]
fn concrete_scenario_lock_and_screenshot() {
    let mut t = KTree::new();
    t.add(&seq_of(&[1]), Some("lock".to_string()));
    t.add(&seq_of(&[2, 3]), Some("screenshot".to_string()));
    let mut m = SequenceMatcher::new(t, 2000, None);
    match m.on_key(1, 0) {
        MatchOutcome::Dispatch(c) => assert_eq!(c, "lock"),
        _ => panic!("expected lock to dispatch at once"),
    }
    assert!(matches!(m.on_key(2, 100), MatchOutcome::Pending));
    match m.on_key(3, 200) {
        MatchOutcome::Dispatch(c) => assert_eq!(c, "screenshot"),
        _ => panic!("expected screenshot only after the second code"),
    }
    // A lone 2 keeps accumulating; nothing is dispatched.
    assert!(matches!(m.on_key(2, 300), MatchOutcome::Pending));
}

#[test]
fn dead_end_clears_buffer() {
    let mut t = KTree::new();
    t.add(&seq_of(&[40, 41]), Some("x".to_string()));
    let mut m = SequenceMatcher::new(t, 2000, None);
    assert!(matches!(m.on_key(40, 0), MatchOutcome::Pending));
    // 40,99 is a dead end: the buffer is cleared, the stray dropped.
    assert!(matches!(m.on_key(99, 10), MatchOutcome::NoMatch));
    // A fresh burst still works.
    assert!(matches!(m.on_key(40, 20), MatchOutcome::Pending));
    assert!(matches!(m.on_key(41, 30), MatchOutcome::Dispatch(_)));
}

// --- the key-code table ---

#[test]
fn key_names_resolve_both_ways() {
    assert_eq!(code_from_key_name("KEY_ESC"), Some(1));
    assert_eq!(code_from_key_name("KEY_KP0"), Some(82));
    assert_eq!(code_from_key_name("KEY_MAX"), Some(0x2ff));
    assert_eq!(code_from_key_name("KEY_BOGUS"), None);
    assert_eq!(key_name_from_code(30), Some("KEY_A"));
    assert_eq!(key_name_from_code(82), Some("KEY_KP0"));
    assert_eq!(key_name_from_code(84), None);
    assert_eq!(RawCodes::KEY_LEFT_SHIFT, 42);
    assert_eq!(key_name_from_code(RawCodes::KEY_COMPOSE), Some("KEY_COMPOSE"));
}

#[test]
fn event_types_carry_their_wire_values() {
    assert_eq!(EventType::EvSyn.code(), 0x00);
    assert_eq!(EventType::EvKey.code(), 0x01);
    assert_eq!(EventType::EvRep.code(), 0x14);
    assert_eq!(EventType::EvCnt.code(), 0x20);
}

// --- event records ---

#[test]
fn decode_event_reads_fields_in_order() {
    let mut buf = [0u8; 24];
    buf[0] = 0x15;
    buf[1] = 0x01;  // tv_sec = 0x115
    buf[8] = 0x02;  // tv_usec = 2
    buf[16] = 0x01;  // event type = EvKey
    buf[18] = 0x52;
    buf[19] = 0x01;  // code = 0x152
    buf[20] = 0x01;  // value = 1
    let ev = decode_event(&buf);
    assert_eq!(ev.tv_sec, 0x115);
    assert_eq!(ev.tv_usec, 2);
    assert_eq!(ev.event_type, 1);
    assert_eq!(ev.code, 0x152);
    assert_eq!(ev.value, 1);
}

#[test]
fn decode_event_reads_negative_values() {
    let mut buf = [0u8; 24];
    buf[20] = 0xff;
    buf[21] = 0xff;
    buf[22] = 0xff;
    buf[23] = 0xff;
    let ev = decode_event(&buf);
    assert_eq!(ev.value, -1);
}

#[test]
fn only_key_down_events_are_forwarded() {
    let down = EventRecord { tv_sec: 0, tv_usec: 0, event_type: 1, code: 82, value: 1 };
    assert_eq!(key_down_code(&down), Some(82));
    let up = EventRecord { tv_sec: 0, tv_usec: 0, event_type: 1, code: 82, value: 0 };
    assert_eq!(key_down_code(&up), None);
    let repeat = EventRecord { tv_sec: 0, tv_usec: 0, event_type: 1, code: 82, value: 2 };
    assert_eq!(key_down_code(&repeat), None);
    let sync = EventRecord { tv_sec: 0, tv_usec: 0, event_type: 0, code: 82, value: 1 };
    assert_eq!(key_down_code(&sync), None);
}

// --- the key-value store ---

#[test]
fn store_classifies_values() {
    let mut kv = KeyValueStore::new();
    assert!(kv.add("name", "\"keypad one\"").is_ok());
    match kv.get("name") {
        Some(KeyValueData::Text(t)) => assert_eq!(t, "keypad one"),
        _ => panic!("expected text"),
    }
    assert!(kv.add("nothing", "None").is_ok());
    assert!(matches!(kv.get("nothing"), Some(KeyValueData::Empty)));
    assert!(kv.add("vid", "0x046d").is_ok());
    match kv.get("vid") {
        Some(KeyValueData::Int(v)) => assert_eq!(v, 0x046d),
        _ => panic!("expected an integer"),
    }
    assert!(kv.add("count", "-12").is_ok());
    match kv.get("count") {
        Some(KeyValueData::Int(v)) => assert_eq!(v, -12),
        _ => panic!("expected an integer"),
    }
    assert!(kv.add("delay", "2.5").is_ok());
    match kv.get("delay") {
        Some(KeyValueData::Float(t)) => {
            assert_eq!(t, "2.5");
            assert_eq!(t.parse::<f32>().unwrap(), 2.5f32);
        },
        _ => panic!("expected a float value"),
    }
    assert_eq!(kv.get_str("name"), Some("keypad one"));
    assert_eq!(kv.get_str("vid"), None);
    assert!(kv.get("missing").is_none());
}

#[test]
fn store_last_write_wins() {
    let mut kv = KeyValueStore::new();
    assert!(kv.add("k", "1").is_ok());
    assert!(kv.add("k", "2").is_ok());
    match kv.get("k") {
        Some(KeyValueData::Int(v)) => assert_eq!(v, 2),
        _ => panic!("expected an integer"),
    }
}

#[test]
fn store_rejects_bad_values() {
    let mut kv = KeyValueStore::new();
    assert_eq!(kv.add("h", "0xzz"), Err(ValueParseError::BadHex));
    assert_eq!(kv.add("f", "1.2.3"), Err(ValueParseError::BadFloat));
    assert_eq!(kv.add("i", "abc"), Err(ValueParseError::BadInt));
    assert!(kv.get("h").is_none());
    assert!(kv.get("f").is_none());
    assert!(kv.get("i").is_none());
}

#[test]
fn repeated_hex_prefixes_are_stripped() {
    let mut kv = KeyValueStore::new();
    assert!(kv.add("x", "0x0x10").is_ok());
    match kv.get("x") {
        Some(KeyValueData::Int(v)) => assert_eq!(v, 16),
        _ => panic!("expected an integer"),
    }
}

// --- number parsing ---

#[test]
fn integer_parsing_is_exact() {
    assert_eq!(parse_isize_text("42", false), Some(42));
    assert_eq!(parse_isize_text("-42", false), Some(-42));
    assert_eq!(parse_isize_text("+7", false), Some(7));
    assert_eq!(parse_isize_text("", false), None);
    assert_eq!(parse_isize_text("4 2", false), None);
    assert_eq!(parse_isize_text("ff", true), Some(255));
    assert_eq!(parse_isize_text("-FF", true), Some(-255));
    assert_eq!(parse_isize_text("ff", false), None);
    assert_eq!(parse_isize_text("9223372036854775807", false), Some(isize::MAX));
    assert_eq!(parse_isize_text("-9223372036854775808", false), Some(isize::MIN));
    assert_eq!(parse_isize_text("9223372036854775808", false), None);
    assert_eq!(parse_isize_text("99999999999999999999999", false), None);
}

#[test]
fn u16_parsing_is_exact() {
    assert_eq!(parse_u16_text("0"), Some(0));
    assert_eq!(parse_u16_text("65535"), Some(65535));
    assert_eq!(parse_u16_text("65536"), None);
    assert_eq!(parse_u16_text("+82"), Some(82));
    assert_eq!(parse_u16_text("-1"), None);
    assert_eq!(parse_u16_text("000082"), Some(82));
    assert_eq!(parse_u16_text(""), None);
}

#[test]
fn float_texts_are_recognized() {
    assert!(check_float_text("2.0"));
    assert!(check_float_text("-0.5"));
    assert!(check_float_text(".5"));
    assert!(check_float_text("1."));
    assert!(check_float_text("2.5e3"));
    assert!(check_float_text("2.5E-3"));
    assert!(!check_float_text("1.2.3"));
    assert!(!check_float_text("."));
    assert!(!check_float_text("2.5e"));
    assert!(!check_float_text("a.b"));
}

// --- text utilities ---

#[test]
fn trimming_and_matching_text() {
    assert_eq!(trim_str("  a b\t"), "a b");
    assert_eq!(trim_str(""), "");
    assert_eq!(trim_str(" \t "), "");
    assert!(str_eq("abc", "abc"));
    assert!(!str_eq("abc", "abd"));
    assert!(text_contains("Logitech USB Keyboard", "USB"));
    assert!(!text_contains("Logitech", "USB"));
    assert!(text_contains("anything", ""));
}

#[test]
fn quote_stripping() {
    assert_eq!(strip_quotes_if_any("\"a b\""), "a b");
    assert_eq!(strip_quotes_if_any("a b"), "a b");
    assert_eq!(strip_quotes_if_any("\"a b"), "\"a b");
    assert_eq!(strip_quotes_if_any("a b\""), "a b\"");
    assert_eq!(strip_quotes_if_any("\"\""), "");
    assert_eq!(strip_quotes_if_any("\""), "\"");
}

// --- the configuration grammar ---

#[test]
fn comments_and_blanks_are_skipped() {
    assert!(matches!(parse_config_line(""), ConfigLine::Skip));
    assert!(matches!(parse_config_line("   \t"), ConfigLine::Skip));
    assert!(matches!(parse_config_line("# a comment"), ConfigLine::Skip));
    assert!(matches!(parse_config_line("; a comment"), ConfigLine::Skip));
    assert!(matches!(parse_config_line("// a comment"), ConfigLine::Skip));
}

#[test]
fn sequence_lines_are_parsed() {
    match parse_config_line("82, 79 => \"echo hi\"") {
        ConfigLine::Sequence(tokens, rhs) => {
            assert_eq!(tokens, vec!["82".to_string(), "79".to_string()]);
            assert_eq!(rhs, "\"echo hi\"");
        },
        _ => panic!("expected a sequence line"),
    }
    match parse_config_line("KEY_KP0 -> \"cmd\"") {
        ConfigLine::Sequence(tokens, rhs) => {
            assert_eq!(tokens, vec!["KEY_KP0".to_string()]);
            assert_eq!(rhs, "\"cmd\"");
        },
        _ => panic!("expected a sequence line"),
    }
    match parse_config_line("1 => Quit") {
        ConfigLine::Sequence(tokens, rhs) => {
            assert_eq!(tokens, vec!["1".to_string()]);
            assert_eq!(rhs, "Quit");
        },
        _ => panic!("expected a sequence line"),
    }
}

#[test]
fn assignment_lines_are_parsed() {
    match parse_config_line("delay = 2.5") {
        ConfigLine::Assignment(k, v) => {
            assert_eq!(k, "delay");
            assert_eq!(v, "2.5");
        },
        _ => panic!("expected an assignment"),
    }
    match parse_config_line("quit_command=\"stop\"") {
        ConfigLine::Assignment(k, v) => {
            assert_eq!(k, "quit_command");
            assert_eq!(v, "\"stop\"");
        },
        _ => panic!("expected an assignment"),
    }
}

#[test]
fn unrecognized_lines_are_reported() {
    assert!(matches!(parse_config_line("1, 2 =>"), ConfigLine::Unrecognized));
    assert!(matches!(parse_config_line("= value"), ConfigLine::Unrecognized));
    assert!(matches!(parse_config_line("just words"), ConfigLine::Unrecognized));
    // An unquoted, non-Quit command does not form a sequence line.
    assert!(matches!(parse_config_line("1 => bare"), ConfigLine::Unrecognized));
}

#[test]
fn key_tokens_resolve_by_name_or_number() {
    assert_eq!(resolve_key_token("KEY_KP1"), Some(79));
    assert_eq!(resolve_key_token("82"), Some(82));
    assert_eq!(resolve_key_token("bogus"), None);
    assert_eq!(resolve_key_token("70000"), None);
}

#[test]
fn applying_config_lines_builds_tree_and_store() {
    let mut tree = KTree::new();
    let mut store = KeyValueStore::new();
    assert!(matches!(
        apply_config_line("# keypad setup", &mut tree, &mut store),
        LineOutcome::Ignored
    ));
    match apply_config_line("82, 79 => \"echo hi\"", &mut tree, &mut store) {
        LineOutcome::AddedSequence(codes, bad) => {
            assert_eq!(codes, vec![82, 79]);
            assert!(bad.is_empty());
        },
        _ => panic!("expected a sequence registration"),
    }
    match apply_config_line("KEY_KP0 => \"zero\"", &mut tree, &mut store) {
        LineOutcome::AddedSequence(codes, bad) => {
            assert_eq!(codes, vec![82]);
            assert!(bad.is_empty());
        },
        _ => panic!("expected a sequence registration"),
    }
    match apply_config_line("nope, 5 => \"x\"", &mut tree, &mut store) {
        LineOutcome::AddedSequence(codes, bad) => {
            assert_eq!(codes, vec![0, 5]);
            assert_eq!(bad, vec!["nope".to_string()]);
        },
        _ => panic!("expected a sequence registration with a bad token"),
    }
    assert!(matches!(
        apply_config_line("delay = 1.5", &mut tree, &mut store),
        LineOutcome::StoredValue
    ));
    assert!(matches!(
        apply_config_line("delay = 1.5.9", &mut tree, &mut store),
        LineOutcome::BadValue(ValueParseError::BadFloat)
    ));
    assert!(matches!(
        apply_config_line("???", &mut tree, &mut store),
        LineOutcome::Unparsed
    ));
    match tree.find(&seq_of(&[82, 79])) {
        FindOutcome::Found(c) => assert_eq!(c, "echo hi"),
        _ => panic!("expected the registered command"),
    }
    match tree.find(&seq_of(&[82])) {
        FindOutcome::Found(c) => assert_eq!(c, "zero"),
        _ => panic!("expected the registered command"),
    }
    match store.get("delay") {
        Some(KeyValueData::Float(t)) => assert_eq!(t, "1.5"),
        _ => panic!("expected the stored delay"),
    }
}

#[test]
fn config_and_matcher_end_to_end() {
    let mut tree = KTree::new();
    let mut store = KeyValueStore::new();
    apply_config_line("1 => \"lock\"", &mut tree, &mut store);
    apply_config_line("2, 3 => \"screenshot\"", &mut tree, &mut store);
    apply_config_line("4 => Quit", &mut tree, &mut store);
    apply_config_line("quit_command = \"Quit\"", &mut tree, &mut store);
    let quit = store.get_str("quit_command").map(|s| s.to_string());
    assert_eq!(quit.as_deref(), Some("Quit"));
    let mut m = SequenceMatcher::new(tree, 2000, quit);
    match m.on_key(1, 0) {
        MatchOutcome::Dispatch(c) => assert_eq!(c, "lock"),
        _ => panic!("expected lock"),
    }
    assert!(matches!(m.on_key(2, 10), MatchOutcome::Pending));
    match m.on_key(3, 20) {
        MatchOutcome::Dispatch(c) => assert_eq!(c, "screenshot"),
        _ => panic!("expected screenshot"),
    }
    assert!(matches!(m.on_key(4, 30), MatchOutcome::Quit));
}

// --- device selection ---

fn dev(name: &str, vid: u16, pid: u16) -> XinputEntry {
    XinputEntry {
        name: name.to_string(),
        id: 7,
        keyboard: true,
        pointer: false,
        slave: true,
        master: false,
        floating: false,
        device: "/dev/input/event5".to_string(),
        usb_vid: vid,
        usb_pid: pid,
    }
}

#[test]
fn device_selection_filters_and_requires_one() {
    let devs = vec![
        dev("Logitech USB Keyboard", 0x046d, 0xc31c),
        dev("Mouse", 0x1bcf, 0x0005),
    ];
    let f = DeviceFilter::Contains("Keyboard".to_string());
    let r = select_device(devs, None, None, &f);
    assert_eq!(r.unwrap().usb_vid, 0x046d);

    let devs = vec![
        dev("Logitech USB Keyboard", 0x046d, 0xc31c),
        dev("Mouse", 0x1bcf, 0x0005),
    ];
    let r = select_device(devs, Some(0x9999), None, &DeviceFilter::Always);
    assert!(matches!(r, Err(DeviceSelectError::NoMatches)));

    let devs = vec![
        dev("Keypad A", 0x046d, 1),
        dev("Keypad B", 0x046d, 2),
    ];
    let r = select_device(devs, Some(0x046d), None, &DeviceFilter::Always);
    assert!(matches!(r, Err(DeviceSelectError::TooMany(2))));

    let devs = vec![
        dev("Keypad A", 0x046d, 1),
        dev("Keypad B", 0x046d, 2),
    ];
    let r = select_device(devs, Some(0x046d), Some(2), &DeviceFilter::Always);
    assert_eq!(r.unwrap().name, "Keypad B");

    let devs = vec![
        dev("Keypad A", 0x046d, 1),
        dev("Keypad B", 0x046d, 2),
    ];
    let f = DeviceFilter::Both(
        Box::new(DeviceFilter::Contains("Keypad".to_string())),
        Box::new(DeviceFilter::Excludes("B".to_string())),
    );
    let r = select_device(devs, None, None, &f);
    assert_eq!(r.unwrap().name, "Keypad A");
}

// --- command splitting ---

#[test]
fn commands_split_into_program_and_arguments() {
    match command_parts("echo hi there") {
        Some((prog, args)) => {
            assert_eq!(prog, "echo");
            assert_eq!(args, vec!["hi".to_string(), "there".to_string()]);
        },
        None => panic!("expected a split"),
    }
    match command_parts("notify-send 'a b'") {
        Some((prog, args)) => {
            assert_eq!(prog, "notify-send");
            assert_eq!(args, vec!["a b".to_string()]);
        },
        None => panic!("expected a split"),
    }
    assert!(command_parts("").is_none());
    assert!(command_parts("   ").is_none());
    // An unclosed quote is erroneous input.
    assert!(command_parts("echo \"unclosed").is_none());
    assert!(split_program(Vec::new()).is_none());
}
