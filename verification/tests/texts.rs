use llama_nexus::table::Table;
use llama_nexus::text::{
    contains, cut_before, ends_with, equal, split_on, starts_with, strip_prefix, trim_end,
};

#[test]
fn parts_of_a_text() {
    assert!(equal("é", "é"));
    assert!(!equal("e", "é"));
    assert!(starts_with("sqlite:x", "sqlite:"));
    assert!(!starts_with("sq", "sqlite:"));
    assert!(starts_with("abc", ""));
    assert!(ends_with("http://a/sse", "/sse"));
    assert!(!ends_with("sse", "/sse"));
    assert!(contains("a?mode=ro", "mode="));
    assert!(contains("abc", ""));
    assert!(!contains("mode", "mode="));
    assert_eq!(strip_prefix("User: hi", "User: "), Some("hi".to_string()));
    assert_eq!(strip_prefix("hi", "User: "), None);
}

#[test]
fn slashes_come_off_the_end() {
    assert_eq!(trim_end("http://a//", '/'), "http://a");
    assert_eq!(trim_end("///", '/'), "");
    assert_eq!(trim_end("a/b", '/'), "a/b");
    assert_eq!(trim_end("", '/'), "");
}

#[test]
fn a_text_is_cut_and_split() {
    assert_eq!(cut_before("chat-tts-server-1-server-2", "-server-"), "chat-tts");
    assert_eq!(cut_before("chat", "-server-"), "chat");
    assert_eq!(split_on("chat-tts", '-'), vec!["chat", "tts"]);
    assert_eq!(split_on("", '-'), vec![""]);
    assert_eq!(split_on("-a-", '-'), vec!["", "a", ""]);
}

#[test]
fn a_table_remembers_the_order_of_its_keys() {
    let mut table: Table<u32> = Table::new();
    table.insert("b".to_string(), 1);
    table.insert("a".to_string(), 2);
    table.insert("b".to_string(), 3);
    assert_eq!(table.len(), 2);
    assert_eq!(*table.value_at(0), 3);
    assert_eq!(table.get("a"), Some(&2));
    assert_eq!(table.get("c"), None);
    table.remove("b");
    table.remove("c");
    assert_eq!(table.len(), 1);
    assert_eq!(table.get("b"), None);
    assert_eq!(*table.value_at(0), 2);
}
