use duckdns_updater::config::AppConfig;
use duckdns_updater::history::{csv_escape, HistoryEntry, UpdateHistory, MAX_ENTRIES};

fn entry(i: usize) -> HistoryEntry {
    HistoryEntry {
        timestamp: format!("t{}", i),
        domains: "a".to_string(),
        old_ipv4: None,
        new_ipv4: Some(format!("10.0.0.{}", i % 250)),
        old_ipv6: None,
        new_ipv6: None,
        success: true,
        message: "ok".to_string(),
    }
}

#[test]
fn history_keeps_the_latest_hundred() {
    let mut h = UpdateHistory::default();
    for i in 0..105 {
        h.add_entry(entry(i));
        assert!(h.entries.len() <= MAX_ENTRIES);
    }
    assert_eq!(h.entries.len(), 100);
    assert_eq!(h.entries[0].timestamp, "t5");
    assert_eq!(h.entries[99].timestamp, "t104");
}

#[test]
fn history_keeps_everything_while_there_is_room() {
    let mut h = UpdateHistory::default();
    h.add_entry(entry(1));
    h.add_entry(entry(2));
    assert_eq!(h.entries.len(), 2);
    assert_eq!(h.entries[1].timestamp, "t2");
}

#[test]
fn csv_fields_are_quoted_when_needed() {
    assert_eq!(csv_escape("plain"), "plain");
    assert_eq!(csv_escape(""), "");
    assert_eq!(csv_escape("a,b"), "\"a,b\"");
    assert_eq!(csv_escape("diz \"oi\""), "\"diz \"\"oi\"\"\"");
    assert_eq!(csv_escape("linha\nnova"), "\"linha\nnova\"");
}

#[test]
fn csv_export_layout() {
    let mut h = UpdateHistory::default();
    assert_eq!(
        h.export_csv(),
        "Data/Hora,Domínios,IPv4 Anterior,IPv4 Novo,IPv6 Anterior,IPv6 Novo,Status,Mensagem\n"
    );
    h.add_entry(HistoryEntry {
        timestamp: "2024-05-01 12:00:00".to_string(),
        domains: "a,b".to_string(),
        old_ipv4: Some("1.1.1.1".to_string()),
        new_ipv4: Some("2.2.2.2".to_string()),
        old_ipv6: None,
        new_ipv6: Some("::1".to_string()),
        success: false,
        message: "Falha: \"x\"".to_string(),
    });
    assert_eq!(
        h.export_csv(),
        "Data/Hora,Domínios,IPv4 Anterior,IPv4 Novo,IPv6 Anterior,IPv6 Novo,Status,Mensagem\n\
         2024-05-01 12:00:00,\"a,b\",1.1.1.1,2.2.2.2,,::1,FALHA,\"Falha: \"\"x\"\"\"\n"
    );
}

#[test]
fn recent_lists_newest_first() {
    let mut h = UpdateHistory::default();
    for i in 0..25 {
        h.add_entry(entry(i));
    }
    let r = h.recent(20);
    assert_eq!(r.len(), 20);
    assert_eq!(r[0], 24);
    assert_eq!(r[19], 5);
    assert_eq!(h.recent(100).len(), 25);
    assert!(UpdateHistory::default().recent(20).is_empty());
}

#[test]
fn history_files_live_in_the_config_directory() {
    assert_eq!(UpdateHistory::get_path("cfg", '/'), "cfg/update_history.json");
    assert_eq!(UpdateHistory::get_path("cfg", '\\'), "cfg\\update_history.json");
    assert_eq!(
        UpdateHistory::csv_export_path("/home/u/cfg/", '/'),
        "/home/u/cfg/duckdns_history_export.csv"
    );
    assert_eq!(
        UpdateHistory::csv_export_path("C:\\cfg", '\\'),
        "C:\\cfg\\duckdns_history_export.csv"
    );
}

#[test]
fn entries_built_from_settings() {
    let mut c = AppConfig::default();
    c.domains = vec!["a".to_string(), "b".to_string()];
    c.last_ipv4 = Some("1.2.3.4".to_string());
    c.last_ipv6 = None;
    let e = HistoryEntry::for_manual_update(&c, "ts".to_string(), false, "Falha: x");
    assert_eq!(e.domains, "a,b");
    assert_eq!(e.old_ipv4.as_deref(), Some("1.2.3.4"));
    assert_eq!(e.new_ipv4.as_deref(), Some("1.2.3.4"));
    assert!(!e.success);
    assert_eq!(e.message, "Falha: x");

    c.last_update = Some("2024-01-01 00:00:00".to_string());
    let b = HistoryEntry::for_background_update(Some("9.9.9.9".to_string()), None, &c, "Atualizado!");
    assert_eq!(b.timestamp, "2024-01-01 00:00:00");
    assert_eq!(b.old_ipv4.as_deref(), Some("9.9.9.9"));
    assert_eq!(b.new_ipv4.as_deref(), Some("1.2.3.4"));
    assert!(b.success);
    c.last_update = None;
    let b2 = HistoryEntry::for_background_update(None, None, &c, "m");
    assert_eq!(b2.timestamp, "");
}

fn read_field(f: &str) -> String {
    if f.len() >= 2 && f.starts_with('"') && f.ends_with('"') {
        f[1..f.len() - 1].replace("\"\"", "\"")
    } else {
        f.to_string()
    }
}

#[test]
fn csv_fields_read_back() {
    for s in ["", "x", "\"", "a,b", "\"\"", "um \"dois\", três\nquatro"].iter() {
        assert_eq!(read_field(&csv_escape(s)), *s);
    }
}

#[test]
fn loaded_history_keeps_the_latest_hundred() {
    let h = UpdateHistory::from_entries((0..130).map(entry).collect());
    assert_eq!(h.entries.len(), MAX_ENTRIES);
    assert_eq!(h.entries[0].timestamp, "t30");
    assert_eq!(h.entries[99].timestamp, "t129");
    let small = UpdateHistory::from_entries((0..3).map(entry).collect());
    assert_eq!(small.entries.len(), 3);
}

fn read_records(text: &str) -> Vec<Vec<String>> {
    let chars: Vec<char> = text.chars().collect();
    let mut records = Vec::new();
    let mut i = 0;
    while i < chars.len() {
        let mut record = Vec::new();
        loop {
            let mut field = String::new();
            if i < chars.len() && chars[i] == '"' {
                i += 1;
                while i < chars.len() {
                    if chars[i] == '"' {
                        if i + 1 < chars.len() && chars[i + 1] == '"' {
                            field.push('"');
                            i += 2;
                        } else {
                            i += 1;
                            break;
                        }
                    } else {
                        field.push(chars[i]);
                        i += 1;
                    }
                }
            } else {
                while i < chars.len() && chars[i] != ',' && chars[i] != '\n' {
                    field.push(chars[i]);
                    i += 1;
                }
            }
            record.push(field);
            if i < chars.len() && chars[i] == ',' {
                i += 1;
            } else {
                if i < chars.len() && chars[i] == '\n' {
                    i += 1;
                }
                break;
            }
        }
        records.push(record);
    }
    records
}

#[test]
fn csv_export_reads_back_as_records() {
    let mut h = UpdateHistory::default();
    h.add_entry(HistoryEntry {
        timestamp: "2024-05-01 12:00:00".to_string(),
        domains: "a,b".to_string(),
        old_ipv4: Some("1.1.1.1".to_string()),
        new_ipv4: None,
        old_ipv6: None,
        new_ipv6: Some("::1".to_string()),
        success: false,
        message: "linha \"um\"\nlinha dois".to_string(),
    });
    h.add_entry(entry(7));
    let csv = h.export_csv();
    assert!(csv.ends_with('\n'));
    let records = read_records(&csv);
    assert_eq!(records.len(), 3);
    assert_eq!(
        records[0],
        vec!["Data/Hora", "Domínios", "IPv4 Anterior", "IPv4 Novo", "IPv6 Anterior", "IPv6 Novo", "Status", "Mensagem"]
    );
    assert_eq!(
        records[1],
        vec!["2024-05-01 12:00:00", "a,b", "1.1.1.1", "", "", "::1", "FALHA", "linha \"um\"\nlinha dois"]
    );
    assert_eq!(records[2], vec!["t7", "a", "", "10.0.0.7", "", "", "OK", "ok"]);
}
