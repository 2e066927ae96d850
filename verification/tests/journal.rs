//! The journal: lists, deletes, harvests, splits and rewrites.

use samurai::harvest::{HarvestCommit, HarvestError};
use samurai::journal::{
    appended_line, default_journal_file, entry_status, is_unconsumed, journal_lines, line_of, lines_text,
    parse_line, read_journal, read_leniently, read_strictly, HarvestMarker,
    JournalCategory, JournalEntry, JournalEntryStatus, JournalEntryWithStatus, JournalListResult,
    JournalLine, JournalStore, MarkerKind, ARCHIVE_FILE, JOURNAL_FILE,
};
use samurai::parts::{chunk_plan, digit_count, split_into_parts, PlannedLine};
use samurai::rewrite::{
    carry_into, compare_bytes, AttemptStep, Attempts, Carry, Rewrite, RewriteStep,
    MAX_RENAME_RETRIES,
};

// --- a journal directory in memory ---

fn quoted(text: &str) -> String {
    serde_json::to_string(text).unwrap()
}

fn entry_json(e: &JournalEntry) -> String {
    let mut out = format!(
        "{{\"ts\":{},\"category\":\"{}\",\"text\":{}",
        quoted(&e.ts),
        e.category.wire_name(),
        quoted(&e.text)
    );
    if let Some(p) = &e.project {
        out.push_str(&format!(",\"project\":{}", quoted(p)));
    }
    if let Some(a) = &e.agent {
        out.push_str(&format!(",\"agent\":{}", quoted(a)));
    }
    out.push('}');
    out
}

fn marker_json(m: &HarvestMarker) -> String {
    format!(
        "{{\"ts\":{},\"kind\":\"{}\",\"report\":{}}}",
        quoted(&m.ts),
        m.kind.wire_name(),
        quoted(&m.report)
    )
}

fn text_of(value: &serde_json::Value, key: &str) -> Option<String> {
    value.get(key).and_then(|v| v.as_str()).map(str::to_string)
}

fn read_line(raw: String) -> JournalLine {
    let value: serde_json::Value = serde_json::from_str(&raw).unwrap_or(serde_json::Value::Null);
    let ts = text_of(&value, "ts");
    let marker = match (ts.clone(), text_of(&value, "kind"), text_of(&value, "report")) {
        (Some(ts), Some(kind), Some(report)) if kind == "HARVEST" => {
            let m = HarvestMarker {
                ts,
                kind: MarkerKind::Harvest,
                report,
            };
            let again = marker_json(&m);
            Some((m, again))
        }
        _ => None,
    };
    let category = text_of(&value, "category").and_then(|c| JournalCategory::from_wire(c.as_str()));
    let entry = match (ts, category, text_of(&value, "text")) {
        (Some(ts), Some(category), Some(text)) => Some(JournalEntry {
            ts,
            category,
            text,
            project: text_of(&value, "project"),
            agent: text_of(&value, "agent"),
        }),
        _ => None,
    };
    parse_line(raw, marker, entry)
}

fn read_store(content: &str) -> JournalStore {
    let read = read_journal(content);
    JournalStore::new(read.lines.into_iter().map(read_line).collect(), read.open_end)
}

#[derive(Default)]
struct Disk {
    journal: String,
    archive: String,
}

impl Disk {
    fn append_entry(&mut self, e: JournalEntry) {
        let open_end = read_journal(&self.journal).open_end;
        self.journal.push_str(&appended_line(&entry_json(&e.normalized()), open_end));
    }

    fn list(&self) -> JournalListResult {
        read_store(&self.journal).list(self.journal.len() as u64)
    }

    fn entries(&self) -> Vec<JournalEntryWithStatus> {
        self.list().entries
    }

    fn statuses(&self) -> Vec<(String, JournalEntryStatus)> {
        self.entries()
            .into_iter()
            .map(|e| (e.entry.text, e.status))
            .collect()
    }

    fn unconsumed(&self) -> Vec<JournalEntry> {
        read_store(&self.journal).unconsumed()
    }

    fn rendered(&self, n: usize) -> Vec<String> {
        read_store(&self.journal)
            .unconsumed_with_raw()
            .into_iter()
            .take(n)
            .map(|e| e.raw)
            .collect()
    }

    fn commit(&mut self, date: &str, rendered: &[String]) -> Result<(), HarvestError> {
        let marker = marker_json(&HarvestMarker::now(date.to_string()));
        let store = read_store(&self.journal);
        match store.commit_harvest(date, rendered, &marker)? {
            HarvestCommit::Append { line } => self.journal.push_str(&line),
            HarvestCommit::Rewrite { archived, kept } => {
                self.archive.push_str(&archived);
                self.journal = kept;
            }
        }
        Ok(())
    }

    fn delete(&mut self, raw: &str) -> usize {
        let mut store = read_store(&self.journal);
        let removed = store.delete_entry(raw);
        if removed > 0 {
            self.journal = store.text();
        }
        removed
    }

    fn split(&mut self, budget: usize) -> usize {
        let (split, plan) = read_store(&self.journal).split_oversized_unconsumed(budget);
        if split > 0 {
            self.journal = planned_text(plan);
        }
        split
    }

    fn markers(&self) -> Vec<String> {
        self.journal
            .lines()
            .filter(|l| l.contains("\"kind\":\"HARVEST\""))
            .map(str::to_string)
            .collect()
    }
}

fn planned_text(plan: Vec<PlannedLine>) -> String {
    let mut out = String::new();
    for line in plan {
        match line {
            PlannedLine::Carried { raw } => out.push_str(&raw),
            PlannedLine::Part { entry } => out.push_str(&entry_json(&entry)),
        }
        out.push('\n');
    }
    out
}

fn entry(category: JournalCategory, text: &str) -> JournalEntry {
    JournalEntry::now(category, text.to_string(), None, None)
}

// --- entries and markers ---

#[test]
fn test_entry_and_marker_wire_shape() {
    let full = JournalEntry::now(
        JournalCategory::Bottleneck,
        "CI queue is slow".to_string(),
        Some(r"\\?\C:\git\maestro".to_string()),
        Some("orchestrator-gen1".to_string()),
    );
    assert_eq!(full.category.wire_name(), "BOTTLENECK");
    assert_eq!(full.project.as_deref(), Some(r"C:\git\maestro"));
    assert_eq!(full.agent.as_deref(), Some("orchestrator-gen1"));
    assert_eq!(full.text, "CI queue is slow");
    assert!(chrono::DateTime::parse_from_rfc3339(&full.ts).is_ok());

    let minimal = entry(JournalCategory::Skill, "x");
    assert!(minimal.project.is_none());
    assert!(minimal.agent.is_none());

    let marker = HarvestMarker::now("2026-08-07".to_string());
    assert_eq!(marker.kind.wire_name(), "HARVEST");
    assert_eq!(marker.report, "2026-08-07");
    assert!(chrono::DateTime::parse_from_rfc3339(&marker.ts).is_ok());

    for (category, wire) in [
        (JournalCategory::Bottleneck, "BOTTLENECK"),
        (JournalCategory::Error, "ERROR"),
        (JournalCategory::Improvement, "IMPROVEMENT"),
        (JournalCategory::Skill, "SKILL"),
        (JournalCategory::Concern, "CONCERN"),
    ] {
        assert_eq!(category.wire_name(), wire);
        assert_eq!(JournalCategory::from_wire(wire), Some(category));
    }
    assert_eq!(JournalCategory::from_wire("error"), None);
}

#[test]
fn test_entry_at_a_moment_is_stamped_with_it() {
    let at = samurai::clock::Moment {
        secs: 1_786_104_000,
        nanos: 500_000_000,
    };
    let e = JournalEntry::at(
        at,
        JournalCategory::Error,
        "x".to_string(),
        Some(r"\\?\UNC\server\share\x".to_string()),
        None,
    );
    let expected = chrono::DateTime::from_timestamp(1_786_104_000, 500_000_000)
        .unwrap()
        .to_rfc3339();
    assert_eq!(e.ts, expected);
    assert_eq!(e.project.as_deref(), Some(r"\\server\share\x"));
    let m = HarvestMarker::at(at, "2026-08-07".to_string());
    assert_eq!(m.ts, expected);
}

#[test]
fn test_read_repairs_the_pre_161_relative_unc_spelling() {
    let line = r#"{"ts":"2026-08-19T10:00:00Z","category":"ERROR","text":"x","project":"UNC\\server\\share\\maestro"}"#;
    let disk = Disk {
        journal: format!("{line}\n"),
        ..Disk::default()
    };
    let listed = disk.list();
    assert_eq!(listed.entries.len(), 1);
    assert_eq!(
        listed.entries[0].entry.project.as_deref(),
        Some(r"\\server\share\maestro")
    );
    assert_eq!(listed.entries[0].raw, line);
}

// --- lists ---

#[test]
fn test_zero_markers_all_unconsumed_and_list_shape() {
    let mut s = Disk::default();
    s.append_entry(entry(JournalCategory::Error, "one"));
    s.append_entry(entry(JournalCategory::Concern, "two"));

    let result = s.list();
    assert_eq!(result.entries.len(), 2);
    assert!(result
        .entries
        .iter()
        .all(|e| e.status == JournalEntryStatus::Unconsumed));
    assert_eq!(result.entries[1].entry.text, "two");
    assert!(result.file_size_bytes > 0, "file size must be reported");
    assert_eq!(s.unconsumed().len(), 2);
}

#[test]
fn test_missing_file_lists_empty() {
    let s = Disk::default();
    let result = s.list();
    assert!(result.entries.is_empty());
    assert_eq!(result.file_size_bytes, 0);
    assert_eq!(result.opaque_line_count, 0);
    assert!(s.unconsumed().is_empty());
}

#[test]
fn test_lifecycle_two_harvests() {
    let mut s = Disk::default();
    s.append_entry(entry(JournalCategory::Bottleneck, "first"));
    s.append_entry(entry(JournalCategory::Error, "second"));
    let snapshot = s.rendered(2);
    s.commit("2026-08-07", &snapshot).unwrap();

    let after_first = s.list();
    assert_eq!(after_first.entries.len(), 2);
    assert!(after_first
        .entries
        .iter()
        .all(|e| e.status == JournalEntryStatus::Consumed));
    assert!(s.unconsumed().is_empty());
    assert!(s.archive.is_empty());

    s.append_entry(entry(JournalCategory::Improvement, "third"));
    assert_eq!(s.unconsumed().len(), 1);
    let snapshot = s.rendered(1);
    s.commit("2026-08-08", &snapshot).unwrap();

    let archived: Vec<String> = read_store(&s.archive)
        .list(0)
        .entries
        .into_iter()
        .map(|e| e.entry.text)
        .collect();
    assert_eq!(archived.len(), 2);
    assert_eq!(archived[0], "first");
    assert_eq!(archived[1], "second");

    let after_second = s.list();
    assert_eq!(after_second.entries.len(), 1);
    assert_eq!(after_second.entries[0].entry.text, "third");
    assert_eq!(after_second.entries[0].status, JournalEntryStatus::Consumed);
    assert_eq!(s.markers().len(), 2);
}

#[test]
fn test_lenient_read_skips_bad_lines() {
    let good1 = entry_json(&entry(JournalCategory::Skill, "valid one"));
    let good2 = entry_json(&entry(JournalCategory::Concern, "valid two"));
    let s = Disk {
        journal: format!("{good1}\n{{ not json\n{{\"foo\": 1}}\n{good2}\n"),
        ..Disk::default()
    };
    let result = s.list();
    assert_eq!(result.entries.len(), 2);
    assert_eq!(result.entries[0].entry.text, "valid one");
    assert_eq!(result.entries[1].entry.text, "valid two");
    assert_eq!(result.opaque_line_count, 2);
}

#[test]
fn test_blank_lines_and_carriage_returns_are_not_lines_of_their_own() {
    let lines = journal_lines("a\r\n\n   \nb\n\t\nc");
    assert_eq!(lines, vec!["a", "b", "c"]);
    assert!(journal_lines("").is_empty());
}

#[test]
fn test_a_line_with_an_unknown_kind_is_opaque() {
    let s = Disk {
        journal: "{\"kind\":\"OTHER\",\"ts\":\"t\",\"report\":\"r\"}\n".to_string(),
        ..Disk::default()
    };
    assert_eq!(s.list().opaque_line_count, 1);
    assert!(s.list().entries.is_empty());
}

#[test]
fn test_status_derivation_full_ladder() {
    let lines = [
        entry_json(&entry(JournalCategory::Error, "e1")),
        marker_json(&HarvestMarker::now("2026-08-06".to_string())),
        entry_json(&entry(JournalCategory::Error, "e2")),
        marker_json(&HarvestMarker::now("2026-08-07".to_string())),
        entry_json(&entry(JournalCategory::Error, "e3")),
    ];
    let s = Disk {
        journal: lines.join("\n") + "\n",
        ..Disk::default()
    };
    assert_eq!(
        s.statuses(),
        vec![
            ("e1".to_string(), JournalEntryStatus::Archived),
            ("e2".to_string(), JournalEntryStatus::Consumed),
            ("e3".to_string(), JournalEntryStatus::Unconsumed),
        ]
    );
    assert_eq!(s.unconsumed().len(), 1);
}

#[test]
fn test_entry_status_by_marker_positions() {
    assert_eq!(entry_status(0, None, None), JournalEntryStatus::Unconsumed);
    assert_eq!(
        entry_status(5, Some(4), Some(1)),
        JournalEntryStatus::Unconsumed
    );
    assert_eq!(entry_status(2, Some(4), Some(1)), JournalEntryStatus::Consumed);
    assert_eq!(entry_status(0, Some(4), Some(1)), JournalEntryStatus::Archived);
    assert_eq!(entry_status(0, Some(4), None), JournalEntryStatus::Consumed);
    assert!(is_unconsumed(0, None));
    assert!(is_unconsumed(5, Some(4)));
    assert!(!is_unconsumed(3, Some(4)));
}

// --- harvests ---

#[test]
fn test_commit_harvest_preserves_unparseable_lines() {
    let mut s = Disk::default();
    s.append_entry(entry(JournalCategory::Bottleneck, "first"));
    s.journal.push_str("{ garbage not json\n");

    let snapshot = s.rendered(1);
    s.commit("2026-08-07", &snapshot).unwrap();
    s.append_entry(entry(JournalCategory::Error, "second"));
    let snapshot = s.rendered(1);
    s.commit("2026-08-08", &snapshot).unwrap();

    assert!(s.journal.contains("{ garbage not json"));
    assert!(!s.journal.contains("first"), "entry must have been archived");
    assert!(s.archive.contains("first"));
    assert!(!s.archive.contains("garbage"));
}

#[test]
fn test_commit_harvest_rejects_bad_report_date() {
    let mut s = Disk::default();
    assert_eq!(
        s.commit("08/07/2026", &[]),
        Err(HarvestError::InvalidReportDate)
    );
    assert_eq!(
        s.commit("not-a-date", &[]),
        Err(HarvestError::InvalidReportDate)
    );
    assert_eq!(
        s.commit("2026-02-30", &[]),
        Err(HarvestError::InvalidReportDate)
    );
    assert!(s.journal.is_empty());
}

#[test]
fn test_commit_harvest_snapshot_boundary_keeps_midrun_entries_unconsumed() {
    let mut s = Disk::default();
    s.append_entry(entry(JournalCategory::Bottleneck, "snapshotted one"));
    s.append_entry(entry(JournalCategory::Error, "snapshotted two"));
    let snapshot = s.rendered(2);
    s.append_entry(entry(JournalCategory::Concern, "mid-run"));

    s.commit("2026-08-07", &snapshot).unwrap();

    assert_eq!(
        s.statuses(),
        vec![
            ("snapshotted one".to_string(), JournalEntryStatus::Consumed),
            ("snapshotted two".to_string(), JournalEntryStatus::Consumed),
            ("mid-run".to_string(), JournalEntryStatus::Unconsumed),
        ]
    );
    assert_eq!(s.unconsumed().len(), 1);
    assert!(s.archive.is_empty());
}

#[test]
fn test_commit_harvest_archives_markers_older_than_the_previous() {
    let mut s = Disk::default();
    for (text, date) in [
        ("one", "2026-08-06"),
        ("two", "2026-08-07"),
        ("three", "2026-08-08"),
    ] {
        s.append_entry(entry(JournalCategory::Error, text));
        let snapshot = s.rendered(1);
        s.commit(date, &snapshot).unwrap();
    }

    let markers = s.markers();
    assert_eq!(markers.len(), 2, "at most two markers: {}", s.journal);
    assert!(markers[0].contains("\"report\":\"2026-08-07\""));
    assert!(markers[1].contains("\"report\":\"2026-08-08\""));
    assert!(s.journal.contains("three"), "consumed entry stays active");
    assert!(s.archive.contains("one"));
    assert!(s.archive.contains("two"));
    assert!(s.archive.contains("\"report\":\"2026-08-06\""), "{}", s.archive);
    assert!(!s.archive.contains("\"report\":\"2026-08-07\""));
}

#[test]
fn test_a_first_full_harvest_only_appends() {
    let e = entry_json(&entry(JournalCategory::Error, "one"));
    let store = read_store(&format!("{e}\n"));
    match store.commit_harvest("2026-08-07", &vec![e], "MARK").unwrap() {
        HarvestCommit::Append { line } => assert_eq!(line, "MARK\n"),
        other => panic!("nothing moves, so nothing is rewritten: {other:?}"),
    }
}

#[test]
fn test_the_marker_goes_before_the_first_entry_that_was_not_rendered() {
    let a = entry_json(&entry(JournalCategory::Error, "a"));
    let b = entry_json(&entry(JournalCategory::Error, "b"));
    let store = read_store(&format!("junk\n{a}\n{b}\n"));
    match store.place_marker(&vec![a.clone()], "MARK") {
        HarvestCommit::Rewrite { archived, kept } => {
            assert_eq!(archived, "");
            assert_eq!(kept, format!("junk\n{a}\nMARK\n{b}\n"));
        }
        other => panic!("the marker stands in the middle: {other:?}"),
    }
}

#[test]
fn test_default_journal_file_names_the_active_file_without_prefix() {
    for (dir, separator) in [
        (r"\\?\C:\data\journal", '\\'),
        ("/home/x/journal", '/'),
        ("/home/x/journal/", '/'),
    ] {
        let path = default_journal_file(dir, separator);
        assert!(path.ends_with(JOURNAL_FILE), "{path}");
        assert!(!path.starts_with(r"\\?\"), "{path}");
    }
    assert_eq!(
        default_journal_file("/home/x/journal", '/'),
        "/home/x/journal/journal.jsonl"
    );
    assert_eq!(
        default_journal_file(r"\\?\C:\data\journal", '\\'),
        r"C:\data\journal\journal.jsonl"
    );
    assert_eq!(ARCHIVE_FILE, "archive.jsonl");
}

// --- deletes ---

#[test]
fn test_delete_entry_removes_only_the_matching_line() {
    let mut s = Disk::default();
    s.append_entry(entry(JournalCategory::Error, "one"));
    s.append_entry(entry(JournalCategory::Skill, "two"));
    s.append_entry(entry(JournalCategory::Concern, "three"));

    let raw_two = s
        .entries()
        .into_iter()
        .find(|e| e.entry.text == "two")
        .unwrap()
        .raw;
    assert_eq!(s.delete(&raw_two), 1);

    let remaining: Vec<String> = s.entries().into_iter().map(|e| e.entry.text).collect();
    assert_eq!(remaining, vec!["one".to_string(), "three".to_string()]);
}

#[test]
fn test_delete_entry_removes_all_byte_identical_duplicates() {
    let mut s = Disk::default();
    for _ in 0..2 {
        s.append_entry(JournalEntry {
            ts: "2026-08-13T10:00:00+00:00".to_string(),
            category: JournalCategory::Error,
            text: "same text".to_string(),
            project: None,
            agent: None,
        });
    }
    s.append_entry(entry(JournalCategory::Skill, "unique"));

    let listed = s.entries();
    let raw = listed[0].raw.clone();
    assert_eq!(
        listed[1].raw, raw,
        "the two dup entries share identical raw bytes"
    );

    let removed = s.delete(&raw);
    assert_eq!(removed, 2, "byte-identical duplicates are deleted together");

    let remaining = s.entries();
    assert_eq!(remaining.len(), 1);
    assert_eq!(remaining[0].entry.text, "unique");
}

#[test]
fn test_delete_entry_preserves_malformed_lines_verbatim_and_in_order() {
    let mut s = Disk::default();
    s.append_entry(entry(JournalCategory::Error, "keep me"));
    s.journal.push_str("{ garbage not json\n");
    s.append_entry(entry(JournalCategory::Skill, "delete me"));

    let raw = s
        .entries()
        .into_iter()
        .find(|e| e.entry.text == "delete me")
        .unwrap()
        .raw;
    assert_eq!(s.delete(&raw), 1);

    let after = &s.journal;
    assert!(after.contains("{ garbage not json"), "{after}");
    assert!(after.contains("keep me"), "{after}");
    assert!(!after.contains("delete me"), "{after}");
    assert!(after.find("keep me").unwrap() < after.find("{ garbage not json").unwrap());
}

#[test]
fn test_delete_entry_missing_identity_and_missing_file() {
    let mut never_written = Disk::default();
    assert_eq!(never_written.delete("anything"), 0);

    let mut s = Disk::default();
    s.append_entry(entry(JournalCategory::Error, "x"));
    assert_eq!(s.delete("not a real raw line"), 0);
    assert_eq!(s.entries().len(), 1);
}

#[test]
fn test_delete_never_matches_a_marker_or_an_opaque_line() {
    let marker = marker_json(&HarvestMarker::now("2026-08-07".to_string()));
    let mut s = Disk {
        journal: format!("{marker}\njunk\n"),
        ..Disk::default()
    };
    assert_eq!(s.delete(&marker), 0);
    assert_eq!(s.delete("junk"), 0);
}

#[test]
fn test_delete_preserves_other_entries_consumed_and_unconsumed_status() {
    let mut s = Disk::default();
    s.append_entry(entry(JournalCategory::Error, "keep-consumed"));
    s.append_entry(entry(JournalCategory::Error, "delete-consumed"));
    let snapshot = s.rendered(2);
    s.commit("2026-08-07", &snapshot).unwrap();
    s.append_entry(entry(JournalCategory::Error, "keep-unconsumed"));
    s.append_entry(entry(JournalCategory::Error, "delete-unconsumed"));

    let listed = s.entries();
    let raw_of = |text: &str| {
        listed
            .iter()
            .find(|e| e.entry.text == text)
            .unwrap()
            .raw
            .clone()
    };
    let del_consumed = raw_of("delete-consumed");
    let del_unconsumed = raw_of("delete-unconsumed");

    assert_eq!(s.delete(&del_consumed), 1);
    assert_eq!(s.delete(&del_unconsumed), 1);

    assert_eq!(
        s.statuses(),
        vec![
            ("keep-consumed".to_string(), JournalEntryStatus::Consumed),
            ("keep-unconsumed".to_string(), JournalEntryStatus::Unconsumed),
        ]
    );
    assert_eq!(s.markers().len(), 1);
}

// --- rewrites ---

#[test]
fn test_delete_entry_preserves_concurrent_append() {
    let mut s = Disk::default();
    s.append_entry(entry(JournalCategory::Error, "to delete"));
    let raw = s.entries()[0].raw.clone();
    let original = s.journal.clone().into_bytes();

    let mut store = read_store(&s.journal);
    let removed = store.delete_entry(&raw);
    // An agent appends between the read and the write.
    s.append_entry(entry(JournalCategory::Concern, "landed mid-delete"));
    let current = s.journal.clone().into_bytes();
    s.journal = carry_into(store.text(), &original, &current).unwrap();

    assert_eq!(removed, 1);
    let remaining = s.entries();
    assert_eq!(remaining.len(), 1);
    assert_eq!(remaining[0].entry.text, "landed mid-delete");
}

#[test]
fn test_delete_rewrite_carries_append_landing_inside_rename_retry() {
    let mut file: Vec<u8> = b"{\"a\":1}\n{\"b\":2}\n".to_vec();
    let mut rewrite = Rewrite::new("{\"a\":1}\n".to_string(), file.clone());
    let mut failed_once = false;
    loop {
        let step = rewrite.recheck(Some(file.clone()));
        assert_ne!(step, RewriteStep::Stop);
        if !failed_once {
            // The first move fails, and an append lands meanwhile.
            failed_once = true;
            file.extend_from_slice(b"{\"c\":3}\n");
            assert!(rewrite.rename_failed());
            continue;
        }
        assert_eq!(step, RewriteStep::WriteThenRename);
        file = rewrite.content().as_bytes().to_vec();
        break;
    }
    assert_eq!(
        String::from_utf8(file).unwrap(),
        "{\"a\":1}\n{\"c\":3}\n",
        "the same-window append must ride through the retried rename"
    );
}

#[test]
fn test_a_rewrite_stops_at_any_other_change_and_after_its_retries() {
    let mut rewrite = Rewrite::new("new".to_string(), b"abc".to_vec());
    assert_eq!(rewrite.recheck(Some(b"abX".to_vec())), RewriteStep::Stop);
    assert_eq!(rewrite.recheck(Some(b"ab".to_vec())), RewriteStep::Stop);
    assert_eq!(rewrite.recheck(Some(b"abXd".to_vec())), RewriteStep::Stop);
    assert_eq!(rewrite.recheck(Some(b"abc".to_vec())), RewriteStep::Rename);
    assert_eq!(rewrite.recheck(None), RewriteStep::Rename);
    assert_eq!(rewrite.content(), "new");
    for _ in 0..MAX_RENAME_RETRIES {
        assert!(rewrite.rename_failed());
    }
    assert!(!rewrite.rename_failed());
}

#[test]
fn test_carried_bytes_are_compared_and_decoded() {
    assert_eq!(
        compare_bytes(&b"ab".to_vec(), &b"ab".to_vec()),
        Carry::Unchanged
    );
    assert_eq!(
        compare_bytes(&b"ab".to_vec(), &b"abc".to_vec()),
        Carry::Grown
    );
    assert_eq!(
        compare_bytes(&b"ab".to_vec(), &b"a".to_vec()),
        Carry::Conflict
    );
    assert_eq!(
        compare_bytes(&b"ab".to_vec(), &b"xbc".to_vec()),
        Carry::Conflict
    );
    assert_eq!(
        carry_into("x".to_string(), &b"ab".to_vec(), &b"b".to_vec()),
        None
    );
    assert_eq!(
        carry_into("x".to_string(), &b"ab".to_vec(), &b"ab".to_vec()),
        Some("x".to_string())
    );
    // A multi-byte character survives; a byte that is no text is replaced.
    let grown = "abé".as_bytes().to_vec();
    assert_eq!(
        carry_into("x".to_string(), &b"ab".to_vec(), &grown),
        Some("xé".to_string())
    );
    let torn = vec![b'a', b'b', 0xff];
    assert_eq!(
        carry_into("x".to_string(), &b"ab".to_vec(), &torn),
        Some("x\u{fffd}".to_string())
    );
}

#[test]
fn test_commit_harvest_anchors_on_content_not_count() {
    let mut s = Disk::default();
    s.append_entry(entry(JournalCategory::Error, "injected one"));
    s.append_entry(entry(JournalCategory::Skill, "injected two"));
    let snapshot = s.rendered(2);

    assert_eq!(s.delete(&snapshot[0]), 1);
    s.append_entry(entry(JournalCategory::Concern, "never injected"));

    s.commit("2026-08-13", &snapshot).unwrap();

    assert_eq!(
        s.statuses(),
        vec![
            ("injected two".to_string(), JournalEntryStatus::Consumed),
            ("never injected".to_string(), JournalEntryStatus::Unconsumed),
        ]
    );
}

#[test]
fn test_commit_harvest_counts_duplicate_lines_instead_of_matching_a_set() {
    let mut s = Disk::default();
    let duplicate = entry(JournalCategory::Error, "same second, same text");
    s.append_entry(duplicate.copy());
    s.append_entry(duplicate);
    let raws = s.rendered(2);
    assert_eq!(raws.len(), 2);
    assert_eq!(raws[0], raws[1], "the two lines really are identical");

    s.commit("2026-08-13", &raws[..1]).unwrap();

    let statuses: Vec<JournalEntryStatus> = s.entries().into_iter().map(|e| e.status).collect();
    assert_eq!(
        statuses,
        vec![JournalEntryStatus::Consumed, JournalEntryStatus::Unconsumed],
        "the withheld duplicate stays unconsumed"
    );
}

#[test]
fn test_commit_harvest_preserves_unknown_entry_fields_verbatim() {
    let mut s = Disk::default();
    s.append_entry(entry(JournalCategory::Error, "harvested"));
    let snapshot = s.rendered(1);
    let extra =
        r#"{"ts":"2026-08-13T10:00:00Z","category":"CONCERN","text":"hand written","severity":"high"}"#
            .to_string();
    s.journal.push_str(&format!("{extra}\n"));

    s.commit("2026-08-13", &snapshot).unwrap();

    let listed = s.entries();
    let survivor = listed
        .iter()
        .find(|e| e.entry.text == "hand written")
        .expect("the hand-written entry survives");
    assert_eq!(survivor.raw, extra, "carried through byte for byte");
    assert_eq!(survivor.status, JournalEntryStatus::Unconsumed);
    let raw = survivor.raw.clone();
    assert_eq!(s.delete(&raw), 1);
}

// --- splits ---

fn filler(len: usize) -> String {
    (0..len)
        .map(|i| char::from(b'a' + (i % 26) as u8))
        .collect()
}

fn part_body(part: &JournalEntry, k: usize, n: usize) -> String {
    let marker = format!("[part {k}/{n}] ");
    part.text
        .strip_prefix(&marker)
        .unwrap_or_else(|| panic!("part {k} must start with {marker:?}: {}", part.text))
        .to_string()
}

#[test]
fn test_split_oversized_unconsumed_reproduces_the_original_text_exactly() {
    let mut s = Disk::default();
    const BUDGET: usize = 100;
    let original = filler(BUDGET * 3);
    s.append_entry(entry(JournalCategory::Error, &original));

    assert_eq!(s.split(BUDGET), 1);

    let parts: Vec<JournalEntry> = s.unconsumed();
    assert!(parts.len() > 1, "an oversized entry must become N parts");
    let n = parts.len();
    let mut reassembled = String::new();
    for (i, part) in parts.iter().enumerate() {
        assert!(
            part.text.chars().count() <= BUDGET,
            "part {} is over the budget: {}",
            i + 1,
            part.text.chars().count()
        );
        reassembled.push_str(&part_body(part, i + 1, n));
    }
    assert_eq!(reassembled, original, "no char lost, none duplicated");

    let before = s.journal.clone();
    assert_eq!(s.split(BUDGET), 0);
    assert_eq!(s.journal, before);
}

#[test]
fn test_split_preserves_ts_category_project_and_agent_on_every_part() {
    let mut s = Disk::default();
    const BUDGET: usize = 80;
    let oversized = JournalEntry {
        ts: "2026-08-17T10:00:00+00:00".to_string(),
        category: JournalCategory::Bottleneck,
        text: filler(BUDGET * 3),
        project: Some(r"C:\git\maestro".to_string()),
        agent: Some("orchestrator-gen1".to_string()),
    };
    s.append_entry(oversized.copy());

    assert_eq!(s.split(BUDGET), 1);

    let parts = s.unconsumed();
    assert!(parts.len() > 1);
    for part in &parts {
        assert_eq!(part.ts, oversized.ts);
        assert_eq!(part.category, oversized.category);
        assert_eq!(part.project, oversized.project);
        assert_eq!(part.agent, oversized.agent);
    }
}

#[test]
fn test_split_leaves_consumed_archived_marker_and_opaque_lines_byte_identical() {
    const BUDGET: usize = 60;
    let archived = entry_json(&entry(JournalCategory::Error, &filler(BUDGET * 3)));
    let old_marker = marker_json(&HarvestMarker::now("2026-08-06".to_string()));
    let consumed = entry_json(&entry(JournalCategory::Skill, &filler(BUDGET * 3)));
    let last_marker = marker_json(&HarvestMarker::now("2026-08-07".to_string()));
    let opaque = "{ garbage not json".to_string();
    let unconsumed = entry_json(&entry(JournalCategory::Concern, &filler(BUDGET * 3)));
    let untouched = [&archived, &old_marker, &consumed, &last_marker, &opaque];
    let mut s = Disk {
        journal: format!(
            "{archived}\n{old_marker}\n{consumed}\n{last_marker}\n{opaque}\n{unconsumed}\n"
        ),
        ..Disk::default()
    };

    assert_eq!(
        s.split(BUDGET),
        1,
        "only the unconsumed oversized entry is split"
    );

    let after: Vec<String> = s.journal.lines().map(str::to_string).collect();
    for (i, expected) in untouched.iter().enumerate() {
        assert_eq!(&&after[i], expected, "line {i} must be byte-identical");
    }
    assert!(after.len() > untouched.len() + 1, "the last line was split");
    assert!(!after.contains(&unconsumed), "the oversized line is gone");
}

#[test]
fn test_split_leaves_an_under_budget_entry_untouched() {
    let mut s = Disk::default();
    const BUDGET: usize = 100;
    s.append_entry(entry(JournalCategory::Error, &filler(BUDGET)));
    let before = s.journal.clone();

    assert_eq!(s.split(BUDGET), 0);

    assert_eq!(s.journal, before);
    let mut never_written = Disk::default();
    assert_eq!(never_written.split(BUDGET), 0);
}

#[test]
fn test_split_preserves_concurrent_append() {
    let mut s = Disk::default();
    const BUDGET: usize = 100;
    s.append_entry(entry(JournalCategory::Error, &filler(BUDGET * 2)));
    let original = s.journal.clone().into_bytes();

    let (split, plan) = read_store(&s.journal).split_oversized_unconsumed(BUDGET);
    s.append_entry(entry(JournalCategory::Concern, "landed mid-split"));
    let current = s.journal.clone().into_bytes();
    s.journal = carry_into(planned_text(plan), &original, &current).unwrap();

    assert_eq!(split, 1);
    let texts: Vec<String> = s.unconsumed().into_iter().map(|e| e.text).collect();
    assert!(
        texts.len() > 2,
        "the parts plus the appended entry: {texts:?}"
    );
    assert_eq!(
        texts.last().map(String::as_str),
        Some("landed mid-split"),
        "the same-window append survives, last in file order"
    );
}

#[test]
fn test_chunk_plans_charge_the_marker_to_the_budget() {
    // 9 literal characters and two one-digit numbers leave 89 of 100.
    assert_eq!(chunk_plan(300, 100), Some((89, 4)));
    // More than nine parts widen the marker, and the plan with it.
    assert_eq!(chunk_plan(1000, 30), Some((17, 59)));
    assert_eq!(chunk_plan(100, 11), None);
    assert_eq!(chunk_plan(5, 12), Some((1, 5)));
    assert_eq!(digit_count(0), 1);
    assert_eq!(digit_count(9), 1);
    assert_eq!(digit_count(10), 2);
    assert_eq!(digit_count(12345), 5);
}

#[test]
fn test_a_part_starts_with_its_marker() {
    let e = entry(JournalCategory::Error, "abcdefghijklmnopqrst");
    let parts = split_into_parts(&e, 16).unwrap();
    let texts: Vec<&str> = parts.iter().map(|p| p.text.as_str()).collect();
    assert_eq!(
        texts,
        vec![
            "[part 1/4] abcde",
            "[part 2/4] fghij",
            "[part 3/4] klmno",
            "[part 4/4] pqrst"
        ]
    );
    assert!(split_into_parts(&e, 20).is_none());
    assert!(split_into_parts(&e, 5).is_none());
}

#[test]
fn test_what_is_written_is_read_back() {
    let lines = ["{\"a\":1}", "not json", "{\"kind\":\"HARVEST\"}"];
    let mut content = String::new();
    for line in lines {
        content.push_str(line);
        content.push('\n');
    }
    assert_eq!(journal_lines(&content), lines);
    // An append follows what was there.
    content.push_str("{\"b\":2}\n");
    let read = journal_lines(&content);
    assert_eq!(read[..3], lines);
    assert_eq!(read[3], "{\"b\":2}");
    // A line end may be of either kind, and blank lines do not count.
    assert_eq!(journal_lines("x\r\n \n\ny"), ["x", "y"]);
}

#[test]
fn test_an_appended_entry_is_listed_last() {
    let mut disk = Disk::default();
    disk.append_entry(JournalEntry::now(JournalCategory::Error, "one".to_string(), None, None));
    let rendered = disk.rendered(1);
    disk.commit("2026-08-07", &rendered).unwrap();
    let before = disk.statuses();
    disk.append_entry(JournalEntry::now(JournalCategory::Skill, "two".to_string(), None, None));
    let after = disk.statuses();
    assert_eq!(after[..1], before[..]);
    assert_eq!(after[1], ("two".to_string(), JournalEntryStatus::Unconsumed));
}

#[test]
fn test_a_kind_decides_what_a_line_is() {
    let marker = || HarvestMarker {
        ts: "t".to_string(),
        kind: MarkerKind::Harvest,
        report: "2026-08-07".to_string(),
    };
    let both = |raw: &str| {
        parse_line(
            raw.to_string(),
            Some((marker(), "again".to_string())),
            Some(entry(JournalCategory::Error, "x")),
        )
    };
    assert!(matches!(both("{\"kind\":1}"), JournalLine::Marker { .. }));
    assert!(matches!(both("{\"text\":\"kind\"}"), JournalLine::Entry { .. }));
    assert!(matches!(both("[\"kind\"]"), JournalLine::Entry { .. }));
    assert!(matches!(both("{ not json"), JournalLine::Opaque { .. }));
    // A line with a kind is no entry, one without no marker.
    let line = line_of("x".to_string(), Some(true), None, Some(entry(JournalCategory::Error, "x")));
    assert!(matches!(line, JournalLine::Opaque { .. }));
    let line = line_of("x".to_string(), Some(false), Some((marker(), String::new())), None);
    assert!(matches!(line, JournalLine::Opaque { .. }));
    let line = line_of("x".to_string(), None, None, None);
    assert_eq!(line.raw(), "x");
}

#[test]
fn test_lines_of_bytes() {
    let read = read_strictly(b"a\n\xc3\xa9\n".to_vec()).unwrap();
    assert_eq!(read.lines, ["a", "é"]);
    assert!(!read.open_end);
    assert!(read_strictly(b"a\n\xff\n".to_vec()).is_none());
    let read = read_leniently(b"a\n\xff");
    assert_eq!(read.lines, ["a", "\u{fffd}"]);
    assert!(read.open_end);
    assert!(!read_journal("").open_end);
}

#[test]
fn test_lines_make_up_a_text() {
    assert_eq!(lines_text(&vec!["a".to_string(), "é".to_string()]), "a\né\n");
    assert_eq!(lines_text(&Vec::new()), "");
}

#[test]
fn test_the_marker_gets_a_line_of_its_own() {
    // The last line was written by hand and has no line feed.
    let line = r#"{"ts":"2026-08-13T10:00:00Z","category":"ERROR","text":"x"}"#;
    let mut disk = Disk { journal: line.to_string(), ..Disk::default() };
    disk.commit("2026-08-13", &[line.to_string()]).unwrap();
    let list = disk.list();
    assert_eq!(list.entries.len(), 1);
    assert_eq!(list.entries[0].raw, line);
    assert_eq!(list.entries[0].status, JournalEntryStatus::Consumed);
    assert_eq!(list.opaque_line_count, 0);
    assert_eq!(disk.markers().len(), 1);
}

#[test]
fn test_attempts_are_counted() {
    let mut attempts = Attempts::new();
    for _ in 0..4 {
        assert!(matches!(
            attempts.next("n".to_string(), &b"ab".to_vec(), &b"x".to_vec()),
            AttemptStep::Retry
        ));
    }
    assert!(matches!(
        attempts.next("n".to_string(), &b"ab".to_vec(), &b"x".to_vec()),
        AttemptStep::GiveUp
    ));
    let mut attempts = Attempts::new();
    match attempts.next("n\n".to_string(), &b"ab\n".to_vec(), &b"ab\nc\n".to_vec()) {
        AttemptStep::Write { content } => assert_eq!(content, "n\nc\n"),
        other => panic!("unexpected: {other:?}"),
    }
}

#[test]
fn test_an_entry_gets_a_line_of_its_own() {
    let mut disk = Disk { journal: "not json".to_string(), ..Disk::default() };
    disk.append_entry(entry(JournalCategory::Skill, "x"));
    let list = disk.list();
    assert_eq!(list.entries.len(), 1);
    assert_eq!(list.opaque_line_count, 1);
}

#[test]
fn test_a_second_split_changes_nothing() {
    let mut disk = Disk::default();
    disk.append_entry(entry(JournalCategory::Skill, &"ab".repeat(100)));
    disk.append_entry(entry(JournalCategory::Skill, "short"));
    assert_eq!(disk.split(50), 1);
    let once = disk.journal.clone();
    assert!(disk.entries().len() > 2);
    assert_eq!(disk.split(50), 0);
    assert_eq!(disk.journal, once);
}

#[test]
fn test_a_harvest_of_all_leaves_none() {
    let mut disk = Disk::default();
    for text in ["a", "b", "a"] {
        disk.append_entry(entry(JournalCategory::Error, text));
    }
    let all = disk.rendered(3);
    disk.commit("2026-08-07", &all).unwrap();
    assert!(disk.unconsumed().is_empty());
    disk.append_entry(entry(JournalCategory::Error, "c"));
    let all = disk.rendered(9);
    disk.commit("2026-08-08", &all).unwrap();
    assert!(disk.unconsumed().is_empty());
}

#[test]
fn test_the_fewest_parts_are_planned() {
    // Two parts of 30 - 11 characters each.
    assert_eq!(chunk_plan(38, 30), Some((19, 2)));
    assert_eq!(chunk_plan(39, 30), Some((19, 3)));
    // Ten parts take a wider marker than nine.
    assert_eq!(chunk_plan(171, 30), Some((19, 9)));
    assert_eq!(chunk_plan(172, 30), Some((17, 11)));
    assert_eq!(chunk_plan(100, 11), None);
}
