use target_hunt::names::{
    artifact_dir, clean_argument, clean_program, is_artifact_name, manifest_file,
};
use target_hunt::notice::{Notice, Severity};
use target_hunt::visit::{
    begin, is_eligible, report_clean, report_entries, select_children, step, CleanResult,
    Command, Entry, EntryKind, Event, Probe, Stage,
};

fn entry(name: &str, kind: EntryKind) -> Entry {
    Entry { name: name.to_string(), kind }
}

#[test]
fn fixed_names() {
    assert_eq!(manifest_file(), "Cargo.toml");
    assert_eq!(artifact_dir(), "target");
    assert_eq!(clean_program(), "cargo");
    assert_eq!(clean_argument(), "clean");
}

#[test]
fn artifact_name_is_matched_exactly() {
    assert!(is_artifact_name(&"target".to_string()));
    assert!(!is_artifact_name(&"Target".to_string()));
    assert!(!is_artifact_name(&"target2".to_string()));
    assert!(!is_artifact_name(&"targe".to_string()));
    assert!(!is_artifact_name(&"".to_string()));
    assert!(!is_artifact_name(&"src".to_string()));
}

#[test]
fn only_other_directories_are_eligible() {
    assert!(is_eligible(&entry("src", EntryKind::Directory)));
    assert!(!is_eligible(&entry("target", EntryKind::Directory)));
    assert!(!is_eligible(&entry("src", EntryKind::Other)));
    assert!(!is_eligible(&entry("src", EntryKind::Unknown)));
    assert!(!is_eligible(&entry("", EntryKind::Unreadable)));
    assert!(!is_eligible(&entry("target", EntryKind::Other)));
}

#[test]
fn severities() {
    assert_eq!(Notice::ManifestCheckFailed.severity(), Severity::Warning);
    assert_eq!(Notice::ManifestChecked { found: true }.severity(), Severity::Debug);
    assert_eq!(Notice::ManifestChecked { found: false }.severity(), Severity::Debug);
    assert_eq!(Notice::Cleaned.severity(), Severity::Info);
    assert_eq!(Notice::CleanFailed { code: Some(1) }.severity(), Severity::Warning);
    assert_eq!(Notice::CleanFailed { code: None }.severity(), Severity::Warning);
    assert_eq!(Notice::CleanNotLaunched.severity(), Severity::Warning);
    assert_eq!(Notice::ListingFailed.severity(), Severity::Warning);
    assert_eq!(Notice::EntryUnreadable { index: 0 }.severity(), Severity::Error);
    assert_eq!(Notice::EntryTypeUnknown { index: 3 }.severity(), Severity::Error);
}

#[test]
fn clean_reports() {
    assert_eq!(report_clean(CleanResult::Exited { code: Some(0) }), Notice::Cleaned);
    assert_eq!(
        report_clean(CleanResult::Exited { code: Some(101) }),
        Notice::CleanFailed { code: Some(101) }
    );
    assert_eq!(
        report_clean(CleanResult::Exited { code: Some(-1) }),
        Notice::CleanFailed { code: Some(-1) }
    );
    assert_eq!(
        report_clean(CleanResult::Exited { code: None }),
        Notice::CleanFailed { code: None }
    );
    assert_eq!(report_clean(CleanResult::NotLaunched), Notice::CleanNotLaunched);
}

#[test]
fn children_are_selected_in_listing_order() {
    let entries = vec![
        entry("Cargo.toml", EntryKind::Other),
        entry("src", EntryKind::Directory),
        entry("target", EntryKind::Directory),
        entry("", EntryKind::Unreadable),
        entry("odd", EntryKind::Unknown),
        entry("benches", EntryKind::Directory),
    ];
    assert_eq!(select_children(&entries), vec![1, 5]);
    assert_eq!(
        report_entries(&entries),
        vec![Notice::EntryUnreadable { index: 3 }, Notice::EntryTypeUnknown { index: 4 }]
    );
}

#[test]
fn empty_listing_selects_nothing() {
    let entries: Vec<Entry> = Vec::new();
    assert_eq!(select_children(&entries), Vec::<usize>::new());
    assert_eq!(report_entries(&entries), Vec::<Notice>::new());
}

#[test]
fn a_visit_begins_with_the_manifest_test() {
    let first = begin();
    assert_eq!(first.next, Stage::Probing);
    assert_eq!(first.command, Command::ProbeManifest);
    assert!(first.notices.is_empty());
    assert!(first.descend.is_empty());
}

#[test]
fn manifest_present_leads_to_cleaning() {
    let r = step(Stage::Probing, &Event::Probed(Probe::Present)).unwrap();
    assert_eq!(r.next, Stage::Cleaning);
    assert_eq!(r.command, Command::RunClean);
    assert_eq!(r.notices, vec![Notice::ManifestChecked { found: true }]);
    assert!(r.descend.is_empty());
}

#[test]
fn manifest_absent_leads_to_listing() {
    let r = step(Stage::Probing, &Event::Probed(Probe::Absent)).unwrap();
    assert_eq!(r.next, Stage::Listing);
    assert_eq!(r.command, Command::ListEntries);
    assert_eq!(r.notices, vec![Notice::ManifestChecked { found: false }]);
}

#[test]
fn failed_manifest_test_counts_as_absent() {
    let r = step(Stage::Probing, &Event::Probed(Probe::Failed)).unwrap();
    assert_eq!(r.next, Stage::Listing);
    assert_eq!(r.command, Command::ListEntries);
    assert_eq!(
        r.notices,
        vec![Notice::ManifestCheckFailed, Notice::ManifestChecked { found: false }]
    );
}

#[test]
fn listing_follows_cleaning_however_it_ended() {
    let results = [
        (CleanResult::Exited { code: Some(0) }, Notice::Cleaned),
        (CleanResult::Exited { code: Some(2) }, Notice::CleanFailed { code: Some(2) }),
        (CleanResult::Exited { code: None }, Notice::CleanFailed { code: None }),
        (CleanResult::NotLaunched, Notice::CleanNotLaunched),
    ];
    for (result, notice) in results {
        let r = step(Stage::Cleaning, &Event::CleanEnded(result)).unwrap();
        assert_eq!(r.next, Stage::Listing);
        assert_eq!(r.command, Command::ListEntries);
        assert_eq!(r.notices, vec![notice]);
        assert!(r.descend.is_empty());
    }
}

#[test]
fn a_listing_leads_to_its_eligible_children() {
    let entries = vec![
        entry("target", EntryKind::Directory),
        entry("a", EntryKind::Directory),
        entry("b", EntryKind::Unknown),
    ];
    let r = step(Stage::Listing, &Event::Listed(Some(entries))).unwrap();
    assert_eq!(r.next, Stage::Finished);
    assert_eq!(r.command, Command::Descend);
    assert_eq!(r.descend, vec![1]);
    assert_eq!(r.notices, vec![Notice::EntryTypeUnknown { index: 2 }]);
}

#[test]
fn a_failed_listing_ends_the_visit() {
    let r = step(Stage::Listing, &Event::Listed(None)).unwrap();
    assert_eq!(r.next, Stage::Finished);
    assert_eq!(r.command, Command::Finish);
    assert_eq!(r.notices, vec![Notice::ListingFailed]);
    assert!(r.descend.is_empty());
}

#[test]
fn events_out_of_turn_are_refused() {
    let clean = Event::CleanEnded(CleanResult::Exited { code: Some(0) });
    let probed = Event::Probed(Probe::Present);
    let listed = Event::Listed(None);
    assert!(step(Stage::Probing, &clean).is_none());
    assert!(step(Stage::Probing, &listed).is_none());
    assert!(step(Stage::Cleaning, &probed).is_none());
    assert!(step(Stage::Cleaning, &listed).is_none());
    assert!(step(Stage::Listing, &probed).is_none());
    assert!(step(Stage::Listing, &clean).is_none());
    assert!(step(Stage::Finished, &probed).is_none());
    assert!(step(Stage::Finished, &clean).is_none());
    assert!(step(Stage::Finished, &listed).is_none());
}
