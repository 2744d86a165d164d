use target_hunt::notice::{Notice, Severity};
use target_hunt::tree::{list_entries, survey, walk, Act, Child, DirTree, Node, Step};
use target_hunt::visit::{CleanResult, Command, EntryKind, Probe};

fn dir(probe: Probe, children: Vec<Child>) -> DirTree {
    DirTree { probe, clean: CleanResult::Exited { code: Some(0) }, listing: Some(children) }
}

fn unlistable(probe: Probe) -> DirTree {
    DirTree { probe, clean: CleanResult::Exited { code: Some(0) }, listing: None }
}

fn sub(name: &str, tree: DirTree) -> Child {
    Child { name: name.to_string(), node: Node::Directory(tree) }
}

fn file(name: &str) -> Child {
    Child { name: name.to_string(), node: Node::File }
}

fn run(at: &[usize], command: Command) -> Step {
    Step { at: at.to_vec(), act: Act::Run(command) }
}

fn log(at: &[usize], notice: Notice) -> Step {
    Step { at: at.to_vec(), act: Act::Log(notice) }
}

fn cleaned_places(steps: &[Step]) -> Vec<Vec<usize>> {
    let mut places = Vec::new();
    for s in steps {
        if s.act == Act::Run(Command::RunClean) {
            places.push(s.at.clone());
        }
    }
    places
}

fn count_at_level(steps: &[Step], level: Severity) -> usize {
    let mut n = 0;
    for s in steps {
        if let Act::Log(notice) = s.act {
            if notice.severity() == level {
                n += 1;
            }
        }
    }
    n
}

fn project_with_target_and_empty_sibling() -> DirTree {
    let target = dir(Probe::Present, vec![file("Cargo.toml")]);
    let a = dir(Probe::Present, vec![file("Cargo.toml"), sub("target", target)]);
    let b = dir(Probe::Absent, vec![]);
    dir(Probe::Absent, vec![sub("A", a), sub("B", b)])
}

#[test]
fn project_is_cleaned_once_and_target_is_left_alone() {
    let steps = survey(&project_with_target_and_empty_sibling());
    assert_eq!(cleaned_places(&steps), vec![vec![0]]);
    assert!(steps.iter().all(|s| s.at != vec![0, 1]));
    assert!(steps.iter().all(|s| s.at.len() <= 1));
    let expected = vec![
        run(&[], Command::ProbeManifest),
        log(&[], Notice::ManifestChecked { found: false }),
        run(&[], Command::ListEntries),
        run(&[], Command::Descend),
        run(&[0], Command::ProbeManifest),
        log(&[0], Notice::ManifestChecked { found: true }),
        run(&[0], Command::RunClean),
        log(&[0], Notice::Cleaned),
        run(&[0], Command::ListEntries),
        run(&[0], Command::Descend),
        run(&[1], Command::ProbeManifest),
        log(&[1], Notice::ManifestChecked { found: false }),
        run(&[1], Command::ListEntries),
        run(&[1], Command::Descend),
    ];
    assert_eq!(steps, expected);
}

#[test]
fn unlistable_root_gives_one_warning_and_no_clean() {
    let steps = survey(&unlistable(Probe::Absent));
    assert_eq!(count_at_level(&steps, Severity::Warning), 1);
    assert_eq!(count_at_level(&steps, Severity::Error), 0);
    assert!(cleaned_places(&steps).is_empty());
    let expected = vec![
        run(&[], Command::ProbeManifest),
        log(&[], Notice::ManifestChecked { found: false }),
        run(&[], Command::ListEntries),
        log(&[], Notice::ListingFailed),
        run(&[], Command::Finish),
    ];
    assert_eq!(steps, expected);
}

#[test]
fn unlistable_sibling_does_not_stop_the_others() {
    let locked = unlistable(Probe::Absent);
    let project = dir(Probe::Present, vec![file("Cargo.toml"), sub("src", dir(Probe::Absent, vec![]))]);
    let root = dir(Probe::Absent, vec![sub("locked", locked), sub("project", project)]);
    let steps = survey(&root);
    assert_eq!(cleaned_places(&steps), vec![vec![1]]);
    assert!(steps.contains(&log(&[0], Notice::ListingFailed)));
    assert!(steps.contains(&run(&[0], Command::Finish)));
    assert!(steps.contains(&run(&[1], Command::Descend)));
    assert!(steps.contains(&run(&[1, 1], Command::ProbeManifest)));
    assert!(steps.contains(&run(&[1, 1], Command::Descend)));
}

#[test]
fn target_is_excluded_at_every_depth() {
    let deep_target = dir(Probe::Present, vec![sub("inner", dir(Probe::Present, vec![]))]);
    let c = dir(Probe::Absent, vec![sub("target", deep_target)]);
    let b = dir(Probe::Absent, vec![sub("c", c)]);
    let root = dir(Probe::Absent, vec![sub("b", b)]);
    let steps = survey(&root);
    assert!(cleaned_places(&steps).is_empty());
    assert!(steps.iter().all(|s| s.at.len() <= 2));
    assert!(steps.contains(&run(&[0, 0], Command::Descend)));
}

#[test]
fn cleaning_comes_before_listing_and_children() {
    let child = dir(Probe::Present, vec![]);
    let root = dir(Probe::Present, vec![sub("member", child)]);
    let steps = survey(&root);
    let clean = steps.iter().position(|s| *s == run(&[], Command::RunClean)).unwrap();
    let list = steps.iter().position(|s| *s == run(&[], Command::ListEntries)).unwrap();
    let first_below = steps.iter().position(|s| !s.at.is_empty()).unwrap();
    assert!(clean < list);
    assert!(list < first_below);
    assert_eq!(cleaned_places(&steps), vec![vec![], vec![0]]);
}

#[test]
fn failed_clean_is_reported_and_the_walk_goes_on() {
    let child = dir(Probe::Present, vec![]);
    let mut root = dir(Probe::Present, vec![sub("member", child)]);
    root.clean = CleanResult::Exited { code: Some(101) };
    let steps = survey(&root);
    assert!(steps.contains(&log(&[], Notice::CleanFailed { code: Some(101) })));
    assert_eq!(cleaned_places(&steps), vec![vec![], vec![0]]);

    let mut lone = dir(Probe::Present, vec![]);
    lone.clean = CleanResult::NotLaunched;
    let steps = survey(&lone);
    let expected = vec![
        run(&[], Command::ProbeManifest),
        log(&[], Notice::ManifestChecked { found: true }),
        run(&[], Command::RunClean),
        log(&[], Notice::CleanNotLaunched),
        run(&[], Command::ListEntries),
        run(&[], Command::Descend),
    ];
    assert_eq!(steps, expected);
}

#[test]
fn failed_manifest_test_means_no_clean() {
    let steps = survey(&dir(Probe::Failed, vec![]));
    let expected = vec![
        run(&[], Command::ProbeManifest),
        log(&[], Notice::ManifestCheckFailed),
        log(&[], Notice::ManifestChecked { found: false }),
        run(&[], Command::ListEntries),
        run(&[], Command::Descend),
    ];
    assert_eq!(steps, expected);
}

#[test]
fn unreadable_and_untyped_entries_are_passed_over() {
    let root = dir(
        Probe::Absent,
        vec![
            Child { name: String::new(), node: Node::Unreadable },
            Child { name: "odd".to_string(), node: Node::Untyped },
            sub("ok", dir(Probe::Present, vec![])),
        ],
    );
    let steps = survey(&root);
    assert_eq!(count_at_level(&steps, Severity::Error), 2);
    assert!(steps.contains(&log(&[], Notice::EntryUnreadable { index: 0 })));
    assert!(steps.contains(&log(&[], Notice::EntryTypeUnknown { index: 1 })));
    assert_eq!(cleaned_places(&steps), vec![vec![2]]);
}

#[test]
fn a_second_walk_does_the_same() {
    let root = project_with_target_and_empty_sibling();
    assert_eq!(survey(&root), survey(&root));
}

#[test]
fn walk_appends_at_the_given_place() {
    let mut steps = vec![run(&[9], Command::Finish)];
    walk(&dir(Probe::Absent, vec![]), &vec![4, 2], &mut steps);
    let expected = vec![
        run(&[9], Command::Finish),
        run(&[4, 2], Command::ProbeManifest),
        log(&[4, 2], Notice::ManifestChecked { found: false }),
        run(&[4, 2], Command::ListEntries),
        run(&[4, 2], Command::Descend),
    ];
    assert_eq!(steps, expected);
}

#[test]
fn listing_is_reported_entry_by_entry() {
    let children = vec![
        file("Cargo.toml"),
        sub("src", dir(Probe::Absent, vec![])),
        Child { name: "odd".to_string(), node: Node::Untyped },
        Child { name: String::new(), node: Node::Unreadable },
    ];
    let entries = list_entries(&children);
    let seen: Vec<(String, EntryKind)> = entries.into_iter().map(|e| (e.name, e.kind)).collect();
    assert_eq!(
        seen,
        vec![
            ("Cargo.toml".to_string(), EntryKind::Other),
            ("src".to_string(), EntryKind::Directory),
            ("odd".to_string(), EntryKind::Unknown),
            (String::new(), EntryKind::Unreadable),
        ]
    );
}

fn commands(steps: &[Step]) -> Vec<(Vec<usize>, Command)> {
    let mut out = Vec::new();
    for s in steps {
        if let Act::Run(command) = s.act {
            out.push((s.at.clone(), command));
        }
    }
    out
}

#[test]
fn course_is_the_same_however_cleaning_ends() {
    let first = project_with_target_and_empty_sibling();
    let mut second = project_with_target_and_empty_sibling();
    if let Some(children) = &mut second.listing {
        if let Node::Directory(a) = &mut children[0].node {
            a.clean = CleanResult::Exited { code: Some(101) };
        }
    }
    let one = survey(&first);
    let two = survey(&second);
    assert_eq!(commands(&one), commands(&two));
    assert!(one.contains(&log(&[0], Notice::Cleaned)));
    assert!(two.contains(&log(&[0], Notice::CleanFailed { code: Some(101) })));
}

#[test]
fn every_reached_directory_is_visited_once() {
    let steps = survey(&project_with_target_and_empty_sibling());
    let ran = commands(&steps);
    for place in [vec![], vec![0], vec![1]] {
        for command in [Command::ProbeManifest, Command::ListEntries, Command::Descend] {
            let n = ran.iter().filter(|(at, c)| *at == place && *c == command).count();
            assert_eq!(n, 1);
        }
        let n = ran.iter().filter(|(at, c)| *at == place && *c == Command::Finish).count();
        assert_eq!(n, 0);
    }
    let cleans = ran.iter().filter(|(_, c)| *c == Command::RunClean).count();
    assert_eq!(cleans, 1);
    assert_eq!(ran.len(), 10);
}

#[test]
fn a_file_named_like_a_directory_is_not_entered() {
    let root = dir(Probe::Absent, vec![file("src"), file("target")]);
    let steps = survey(&root);
    assert_eq!(steps.len(), 4);
    assert!(steps.iter().all(|s| s.at.is_empty()));
}
