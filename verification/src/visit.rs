//! The visit of one directory: test for the manifest, clean if it is there,
//! list the entries, and choose the children to visit in turn.
//!
//! A visit is a small state machine. The caller does the outside work that a
//! [`Command`] asks for and reports its outcome as an [`Event`]; [`step`]
//! answers with the notices to log and the next command. Cleaning always
//! comes before listing, so a project is cleaned before its children are
//! looked at.

use vstd::prelude::*;
use crate::names::{artifact_name, is_artifact_name};
use crate::notice::Notice;

verus! {

/// Outcome of testing a directory for the manifest file.
#[derive(Clone, Copy, PartialEq, Eq, Structural, Debug)]
pub enum Probe {
    Present,
    Absent,
    /// The test itself failed. This counts as absent.
    Failed,
}

/// Outcome of launching the clean command and waiting for it.
#[derive(Clone, Copy, PartialEq, Eq, Debug)]
pub enum CleanResult {
    /// The command ran to its end. `code` is its exit code, absent where it
    /// was ended by a signal.
    Exited { code: Option<i32> },
    /// The command could not be started.
    NotLaunched,
}

/// What is known of one entry of a directory listing.
#[derive(Clone, Copy, PartialEq, Eq, Structural, Debug)]
pub enum EntryKind {
    Directory,
    /// A file, a link, or anything else that is no directory.
    Other,
    /// The entry was read, but its type could not be found out.
    Unknown,
    /// The entry itself could not be read; its name is not known.
    Unreadable,
}

/// One entry of a directory listing.
#[derive(Debug)]
pub struct Entry {
    /// The entry's file name, without any path. Empty for an unreadable
    /// entry.
    pub name: String,
    pub kind: EntryKind,
}

/// How far the visit of a directory has come.
#[derive(Clone, Copy, PartialEq, Eq, Structural, Debug)]
pub enum Stage {
    /// Waiting for the outcome of the manifest test.
    Probing,
    /// Waiting for the clean command to end.
    Cleaning,
    /// Waiting for the directory's listing.
    Listing,
    /// Nothing more is done in this directory.
    Finished,
}

/// Outside work that the caller has done for a visit.
#[derive(Debug)]
pub enum Event {
    Probed(Probe),
    CleanEnded(CleanResult),
    /// The listing, or `None` where the directory could not be listed.
    Listed(Option<Vec<Entry>>),
}

/// Outside work that a visit asks of the caller.
#[derive(Clone, Copy, PartialEq, Eq, Structural, Debug)]
pub enum Command {
    /// Test whether the manifest file exists directly in the directory.
    ProbeManifest,
    /// Launch the clean command in the directory and wait for it.
    RunClean,
    /// List the directory's entries.
    ListEntries,
    /// Visit the chosen children; they may be visited in any order, or at
    /// the same time.
    Descend,
    /// Leave the directory without visiting any child.
    Finish,
}

/// The answer of a visit to an event.
#[derive(Debug)]
pub struct Reaction {
    pub next: Stage,
    /// Records to log, in order, before the command is carried out.
    pub notices: Vec<Notice>,
    pub command: Command,
    /// Positions in the listing of the children to visit. Empty unless the
    /// command is [`Command::Descend`].
    pub descend: Vec<usize>,
}

/// A child is visited exactly if it is a directory whose name is not the
/// excluded one.
pub open spec fn eligible(entry: Entry) -> bool {
    entry.kind == EntryKind::Directory && entry.name@ != artifact_name()
}

/// Positions of the eligible entries among the first `upto`, ascending.
pub open spec fn chosen(entries: Seq<Entry>, upto: nat) -> Seq<usize>
    decreases upto,
{
    if upto == 0 {
        Seq::empty()
    } else {
        let last = (upto - 1) as nat;
        let before = chosen(entries, last);
        if last < entries.len() && eligible(entries[last as int]) {
            before.push(last as usize)
        } else {
            before
        }
    }
}

/// The notice that one entry gives rise to, if any.
pub open spec fn entry_notice(entry: Entry, index: usize) -> Option<Notice> {
    match entry.kind {
        EntryKind::Unreadable => Some(Notice::EntryUnreadable { index }),
        EntryKind::Unknown => Some(Notice::EntryTypeUnknown { index }),
        _ => None,
    }
}

/// Notices for the first `upto` entries, in the order of the listing.
pub open spec fn entry_notices(entries: Seq<Entry>, upto: nat) -> Seq<Notice>
    decreases upto,
{
    if upto == 0 {
        Seq::empty()
    } else {
        let last = (upto - 1) as nat;
        let before = entry_notices(entries, last);
        if last < entries.len() && entry_notice(entries[last as int], last as usize) is Some {
            before.push(entry_notice(entries[last as int], last as usize).unwrap())
        } else {
            before
        }
    }
}

/// Whether the manifest counts as present: only where the test found it.
pub open spec fn manifest_found(probe: Probe) -> bool {
    probe == Probe::Present
}

/// The notice that reports how cleaning went.
pub open spec fn clean_notice(result: CleanResult) -> Notice {
    match result {
        CleanResult::Exited { code: Some(c) } => if c == 0 {
            Notice::Cleaned
        } else {
            Notice::CleanFailed { code: Some(c) }
        },
        CleanResult::Exited { code: None } => Notice::CleanFailed { code: None },
        CleanResult::NotLaunched => Notice::CleanNotLaunched,
    }
}

/// Whether `event` is the one that a visit at `stage` is waiting for.
pub open spec fn accepts(stage: Stage, event: Event) -> bool {
    match (stage, event) {
        (Stage::Probing, Event::Probed(_)) => true,
        (Stage::Cleaning, Event::CleanEnded(_)) => true,
        (Stage::Listing, Event::Listed(_)) => true,
        _ => false,
    }
}

/// The stage that follows an accepted event.
pub open spec fn next_stage(event: Event) -> Stage {
    match event {
        Event::Probed(probe) => if manifest_found(probe) {
            Stage::Cleaning
        } else {
            Stage::Listing
        },
        Event::CleanEnded(_) => Stage::Listing,
        Event::Listed(_) => Stage::Finished,
    }
}

/// The command that follows an accepted event.
pub open spec fn command_after(event: Event) -> Command {
    match event {
        Event::Probed(probe) => if manifest_found(probe) {
            Command::RunClean
        } else {
            Command::ListEntries
        },
        Event::CleanEnded(_) => Command::ListEntries,
        Event::Listed(Some(_)) => Command::Descend,
        Event::Listed(None) => Command::Finish,
    }
}

/// The notices that an accepted event gives rise to.
pub open spec fn notices_after(event: Event) -> Seq<Notice> {
    match event {
        Event::Probed(Probe::Failed) => seq![
            Notice::ManifestCheckFailed,
            Notice::ManifestChecked { found: false },
        ],
        Event::Probed(probe) => seq![Notice::ManifestChecked { found: manifest_found(probe) }],
        Event::CleanEnded(result) => seq![clean_notice(result)],
        Event::Listed(Some(entries)) => entry_notices(entries@, entries@.len()),
        Event::Listed(None) => seq![Notice::ListingFailed],
    }
}

/// The children to visit after an accepted event.
pub open spec fn descend_after(event: Event) -> Seq<usize> {
    match event {
        Event::Listed(Some(entries)) => chosen(entries@, entries@.len()),
        _ => Seq::empty(),
    }
}

/// Whether one entry is to be visited.
pub fn is_eligible(entry: &Entry) -> (yes: bool)
    ensures
        yes == eligible(*entry),
{
    match entry.kind {
        EntryKind::Directory => !is_artifact_name(&entry.name),
        _ => false,
    }
}

/// Chooses the children to visit: the positions of all eligible entries, in
/// ascending order.
pub fn select_children(entries: &Vec<Entry>) -> (picked: Vec<usize>)
    ensures
        picked@ == chosen(entries@, entries@.len()),
{
    let mut picked: Vec<usize> = Vec::new();
    let mut i: usize = 0;
    while i < entries.len()
        invariant
            i <= entries.len(),
            picked@ == chosen(entries@, i as nat),
        decreases entries.len() - i,
    {
        if is_eligible(&entries[i]) {
            picked.push(i);
        }
        i += 1;
    }
    picked
}

/// Collects the notices for the entries that are passed over because they
/// could not be read or typed.
pub fn report_entries(entries: &Vec<Entry>) -> (notices: Vec<Notice>)
    ensures
        notices@ == entry_notices(entries@, entries@.len()),
{
    let mut notices: Vec<Notice> = Vec::new();
    let mut i: usize = 0;
    while i < entries.len()
        invariant
            i <= entries.len(),
            notices@ == entry_notices(entries@, i as nat),
        decreases entries.len() - i,
    {
        match entries[i].kind {
            EntryKind::Unreadable => notices.push(Notice::EntryUnreadable { index: i }),
            EntryKind::Unknown => notices.push(Notice::EntryTypeUnknown { index: i }),
            _ => {},
        }
        i += 1;
    }
    notices
}

/// Reports how cleaning went: success only for exit code zero.
pub fn report_clean(result: CleanResult) -> (notice: Notice)
    ensures
        notice == clean_notice(result),
{
    match result {
        CleanResult::Exited { code: Some(c) } => {
            if c == 0 {
                Notice::Cleaned
            } else {
                Notice::CleanFailed { code: Some(c) }
            }
        },
        CleanResult::Exited { code: None } => Notice::CleanFailed { code: None },
        CleanResult::NotLaunched => Notice::CleanNotLaunched,
    }
}

/// Opens the visit of a directory: the first thing asked for is the test for
/// the manifest.
pub fn begin() -> (first: Reaction)
    ensures
        first.next == Stage::Probing,
        first.command == Command::ProbeManifest,
        first.notices@ == Seq::<Notice>::empty(),
        first.descend@ == Seq::<usize>::empty(),
{
    Reaction {
        next: Stage::Probing,
        notices: Vec::new(),
        command: Command::ProbeManifest,
        descend: Vec::new(),
    }
}

/// Advances a visit by one event. An event that the stage is not waiting for
/// is refused with `None`, and the visit stays where it is.
pub fn step(stage: Stage, event: &Event) -> (reaction: Option<Reaction>)
    ensures
        reaction is Some <==> accepts(stage, *event),
        reaction is Some ==> {
            let r = reaction.unwrap();
            &&& r.next == next_stage(*event)
            &&& r.notices@ == notices_after(*event)
            &&& r.command == command_after(*event)
            &&& r.descend@ == descend_after(*event)
        },
{
    match (stage, event) {
        (Stage::Probing, Event::Probed(probe)) => {
            let mut notices: Vec<Notice> = Vec::new();
            match probe {
                Probe::Present => {
                    notices.push(Notice::ManifestChecked { found: true });
                    Some(
                        Reaction {
                            next: Stage::Cleaning,
                            notices,
                            command: Command::RunClean,
                            descend: Vec::new(),
                        },
                    )
                },
                Probe::Absent => {
                    notices.push(Notice::ManifestChecked { found: false });
                    Some(
                        Reaction {
                            next: Stage::Listing,
                            notices,
                            command: Command::ListEntries,
                            descend: Vec::new(),
                        },
                    )
                },
                Probe::Failed => {
                    notices.push(Notice::ManifestCheckFailed);
                    notices.push(Notice::ManifestChecked { found: false });
                    Some(
                        Reaction {
                            next: Stage::Listing,
                            notices,
                            command: Command::ListEntries,
                            descend: Vec::new(),
                        },
                    )
                },
            }
        },
        (Stage::Cleaning, Event::CleanEnded(result)) => {
            let mut notices: Vec<Notice> = Vec::new();
            notices.push(report_clean(*result));
            Some(
                Reaction {
                    next: Stage::Listing,
                    notices,
                    command: Command::ListEntries,
                    descend: Vec::new(),
                },
            )
        },
        (Stage::Listing, Event::Listed(Some(entries))) => Some(
            Reaction {
                next: Stage::Finished,
                notices: report_entries(entries),
                command: Command::Descend,
                descend: select_children(entries),
            },
        ),
        (Stage::Listing, Event::Listed(None)) => {
            let mut notices: Vec<Notice> = Vec::new();
            notices.push(Notice::ListingFailed);
            Some(
                Reaction {
                    next: Stage::Finished,
                    notices,
                    command: Command::Finish,
                    descend: Vec::new(),
                },
            )
        },
        _ => None,
    }
}

/// Every chosen position lies in the listing and holds an eligible entry: a
/// directory whose name is not the excluded one.
pub proof fn law_chosen_are_eligible(entries: Seq<Entry>, upto: nat, j: int)
    requires
        entries.len() <= usize::MAX,
        0 <= j < chosen(entries, upto).len(),
    ensures
        chosen(entries, upto)[j] < upto,
        chosen(entries, upto)[j] < entries.len(),
        eligible(entries[chosen(entries, upto)[j] as int]),
    decreases upto,
{
    if upto > 0 {
        let last = (upto - 1) as nat;
        if j < chosen(entries, last).len() {
            law_chosen_are_eligible(entries, last, j);
        }
    }
}

/// Every eligible entry is chosen.
pub proof fn law_eligible_are_chosen(entries: Seq<Entry>, upto: nat, i: usize)
    requires
        entries.len() <= usize::MAX,
        i < upto,
        i < entries.len(),
        eligible(entries[i as int]),
    ensures
        chosen(entries, upto).contains(i),
    decreases upto,
{
    let last = (upto - 1) as nat;
    if i == last {
        let picked = chosen(entries, upto);
        assert(picked[picked.len() - 1] == i);
    } else {
        law_eligible_are_chosen(entries, last, i);
        let before = chosen(entries, last);
        let j = choose|j: int| 0 <= j < before.len() && before[j] == i;
        assert(chosen(entries, upto)[j] == i);
    }
}

/// The chosen positions ascend, so no child is chosen twice.
pub proof fn law_chosen_ascend(entries: Seq<Entry>, upto: nat, j: int, k: int)
    requires
        entries.len() <= usize::MAX,
        0 <= j < k < chosen(entries, upto).len(),
    ensures
        chosen(entries, upto)[j] < chosen(entries, upto)[k],
    decreases upto,
{
    if upto > 0 {
        let last = (upto - 1) as nat;
        if k < chosen(entries, last).len() {
            law_chosen_ascend(entries, last, j, k);
        } else {
            law_chosen_are_eligible(entries, last, j);
        }
    }
}

} // verus!
