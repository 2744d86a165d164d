//! A directory tree held in memory, and the walk over it.
//!
//! A [`DirTree`] says, for a directory and everything below it, what each
//! piece of outside work would answer: the manifest test, the clean command
//! and the listing. [`walk`] visits such a tree with the decisions of
//! [`crate::visit`] and writes down, in order, every command and notice
//! together with the place it belongs to. Children are visited in the order
//! of the listing; a caller that works on a real file system may visit them
//! in any order.

use vstd::prelude::*;
use crate::notice::Notice;
use crate::visit::{
    begin, chosen, clean_notice, command_after, entry_notices, law_chosen_are_eligible,
    manifest_found, notices_after, step, CleanResult, Command, Entry, EntryKind, Event, Probe,
    Reaction, Stage,
};

verus! {

/// What an entry of a listing stands for.
#[derive(Debug)]
pub enum Node {
    Directory(DirTree),
    /// Anything that is no directory.
    File,
    /// An entry whose type cannot be found out.
    Untyped,
    /// An entry that cannot be read.
    Unreadable,
}

/// A named entry of a listing.
#[derive(Debug)]
pub struct Child {
    pub name: String,
    pub node: Node,
}

/// A directory with all that lies below it.
#[derive(Debug)]
pub struct DirTree {
    /// What the test for the manifest answers here.
    pub probe: Probe,
    /// How the clean command ends if it is run here.
    pub clean: CleanResult,
    /// The entries, or `None` where the directory cannot be listed.
    pub listing: Option<Vec<Child>>,
}

/// One thing that a walk does.
#[derive(Clone, Copy, PartialEq, Eq, Debug)]
pub enum Act {
    Run(Command),
    Log(Notice),
}

/// One thing that a walk does, and where. The place is given from the root
/// of the walk: the position of each directory in the listing of the one
/// above it.
#[derive(PartialEq, Eq, Debug)]
pub struct Step {
    pub at: Vec<usize>,
    pub act: Act,
}

/// A [`Step`] as a plain value.
pub struct StepView {
    pub at: Seq<usize>,
    pub act: Act,
}

impl View for Step {
    type V = StepView;

    open spec fn view(&self) -> StepView {
        StepView { at: self.at@, act: self.act }
    }
}

/// The steps of a log as plain values.
pub open spec fn views(log: Seq<Step>) -> Seq<StepView> {
    Seq::new(log.len(), |i: int| log[i]@)
}

/// What a listing tells of a node.
pub open spec fn kind_of(node: Node) -> EntryKind {
    match node {
        Node::Directory(_) => EntryKind::Directory,
        Node::File => EntryKind::Other,
        Node::Untyped => EntryKind::Unknown,
        Node::Unreadable => EntryKind::Unreadable,
    }
}

/// The entry that a listing holds for a child.
pub open spec fn entry_of(child: Child) -> Entry {
    Entry { name: child.name, kind: kind_of(child.node) }
}

/// The listing as a caller on a real file system would report it.
pub open spec fn entries_of(children: Seq<Child>) -> Seq<Entry> {
    Seq::new(children.len(), |i: int| entry_of(children[i]))
}

/// The acts of one reaction: its notices in order, then its command.
pub open spec fn acts_of(notices: Seq<Notice>, command: Command) -> Seq<Act> {
    Seq::new(
        notices.len() + 1,
        |i: int|
            if i < notices.len() {
                Act::Log(notices[i])
            } else {
                Act::Run(command)
            },
    )
}

/// The given acts, all at one place.
pub open spec fn tagged(at: Seq<usize>, acts: Seq<Act>) -> Seq<StepView> {
    Seq::new(acts.len(), |i: int| StepView { at, act: acts[i] })
}

/// What listing the directory gives rise to: its notices and the command
/// that follows.
pub open spec fn listing_acts(tree: DirTree) -> Seq<Act> {
    match tree.listing {
        Some(children) => acts_of(
            entry_notices(entries_of(children@), children@.len()),
            Command::Descend,
        ),
        None => acts_of(seq![Notice::ListingFailed], Command::Finish),
    }
}

/// What cleaning gives rise to; nothing where no manifest was found.
pub open spec fn cleaning_acts(tree: DirTree) -> Seq<Act> {
    if manifest_found(tree.probe) {
        acts_of(seq![clean_notice(tree.clean)], Command::ListEntries)
    } else {
        Seq::empty()
    }
}

/// What testing for the manifest gives rise to.
pub open spec fn probing_acts(tree: DirTree) -> Seq<Act> {
    acts_of(notices_after(Event::Probed(tree.probe)), command_after(Event::Probed(tree.probe)))
}

/// Everything done in the directory itself, in order: the manifest test,
/// cleaning where the manifest was found, and only then the listing.
pub open spec fn own_acts(tree: DirTree) -> Seq<Act> {
    acts_of(Seq::empty(), Command::ProbeManifest) + probing_acts(tree) + cleaning_acts(tree)
        + listing_acts(tree)
}

/// The positions of the children that are visited.
pub open spec fn picks(tree: DirTree) -> Seq<usize> {
    match tree.listing {
        Some(children) => chosen(entries_of(children@), children@.len()),
        None => Seq::empty(),
    }
}

/// The steps of the walk through the first `upto` visited children of
/// `tree`, which lies at `at`. With `upto` zero these are the steps in the
/// directory itself.
pub open spec fn trace_upto(tree: DirTree, at: Seq<usize>, upto: nat) -> Seq<StepView>
    decreases tree, upto,
{
    if upto == 0 {
        tagged(at, own_acts(tree))
    } else {
        let before = trace_upto(tree, at, (upto - 1) as nat);
        let index = picks(tree)[upto - 1];
        if upto <= picks(tree).len() && tree.listing is Some && index
            < tree.listing.unwrap()@.len() {
            match tree.listing.unwrap()@[index as int].node {
                Node::Directory(sub) => before + trace_upto(
                    sub,
                    at.push(index),
                    picks(sub).len(),
                ),
                _ => before,
            }
        } else {
            before
        }
    }
}

/// The steps of the whole walk over `tree`, which lies at `at`.
pub open spec fn trace(tree: DirTree, at: Seq<usize>) -> Seq<StepView> {
    trace_upto(tree, at, picks(tree).len())
}

fn kind_of_node(node: &Node) -> (kind: EntryKind)
    ensures
        kind == kind_of(*node),
{
    match node {
        Node::Directory(_) => EntryKind::Directory,
        Node::File => EntryKind::Other,
        Node::Untyped => EntryKind::Unknown,
        Node::Unreadable => EntryKind::Unreadable,
    }
}

/// Reports a listing as a caller on a real file system would.
pub fn list_entries(children: &Vec<Child>) -> (entries: Vec<Entry>)
    ensures
        entries@ == entries_of(children@),
{
    let mut entries: Vec<Entry> = Vec::new();
    let mut i: usize = 0;
    while i < children.len()
        invariant
            i <= children.len(),
            entries@ == entries_of(children@.take(i as int)),
        decreases children.len() - i,
    {
        let child = &children[i];
        entries.push(Entry { name: child.name.clone(), kind: kind_of_node(&child.node) });
        i += 1;
        assert(entries@ =~= entries_of(children@.take(i as int)));
    }
    assert(children@.take(i as int) =~= children@);
    entries
}

fn copy_place(at: &Vec<usize>) -> (copy: Vec<usize>)
    ensures
        copy@ == at@,
{
    let mut copy: Vec<usize> = Vec::new();
    let mut i: usize = 0;
    while i < at.len()
        invariant
            i <= at.len(),
            copy@ == at@.take(i as int),
        decreases at.len() - i,
    {
        copy.push(at[i]);
        i += 1;
        assert(copy@ =~= at@.take(i as int));
    }
    assert(at@.take(i as int) =~= at@);
    copy
}

/// Writes a reaction down: its notices, then its command, all at `at`.
fn record(at: &Vec<usize>, reaction: &Reaction, log: &mut Vec<Step>)
    ensures
        views(final(log)@) == views(old(log)@) + tagged(
            at@,
            acts_of(reaction.notices@, reaction.command),
        ),
{
    let ghost start = views(log@);
    let ghost acts = acts_of(reaction.notices@, reaction.command);
    let mut i: usize = 0;
    while i < reaction.notices.len()
        invariant
            i <= reaction.notices.len(),
            acts == acts_of(reaction.notices@, reaction.command),
            views(log@) == start + tagged(at@, acts.take(i as int)),
        decreases reaction.notices.len() - i,
    {
        let ghost before = log@;
        let step = Step { at: copy_place(at), act: Act::Log(reaction.notices[i]) };
        log.push(step);
        proof {
            assert(views(log@) =~= views(before).push(step@));
            assert(tagged(at@, acts.take(i + 1)) =~= tagged(at@, acts.take(i as int)).push(
                step@,
            ));
        }
        i += 1;
    }
    let ghost before = log@;
    let step = Step { at: copy_place(at), act: Act::Run(reaction.command) };
    log.push(step);
    proof {
        assert(views(log@) =~= views(before).push(step@));
        assert(tagged(at@, acts) =~= tagged(at@, acts.take(i as int)).push(step@));
    }
}

/// Visits `tree`, which lies at `at`, and appends every step to `log`.
pub fn walk(tree: &DirTree, at: &Vec<usize>, log: &mut Vec<Step>)
    ensures
        views(final(log)@) == views(old(log)@) + trace(*tree, at@),
    decreases tree,
{
    let ghost start = views(log@);
    let first = begin();
    record(at, &first, log);
    let probed = Event::Probed(tree.probe);
    let after_probe = step(first.next, &probed).unwrap();
    record(at, &after_probe, log);
    let mut stage = after_probe.next;
    match after_probe.command {
        Command::RunClean => {
            let ended = Event::CleanEnded(tree.clean);
            let after_clean = step(stage, &ended).unwrap();
            record(at, &after_clean, log);
            stage = after_clean.next;
        },
        _ => {},
    }
    assert(stage == Stage::Listing);
    assert(views(log@) =~= start + tagged(
        at@,
        acts_of(Seq::empty(), Command::ProbeManifest) + probing_acts(*tree) + cleaning_acts(*tree),
    ));
    match &tree.listing {
        Some(children) => {
            let listed = Event::Listed(Some(list_entries(children)));
            let after_listing = step(stage, &listed).unwrap();
            record(at, &after_listing, log);
            assert(views(log@) =~= start + trace_upto(*tree, at@, 0));
            let mut j: usize = 0;
            while j < after_listing.descend.len()
                invariant
                    j <= after_listing.descend.len(),
                    tree.listing == Some(*children),
                    after_listing.descend@ == picks(*tree),
                    views(log@) == start + trace_upto(*tree, at@, j as nat),
                decreases after_listing.descend.len() - j,
            {
                let index = after_listing.descend[j];
                proof {
                    assert(children@.len() == children.len());
                    law_chosen_are_eligible(entries_of(children@), children@.len(), j as int);
                }
                match &children[index].node {
                    Node::Directory(sub) => {
                        let mut below = copy_place(at);
                        below.push(index);
                        walk(sub, &below, log);
                        assert(views(log@) =~= start + (trace_upto(*tree, at@, j as nat) + trace(
                            *sub,
                            at@.push(index),
                        )));
                    },
                    _ => {
                        assert(false);
                    },
                }
                j += 1;
            }
        },
        None => {
            let listed = Event::Listed(None);
            let after_listing = step(stage, &listed).unwrap();
            record(at, &after_listing, log);
            assert(views(log@) =~= start + trace_upto(*tree, at@, 0));
        },
    }
}

/// Visits the whole of `root` and returns every step in order.
pub fn survey(root: &DirTree) -> (log: Vec<Step>)
    ensures
        views(log@) == trace(*root, Seq::empty()),
{
    let mut log: Vec<Step> = Vec::new();
    let at: Vec<usize> = Vec::new();
    walk(root, &at, &mut log);
    assert(views(log@) =~= trace(*root, Seq::empty()));
    log
}

} // verus!
