//! What holds of every walk.

use vstd::prelude::*;
use crate::names::artifact_name;
use crate::notice::Notice;
use crate::visit::{
    accepts, clean_notice, command_after, eligible, entry_notices, law_chosen_are_eligible,
    law_chosen_ascend, law_eligible_are_chosen, manifest_found, next_stage, notices_after,
    CleanResult, Command, Event, Stage,
};
use crate::tree::{
    acts_of, cleaning_acts, entries_of, entry_of, kind_of, listing_acts, own_acts, picks,
    probing_acts, tagged, trace, trace_upto, Act, DirTree, Node, StepView,
};

verus! {

/// Whether `place` lies at or below `at`.
pub open spec fn within(at: Seq<usize>, place: Seq<usize>) -> bool {
    at.len() <= place.len() && place.take(at.len() as int) == at
}

/// Whether `path` leads from `tree` downwards through eligible children
/// only: at every level a directory whose name is not the excluded one, in a
/// directory that can be listed.
pub open spec fn admitted(tree: DirTree, path: Seq<usize>) -> bool
    decreases path.len(),
{
    if path.len() == 0 {
        true
    } else {
        &&& tree.listing is Some
        &&& path[0] < tree.listing.unwrap()@.len()
        &&& eligible(entry_of(tree.listing.unwrap()@[path[0] as int]))
        &&& match tree.listing.unwrap()@[path[0] as int].node {
            Node::Directory(sub) => admitted(sub, path.drop_first()),
            _ => false,
        }
    }
}

/// The directory that an admitted `path` leads to.
pub open spec fn dir_at(tree: DirTree, path: Seq<usize>) -> DirTree
    decreases path.len(),
{
    if path.len() == 0 {
        tree
    } else if tree.listing is Some && path[0] < tree.listing.unwrap()@.len() {
        match tree.listing.unwrap()@[path[0] as int].node {
            Node::Directory(sub) => dir_at(sub, path.drop_first()),
            _ => tree,
        }
    } else {
        tree
    }
}

/// However far the walk has come, it starts with the steps in the directory
/// itself.
proof fn lemma_own_steps_stay(tree: DirTree, at: Seq<usize>, upto: nat)
    ensures
        tagged(at, own_acts(tree)).len() <= trace_upto(tree, at, upto).len(),
        trace_upto(tree, at, upto).take(tagged(at, own_acts(tree)).len() as int) == tagged(
            at,
            own_acts(tree),
        ),
    decreases upto,
{
    let own = tagged(at, own_acts(tree));
    if upto == 0 {
        assert(trace_upto(tree, at, upto).take(own.len() as int) =~= own);
    } else {
        lemma_own_steps_stay(tree, at, (upto - 1) as nat);
        let before = trace_upto(tree, at, (upto - 1) as nat);
        assert(before.take(own.len() as int) == own);
        assert(trace_upto(tree, at, upto).take(own.len() as int) =~= before.take(
            own.len() as int,
        ));
    }
}

/// However far the walk has come, every step was taken at or below the place
/// of its root, on an admitted path, and every step after those in the root
/// itself strictly below it.
proof fn lemma_steps_stay_admitted(tree: DirTree, at: Seq<usize>, upto: nat, k: int)
    requires
        0 <= k < trace_upto(tree, at, upto).len(),
    ensures
        within(at, trace_upto(tree, at, upto)[k].at),
        admitted(tree, trace_upto(tree, at, upto)[k].at.skip(at.len() as int)),
        k >= tagged(at, own_acts(tree)).len() ==> trace_upto(tree, at, upto)[k].at.len()
            > at.len(),
    decreases tree, upto,
{
    let place = trace_upto(tree, at, upto)[k].at;
    if upto == 0 {
        assert(place.take(at.len() as int) =~= at);
    } else {
        let before = trace_upto(tree, at, (upto - 1) as nat);
        lemma_own_steps_stay(tree, at, (upto - 1) as nat);
        if k < before.len() {
            lemma_steps_stay_admitted(tree, at, (upto - 1) as nat, k);
        } else {
            let index = picks(tree)[upto - 1];
            let children = tree.listing.unwrap()@;
            let sub = children[index as int].node->Directory_0;
            let below = at.push(index);
            lemma_steps_stay_admitted(sub, below, picks(sub).len(), k - before.len());
            assert(children.len() == tree.listing.unwrap().len());
            law_chosen_are_eligible(entries_of(children), children.len(), upto - 1);
            let path = place.skip(at.len() as int);
            assert(place.take(below.len() as int) == below);
            assert(place.take(at.len() as int) =~= below.take(at.len() as int));
            assert(below.take(at.len() as int) =~= at);
            assert(path[0] == place.take(below.len() as int)[at.len() as int]);
            assert(path.drop_first() =~= place.skip(below.len() as int));
        }
    }
}

/// The walk never enters a directory with the excluded name. Every step is
/// taken at or below the place of the walk's root, on a path that leads
/// through eligible directories only, none of which has the excluded name:
/// no step is taken in a directory of that name, nor anywhere below one,
/// whatever it holds.
pub proof fn law_walk_keeps_out_of_excluded(tree: DirTree, at: Seq<usize>, k: int)
    requires
        0 <= k < trace(tree, at).len(),
    ensures
        within(at, trace(tree, at)[k].at),
        admitted(tree, trace(tree, at)[k].at.skip(at.len() as int)),
        forall|level: int|
            0 <= level < trace(tree, at)[k].at.len() - at.len() ==> #[trigger] names_along(
                tree,
                trace(tree, at)[k].at.skip(at.len() as int),
            )[level] != artifact_name(),
{
    lemma_steps_stay_admitted(tree, at, picks(tree).len(), k);
    let path = trace(tree, at)[k].at.skip(at.len() as int);
    assert forall|level: int| 0 <= level < path.len() implies #[trigger] names_along(
        tree,
        path,
    )[level] != artifact_name() by {
        law_admitted_paths_avoid_excluded_name(tree, path, level);
    }
}

/// A directory is dealt with before anything below it: the walk starts with
/// the steps in the directory itself, and every later step is taken strictly
/// below it.
pub proof fn law_directory_comes_before_its_children(tree: DirTree, at: Seq<usize>, k: int)
    requires
        0 <= k < trace(tree, at).len(),
    ensures
        tagged(at, own_acts(tree)).len() <= trace(tree, at).len(),
        k < tagged(at, own_acts(tree)).len() ==> trace(tree, at)[k] == tagged(
            at,
            own_acts(tree),
        )[k],
        k >= tagged(at, own_acts(tree)).len() ==> trace(tree, at)[k].at.len() > at.len(),
{
    lemma_own_steps_stay(tree, at, picks(tree).len());
    lemma_steps_stay_admitted(tree, at, picks(tree).len(), k);
    let own = tagged(at, own_acts(tree));
    if k < own.len() {
        assert(trace(tree, at).take(own.len() as int)[k] == own[k]);
    }
}

/// How often `step` occurs among `steps`.
pub open spec fn occurrences(steps: Seq<StepView>, step: StepView) -> nat
    decreases steps.len(),
{
    if steps.len() == 0 {
        0
    } else {
        occurrences(steps.drop_last(), step) + if steps.last() == step {
            1nat
        } else {
            0nat
        }
    }
}

/// The step that carries out `command` in the directory at `place`.
pub open spec fn run_step(place: Seq<usize>, command: Command) -> StepView {
    StepView { at: place, act: Act::Run(command) }
}

/// How often a visit carries out `command` in the directory itself: the
/// manifest test and the listing once, the clean command once where the
/// manifest was found, and at the end either the descent or, where the
/// listing failed, the finish.
pub open spec fn runs_in(tree: DirTree, command: Command) -> nat {
    match command {
        Command::ProbeManifest => 1,
        Command::RunClean => if manifest_found(tree.probe) {
            1
        } else {
            0
        },
        Command::ListEntries => 1,
        Command::Descend => if tree.listing is Some {
            1
        } else {
            0
        },
        Command::Finish => if tree.listing is None {
            1
        } else {
            0
        },
    }
}

proof fn lemma_occurrences_add(a: Seq<StepView>, b: Seq<StepView>, step: StepView)
    ensures
        occurrences(a + b, step) == occurrences(a, step) + occurrences(b, step),
    decreases b.len(),
{
    if b.len() == 0 {
        assert(a + b =~= a);
    } else {
        lemma_occurrences_add(a, b.drop_last(), step);
        assert((a + b).drop_last() =~= a + b.drop_last());
    }
}

proof fn lemma_occurrences_none(steps: Seq<StepView>, step: StepView)
    requires
        forall|k: int| 0 <= k < steps.len() ==> steps[k] != step,
    ensures
        occurrences(steps, step) == 0,
    decreases steps.len(),
{
    if steps.len() > 0 {
        lemma_occurrences_none(steps.drop_last(), step);
    }
}

proof fn lemma_tagged_add(at: Seq<usize>, a: Seq<Act>, b: Seq<Act>)
    ensures
        tagged(at, a + b) == tagged(at, a) + tagged(at, b),
{
    assert(tagged(at, a + b) =~= tagged(at, a) + tagged(at, b));
}

/// Among the acts of one reaction a command is run once if it is the
/// reaction's own command, and not at all otherwise.
proof fn lemma_reaction_runs_once(
    at: Seq<usize>,
    notices: Seq<Notice>,
    command: Command,
    wanted: Command,
)
    ensures
        occurrences(
            tagged(at, acts_of(notices, command)),
            StepView { at, act: Act::Run(wanted) },
        ) == if command == wanted {
            1nat
        } else {
            0nat
        },
{
    let steps = tagged(at, acts_of(notices, command));
    let step = StepView { at, act: Act::Run(wanted) };
    lemma_occurrences_none(steps.drop_last(), step);
    assert(steps.last().act == Act::Run(command));
}

/// The steps in the directory itself carry out each command as often as
/// [`runs_in`] says.
proof fn lemma_own_runs(tree: DirTree, at: Seq<usize>, command: Command)
    ensures
        occurrences(tagged(at, own_acts(tree)), run_step(at, command)) == runs_in(tree, command),
{
    let opening = acts_of(Seq::empty(), Command::ProbeManifest);
    let probing = probing_acts(tree);
    let cleaning = cleaning_acts(tree);
    let listing = listing_acts(tree);
    let wanted = run_step(at, command);
    lemma_tagged_add(at, opening + probing + cleaning, listing);
    lemma_tagged_add(at, opening + probing, cleaning);
    lemma_tagged_add(at, opening, probing);
    lemma_occurrences_add(
        tagged(at, opening) + tagged(at, probing) + tagged(at, cleaning),
        tagged(at, listing),
        wanted,
    );
    lemma_occurrences_add(tagged(at, opening) + tagged(at, probing), tagged(at, cleaning), wanted);
    lemma_occurrences_add(tagged(at, opening), tagged(at, probing), wanted);
    lemma_reaction_runs_once(at, Seq::empty(), Command::ProbeManifest, command);
    lemma_reaction_runs_once(
        at,
        notices_after(Event::Probed(tree.probe)),
        command_after(Event::Probed(tree.probe)),
        command,
    );
    if manifest_found(tree.probe) {
        lemma_reaction_runs_once(
            at,
            seq![clean_notice(tree.clean)],
            Command::ListEntries,
            command,
        );
    } else {
        assert(tagged(at, cleaning) =~= Seq::<StepView>::empty());
    }
    match tree.listing {
        Some(children) => {
            lemma_reaction_runs_once(
                at,
                entry_notices(entries_of(children@), children@.len()),
                Command::Descend,
                command,
            );
        },
        None => {
            lemma_reaction_runs_once(at, seq![Notice::ListingFailed], Command::Finish, command);
        },
    }
}

/// However far the walk has come below a directory, what was carried out in
/// the directory itself stays as [`runs_in`] says.
proof fn lemma_runs_at_root(tree: DirTree, at: Seq<usize>, upto: nat, command: Command)
    ensures
        occurrences(trace_upto(tree, at, upto), run_step(at, command)) == runs_in(tree, command),
    decreases upto,
{
    if upto == 0 {
        lemma_own_runs(tree, at, command);
    } else {
        let before = trace_upto(tree, at, (upto - 1) as nat);
        lemma_runs_at_root(tree, at, (upto - 1) as nat, command);
        if trace_upto(tree, at, upto) != before {
            let index = picks(tree)[upto - 1];
            let sub = tree.listing.unwrap()@[index as int].node->Directory_0;
            let below = trace(sub, at.push(index));
            assert forall|k: int| 0 <= k < below.len() implies below[k] != run_step(
                at,
                command,
            ) by {
                lemma_steps_stay_admitted(sub, at.push(index), picks(sub).len(), k);
            }
            lemma_occurrences_none(below, run_step(at, command));
            lemma_occurrences_add(before, below, run_step(at, command));
        }
    }
}

/// Counts how often `command` is carried out at the end of a path that
/// starts with the child chosen at position `j`, after the walk has been
/// through the first `upto` chosen children.
proof fn lemma_runs_below(
    tree: DirTree,
    at: Seq<usize>,
    path: Seq<usize>,
    command: Command,
    j: int,
    upto: nat,
)
    requires
        path.len() > 0,
        admitted(tree, path),
        0 <= j < picks(tree).len(),
        picks(tree)[j] == path[0],
    ensures
        occurrences(trace_upto(tree, at, upto), run_step(at + path, command)) == if upto > j {
            runs_in(dir_at(tree, path), command)
        } else {
            0
        },
    decreases path.len(), upto,
{
    let wanted = run_step(at + path, command);
    let children = tree.listing.unwrap()@;
    assert(children.len() == tree.listing.unwrap().len());
    if upto == 0 {
        let own = tagged(at, own_acts(tree));
        assert forall|k: int| 0 <= k < own.len() implies own[k] != wanted by {
            assert(own[k].at.len() != wanted.at.len());
        }
        lemma_occurrences_none(own, wanted);
    } else {
        let before = trace_upto(tree, at, (upto - 1) as nat);
        lemma_runs_below(tree, at, path, command, j, (upto - 1) as nat);
        if upto <= picks(tree).len() {
            let index = picks(tree)[upto - 1];
            law_chosen_are_eligible(entries_of(children), children.len(), upto - 1);
            let sub = children[index as int].node->Directory_0;
            let below = trace(sub, at.push(index));
            assert(trace_upto(tree, at, upto) == before + below);
            lemma_occurrences_add(before, below, wanted);
            if upto - 1 == j {
                assert(at + path =~= at.push(index) + path.drop_first());
                law_reached_directories_are_visited_once(
                    sub,
                    at.push(index),
                    path.drop_first(),
                    command,
                );
            } else {
                if upto - 1 < j {
                    law_chosen_ascend(entries_of(children), children.len(), upto - 1, j);
                } else {
                    law_chosen_ascend(entries_of(children), children.len(), j, upto - 1);
                }
                assert forall|k: int| 0 <= k < below.len() implies below[k] != wanted by {
                    lemma_steps_stay_admitted(sub, at.push(index), picks(sub).len(), k);
                    let place = below[k].at;
                    assert(place.take((at.len() + 1) as int)[at.len() as int] == index);
                    assert(wanted.at[at.len() as int] == path[0]);
                }
                lemma_occurrences_none(below, wanted);
            }
        }
    }
}

/// Every directory that can be reached from the root through eligible
/// directories is visited exactly once: its manifest is tested once, it is
/// listed once, and each other command is carried out there as often as
/// [`runs_in`] says, whatever order the listings have.
pub proof fn law_reached_directories_are_visited_once(
    tree: DirTree,
    at: Seq<usize>,
    path: Seq<usize>,
    command: Command,
)
    requires
        admitted(tree, path),
    ensures
        occurrences(trace(tree, at), run_step(at + path, command)) == runs_in(
            dir_at(tree, path),
            command,
        ),
    decreases path.len(), picks(tree).len() + 1,
{
    if path.len() == 0 {
        assert(at + path =~= at);
        lemma_runs_at_root(tree, at, picks(tree).len(), command);
    } else {
        let children = tree.listing.unwrap()@;
        assert(children.len() == tree.listing.unwrap().len());
        law_eligible_are_chosen(entries_of(children), children.len(), path[0]);
        let j = choose|j: int| 0 <= j < picks(tree).len() && picks(tree)[j] == path[0];
        lemma_runs_below(tree, at, path, command, j, picks(tree).len());
    }
}

/// In every directory that the walk reaches, the clean command is launched
/// exactly once if the manifest was found there, and never if it was not
/// found or the test for it failed.
pub proof fn law_clean_once_where_manifest_found(tree: DirTree, at: Seq<usize>, path: Seq<usize>)
    requires
        admitted(tree, path),
    ensures
        occurrences(trace(tree, at), run_step(at + path, Command::RunClean)) == if manifest_found(
            dir_at(tree, path).probe,
        ) {
            1nat
        } else {
            0nat
        },
{
    law_reached_directories_are_visited_once(tree, at, path, Command::RunClean);
}

/// The name of the directory entered at each level of a path.
pub open spec fn names_along(tree: DirTree, path: Seq<usize>) -> Seq<Seq<char>>
    decreases path.len(),
{
    if path.len() == 0 {
        Seq::empty()
    } else if tree.listing is Some && path[0] < tree.listing.unwrap()@.len() {
        let child = tree.listing.unwrap()@[path[0] as int];
        match child.node {
            Node::Directory(sub) => seq![child.name@] + names_along(sub, path.drop_first()),
            _ => seq![child.name@],
        }
    } else {
        Seq::empty()
    }
}

/// A path that the walk may take names a directory at every level, and none
/// of them has the excluded name.
pub proof fn law_admitted_paths_avoid_excluded_name(tree: DirTree, path: Seq<usize>, level: int)
    requires
        admitted(tree, path),
        0 <= level < path.len(),
    ensures
        names_along(tree, path).len() == path.len(),
        names_along(tree, path)[level] != artifact_name(),
    decreases path.len(),
{
    let child = tree.listing.unwrap()@[path[0] as int];
    let sub = child.node->Directory_0;
    if path.len() > 1 {
        if level > 0 {
            law_admitted_paths_avoid_excluded_name(sub, path.drop_first(), level - 1);
        } else {
            law_admitted_paths_avoid_excluded_name(sub, path.drop_first(), 0);
        }
    } else {
        assert(names_along(sub, path.drop_first()).len() == 0);
    }
}

/// Nothing is done outside the part of the tree that the walk reaches: in
/// particular the clean command is never launched in a directory with the
/// excluded name or below one, whatever manifest it holds.
pub proof fn law_nothing_done_elsewhere(tree: DirTree, at: Seq<usize>, path: Seq<usize>, act: Act)
    requires
        !admitted(tree, path),
    ensures
        occurrences(trace(tree, at), StepView { at: at + path, act }) == 0,
{
    let steps = trace(tree, at);
    let step = StepView { at: at + path, act };
    assert forall|k: int| 0 <= k < steps.len() implies steps[k] != step by {
        lemma_steps_stay_admitted(tree, at, picks(tree).len(), k);
        if steps[k] == step {
            assert(step.at.skip(at.len() as int) =~= path);
        }
    }
    lemma_occurrences_none(steps, step);
}

/// The walk over every reached directory is part of the whole walk, in one
/// piece and unchanged, whatever happens in the directories beside it: a
/// listing that fails ends the visit of that directory alone.
pub proof fn law_reached_walks_are_whole(tree: DirTree, at: Seq<usize>, path: Seq<usize>) -> (from:
    int)
    requires
        admitted(tree, path),
    ensures
        0 <= from,
        from + trace(dir_at(tree, path), at + path).len() <= trace(tree, at).len(),
        trace(tree, at).subrange(
            from,
            from + trace(dir_at(tree, path), at + path).len(),
        ) == trace(dir_at(tree, path), at + path),
    decreases path.len(),
{
    if path.len() == 0 {
        assert(at + path =~= at);
        assert(trace(tree, at).subrange(0, trace(tree, at).len() as int) =~= trace(tree, at));
        0
    } else {
        let children = tree.listing.unwrap()@;
        assert(children.len() == tree.listing.unwrap().len());
        law_eligible_are_chosen(entries_of(children), children.len(), path[0]);
        let j = choose|j: int| 0 <= j < picks(tree).len() && picks(tree)[j] == path[0];
        let sub = children[path[0] as int].node->Directory_0;
        let below = at.push(path[0]);
        let inner = law_reached_walks_are_whole(sub, below, path.drop_first());
        assert(at + path =~= below + path.drop_first());
        let before = trace_upto(tree, at, j as nat);
        let through = trace_upto(tree, at, (j + 1) as nat);
        assert(through == before + trace(sub, below));
        lemma_walk_only_grows(tree, at, (j + 1) as nat, picks(tree).len());
        let target = trace(dir_at(tree, path), at + path);
        let from = before.len() + inner;
        assert(target == trace(dir_at(sub, path.drop_first()), below + path.drop_first()));
        lemma_piece_of_piece(trace(tree, at), before, trace(sub, below), inner, target);
        from
    }
}

/// A piece of a part of a sequence is a piece of the sequence.
proof fn lemma_piece_of_piece(
    whole: Seq<StepView>,
    before: Seq<StepView>,
    part: Seq<StepView>,
    inner: int,
    piece: Seq<StepView>,
)
    requires
        (before + part).len() <= whole.len(),
        whole.take((before + part).len() as int) == before + part,
        0 <= inner,
        inner + piece.len() <= part.len(),
        part.subrange(inner, inner + piece.len()) == piece,
    ensures
        before.len() + inner + piece.len() <= whole.len(),
        whole.subrange(before.len() + inner, before.len() + inner + piece.len()) == piece,
{
    let from = before.len() + inner;
    let through = before + part;
    assert forall|x: int| 0 <= x < piece.len() implies whole[from + x] == piece[x] by {
        assert(whole[from + x] == whole.take(through.len() as int)[from + x]);
        assert(through[from + x] == part[inner + x]);
        assert(part.subrange(inner, inner + piece.len())[x] == piece[x]);
    }
    assert(whole.subrange(from, from + piece.len()) =~= piece);
}

/// A directory that cannot be listed is left after the steps in the directory
/// itself, the last two of which report the failure and end the visit.
pub proof fn law_failed_listing_ends_the_visit(tree: DirTree, at: Seq<usize>)
    requires
        tree.listing is None,
    ensures
        trace(tree, at) == tagged(at, own_acts(tree)),
        own_acts(tree).len() >= 2,
        own_acts(tree)[own_acts(tree).len() - 2] == Act::Log(Notice::ListingFailed),
        own_acts(tree).last() == Act::Run(Command::Finish),
{
}

/// What the walk has written down stays as it is while the walk goes on.
proof fn lemma_walk_only_grows(tree: DirTree, at: Seq<usize>, sooner: nat, later: nat)
    requires
        sooner <= later,
    ensures
        trace_upto(tree, at, sooner).len() <= trace_upto(tree, at, later).len(),
        trace_upto(tree, at, later).take(trace_upto(tree, at, sooner).len() as int) == trace_upto(
            tree,
            at,
            sooner,
        ),
    decreases later,
{
    let early = trace_upto(tree, at, sooner);
    if sooner == later {
        assert(early.take(early.len() as int) =~= early);
    } else {
        lemma_walk_only_grows(tree, at, sooner, (later - 1) as nat);
        let before = trace_upto(tree, at, (later - 1) as nat);
        assert(trace_upto(tree, at, later).take(early.len() as int) =~= before.take(
            early.len() as int,
        ));
    }
}

/// In the directory itself the clean command is launched before the listing
/// is asked for, and both before the choice of children.
pub proof fn law_clean_precedes_listing(tree: DirTree, i: int, j: int)
    requires
        0 <= i < own_acts(tree).len(),
        0 <= j < own_acts(tree).len(),
        own_acts(tree)[i] == Act::Run(Command::RunClean),
        own_acts(tree)[j] == Act::Run(Command::ListEntries) || own_acts(tree)[j] == Act::Run(
            Command::Descend,
        ) || own_acts(tree)[j] == Act::Run(Command::Finish),
    ensures
        manifest_found(tree.probe),
        i < j,
{
}

/// However the clean command ends, the visit goes on to the listing.
pub proof fn law_cleaning_never_ends_a_visit(result: CleanResult)
    ensures
        accepts(Stage::Cleaning, Event::CleanEnded(result)),
        next_stage(Event::CleanEnded(result)) == Stage::Listing,
        command_after(Event::CleanEnded(result)) == Command::ListEntries,
{
}

/// Whether two trees are the same but for how the clean command ends in
/// their directories.
pub open spec fn alike_but_for_cleaning(a: DirTree, b: DirTree) -> bool
    decreases a,
{
    &&& a.probe == b.probe
    &&& a.listing is Some <==> b.listing is Some
    &&& a.listing is Some ==> {
        let mine = a.listing.unwrap()@;
        let theirs = b.listing.unwrap()@;
        &&& mine.len() == theirs.len()
        &&& forall|i: int|
            0 <= i < mine.len() ==> {
                &&& (#[trigger] mine[i]).name@ == theirs[i].name@
                &&& kind_of(mine[i].node) == kind_of(theirs[i].node)
                &&& match mine[i].node {
                    Node::Directory(sub) => theirs[i].node is Directory && alike_but_for_cleaning(
                        sub,
                        theirs[i].node->Directory_0,
                    ),
                    _ => true,
                }
            }
    }
}

/// In trees that are alike but for cleaning the same paths are admitted, and
/// they lead to directories that are alike but for cleaning.
proof fn lemma_alike_trees_admit_alike(a: DirTree, b: DirTree, path: Seq<usize>)
    requires
        alike_but_for_cleaning(a, b),
    ensures
        admitted(a, path) == admitted(b, path),
        admitted(a, path) ==> alike_but_for_cleaning(dir_at(a, path), dir_at(b, path)),
    decreases path.len(),
{
    if path.len() > 0 && a.listing is Some && path[0] < a.listing.unwrap()@.len() {
        let mine = a.listing.unwrap()@[path[0] as int];
        let theirs = b.listing.unwrap()@[path[0] as int];
        match mine.node {
            Node::Directory(sub) => {
                lemma_alike_trees_admit_alike(sub, theirs.node->Directory_0, path.drop_first());
            },
            _ => {},
        }
    }
}

/// How the clean command ends has no bearing on the course of the walk: in
/// two trees that are alike but for that, the same commands are carried out
/// at the same places, each as often in the one as in the other. A walk over
/// a tree that was cleaned before therefore takes the course of the first.
pub proof fn law_course_does_not_depend_on_cleaning(
    a: DirTree,
    b: DirTree,
    at: Seq<usize>,
    place: Seq<usize>,
    command: Command,
)
    requires
        alike_but_for_cleaning(a, b),
    ensures
        occurrences(trace(a, at), run_step(place, command)) == occurrences(
            trace(b, at),
            run_step(place, command),
        ),
{
    let wanted = run_step(place, command);
    if within(at, place) {
        let path = place.skip(at.len() as int);
        assert(at + path =~= place);
        lemma_alike_trees_admit_alike(a, b, path);
        if admitted(a, path) {
            law_reached_directories_are_visited_once(a, at, path, command);
            law_reached_directories_are_visited_once(b, at, path, command);
        } else {
            law_nothing_done_elsewhere(a, at, path, Act::Run(command));
            law_nothing_done_elsewhere(b, at, path, Act::Run(command));
        }
    } else {
        assert forall|k: int| 0 <= k < trace(a, at).len() implies trace(a, at)[k] != wanted by {
            lemma_steps_stay_admitted(a, at, picks(a).len(), k);
        }
        assert forall|k: int| 0 <= k < trace(b, at).len() implies trace(b, at)[k] != wanted by {
            lemma_steps_stay_admitted(b, at, picks(b).len(), k);
        }
        lemma_occurrences_none(trace(a, at), wanted);
        lemma_occurrences_none(trace(b, at), wanted);
    }
}

} // verus!
