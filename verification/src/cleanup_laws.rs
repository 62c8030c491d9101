//! What holds when background slots are removed.
use crate::cleanup::{
    busy_slot, cleaned, config_index, goes, going, going_of, kept_count, removable, staying,
    staying_of, Removal,
};
use crate::config::Config;
use crate::handler::clone_path;
use crate::handler_laws::{is_consistent, numbers_differ, slots_are_found_by_number};
use crate::request_laws::slots_have_directories_of_their_own;
use crate::seqs::{first_where, lemma_first_where};
use crate::state::{
    available, checked_out, has_number, named, project_index, slots_of, PendingAction,
    ProjectsView, SlotId, SlotView, StateView,
};
use vstd::prelude::*;

verus! {

/// Where the slot that stays at position `m` stood before.
pub open spec fn source(slots: Seq<SlotView>, busy: Option<SlotId>, keep: int, m: int) -> int
    decreases slots.len(),
{
    if slots.len() == 0 {
        0
    } else if m < staying(slots.drop_last(), busy, keep).len() {
        source(slots.drop_last(), busy, keep, m)
    } else {
        slots.len() - 1
    }
}

/// The slots that stay are those that do not go, in the same order.
pub proof fn staying_slots_keep_their_order(slots: Seq<SlotView>, busy: Option<SlotId>, keep: int)
    ensures
        forall|m: int|
            #![trigger source(slots, busy, keep, m)]
            0 <= m < staying(slots, busy, keep).len() ==> 0 <= source(slots, busy, keep, m)
                < slots.len() && staying(slots, busy, keep)[m] == slots[source(
                slots,
                busy,
                keep,
                m,
            )] && !goes(slots, busy, keep, source(slots, busy, keep, m)),
        forall|m: int, n: int|
            #![trigger source(slots, busy, keep, m), source(slots, busy, keep, n)]
            0 <= m < n < staying(slots, busy, keep).len() ==> source(slots, busy, keep, m)
                < source(slots, busy, keep, n),
        forall|j: int|
            #![trigger goes(slots, busy, keep, j)]
            0 <= j < slots.len() && !goes(slots, busy, keep, j) ==> exists|m: int|
                0 <= m < staying(slots, busy, keep).len() && #[trigger] source(
                    slots,
                    busy,
                    keep,
                    m,
                ) == j,
    decreases slots.len(),
{
    if slots.len() > 0 {
        let rest = slots.drop_last();
        let kept = staying(rest, busy, keep);
        let all = staying(slots, busy, keep);
        staying_slots_keep_their_order(rest, busy, keep);
        assert forall|j: int| 0 <= j < rest.len() implies #[trigger] goes(slots, busy, keep, j)
            == goes(rest, busy, keep, j) by {
            assert(slots.take(j) =~= rest.take(j));
        }
        assert forall|m: int| #![trigger source(slots, busy, keep, m)] 0 <= m < all.len() implies 0
            <= source(slots, busy, keep, m) < slots.len() && all[m] == slots[source(
            slots,
            busy,
            keep,
            m,
        )] && !goes(slots, busy, keep, source(slots, busy, keep, m)) by {
            if m < kept.len() {
                let j = source(rest, busy, keep, m);
                assert(all[m] == kept[m]);
                assert(kept[m] == rest[j]);
                assert(goes(slots, busy, keep, j) == goes(rest, busy, keep, j));
            }
        }
        assert forall|m: int, n: int|
            #![trigger source(slots, busy, keep, m), source(slots, busy, keep, n)]
            0 <= m < n < all.len() implies source(slots, busy, keep, m) < source(
            slots,
            busy,
            keep,
            n,
        ) by {
            assert(0 <= source(rest, busy, keep, m) < rest.len());
            if n < kept.len() {
                assert(source(rest, busy, keep, m) < source(rest, busy, keep, n));
            }
        }
        assert forall|j: int|
            #![trigger goes(slots, busy, keep, j)]
            0 <= j < slots.len() && !goes(slots, busy, keep, j) implies exists|m: int|
            0 <= m < all.len() && #[trigger] source(slots, busy, keep, m) == j by {
            if j < rest.len() {
                assert(!goes(rest, busy, keep, j));
                let m = choose|m: int|
                    0 <= m < kept.len() && #[trigger] source(rest, busy, keep, m) == j;
                assert(source(slots, busy, keep, m) == j);
            } else {
                assert(source(slots, busy, keep, kept.len() as int) == j);
            }
        }
    }
}

/// The checkouts of users stay, all of them and in order.
pub proof fn cleaning_keeps_checkouts(slots: Seq<SlotView>, busy: Option<SlotId>, keep: int)
    ensures
        staying(slots, busy, keep).filter(checked_out()) == slots.filter(checked_out()),
    decreases slots.len(),
{
    reveal(Seq::filter);
    if slots.len() > 0 {
        let rest = slots.drop_last();
        cleaning_keeps_checkouts(rest, busy, keep);
        let kept = staying(rest, busy, keep);
        assert(kept.push(slots.last()).drop_last() =~= kept);
    }
}

/// Of the slots that can be removed as many stay as are to stay, or all where
/// there are fewer; the others of the pool stay.
proof fn lemma_counts(slots: Seq<SlotView>, busy: Option<SlotId>, keep: int)
    requires
        keep >= 0,
    ensures
        ({
            let kept = staying(slots, busy, keep);
            let free = slots.filter(removable(busy)).len();
            let free_after = kept.filter(removable(busy)).len();
            &&& free_after == (if free < keep {
                free as int
            } else {
                keep
            })
            &&& kept.filter(available()).len() - free_after == slots.filter(available()).len()
                - free
            &&& kept.len() + going(slots, busy, keep).len() == slots.len()
        }),
    decreases slots.len(),
{
    reveal(Seq::filter);
    if slots.len() > 0 {
        let rest = slots.drop_last();
        lemma_counts(rest, busy, keep);
        let kept = staying(rest, busy, keep);
        assert(kept.push(slots.last()).drop_last() =~= kept);
        assert(slots.take(slots.len() - 1) =~= rest);
    }
}

/// Cleaning up brings the background slots of a configured project down to its
/// size where there are more of them, and changes nothing else of their number.
/// A slot that an action is under way on stays, also where the size is none.
pub proof fn cleaning_up_leaves_the_configured_size(
    config: Config,
    pending: Option<PendingAction>,
    entry: (Seq<char>, Seq<SlotView>),
)
    requires
        config_index(config, entry.0) is Some,
    ensures
        ({
            let size = config.spec_nslots(config.projects[config_index(config, entry.0)->0]);
            let before = entry.1.filter(available()).len();
            let fixed = before - entry.1.filter(
                removable(busy_slot(config, pending, entry.0)),
            ).len();
            let after = staying_of(config, pending, Removal::Extra, entry).filter(
                available(),
            ).len();
            &&& before <= size ==> after == before
            &&& before > size ==> after == (if fixed <= size {
                size as int
            } else {
                fixed
            })
            &&& pending is None ==> fixed == 0
        }),
{
    let busy = busy_slot(config, pending, entry.0);
    let keep = kept_count(config, Removal::Extra, entry.0, entry.1, busy);
    crate::cleanup::lemma_removable_is_available(entry.1, busy);
    crate::cleanup::lemma_negative_keep(entry.1, busy, keep);
    lemma_counts(
        entry.1,
        busy,
        if keep < 0 {
            0
        } else {
            keep
        },
    );
    if pending is None {
        assert(removable(busy) =~= available());
    }
}

/// Purging leaves no background slot, but for one that an action is under way on.
pub proof fn purging_leaves_no_background_slot(
    config: Config,
    pending: Option<PendingAction>,
    entry: (Seq<char>, Seq<SlotView>),
    m: int,
)
    requires
        0 <= m < staying_of(config, pending, Removal::All, entry).len(),
    ensures
        ({
            let slot = staying_of(config, pending, Removal::All, entry)[m];
            slot.status is CheckedOut || busy_slot(config, pending, entry.0) == Some(slot.id)
        }),
{
    let busy = busy_slot(config, pending, entry.0);
    staying_slots_keep_their_order(entry.1, busy, 0);
    let j = source(entry.1, busy, 0, m);
    assert(!goes(entry.1, busy, 0, j));
}

/// A project that is not configured is left alone when extra slots are removed.
pub proof fn cleaning_up_leaves_unknown_projects_alone(
    config: Config,
    pending: Option<PendingAction>,
    entry: (Seq<char>, Seq<SlotView>),
)
    requires
        config_index(config, entry.0) is None,
    ensures
        staying_of(config, pending, Removal::Extra, entry) == entry.1,
{
    let busy = busy_slot(config, pending, entry.0);
    lemma_all_stay(entry.1, busy, entry.1.len() as int);
}

proof fn lemma_all_stay(slots: Seq<SlotView>, busy: Option<SlotId>, keep: int)
    requires
        keep >= slots.len(),
    ensures
        staying(slots, busy, keep) == slots,
    decreases slots.len(),
{
    if slots.len() > 0 {
        let rest = slots.drop_last();
        lemma_all_stay(rest, busy, keep);
        assert(slots.take(slots.len() - 1) =~= rest);
        crate::cleanup::lemma_removable_is_available(rest, busy);
        assert(rest.push(slots.last()) =~= slots);
    }
}

/// What goes stood in the pool and does not stay.
pub proof fn lemma_going(slots: Seq<SlotView>, busy: Option<SlotId>, keep: int, n: int) -> (j: int)
    requires
        0 <= n < going(slots, busy, keep).len(),
    ensures
        0 <= j < slots.len(),
        going(slots, busy, keep)[n] == slots[j],
        goes(slots, busy, keep, j),
    decreases slots.len(),
{
    let rest = slots.drop_last();
    if n < going(rest, busy, keep).len() {
        let j = lemma_going(rest, busy, keep, n);
        assert(slots.take(j) =~= rest.take(j));
        j
    } else {
        slots.len() - 1
    }
}

/// No directory that is removed belongs to a slot that stays.
pub proof fn removed_directories_belong_to_no_slot(
    repos_dir: Seq<char>,
    config: Config,
    pending: Option<PendingAction>,
    removal: Removal,
    entry: (Seq<char>, Seq<SlotView>),
    m: int,
    n: int,
)
    requires
        numbers_differ(entry.1),
        0 <= m < staying_of(config, pending, removal, entry).len(),
        0 <= n < going_of(config, pending, removal, entry).len(),
    ensures
        clone_path(repos_dir, entry.0, staying_of(config, pending, removal, entry)[m].id)
            != clone_path(repos_dir, entry.0, going_of(config, pending, removal, entry)[n].id),
        !(going_of(config, pending, removal, entry)[n].status is CheckedOut),
{
    let busy = busy_slot(config, pending, entry.0);
    let keep = kept_count(config, removal, entry.0, entry.1, busy);
    staying_slots_keep_their_order(entry.1, busy, keep);
    let a = source(entry.1, busy, keep, m);
    let b = lemma_going(entry.1, busy, keep, n);
    assert(!goes(entry.1, busy, keep, a));
    assert(a != b);
    assert(entry.1[a].id != entry.1[b].id);
    let stays = staying_of(config, pending, removal, entry)[m].id;
    let gone = going_of(config, pending, removal, entry)[n].id;
    if clone_path(repos_dir, entry.0, stays) == clone_path(repos_dir, entry.0, gone) {
        slots_have_directories_of_their_own(repos_dir, entry.0, stays, gone);
    }
}

/// Removing slots leaves the projects in their places.
pub proof fn lemma_cleaned_slots_of(
    config: Config,
    pending: Option<PendingAction>,
    removal: Removal,
    projects: ProjectsView,
    name: Seq<char>,
)
    ensures
        project_index(cleaned(config, pending, removal, projects), name) == project_index(
            projects,
            name,
        ),
        slots_of(cleaned(config, pending, removal, projects), name) == staying_of(
            config,
            pending,
            removal,
            (name, slots_of(projects, name)),
        ),
{
    let after = cleaned(config, pending, removal, projects);
    lemma_first_where(projects, named(name));
    lemma_same_index(projects, after, name);
}

proof fn lemma_same_index(a: ProjectsView, b: ProjectsView, name: Seq<char>)
    requires
        a.len() == b.len(),
        forall|k: int| 0 <= k < a.len() ==> (#[trigger] a[k]).0 == b[k].0,
    ensures
        project_index(a, name) == project_index(b, name),
    decreases a.len(),
{
    if a.len() > 0 {
        lemma_same_index(a.drop_last(), b.drop_last(), name);
        assert(a[a.len() - 1].0 == b[a.len() - 1].0);
    }
}

proof fn lemma_staying_numbers_differ(slots: Seq<SlotView>, busy: Option<SlotId>, keep: int)
    requires
        numbers_differ(slots),
    ensures
        numbers_differ(staying(slots, busy, keep)),
{
    staying_slots_keep_their_order(slots, busy, keep);
    let kept = staying(slots, busy, keep);
    assert forall|m: int, n: int|
        #![trigger kept[m], kept[n]]
        0 <= m < n < kept.len() implies kept[m].id != kept[n].id by {
        let a = source(slots, busy, keep, m);
        let b = source(slots, busy, keep, n);
        assert(slots[a].id != slots[b].id);
    }
}

/// Removing background slots keeps the state consistent.
pub proof fn cleaning_keeps_consistency(config: Config, state: StateView, removal: Removal)
    requires
        is_consistent(config, state),
    ensures
        is_consistent(
            config,
            StateView {
                projects: cleaned(config, state.pending_action, removal, state.projects),
                ..state
            },
        ),
{
    let pending = state.pending_action;
    let after = cleaned(config, pending, removal, state.projects);
    assert forall|k: int| 0 <= k < after.len() implies numbers_differ((#[trigger] after[k]).1) by {
        let entry = state.projects[k];
        let busy = busy_slot(config, pending, entry.0);
        lemma_staying_numbers_differ(
            entry.1,
            busy,
            kept_count(config, removal, entry.0, entry.1, busy),
        );
    }
    if let Some(action) = pending {
        let name = config.projects[action.spec_project().0 as int].name@;
        let slots = slots_of(state.projects, name);
        let number = action.spec_slot().0;
        let busy = busy_slot(config, pending, name);
        let keep = kept_count(config, removal, name, slots, busy);
        lemma_cleaned_slots_of(config, pending, removal, state.projects, name);
        lemma_first_where(state.projects, named(name));
        lemma_first_where(after, named(name));
        lemma_first_where(slots, has_number(number));
        let j = first_where(slots, has_number(number))->0;
        staying_slots_keep_their_order(slots, busy, keep);
        assert(!goes(slots, busy, keep, j));
        let m = choose|m: int|
            0 <= m < staying(slots, busy, keep).len() && #[trigger] source(slots, busy, keep, m)
                == j;
        lemma_staying_numbers_differ(slots, busy, keep);
        slots_are_found_by_number(staying(slots, busy, keep), m);
    }
}

} // verus!
