//! Removing background slots: those that a pool has too many of, or all.
use crate::config::{Config, ProjectConfig};
use crate::handler::{clone_dest, clone_path};
use crate::seqs::{first_where, lemma_filter_step, lemma_first_where_is, lemma_first_where_none};
use crate::state::{
    available, PendingAction, ProjectState, ProjectsView, ServerState, Slot, SlotId, SlotStatus,
    SlotView, StateView,
};
use crate::text::views;
use vstd::prelude::*;

verus! {

/// Which background slots are to go.
#[derive(Debug, Clone, Copy, PartialEq, Eq, Structural)]
pub enum Removal {
    /// Those that a pool has beyond its configured size.
    Extra,
    /// All.
    All,
}

/// The slot of the project that an action is under way on.
pub open spec fn busy_slot(
    config: Config,
    pending: Option<PendingAction>,
    name: Seq<char>,
) -> Option<SlotId> {
    match pending {
        Some(action) => if action.spec_project().0 < config.projects@.len()
            && config.projects[action.spec_project().0 as int].name@ == name {
            Some(action.spec_slot())
        } else {
            None
        },
        None => None,
    }
}

/// The predicate of the slots that can be removed: they are neither in the hands
/// of a user nor is an action under way on them.
pub open spec fn removable(busy: Option<SlotId>) -> spec_fn(SlotView) -> bool {
    |s: SlotView| !(s.status is CheckedOut) && busy != Some(s.id)
}

/// Where a project stands in the configuration.
pub open spec fn config_index(config: Config, name: Seq<char>) -> Option<int> {
    first_where(config.projects@, |p: ProjectConfig| p.name@ == name)
}

/// How many of the slots that can be removed stay. A project that is not
/// configured has no size to come down to.
pub open spec fn kept_count(
    config: Config,
    removal: Removal,
    name: Seq<char>,
    slots: Seq<SlotView>,
    busy: Option<SlotId>,
) -> int {
    match removal {
        Removal::All => 0,
        Removal::Extra => match config_index(config, name) {
            Some(i) => config.spec_nslots(config.projects[i]) - (slots.filter(available()).len()
                - slots.filter(removable(busy)).len()),
            None => slots.len() as int,
        },
    }
}

/// Whether the slot at position `j` goes: it can be removed, and as many as stay
/// of those that can stand before it.
pub open spec fn goes(slots: Seq<SlotView>, busy: Option<SlotId>, keep: int, j: int) -> bool {
    removable(busy)(slots[j]) && slots.take(j).filter(removable(busy)).len() >= keep
}

/// The slots that stay, in order.
pub open spec fn staying(slots: Seq<SlotView>, busy: Option<SlotId>, keep: int) -> Seq<SlotView>
    decreases slots.len(),
{
    if slots.len() == 0 {
        Seq::empty()
    } else if goes(slots, busy, keep, slots.len() - 1) {
        staying(slots.drop_last(), busy, keep)
    } else {
        staying(slots.drop_last(), busy, keep).push(slots.last())
    }
}

/// The slots that go, in order.
pub open spec fn going(slots: Seq<SlotView>, busy: Option<SlotId>, keep: int) -> Seq<SlotView>
    decreases slots.len(),
{
    if slots.len() == 0 {
        Seq::empty()
    } else if goes(slots, busy, keep, slots.len() - 1) {
        going(slots.drop_last(), busy, keep).push(slots.last())
    } else {
        going(slots.drop_last(), busy, keep)
    }
}

/// The slots of a project that stay.
pub open spec fn staying_of(
    config: Config,
    pending: Option<PendingAction>,
    removal: Removal,
    entry: (Seq<char>, Seq<SlotView>),
) -> Seq<SlotView> {
    let busy = busy_slot(config, pending, entry.0);
    staying(entry.1, busy, kept_count(config, removal, entry.0, entry.1, busy))
}

/// The slots of a project that go.
pub open spec fn going_of(
    config: Config,
    pending: Option<PendingAction>,
    removal: Removal,
    entry: (Seq<char>, Seq<SlotView>),
) -> Seq<SlotView> {
    let busy = busy_slot(config, pending, entry.0);
    going(entry.1, busy, kept_count(config, removal, entry.0, entry.1, busy))
}

/// The projects with the slots that stay.
pub open spec fn cleaned(
    config: Config,
    pending: Option<PendingAction>,
    removal: Removal,
    projects: ProjectsView,
) -> ProjectsView {
    projects.map_values(
        |e: (Seq<char>, Seq<SlotView>)| (e.0, staying_of(config, pending, removal, e)),
    )
}

/// The directories of slots.
pub open spec fn paths_of(repos_dir: Seq<char>, project: Seq<char>, slots: Seq<SlotView>) -> Seq<
    Seq<char>,
> {
    slots.map_values(|s: SlotView| clone_path(repos_dir, project, s.id))
}

/// The directories of the slots that go, project by project.
pub open spec fn going_paths(
    repos_dir: Seq<char>,
    config: Config,
    pending: Option<PendingAction>,
    removal: Removal,
    projects: ProjectsView,
) -> Seq<Seq<char>>
    decreases projects.len(),
{
    if projects.len() == 0 {
        Seq::empty()
    } else {
        going_paths(repos_dir, config, pending, removal, projects.drop_last()) + paths_of(
            repos_dir,
            projects.last().0,
            going_of(config, pending, removal, projects.last()),
        )
    }
}

fn find_busy(config: &Config, pending: &Option<PendingAction>, name: &String) -> (r: Option<SlotId>)
    ensures
        r == busy_slot(*config, *pending, name@),
{
    match pending {
        Some(action) => {
            let p: usize = action.project().0;
            if p < config.projects.len() && config.projects[p].name == *name {
                Some(action.slot())
            } else {
                None
            }
        },
        None => None,
    }
}

fn is_removable(slot: &Slot, busy: &Option<SlotId>) -> (r: bool)
    ensures
        r == removable(*busy)(slot@),
{
    if matches!(slot.status, SlotStatus::CheckedOut(_)) {
        return false;
    }
    match busy {
        Some(id) => id.0 != slot.id.0,
        None => true,
    }
}

fn find_config(config: &Config, name: &String) -> (r: Option<usize>)
    ensures
        match r {
            Some(i) => config_index(*config, name@) == Some(i as int) && i
                < config.projects@.len(),
            None => config_index(*config, name@) is None,
        },
{
    let ghost named = |p: ProjectConfig| p.name@ == name@;
    let mut i: usize = 0;
    while i < config.projects.len()
        invariant
            i <= config.projects.len(),
            named == (|p: ProjectConfig| p.name@ == name@),
            forall|j: int| 0 <= j < i ==> !named(#[trigger] config.projects@[j]),
        decreases config.projects.len() - i,
    {
        if config.projects[i].name == *name {
            proof {
                lemma_first_where_is(config.projects@, named, i as int);
            }
            return Some(i);
        }
        i = i + 1;
    }
    proof {
        lemma_first_where_none(config.projects@, named);
    }
    None
}

fn count_removable(pool: &ProjectState, busy: &Option<SlotId>) -> (r: usize)
    ensures
        r == pool@.filter(removable(*busy)).len(),
{
    let mut n: usize = 0;
    let mut i: usize = 0;
    proof {
        reveal(Seq::filter);
        assert(pool@.take(0) =~= Seq::<SlotView>::empty());
    }
    while i < pool.slots.len()
        invariant
            i <= pool.slots.len(),
            n <= i,
            n == pool@.take(i as int).filter(removable(*busy)).len(),
        decreases pool.slots.len() - i,
    {
        proof {
            lemma_filter_step(pool@, removable(*busy), i as int);
        }
        assert(pool@[i as int] == pool.slots@[i as int]@);
        if is_removable(&pool.slots[i], busy) {
            n = n + 1;
        }
        i = i + 1;
    }
    assert(pool@.take(i as int) =~= pool@);
    n
}

/// How many of the slots that can be removed stay; no fewer than none.
fn count_kept(
    config: &Config,
    removal: Removal,
    name: &String,
    pool: &ProjectState,
    busy: &Option<SlotId>,
) -> (r: usize)
    ensures
        ({
            let keep = kept_count(*config, removal, name@, pool@, *busy);
            r == if keep < 0 {
                0
            } else {
                keep
            }
        }),
{
    match removal {
        Removal::All => 0,
        Removal::Extra => match find_config(config, name) {
            Some(i) => {
                let wanted: usize = config.nslots(&config.projects[i]) as usize;
                let available_slots = pool.available_slots();
                assert(crate::state::slot_views(available_slots@).len() == available_slots@.len());
                let total: usize = available_slots.len();
                let free: usize = count_removable(pool, busy);
                proof {
                    lemma_removable_is_available(pool@, *busy);
                }
                let fixed: usize = total - free;
                if wanted < fixed {
                    0
                } else {
                    wanted - fixed
                }
            },
            None => pool.slots.len(),
        },
    }
}

/// What can be removed belongs to the pool.
pub proof fn lemma_removable_is_available(slots: Seq<SlotView>, busy: Option<SlotId>)
    ensures
        slots.filter(removable(busy)).len() <= slots.filter(available()).len() <= slots.len(),
    decreases slots.len(),
{
    reveal(Seq::filter);
    if slots.len() > 0 {
        lemma_removable_is_available(slots.drop_last(), busy);
    }
}

/// Takes the slots that go out of a pool, and notes their directories.
fn clean_pool(
    pool: &mut ProjectState,
    busy: &Option<SlotId>,
    keep: usize,
    repos_dir: &str,
    name: &String,
    paths: &mut Vec<String>,
)
    ensures
        final(pool)@ == staying(old(pool)@, *busy, keep as int),
        views(final(paths)@) == views(old(paths)@) + paths_of(
            repos_dir@,
            name@,
            going(old(pool)@, *busy, keep as int),
        ),
{
    let ghost all = pool@;
    let ghost noted = views(paths@);
    let n: usize = pool.slots.len();
    let mut seen: usize = 0;
    let mut j: usize = 0;
    let mut i: usize = 0;
    proof {
        reveal(Seq::filter);
        assert(all.take(0) =~= Seq::<SlotView>::empty());
        assert(all.skip(0) =~= all);
        assert(staying(all.take(0), *busy, keep as int) + all.skip(0) =~= all);
        assert(noted + paths_of(repos_dir@, name@, Seq::empty()) =~= noted);
    }
    while j < n
        invariant
            n == all.len(),
            i <= j <= n,
            seen <= j,
            i == staying(all.take(j as int), *busy, keep as int).len(),
            pool@ == staying(all.take(j as int), *busy, keep as int) + all.skip(j as int),
            seen == all.take(j as int).filter(removable(*busy)).len(),
            views(paths@) == noted + paths_of(
                repos_dir@,
                name@,
                going(all.take(j as int), *busy, keep as int),
            ),
        decreases n - j,
    {
        let ghost before = pool@;
        let ghost part = all.take(j as int);
        let ghost next = all.take(j + 1);
        proof {
            assert(pool@.len() == pool.slots@.len());
            assert(before[i as int] == all[j as int]);
            assert(before[i as int] == pool.slots@[i as int]@);
            assert(next.drop_last() =~= part);
            assert(next.take(j as int) =~= part);
            lemma_filter_step(all, removable(*busy), j as int);
        }
        let can_go = is_removable(&pool.slots[i], busy);
        if can_go && seen >= keep {
            let slot = pool.slots.remove(i);
            let ghost paths_before = views(paths@);
            paths.push(clone_dest(repos_dir, name.as_str(), slot.id));
            proof {
                assert(slot@ == all[j as int]);
                assert(pool@ =~= before.remove(i as int));
                assert(pool@ =~= staying(next, *busy, keep as int) + all.skip(j + 1));
                let gone = going(part, *busy, keep as int);
                assert(going(next, *busy, keep as int) == gone.push(slot@));
                assert(views(paths@) =~= paths_before.push(
                    clone_path(repos_dir@, name@, slot.id),
                ));
                assert(paths_of(repos_dir@, name@, gone.push(slot@)) =~= paths_of(
                    repos_dir@,
                    name@,
                    gone,
                ).push(clone_path(repos_dir@, name@, slot.id)));
                assert(views(paths@) =~= noted + paths_of(repos_dir@, name@, gone.push(slot@)));
            }
        } else {
            proof {
                assert(pool@ =~= staying(next, *busy, keep as int) + all.skip(j + 1));
            }
            i = i + 1;
        }
        if can_go {
            seen = seen + 1;
        }
        j = j + 1;
    }
    proof {
        assert(all.take(j as int) =~= all);
        assert(pool@ =~= staying(all, *busy, keep as int));
    }
}

/// Removes background slots from the pools. Returns their directories.
pub fn clean(state: &mut ServerState, config: &Config, repos_dir: &str, removal: Removal) -> (r: Vec<
    String,
>)
    ensures
        final(state)@ == (StateView {
            projects: cleaned(
                *config,
                old(state)@.pending_action,
                removal,
                old(state)@.projects,
            ),
            ..old(state)@
        }),
        views(r@) == going_paths(
            repos_dir@,
            *config,
            old(state)@.pending_action,
            removal,
            old(state)@.projects,
        ),
{
    let ghost all = state@.projects;
    let ghost pending = state@.pending_action;
    let mut paths: Vec<String> = Vec::new();
    let mut k: usize = 0;
    proof {
        assert(all.take(0) =~= Seq::<(Seq<char>, Seq<SlotView>)>::empty());
        assert(views(paths@) =~= Seq::<Seq<char>>::empty());
        assert(cleaned(*config, pending, removal, all.take(0)) + all.skip(0) =~= all);
    }
    while k < state.projects.len()
        invariant
            k <= all.len(),
            all.len() == state.projects@.len(),
            all == old(state)@.projects,
            pending == old(state)@.pending_action,
            state.pending_action == pending,
            state.last_updated == old(state).last_updated,
            state@.projects == cleaned(*config, pending, removal, all.take(k as int)) + all.skip(
                k as int,
            ),
            views(paths@) == going_paths(
                repos_dir@,
                *config,
                pending,
                removal,
                all.take(k as int),
            ),
        decreases all.len() - k,
    {
        let ghost before = state@.projects;
        let ghost entry = all[k as int];
        let name = state.projects[k].0.clone();
        proof {
            assert(before[k as int] == entry);
            assert(before[k as int] == crate::state::entry_view(state.projects@[k as int]));
        }
        let busy = find_busy(config, &state.pending_action, &name);
        let keep: usize = count_kept(config, removal, &name, &state.projects[k].1, &busy);
        proof {
            lemma_negative_keep(
                entry.1,
                busy,
                kept_count(*config, removal, entry.0, entry.1, busy),
            );
        }
        clean_pool(&mut state.projects[k].1, &busy, keep, repos_dir, &name, &mut paths);
        proof {
            let next = all.take(k + 1);
            assert(next.drop_last() =~= all.take(k as int));
            assert(next.last() == entry);
            assert(state@.projects =~= before.update(
                k as int,
                (entry.0, staying_of(*config, pending, removal, entry)),
            ));
            assert(state@.projects =~= cleaned(*config, pending, removal, next) + all.skip(k + 1));
        }
        k = k + 1;
    }
    proof {
        assert(all.take(k as int) =~= all);
        assert(state@.projects =~= cleaned(*config, pending, removal, all));
    }
    paths
}

/// To keep fewer than none is to keep none.
pub proof fn lemma_negative_keep(slots: Seq<SlotView>, busy: Option<SlotId>, keep: int)
    ensures
        keep < 0 ==> staying(slots, busy, keep) == staying(slots, busy, 0) && going(
            slots,
            busy,
            keep,
        ) == going(slots, busy, 0),
    decreases slots.len(),
{
    if slots.len() > 0 {
        lemma_negative_keep(slots.drop_last(), busy, keep);
    }
}

} // verus!
