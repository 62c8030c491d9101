//! What the server knows: projects, their slots, and the action under way.
use crate::api::SlotStatusSummary;
use crate::path::{join, joined};
use crate::seqs::{
    first_where, lemma_filter_step, lemma_first_where, lemma_first_where_is, lemma_first_where_none,
};
use crate::text::{decimal, opt_view, quote, quoted, to_decimal};
use crate::time::Timestamp;
use vstd::prelude::*;
use vstd::string::*;

verus! {

/// The number of a slot within its project.
#[derive(Debug, Copy, Clone, PartialEq, Eq, PartialOrd, Ord, Hash, Structural)]
pub struct SlotId(pub u32);

/// The position of a project in the configuration.
#[derive(Debug, Copy, Clone, PartialEq, Eq, PartialOrd, Ord, Hash, Structural)]
pub struct ProjectId(pub usize);

/// The position of a command among the build steps of a project.
#[derive(Debug, Copy, Clone, PartialEq, Eq, PartialOrd, Ord, Hash, Structural)]
pub struct StepId(pub usize);

/// A command that the server has started, or is about to start.
#[derive(Debug, Copy, Clone, PartialEq, Eq, Structural)]
pub enum PendingAction {
    Clone(ProjectId, SlotId),
    CloneSubmodules(ProjectId, SlotId),
    Update(ProjectId, SlotId),
    UpdateSubmodules(ProjectId, SlotId),
    Build(ProjectId, SlotId, StepId),
}

impl PendingAction {
    /// The project that the action is about.
    pub open spec fn spec_project(self) -> ProjectId {
        match self {
            PendingAction::Clone(p, _) => p,
            PendingAction::CloneSubmodules(p, _) => p,
            PendingAction::Update(p, _) => p,
            PendingAction::UpdateSubmodules(p, _) => p,
            PendingAction::Build(p, _, _) => p,
        }
    }

    /// The slot that the action is about.
    pub open spec fn spec_slot(self) -> SlotId {
        match self {
            PendingAction::Clone(_, s) => s,
            PendingAction::CloneSubmodules(_, s) => s,
            PendingAction::Update(_, s) => s,
            PendingAction::UpdateSubmodules(_, s) => s,
            PendingAction::Build(_, s, _) => s,
        }
    }

    /// The notation of the action in messages.
    pub open spec fn text(self) -> Seq<char> {
        let target = "(ProjectId("@ + decimal(self.spec_project().0 as nat) + "), SlotId("@
            + decimal(self.spec_slot().0 as nat) + ")"@;
        match self {
            PendingAction::Clone(_, _) => "Clone"@ + target + ")"@,
            PendingAction::CloneSubmodules(_, _) => "CloneSubmodules"@ + target + ")"@,
            PendingAction::Update(_, _) => "Update"@ + target + ")"@,
            PendingAction::UpdateSubmodules(_, _) => "UpdateSubmodules"@ + target + ")"@,
            PendingAction::Build(_, _, k) => "Build"@ + target + ", StepId("@ + decimal(k.0 as nat)
                + "))"@,
        }
    }

    pub fn project(&self) -> (r: ProjectId)
        ensures
            r == self.spec_project(),
    {
        match *self {
            PendingAction::Clone(p, _) => p,
            PendingAction::CloneSubmodules(p, _) => p,
            PendingAction::Update(p, _) => p,
            PendingAction::UpdateSubmodules(p, _) => p,
            PendingAction::Build(p, _, _) => p,
        }
    }

    pub fn slot(&self) -> (r: SlotId)
        ensures
            r == self.spec_slot(),
    {
        match *self {
            PendingAction::Clone(_, s) => s,
            PendingAction::CloneSubmodules(_, s) => s,
            PendingAction::Update(_, s) => s,
            PendingAction::UpdateSubmodules(_, s) => s,
            PendingAction::Build(_, s, _) => s,
        }
    }

    /// Writes the action as it appears in messages.
    pub fn describe(&self) -> (r: String)
        ensures
            r@ == self.text(),
    {
        let mut target = "(ProjectId(".to_owned();
        target.append(to_decimal(self.project().0 as u64).as_str());
        target.append("), SlotId(");
        target.append(to_decimal(self.slot().0 as u64).as_str());
        target.append(")");
        match self {
            PendingAction::Clone(_, _) => "Clone".to_owned().concat(target.as_str()).concat(")"),
            PendingAction::CloneSubmodules(_, _) => "CloneSubmodules".to_owned().concat(
                target.as_str(),
            ).concat(")"),
            PendingAction::Update(_, _) => "Update".to_owned().concat(target.as_str()).concat(")"),
            PendingAction::UpdateSubmodules(_, _) => "UpdateSubmodules".to_owned().concat(
                target.as_str(),
            ).concat(")"),
            PendingAction::Build(_, _, k) => {
                let mut r = "Build".to_owned().concat(target.as_str());
                r.append(", StepId(");
                r.append(to_decimal(k.0 as u64).as_str());
                r.append("))");
                r
            },
        }
    }
}

/// Where the server keeps its files.
#[derive(Debug, Clone)]
pub struct Paths {
    pub data_dir: String,
    pub config_file: String,
    pub state_file: String,
    pub lock_file: String,
    pub socket_file: String,
    pub repos_dir: String,
}

impl Paths {
    #[must_use]
    pub fn new(config_dir: &str, data_dir: &str) -> (r: Self)
        ensures
            r.data_dir@ == data_dir@,
            r.config_file@ == joined(config_dir@, "config.toml"@),
            r.state_file@ == joined(data_dir@, "state.json"@),
            r.lock_file@ == joined(data_dir@, "server.lock"@),
            r.socket_file@ == joined(data_dir@, "server.sock"@),
            r.repos_dir@ == joined(data_dir@, "repos"@),
    {
        Self {
            data_dir: data_dir.to_owned(),
            config_file: join(config_dir, "config.toml"),
            state_file: join(data_dir, "state.json"),
            lock_file: join(data_dir, "server.lock"),
            socket_file: join(data_dir, "server.sock"),
            repos_dir: join(data_dir, "repos"),
        }
    }
}

/// How far a slot has come.
#[derive(Debug, Clone, PartialEq, Eq)]
pub enum SlotStatus {
    Uninitialized,
    Cloning,
    Cloned,
    CloningSubmodules,
    SubmodulesCloned,
    Updating,
    UpdatingSubmodules,
    PartiallyUpdated,
    WaitingToBuild,
    Building,
    /// The build step that was completed last.
    Built(StepId),
    Ready,
    /// The name under which the slot was handed out.
    CheckedOut(String),
    Error,
}

pub enum StatusView {
    Uninitialized,
    Cloning,
    Cloned,
    CloningSubmodules,
    SubmodulesCloned,
    Updating,
    UpdatingSubmodules,
    PartiallyUpdated,
    WaitingToBuild,
    Building,
    Built(StepId),
    Ready,
    CheckedOut(Seq<char>),
    Error,
}

impl View for SlotStatus {
    type V = StatusView;

    open spec fn view(&self) -> StatusView {
        match self {
            SlotStatus::Uninitialized => StatusView::Uninitialized,
            SlotStatus::Cloning => StatusView::Cloning,
            SlotStatus::Cloned => StatusView::Cloned,
            SlotStatus::CloningSubmodules => StatusView::CloningSubmodules,
            SlotStatus::SubmodulesCloned => StatusView::SubmodulesCloned,
            SlotStatus::Updating => StatusView::Updating,
            SlotStatus::UpdatingSubmodules => StatusView::UpdatingSubmodules,
            SlotStatus::PartiallyUpdated => StatusView::PartiallyUpdated,
            SlotStatus::WaitingToBuild => StatusView::WaitingToBuild,
            SlotStatus::Building => StatusView::Building,
            SlotStatus::Built(k) => StatusView::Built(*k),
            SlotStatus::Ready => StatusView::Ready,
            SlotStatus::CheckedOut(name) => StatusView::CheckedOut(name@),
            SlotStatus::Error => StatusView::Error,
        }
    }
}

impl StatusView {
    /// What clients are told of the status.
    pub open spec fn summary(self) -> SlotStatusSummary {
        match self {
            StatusView::Uninitialized => SlotStatusSummary::Uninitialized,
            StatusView::Cloning
            | StatusView::Cloned
            | StatusView::CloningSubmodules
            | StatusView::SubmodulesCloned
            | StatusView::Updating
            | StatusView::UpdatingSubmodules
            | StatusView::PartiallyUpdated => SlotStatusSummary::Cloning,
            StatusView::WaitingToBuild
            | StatusView::Building
            | StatusView::Built(_) => SlotStatusSummary::Building,
            StatusView::Ready => SlotStatusSummary::Ready,
            StatusView::CheckedOut(_) => SlotStatusSummary::CheckedOut,
            StatusView::Error => SlotStatusSummary::Error,
        }
    }

    /// The notation of the status in messages.
    pub open spec fn text(self) -> Seq<char> {
        match self {
            StatusView::Uninitialized => "Uninitialized"@,
            StatusView::Cloning => "Cloning"@,
            StatusView::Cloned => "Cloned"@,
            StatusView::CloningSubmodules => "CloningSubmodules"@,
            StatusView::SubmodulesCloned => "SubmodulesCloned"@,
            StatusView::Updating => "Updating"@,
            StatusView::UpdatingSubmodules => "UpdatingSubmodules"@,
            StatusView::PartiallyUpdated => "PartiallyUpdated"@,
            StatusView::WaitingToBuild => "WaitingToBuild"@,
            StatusView::Building => "Building"@,
            StatusView::Built(k) => "Built(StepId("@ + decimal(k.0 as nat) + "))"@,
            StatusView::Ready => "Ready"@,
            StatusView::CheckedOut(name) => "CheckedOut("@ + quoted(name) + ")"@,
            StatusView::Error => "Error"@,
        }
    }
}

impl SlotStatus {
    /// What clients are told of the status.
    #[must_use]
    pub fn to_api(&self) -> (r: SlotStatusSummary)
        ensures
            r == self@.summary(),
    {
        match self {
            SlotStatus::Uninitialized => SlotStatusSummary::Uninitialized,
            SlotStatus::Cloning
            | SlotStatus::Cloned
            | SlotStatus::CloningSubmodules
            | SlotStatus::SubmodulesCloned
            | SlotStatus::Updating
            | SlotStatus::UpdatingSubmodules
            | SlotStatus::PartiallyUpdated => SlotStatusSummary::Cloning,
            SlotStatus::WaitingToBuild
            | SlotStatus::Building
            | SlotStatus::Built(_) => SlotStatusSummary::Building,
            SlotStatus::Ready => SlotStatusSummary::Ready,
            SlotStatus::CheckedOut(_) => SlotStatusSummary::CheckedOut,
            SlotStatus::Error => SlotStatusSummary::Error,
        }
    }

    /// Writes the status as it appears in messages.
    pub fn describe(&self) -> (r: String)
        ensures
            r@ == self@.text(),
    {
        match self {
            SlotStatus::Uninitialized => "Uninitialized".to_owned(),
            SlotStatus::Cloning => "Cloning".to_owned(),
            SlotStatus::Cloned => "Cloned".to_owned(),
            SlotStatus::CloningSubmodules => "CloningSubmodules".to_owned(),
            SlotStatus::SubmodulesCloned => "SubmodulesCloned".to_owned(),
            SlotStatus::Updating => "Updating".to_owned(),
            SlotStatus::UpdatingSubmodules => "UpdatingSubmodules".to_owned(),
            SlotStatus::PartiallyUpdated => "PartiallyUpdated".to_owned(),
            SlotStatus::WaitingToBuild => "WaitingToBuild".to_owned(),
            SlotStatus::Building => "Building".to_owned(),
            SlotStatus::Built(k) => "Built(StepId(".to_owned().concat(
                to_decimal(k.0 as u64).as_str(),
            ).concat("))"),
            SlotStatus::Ready => "Ready".to_owned(),
            SlotStatus::CheckedOut(name) => "CheckedOut(".to_owned().concat(
                quote(name.as_str()).as_str(),
            ).concat(")"),
            SlotStatus::Error => "Error".to_owned(),
        }
    }
}

/// One directory of a project's pool.
#[derive(Debug, Clone)]
pub struct Slot {
    pub id: SlotId,
    pub status: SlotStatus,
    pub last_refreshed: Option<Timestamp>,
    pub error_message: Option<String>,
}

pub struct SlotView {
    pub id: SlotId,
    pub status: StatusView,
    pub last_refreshed: Option<Timestamp>,
    pub error_message: Option<Seq<char>>,
}

impl View for Slot {
    type V = SlotView;

    open spec fn view(&self) -> SlotView {
        SlotView {
            id: self.id,
            status: self.status@,
            last_refreshed: self.last_refreshed,
            error_message: opt_view(self.error_message),
        }
    }
}

/// The predicate of the slots that can be handed out.
pub open spec fn ready() -> spec_fn(SlotView) -> bool {
    |s: SlotView| s.status is Ready
}

/// The predicate of the slots that belong to the pool: all that are not handed out.
pub open spec fn available() -> spec_fn(SlotView) -> bool {
    |s: SlotView| !(s.status is CheckedOut)
}

/// The predicate of the slots that are handed out.
pub open spec fn checked_out() -> spec_fn(SlotView) -> bool {
    |s: SlotView| s.status is CheckedOut
}

/// The number of the next slot: one more than the highest in use, from 0 on.
pub open spec fn next_free(slots: Seq<SlotView>) -> int
    decreases slots.len(),
{
    if slots.len() == 0 {
        0
    } else {
        let n = next_free(slots.drop_last());
        if slots.last().id.0 + 1 > n {
            slots.last().id.0 + 1
        } else {
            n
        }
    }
}

/// Every slot has a smaller number than the next free one, and unless that is 0
/// one slot has the number before it.
pub proof fn next_free_is_above_all(slots: Seq<SlotView>)
    ensures
        forall|i: int| 0 <= i < slots.len() ==> (#[trigger] slots[i]).id.0 < next_free(slots),
        next_free(slots) > 0 ==> exists|i: int|
            0 <= i < slots.len() && (#[trigger] slots[i]).id.0 + 1 == next_free(slots),
        next_free(slots) >= 0,
        slots.len() > 0 ==> next_free(slots) > 0,
    decreases slots.len(),
{
    if slots.len() > 0 {
        let rest = slots.drop_last();
        next_free_is_above_all(rest);
        assert forall|i: int| 0 <= i < slots.len() implies (#[trigger] slots[i]).id.0 < next_free(
            slots,
        ) by {
            if i < rest.len() {
                assert(rest[i] == slots[i]);
            }
        }
        if next_free(slots) == slots.last().id.0 + 1 {
            assert(slots[slots.len() - 1].id.0 + 1 == next_free(slots));
        } else {
            let i = choose|i: int|
                0 <= i < rest.len() && (#[trigger] rest[i]).id.0 + 1 == next_free(rest);
            assert(slots[i] == rest[i]);
        }
    }
}

/// The predicate of the slots with a number.
pub open spec fn has_number(number: u32) -> spec_fn(SlotView) -> bool {
    |s: SlotView| s.id.0 == number
}

/// Where the slot that an action names stands: the first with its number; where
/// no slot has that number, the one at that position.
pub open spec fn slot_position(slots: Seq<SlotView>, id: SlotId) -> Option<int> {
    match first_where(slots, has_number(id.0)) {
        Some(j) => Some(j),
        None => if id.0 < slots.len() {
            Some(id.0 as int)
        } else {
            None
        },
    }
}

/// The slot that an action names is the first with its number; only where no slot has
/// that number it is the one at that position.
pub proof fn slots_are_found_by_number_first(slots: Seq<SlotView>, id: SlotId, j: int)
    requires
        0 <= j < slots.len(),
    ensures
        slots[j].id == id && (forall|i: int| 0 <= i < j ==> (#[trigger] slots[i]).id != id)
            ==> slot_position(slots, id) == Some(j),
        (forall|i: int| 0 <= i < slots.len() ==> (#[trigger] slots[i]).id != id) && id.0 == j
            ==> slot_position(slots, id) == Some(j),
        (forall|i: int| 0 <= i < slots.len() ==> (#[trigger] slots[i]).id != id) && id.0
            >= slots.len() ==> slot_position(slots, id) is None,
{
    if slots[j].id == id && (forall|i: int| 0 <= i < j ==> (#[trigger] slots[i]).id != id) {
        assert forall|i: int| 0 <= i < j implies !has_number(id.0)(#[trigger] slots[i]) by {}
        lemma_first_where_is(slots, has_number(id.0), j);
    }
    if forall|i: int| 0 <= i < slots.len() ==> (#[trigger] slots[i]).id != id {
        assert forall|i: int| 0 <= i < slots.len() implies !has_number(id.0)(
            #[trigger] slots[i],
        ) by {}
        lemma_first_where_none(slots, has_number(id.0));
    }
}

/// Slots with the same numbers are found in the same places.
pub proof fn lemma_same_numbers(a: Seq<SlotView>, b: Seq<SlotView>, s: u32)
    requires
        a.len() == b.len(),
        forall|i: int| 0 <= i < a.len() ==> (#[trigger] a[i]).id == b[i].id,
    ensures
        next_free(a) == next_free(b),
        first_where(a, has_number(s)) == first_where(b, has_number(s)),
    decreases a.len(),
{
    if a.len() > 0 {
        lemma_same_numbers(a.drop_last(), b.drop_last(), s);
        assert(a[a.len() - 1].id == b[a.len() - 1].id);
    }
}

/// The pool of one project.
#[derive(Debug, Clone)]
pub struct ProjectState {
    pub slots: Vec<Slot>,
}

impl View for ProjectState {
    type V = Seq<SlotView>;

    open spec fn view(&self) -> Seq<SlotView> {
        self.slots@.map_values(|s: Slot| s@)
    }
}

impl Default for ProjectState {
    fn default() -> (r: ProjectState)
        ensures
            r@ == Seq::<SlotView>::empty(),
    {
        let r = ProjectState { slots: Vec::new() };
        assert(r@ =~= Seq::<SlotView>::empty());
        r
    }
}

/// The views of a selection of slots.
pub open spec fn slot_views(slots: Seq<&Slot>) -> Seq<SlotView> {
    slots.map_values(|s: &Slot| s@)
}

impl ProjectState {
    /// The number for a new slot: one more than the highest in use, 0 for the first.
    #[must_use]
    pub fn next_free_slot_number(&self) -> (r: u32)
        requires
            next_free(self@) <= u32::MAX,
        ensures
            r == next_free(self@),
    {
        let mut n: u32 = 0;
        let mut i: usize = 0;
        assert(self@.take(0) =~= Seq::<SlotView>::empty());
        while i < self.slots.len()
            invariant
                i <= self.slots.len(),
                next_free(self@) <= u32::MAX,
                n == next_free(self@.take(i as int)),
            decreases self.slots.len() - i,
        {
            let ghost so_far = self@.take(i + 1);
            proof {
                next_free_is_above_all(self@);
                assert(so_far.drop_last() =~= self@.take(i as int));
                assert(so_far.last() == self@[i as int]);
                assert(self@[i as int].id == self.slots@[i as int].id);
            }
            let id: u32 = self.slots[i].id.0;
            if id >= n {
                n = id + 1;
            }
            i = i + 1;
        }
        assert(self@.take(i as int) =~= self@);
        n
    }

    /// Whether the number of the next slot is one that a slot can have.
    pub fn has_free_number(&self) -> (r: bool)
        ensures
            r == (next_free(self@) <= u32::MAX),
    {
        let mut i: usize = 0;
        while i < self.slots.len()
            invariant
                i <= self.slots.len(),
                forall|j: int| 0 <= j < i ==> (#[trigger] self@[j]).id.0 < u32::MAX,
            decreases self.slots.len() - i,
        {
            assert(self@[i as int].id == self.slots@[i as int].id);
            if self.slots[i].id.0 == u32::MAX {
                proof {
                    next_free_is_above_all(self@);
                }
                return false;
            }
            i = i + 1;
        }
        proof {
            next_free_is_above_all(self@);
        }
        true
    }

    /// Where the first slot with that number stands.
    pub fn find_number(&self, number: u32) -> (r: Option<usize>)
        ensures
            match r {
                Some(j) => first_where(self@, has_number(number)) == Some(j as int) && j
                    < self.slots@.len(),
                None => first_where(self@, has_number(number)) is None,
            },
    {
        let mut j: usize = 0;
        while j < self.slots.len()
            invariant
                j <= self.slots.len(),
                forall|m: int| 0 <= m < j ==> !has_number(number)(#[trigger] self@[m]),
            decreases self.slots.len() - j,
        {
            assert(self@[j as int] == self.slots@[j as int]@);
            if self.slots[j].id.0 == number {
                proof {
                    lemma_first_where_is(self@, has_number(number), j as int);
                }
                return Some(j);
            }
            j = j + 1;
        }
        proof {
            lemma_first_where_none(self@, has_number(number));
        }
        None
    }

    /// Where the slot that an action names stands.
    pub fn find_slot(&self, id: SlotId) -> (r: Option<usize>)
        ensures
            match r {
                Some(j) => slot_position(self@, id) == Some(j as int) && j < self.slots@.len(),
                None => slot_position(self@, id) is None,
            },
    {
        match self.find_number(id.0) {
            Some(j) => Some(j),
            None => {
                let j: usize = id.0 as usize;
                if j < self.slots.len() {
                    Some(j)
                } else {
                    None
                }
            },
        }
    }

    /// The slots that can be handed out, in order.
    pub fn ready_slots(&self) -> (r: Vec<&Slot>)
        ensures
            slot_views(r@) == self@.filter(ready()),
    {
        let mut out: Vec<&Slot> = Vec::new();
        let mut i: usize = 0;
        proof {
            reveal(Seq::filter);
            assert(self@.take(0) =~= Seq::<SlotView>::empty());
            assert(slot_views(out@) =~= Seq::<SlotView>::empty());
        }
        while i < self.slots.len()
            invariant
                i <= self.slots.len(),
                slot_views(out@) == self@.take(i as int).filter(ready()),
            decreases self.slots.len() - i,
        {
            let ghost before = out@;
            proof {
                lemma_filter_step(self@, ready(), i as int);
            }
            if matches!(self.slots[i].status, SlotStatus::Ready) {
                out.push(&self.slots[i]);
                assert(slot_views(out@) =~= slot_views(before).push(self@[i as int]));
            }
            i = i + 1;
        }
        assert(self@.take(i as int) =~= self@);
        out
    }

    /// The slots that belong to the pool, in order: all that are not handed out.
    /// A slot in error counts, so that it is not replaced by another.
    pub fn available_slots(&self) -> (r: Vec<&Slot>)
        ensures
            slot_views(r@) == self@.filter(available()),
    {
        let mut out: Vec<&Slot> = Vec::new();
        let mut i: usize = 0;
        proof {
            reveal(Seq::filter);
            assert(self@.take(0) =~= Seq::<SlotView>::empty());
            assert(slot_views(out@) =~= Seq::<SlotView>::empty());
        }
        while i < self.slots.len()
            invariant
                i <= self.slots.len(),
                slot_views(out@) == self@.take(i as int).filter(available()),
            decreases self.slots.len() - i,
        {
            let ghost before = out@;
            proof {
                lemma_filter_step(self@, available(), i as int);
            }
            if !matches!(self.slots[i].status, SlotStatus::CheckedOut(_)) {
                out.push(&self.slots[i]);
                assert(slot_views(out@) =~= slot_views(before).push(self@[i as int]));
            }
            i = i + 1;
        }
        assert(self@.take(i as int) =~= self@);
        out
    }

    /// The slots that are handed out, in order.
    pub fn checked_out_slots(&self) -> (r: Vec<&Slot>)
        ensures
            slot_views(r@) == self@.filter(checked_out()),
    {
        let mut out: Vec<&Slot> = Vec::new();
        let mut i: usize = 0;
        proof {
            reveal(Seq::filter);
            assert(self@.take(0) =~= Seq::<SlotView>::empty());
            assert(slot_views(out@) =~= Seq::<SlotView>::empty());
        }
        while i < self.slots.len()
            invariant
                i <= self.slots.len(),
                slot_views(out@) == self@.take(i as int).filter(checked_out()),
            decreases self.slots.len() - i,
        {
            let ghost before = out@;
            proof {
                lemma_filter_step(self@, checked_out(), i as int);
            }
            if matches!(self.slots[i].status, SlotStatus::CheckedOut(_)) {
                out.push(&self.slots[i]);
                assert(slot_views(out@) =~= slot_views(before).push(self@[i as int]));
            }
            i = i + 1;
        }
        assert(self@.take(i as int) =~= self@);
        out
    }
}

/// Every slot is either handed out or in the pool, never both, and those that are
/// ready are in the pool.
pub proof fn slots_are_available_or_checked_out(slots: Seq<SlotView>)
    ensures
        forall|j: int|
            0 <= j < slots.len() ==> available()(#[trigger] slots[j]) == !checked_out()(slots[j]),
        forall|j: int|
            0 <= j < slots.len() && ready()(#[trigger] slots[j]) ==> available()(slots[j]),
        slots.filter(available()).len() + slots.filter(checked_out()).len() == slots.len(),
    decreases slots.len(),
{
    reveal(Seq::filter);
    if slots.len() > 0 {
        slots_are_available_or_checked_out(slots.drop_last());
    }
}

/// A slot is ready, in the pool or handed out by its status alone: ready are those
/// with that status, handed out those that bear the name of a checkout, and all others
/// are in the pool.
pub proof fn slots_are_told_apart_by_status(slot: SlotView)
    ensures
        ready()(slot) <==> slot.status == StatusView::Ready,
        checked_out()(slot) <==> slot.status is CheckedOut,
        available()(slot) <==> !(slot.status is CheckedOut),
{
}

/// Everything that the server keeps on disk.
#[derive(Debug, Clone)]
pub struct ServerState {
    /// Each project under its name. No name stands twice.
    pub projects: Vec<(String, ProjectState)>,
    pub last_updated: Timestamp,
    pub pending_action: Option<PendingAction>,
}

/// Projects by name, with their slots.
pub type ProjectsView = Seq<(Seq<char>, Seq<SlotView>)>;

pub struct StateView {
    pub projects: ProjectsView,
    pub last_updated: Timestamp,
    pub pending_action: Option<PendingAction>,
}

pub open spec fn entry_view(e: (String, ProjectState)) -> (Seq<char>, Seq<SlotView>) {
    (e.0@, e.1@)
}

impl View for ServerState {
    type V = StateView;

    open spec fn view(&self) -> StateView {
        StateView {
            projects: self.projects@.map_values(|e: (String, ProjectState)| entry_view(e)),
            last_updated: self.last_updated,
            pending_action: self.pending_action,
        }
    }
}

/// The predicate of the entries under a name.
pub open spec fn named(name: Seq<char>) -> spec_fn((Seq<char>, Seq<SlotView>)) -> bool {
    |e: (Seq<char>, Seq<SlotView>)| e.0 == name
}

/// Where the project of that name stands.
pub open spec fn project_index(projects: ProjectsView, name: Seq<char>) -> Option<int> {
    first_where(projects, named(name))
}

/// The slots of the project of that name; none where it is not known.
pub open spec fn slots_of(projects: ProjectsView, name: Seq<char>) -> Seq<SlotView> {
    match project_index(projects, name) {
        Some(k) => projects[k].1,
        None => Seq::empty(),
    }
}

/// `projects`, with an empty pool under that name where there was none.
pub open spec fn with_project(projects: ProjectsView, name: Seq<char>) -> ProjectsView {
    match project_index(projects, name) {
        Some(_) => projects,
        None => projects.push((name, Seq::empty())),
    }
}

/// `projects`, with other slots under a name that stands in it.
pub open spec fn with_slots(
    projects: ProjectsView,
    name: Seq<char>,
    slots: Seq<SlotView>,
) -> ProjectsView {
    match project_index(projects, name) {
        Some(k) => projects.update(k, (name, slots)),
        None => projects,
    }
}

/// No name stands twice.
pub open spec fn names_differ(projects: ProjectsView) -> bool {
    forall|i: int, j: int|
        0 <= i < j < projects.len() ==> (#[trigger] projects[i]).0 != (#[trigger] projects[j]).0
}

impl ServerState {
    /// A server that knows no project yet.
    pub fn new(now: Timestamp) -> (r: ServerState)
        ensures
            r@ == (StateView {
                projects: Seq::empty(),
                last_updated: now,
                pending_action: None,
            }),
    {
        let r = ServerState { projects: Vec::new(), last_updated: now, pending_action: None };
        assert(r@.projects =~= Seq::<(Seq<char>, Seq<SlotView>)>::empty());
        r
    }

    /// Where the project of that name stands.
    pub fn find_project(&self, name: &String) -> (r: Option<usize>)
        ensures
            match r {
                Some(k) => project_index(self@.projects, name@) == Some(k as int) && k
                    < self.projects@.len(),
                None => project_index(self@.projects, name@) is None,
            },
    {
        let mut i: usize = 0;
        while i < self.projects.len()
            invariant
                i <= self.projects.len(),
                forall|j: int|
                    0 <= j < i ==> !named(name@)(#[trigger] self@.projects[j]),
            decreases self.projects.len() - i,
        {
            assert(self@.projects[i as int] == entry_view(self.projects@[i as int]));
            if self.projects[i].0 == *name {
                proof {
                    lemma_first_where_is(self@.projects, named(name@), i as int);
                }
                return Some(i);
            }
            i = i + 1;
        }
        proof {
            lemma_first_where_none(self@.projects, named(name@));
        }
        None
    }

    /// Finds the project of that name, or adds it with an empty pool.
    pub fn project_entry(&mut self, name: &String) -> (r: usize)
        ensures
            final(self)@ == (StateView {
                projects: with_project(old(self)@.projects, name@),
                ..old(self)@
            }),
            r < final(self).projects@.len(),
            project_index(final(self)@.projects, name@) == Some(r as int),
            final(self).projects@[r as int].1@ == slots_of(old(self)@.projects, name@),
            final(self).projects@[r as int].0@ == name@,
    {
        match self.find_project(name) {
            Some(k) => {
                proof {
                    lemma_first_where(self@.projects, named(name@));
                    assert(self@.projects[k as int] == entry_view(self.projects@[k as int]));
                }
                k
            },
            None => {
                let ghost before = self@.projects;
                let k: usize = self.projects.len();
                self.projects.push((name.clone(), ProjectState::default()));
                proof {
                    assert(self@.projects =~= before.push((name@, Seq::empty())));
                    lemma_first_where(before, named(name@));
                    assert forall|j: int| 0 <= j < k implies !named(name@)(
                        #[trigger] self@.projects[j],
                    ) by {
                        assert(self@.projects[j] == before[j]);
                    }
                    lemma_first_where_is(self@.projects, named(name@), k as int);
                }
                k
            },
        }
    }

    /// Adds a slot at the end of the pool of the project at position `k`.
    pub fn push_slot(&mut self, k: usize, slot: Slot)
        requires
            k < old(self).projects@.len(),
        ensures
            final(self)@ == (StateView {
                projects: old(self)@.projects.update(
                    k as int,
                    (
                        old(self)@.projects[k as int].0,
                        old(self)@.projects[k as int].1.push(slot@),
                    ),
                ),
                ..old(self)@
            }),
    {
        let ghost before = self@.projects;
        let ghost pool = self.projects@[k as int].1;
        self.projects[k].1.slots.push(slot);
        proof {
            assert(self.projects@[k as int].1@ =~= pool@.push(slot@));
            assert(self@.projects =~= before.update(
                k as int,
                (before[k as int].0, before[k as int].1.push(slot@)),
            ));
        }
    }

    /// Replaces the slot at position `j` of the project at position `k`.
    pub fn put_slot(&mut self, k: usize, j: usize, slot: Slot)
        requires
            k < old(self).projects@.len(),
            j < old(self).projects@[k as int].1.slots@.len(),
        ensures
            final(self)@ == (StateView {
                projects: old(self)@.projects.update(
                    k as int,
                    (
                        old(self)@.projects[k as int].0,
                        old(self)@.projects[k as int].1.update(j as int, slot@),
                    ),
                ),
                ..old(self)@
            }),
    {
        let ghost before = self@.projects;
        let ghost pool = self.projects@[k as int].1;
        self.projects[k].1.slots[j] = slot;
        proof {
            assert(self.projects@[k as int].1@ =~= pool@.update(j as int, slot@));
            assert(self@.projects =~= before.update(
                k as int,
                (before[k as int].0, before[k as int].1.update(j as int, slot@)),
            ));
        }
    }

    /// Gives the slot at position `j` of the project at position `k` another status.
    pub fn set_status(&mut self, k: usize, j: usize, status: SlotStatus)
        requires
            k < old(self).projects@.len(),
            j < old(self).projects@[k as int].1.slots@.len(),
        ensures
            final(self)@ == (StateView {
                projects: old(self)@.projects.update(
                    k as int,
                    (
                        old(self)@.projects[k as int].0,
                        old(self)@.projects[k as int].1.update(
                            j as int,
                            SlotView {
                                status: status@,
                                ..old(self)@.projects[k as int].1[j as int]
                            },
                        ),
                    ),
                ),
                ..old(self)@
            }),
    {
        let ghost before = self@.projects;
        let ghost pool = self.projects@[k as int].1;
        self.projects[k].1.slots[j].status = status;
        proof {
            assert(self.projects@[k as int].1@ =~= pool@.update(
                j as int,
                SlotView { status: status@, ..pool@[j as int] },
            ));
            assert(self@.projects =~= before.update(
                k as int,
                (
                    before[k as int].0,
                    before[k as int].1.update(
                        j as int,
                        SlotView { status: status@, ..before[k as int].1[j as int] },
                    ),
                ),
            ));
        }
    }
}

/// Adding a project keeps the names apart, and every other project as it was.
pub proof fn with_project_adds_only_that_project(
    projects: ProjectsView,
    name: Seq<char>,
    other: Seq<char>,
)
    ensures
        names_differ(projects) ==> names_differ(with_project(projects, name)),
        slots_of(with_project(projects, name), other) == slots_of(projects, other),
        project_index(with_project(projects, name), name) is Some,
        project_index(projects, other) is Some ==> project_index(
            with_project(projects, name),
            other,
        ) == project_index(projects, other),
        project_index(with_project(projects, name), other) is Some ==> project_index(
            projects,
            other,
        ) is Some || other == name,
{
    lemma_first_where(projects, named(name));
    lemma_first_where(projects, named(other));
    if project_index(projects, name) is None {
        let after = with_project(projects, name);
        let n = projects.len() as int;
        assert forall|j: int| 0 <= j < n implies !named(name)(#[trigger] after[j]) by {
            assert(after[j] == projects[j]);
        }
        lemma_first_where_is(after, named(name), n);
        assert(after.drop_last() =~= projects);
        assert forall|i: int, j: int| names_differ(projects) && 0 <= i < j < after.len() implies (
        #[trigger] after[i]).0 != (#[trigger] after[j]).0 by {
            if j == n {
                assert(!named(name)(projects[i]));
            }
        }
    }
}

/// Replacing the slots of one project keeps the names apart, and every other
/// project as it was.
pub proof fn with_slots_changes_only_that_project(
    projects: ProjectsView,
    name: Seq<char>,
    slots: Seq<SlotView>,
    other: Seq<char>,
)
    ensures
        names_differ(projects) ==> names_differ(with_slots(projects, name, slots)),
        project_index(with_slots(projects, name, slots), other) == project_index(projects, other),
        project_index(projects, name) is Some ==> slots_of(
            with_slots(projects, name, slots),
            name,
        ) == slots,
        other != name ==> slots_of(with_slots(projects, name, slots), other) == slots_of(
            projects,
            other,
        ),
{
    lemma_first_where(projects, named(name));
    lemma_first_where(projects, named(other));
    if let Some(k) = project_index(projects, name) {
        let after = with_slots(projects, name, slots);
        assert(forall|j: int| 0 <= j < projects.len() ==> (#[trigger] after[j]).0 == projects[j].0);
        match project_index(projects, other) {
            Some(m) => {
                assert forall|j: int| 0 <= j < m implies !named(other)(#[trigger] after[j]) by {
                    assert(!named(other)(projects[j]));
                }
                lemma_first_where_is(after, named(other), m);
            },
            None => {
                assert forall|j: int| 0 <= j < after.len() implies !named(other)(
                    #[trigger] after[j],
                ) by {
                    assert(!named(other)(projects[j]));
                }
                lemma_first_where_none(after, named(other));
            },
        }
        assert forall|j: int| 0 <= j < k implies !named(name)(#[trigger] after[j]) by {
            assert(!named(name)(projects[j]));
        }
        lemma_first_where_is(after, named(name), k);
    }
}

} // verus!
