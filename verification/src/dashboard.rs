//! The navigation state of the terminal agents dashboard: grouping of
//! entries, selection, the rows to render, scrolling, and refresh timing.

use vstd::prelude::*;
use crate::protocol::{
    AgentViewEntry, AgentViewUpdateEntryParams, AgentViewWorkflowState, ThreadActiveFlag, ThreadStatus,
};
use crate::thread_id::{ThreadId, spec_parse_thread_id};
use crate::text::{decimal, decimal_text, first_line, first_line_text, trim_text, trimmed};

verus! {

/// Which screen of the dashboard is shown.
#[derive(Clone, Copy, Debug, PartialEq, Eq, Structural)]
pub enum AgentsDashboardScreen {
    List,
    Thread,
}

/// The groups of the dashboard, in the order they are shown.
#[derive(Clone, Copy, Debug, PartialEq, Eq, Structural)]
pub enum AgentsDashboardGroup {
    Pinned,
    NeedsInput,
    Working,
    ReadyForReview,
    Completed,
}

/// The `i`-th group in display order.
pub open spec fn group_at_spec(i: int) -> AgentsDashboardGroup {
    if i == 0 {
        AgentsDashboardGroup::Pinned
    } else if i == 1 {
        AgentsDashboardGroup::NeedsInput
    } else if i == 2 {
        AgentsDashboardGroup::Working
    } else if i == 3 {
        AgentsDashboardGroup::ReadyForReview
    } else {
        AgentsDashboardGroup::Completed
    }
}

/// The place of a group in display order.
pub open spec fn group_rank(g: AgentsDashboardGroup) -> int {
    match g {
        AgentsDashboardGroup::Pinned => 0,
        AgentsDashboardGroup::NeedsInput => 1,
        AgentsDashboardGroup::Working => 2,
        AgentsDashboardGroup::ReadyForReview => 3,
        AgentsDashboardGroup::Completed => 4,
    }
}

/// The `i`-th group in display order.
pub fn group_at(i: usize) -> (g: AgentsDashboardGroup)
    requires
        i < 5,
    ensures
        g == group_at_spec(i as int),
        group_rank(g) == i,
{
    if i == 0 {
        AgentsDashboardGroup::Pinned
    } else if i == 1 {
        AgentsDashboardGroup::NeedsInput
    } else if i == 2 {
        AgentsDashboardGroup::Working
    } else if i == 3 {
        AgentsDashboardGroup::ReadyForReview
    } else {
        AgentsDashboardGroup::Completed
    }
}

impl AgentsDashboardGroup {
    /// The group's heading.
    pub fn title(self) -> (r: &'static str)
        ensures
            r@ == group_title(self),
    {
        match self {
            AgentsDashboardGroup::Pinned => "Pinned",
            AgentsDashboardGroup::NeedsInput => "Needs input",
            AgentsDashboardGroup::Working => "Working",
            AgentsDashboardGroup::ReadyForReview => "Ready for review",
            AgentsDashboardGroup::Completed => "Completed",
        }
    }
}

/// The heading of a group.
pub open spec fn group_title(g: AgentsDashboardGroup) -> Seq<char> {
    match g {
        AgentsDashboardGroup::Pinned => "Pinned"@,
        AgentsDashboardGroup::NeedsInput => "Needs input"@,
        AgentsDashboardGroup::Working => "Working"@,
        AgentsDashboardGroup::ReadyForReview => "Ready for review"@,
        AgentsDashboardGroup::Completed => "Completed"@,
    }
}

/// The runtime state of an entry's thread, as the dashboard reads it.
pub enum RuntimeState {
    NeedsInput,
    Working,
    Failed,
    Idle,
}

/// Whether an active thread waits on an approval or on user input.
pub open spec fn waits_for_input(flags: Seq<ThreadActiveFlag>) -> bool {
    flags.contains(ThreadActiveFlag::WaitingOnApproval) || flags.contains(ThreadActiveFlag::WaitingOnUserInput)
}

/// The runtime state of an entry: from its thread's status, or idle when
/// the thread is not loaded or not known.
pub open spec fn runtime_state(e: AgentViewEntry) -> RuntimeState {
    match e.thread {
        Some(t) => match t.status {
            ThreadStatus::Active { active_flags } => if waits_for_input(active_flags@) {
                RuntimeState::NeedsInput
            } else {
                RuntimeState::Working
            },
            ThreadStatus::SystemError => RuntimeState::Failed,
            _ => RuntimeState::Idle,
        },
        None => RuntimeState::Idle,
    }
}

/// The group of an entry: pinned entries stay pinned whatever their state;
/// others go by their thread's runtime state, and idle ones by their review
/// state.
pub open spec fn group_of(e: AgentViewEntry) -> AgentsDashboardGroup {
    if e.pinned {
        AgentsDashboardGroup::Pinned
    } else {
        match runtime_state(e) {
            RuntimeState::NeedsInput => AgentsDashboardGroup::NeedsInput,
            RuntimeState::Working => AgentsDashboardGroup::Working,
            RuntimeState::Failed => AgentsDashboardGroup::Completed,
            RuntimeState::Idle => match e.view_state {
                AgentViewWorkflowState::ReadyForReview => AgentsDashboardGroup::ReadyForReview,
                AgentViewWorkflowState::Completed => AgentsDashboardGroup::Completed,
            },
        }
    }
}

/// The status text of an entry.
pub open spec fn status_label(e: AgentViewEntry) -> Seq<char> {
    match runtime_state(e) {
        RuntimeState::NeedsInput => "needs input"@,
        RuntimeState::Working => "working"@,
        RuntimeState::Failed => "error"@,
        RuntimeState::Idle => match e.view_state {
            AgentViewWorkflowState::ReadyForReview => "ready"@,
            AgentViewWorkflowState::Completed => "completed"@,
        },
    }
}

fn flags_wait_for_input(flags: &Vec<ThreadActiveFlag>) -> (r: bool)
    ensures
        r == waits_for_input(flags@),
{
    let mut i: usize = 0;
    while i < flags.len()
        invariant
            i <= flags@.len(),
            forall|j: int| 0 <= j < i ==> flags@[j] != ThreadActiveFlag::WaitingOnApproval
                && flags@[j] != ThreadActiveFlag::WaitingOnUserInput,
        decreases flags@.len() - i,
    {
        match flags[i] {
            ThreadActiveFlag::WaitingOnApproval => {
                proof { assert(flags@.contains(ThreadActiveFlag::WaitingOnApproval)) by { assert(flags@[i as int] == ThreadActiveFlag::WaitingOnApproval); } }
                return true;
            },
            ThreadActiveFlag::WaitingOnUserInput => {
                proof { assert(flags@.contains(ThreadActiveFlag::WaitingOnUserInput)) by { assert(flags@[i as int] == ThreadActiveFlag::WaitingOnUserInput); } }
                return true;
            },
        }
    }
    false
}

fn entry_runtime_state(entry: &AgentViewEntry) -> (r: RuntimeState)
    ensures
        r == runtime_state(*entry),
{
    match &entry.thread {
        Some(t) => match &t.status {
            ThreadStatus::Active { active_flags } => {
                if flags_wait_for_input(active_flags) {
                    RuntimeState::NeedsInput
                } else {
                    RuntimeState::Working
                }
            },
            ThreadStatus::SystemError => RuntimeState::Failed,
            _ => RuntimeState::Idle,
        },
        None => RuntimeState::Idle,
    }
}

/// The group an entry is shown in.
pub fn group_for_entry(entry: &AgentViewEntry) -> (g: AgentsDashboardGroup)
    ensures
        g == group_of(*entry),
{
    if entry.pinned {
        return AgentsDashboardGroup::Pinned;
    }
    match entry_runtime_state(entry) {
        RuntimeState::NeedsInput => AgentsDashboardGroup::NeedsInput,
        RuntimeState::Working => AgentsDashboardGroup::Working,
        RuntimeState::Failed => AgentsDashboardGroup::Completed,
        RuntimeState::Idle => match entry.view_state {
            AgentViewWorkflowState::ReadyForReview => AgentsDashboardGroup::ReadyForReview,
            AgentViewWorkflowState::Completed => AgentsDashboardGroup::Completed,
        },
    }
}

/// The status text shown on an entry's row.
pub fn entry_status_label(entry: &AgentViewEntry) -> (r: &'static str)
    ensures
        r@ == status_label(*entry),
{
    match entry_runtime_state(entry) {
        RuntimeState::NeedsInput => "needs input",
        RuntimeState::Working => "working",
        RuntimeState::Failed => "error",
        RuntimeState::Idle => match entry.view_state {
            AgentViewWorkflowState::ReadyForReview => "ready",
            AgentViewWorkflowState::Completed => "completed",
        },
    }
}

/// Law: a pinned entry is in the pinned group whatever its thread does; an
/// unpinned entry is never there.
pub proof fn law_pinned_group_overrides_state(e: AgentViewEntry)
    ensures
        e.pinned <==> group_of(e) == AgentsDashboardGroup::Pinned,
{
}

/// Law: an unpinned entry whose thread is absent, idle or not loaded is
/// grouped by its workflow state alone: completed entries in Completed,
/// others in Ready for review, whether or not a thread is attached.
pub proof fn law_idle_entries_group_by_workflow_state(e: AgentViewEntry)
    requires
        !e.pinned,
        match e.thread {
            None => true,
            Some(t) => t.status is Idle || t.status is NotLoaded,
        },
    ensures
        e.view_state == AgentViewWorkflowState::Completed ==> group_of(e) == AgentsDashboardGroup::Completed,
        e.view_state == AgentViewWorkflowState::ReadyForReview ==> group_of(e) == AgentsDashboardGroup::ReadyForReview,
{
}

/// Law: an unpinned entry whose thread runs is grouped by the run: in Needs
/// input when it waits on an approval or on user input, else in Working; an
/// unpinned entry whose thread failed is in Completed; in each case whatever
/// its workflow state.
pub proof fn law_running_entries_group_by_thread(e: AgentViewEntry)
    requires
        !e.pinned,
        e.thread is Some,
    ensures
        e.thread->0.status matches ThreadStatus::Active { active_flags } ==> group_of(e) == (if active_flags@.contains(
            ThreadActiveFlag::WaitingOnApproval,
        ) || active_flags@.contains(ThreadActiveFlag::WaitingOnUserInput) {
            AgentsDashboardGroup::NeedsInput
        } else {
            AgentsDashboardGroup::Working
        }),
        e.thread->0.status is SystemError ==> group_of(e) == AgentsDashboardGroup::Completed,
{
}

/// The indices below `n` of the entries in group `g`, in increasing order.
pub open spec fn group_indices(entries: Seq<AgentViewEntry>, g: AgentsDashboardGroup, n: nat) -> Seq<int>
    decreases n,
{
    if n == 0 {
        Seq::empty()
    } else {
        let m = (n - 1) as nat;
        group_indices(entries, g, m) + (if group_of(entries[m as int]) == g { seq![m as int] } else { Seq::empty() })
    }
}

/// The indices of the entries of the first `i` groups, group by group.
pub open spec fn ordered_prefix(entries: Seq<AgentViewEntry>, i: nat) -> Seq<int>
    decreases i,
{
    if i == 0 {
        Seq::empty()
    } else {
        let j = (i - 1) as nat;
        ordered_prefix(entries, j) + group_indices(entries, group_at_spec(j as int), entries.len())
    }
}

/// The indices of all entries in display order: group by group, and in
/// each group in the order of the entries.
pub open spec fn ordered_indices(entries: Seq<AgentViewEntry>) -> Seq<int> {
    ordered_prefix(entries, 5)
}

/// The number of entries in group `g`.
pub fn count_group(entries: &Vec<AgentViewEntry>, group: AgentsDashboardGroup) -> (r: usize)
    ensures
        r == group_indices(entries@, group, entries@.len()).len(),
{
    let mut count: usize = 0;
    let mut i: usize = 0;
    while i < entries.len()
        invariant
            i <= entries@.len(),
            count == group_indices(entries@, group, i as nat).len(),
            count <= i,
        decreases entries@.len() - i,
    {
        if group_for_entry(&entries[i]) == group {
            count = count + 1;
        }
        i = i + 1;
    }
    count
}

/// A sequence of indices as integers.
pub open spec fn as_ints(s: Seq<usize>) -> Seq<int> {
    s.map_values(|x: usize| x as int)
}

proof fn lemma_as_ints_push(s: Seq<usize>, x: usize)
    ensures
        as_ints(s.push(x)) == as_ints(s).push(x as int),
{
    assert(as_ints(s.push(x)) =~= as_ints(s).push(x as int));
}

/// The entry indices of group `g` appended to `out`.
fn push_group_indices(entries: &Vec<AgentViewEntry>, group: AgentsDashboardGroup, out: &mut Vec<usize>)
    ensures
        as_ints(final(out)@) == as_ints(old(out)@) + group_indices(entries@, group, entries@.len()),
{
    let ghost start = as_ints(out@);
    let mut i: usize = 0;
    while i < entries.len()
        invariant
            i <= entries@.len(),
            as_ints(out@) == start + group_indices(entries@, group, i as nat),
        decreases entries@.len() - i,
    {
        if group_for_entry(&entries[i]) == group {
            proof {
                lemma_as_ints_push(out@, i);
            }
            out.push(i);
            proof {
                assert(start + group_indices(entries@, group, (i + 1) as nat) =~= (start + group_indices(entries@, group, i as nat)).push(i as int));
            }
        } else {
            proof {
                assert(group_indices(entries@, group, (i + 1) as nat) =~= group_indices(entries@, group, i as nat));
            }
        }
        i = i + 1;
    }
}


/// Whether `a` comes before `b` in display order: an earlier group, or the
/// same group and an earlier entry.
pub open spec fn shown_before(entries: Seq<AgentViewEntry>, a: int, b: int) -> bool {
    group_rank(group_of(entries[a])) < group_rank(group_of(entries[b]))
        || (group_of(entries[a]) == group_of(entries[b]) && a < b)
}

proof fn lemma_group_indices(entries: Seq<AgentViewEntry>, g: AgentsDashboardGroup, n: nat)
    requires
        n <= entries.len(),
    ensures
        forall|k: int| 0 <= k < group_indices(entries, g, n).len() ==> 0 <= #[trigger] group_indices(entries, g, n)[k] < n
            && group_of(entries[group_indices(entries, g, n)[k]]) == g,
        forall|k1: int, k2: int| 0 <= k1 < k2 < group_indices(entries, g, n).len()
            ==> group_indices(entries, g, n)[k1] < group_indices(entries, g, n)[k2],
        forall|x: int| 0 <= x < n && group_of(entries[x]) == g ==> group_indices(entries, g, n).contains(x),
    decreases n,
{
    if n > 0 {
        let m = (n - 1) as nat;
        lemma_group_indices(entries, g, m);
        let a = group_indices(entries, g, m);
        let c = group_indices(entries, g, n);
        assert forall|x: int| 0 <= x < n && group_of(entries[x]) == g implies c.contains(x) by {
            if x < m {
                assert(a.contains(x));
                let k = choose|k: int| 0 <= k < a.len() && a[k] == x;
                assert(c[k] == x);
            } else {
                assert(c[c.len() - 1] == x);
            }
        }
    }
}

proof fn lemma_group_rank_at(i: int)
    requires
        0 <= i < 5,
    ensures
        group_rank(group_at_spec(i)) == i,
{
}

proof fn lemma_ordered_prefix(entries: Seq<AgentViewEntry>, i: nat)
    requires
        i <= 5,
    ensures
        forall|p: int| 0 <= p < ordered_prefix(entries, i).len() ==> 0 <= #[trigger] ordered_prefix(entries, i)[p] < entries.len()
            && group_rank(group_of(entries[ordered_prefix(entries, i)[p]])) < i,
        forall|p: int, q: int| 0 <= p < q < ordered_prefix(entries, i).len()
            ==> shown_before(entries, ordered_prefix(entries, i)[p], ordered_prefix(entries, i)[q]),
        forall|x: int| 0 <= x < entries.len() && group_rank(group_of(entries[x])) < i
            ==> ordered_prefix(entries, i).contains(x),
    decreases i,
{
    if i > 0 {
        let j = (i - 1) as nat;
        lemma_ordered_prefix(entries, j);
        let g = group_at_spec(j as int);
        lemma_group_rank_at(j as int);
        lemma_group_indices(entries, g, entries.len());
        let a = ordered_prefix(entries, j);
        let b = group_indices(entries, g, entries.len());
        let c = ordered_prefix(entries, i);
        assert(c == a + b);
        assert forall|p: int| 0 <= p < c.len() implies 0 <= #[trigger] c[p] < entries.len()
            && group_rank(group_of(entries[c[p]])) < i by {
            if p >= a.len() {
                assert(c[p] == b[p - a.len()]);
            }
        }
        assert forall|p: int, q: int| 0 <= p < q < c.len() implies shown_before(entries, c[p], c[q]) by {
            if q < a.len() {
                assert(c[p] == a[p] && c[q] == a[q]);
            } else if p < a.len() {
                assert(c[p] == a[p] && c[q] == b[q - a.len()]);
            } else {
                assert(c[p] == b[p - a.len()] && c[q] == b[q - a.len()]);
            }
        }
        assert forall|x: int| 0 <= x < entries.len() && group_rank(group_of(entries[x])) < i implies c.contains(x) by {
            if group_rank(group_of(entries[x])) < j {
                assert(a.contains(x));
                let p = choose|p: int| 0 <= p < a.len() && a[p] == x;
                assert(c[p] == x);
            } else {
                assert(group_of(entries[x]) == g);
                assert(b.contains(x));
                let k = choose|k: int| 0 <= k < b.len() && b[k] == x;
                assert(c[a.len() + k] == x);
            }
        }
    }
}

proof fn lemma_group_counts(entries: Seq<AgentViewEntry>, n: nat)
    requires
        n <= entries.len(),
    ensures
        group_indices(entries, AgentsDashboardGroup::Pinned, n).len()
            + group_indices(entries, AgentsDashboardGroup::NeedsInput, n).len()
            + group_indices(entries, AgentsDashboardGroup::Working, n).len()
            + group_indices(entries, AgentsDashboardGroup::ReadyForReview, n).len()
            + group_indices(entries, AgentsDashboardGroup::Completed, n).len() == n,
    decreases n,
{
    if n > 0 {
        lemma_group_counts(entries, (n - 1) as nat);
    }
}

/// Law: the display order lists every entry exactly once: all indices below
/// the number of entries, group by group in display order, and within a
/// group in the entries' order.
pub proof fn law_display_order_is_permutation(entries: Seq<AgentViewEntry>)
    ensures
        ordered_indices(entries).len() == entries.len(),
        forall|x: int| 0 <= x < entries.len() ==> ordered_indices(entries).contains(x),
        forall|p: int| 0 <= p < ordered_indices(entries).len() ==> 0 <= #[trigger] ordered_indices(entries)[p] < entries.len(),
        forall|p: int, q: int| 0 <= p < q < ordered_indices(entries).len()
            ==> shown_before(entries, ordered_indices(entries)[p], ordered_indices(entries)[q]),
{
    lemma_ordered_prefix(entries, 5);
    lemma_group_counts(entries, entries.len());
    let n = entries.len();
    assert(ordered_prefix(entries, 0).len() == 0);
    assert(group_at_spec(0) == AgentsDashboardGroup::Pinned);
    assert(ordered_prefix(entries, 1) == ordered_prefix(entries, 0) + group_indices(entries, group_at_spec(0), n));
    assert(ordered_prefix(entries, 1).len() == group_indices(entries, AgentsDashboardGroup::Pinned, n).len());
    assert(ordered_prefix(entries, 2).len() == ordered_prefix(entries, 1).len()
        + group_indices(entries, AgentsDashboardGroup::NeedsInput, n).len());
    assert(ordered_prefix(entries, 3).len() == ordered_prefix(entries, 2).len()
        + group_indices(entries, AgentsDashboardGroup::Working, n).len());
    assert(ordered_prefix(entries, 4).len() == ordered_prefix(entries, 3).len()
        + group_indices(entries, AgentsDashboardGroup::ReadyForReview, n).len());
    assert(ordered_prefix(entries, 5).len() == ordered_prefix(entries, 4).len()
        + group_indices(entries, AgentsDashboardGroup::Completed, n).len());
    assert forall|x: int| 0 <= x < entries.len() implies ordered_indices(entries).contains(x) by {
        assert(group_rank(group_of(entries[x])) < 5);
    }
}


/// One row of the dashboard list.
#[derive(Clone, Copy, Debug, PartialEq, Eq, Structural)]
pub enum DashboardRenderRow {
    /// A group's heading.
    Group(AgentsDashboardGroup),
    /// The entry `entry_index`, shown `visible_index`-th in display order.
    Entry { visible_index: usize, entry_index: usize },
    /// A blank line between groups.
    Spacer,
}

/// The rows of group `i`: its heading and its entries, numbered from
/// `start` in display order.
pub open spec fn group_block(entries: Seq<AgentViewEntry>, i: nat, start: nat) -> Seq<DashboardRenderRow> {
    let idx = group_indices(entries, group_at_spec(i as int), entries.len());
    seq![DashboardRenderRow::Group(group_at_spec(i as int))] + Seq::new(
        idx.len(),
        |k: int| DashboardRenderRow::Entry { visible_index: (start + k) as usize, entry_index: idx[k] as usize },
    )
}

/// The rows of the first `i` groups, each non-empty group followed by a
/// blank line; empty groups have no rows.
pub open spec fn rows_with_spacers(entries: Seq<AgentViewEntry>, i: nat) -> Seq<DashboardRenderRow>
    decreases i,
{
    if i == 0 {
        Seq::empty()
    } else {
        let j = (i - 1) as nat;
        let idx = group_indices(entries, group_at_spec(j as int), entries.len());
        rows_with_spacers(entries, j) + (if idx.len() > 0 {
            group_block(entries, j, ordered_prefix(entries, j).len()) + seq![DashboardRenderRow::Spacer]
        } else {
            Seq::empty()
        })
    }
}

/// The rows of the dashboard list: the non-empty groups in display order,
/// separated by blank lines.
pub open spec fn render_rows_spec(entries: Seq<AgentViewEntry>) -> Seq<DashboardRenderRow> {
    let r = rows_with_spacers(entries, 5);
    if r.len() > 0 {
        r.drop_last()
    } else {
        r
    }
}

proof fn lemma_group_indices_monotone(entries: Seq<AgentViewEntry>, g: AgentsDashboardGroup, i: nat, n: nat)
    requires
        i <= n,
    ensures
        group_indices(entries, g, i).len() <= group_indices(entries, g, n).len(),
        group_indices(entries, g, n).len() <= n,
    decreases n,
{
    if n > 0 {
        if i < n {
            lemma_group_indices_monotone(entries, g, i, (n - 1) as nat);
        } else {
            lemma_group_indices_monotone(entries, g, (n - 1) as nat, (n - 1) as nat);
        }
    }
}

proof fn lemma_ordered_prefix_monotone(entries: Seq<AgentViewEntry>, j: nat, i: nat)
    requires
        j <= i,
    ensures
        ordered_prefix(entries, j).len() <= ordered_prefix(entries, i).len(),
    decreases i,
{
    if j < i {
        lemma_ordered_prefix_monotone(entries, j, (i - 1) as nat);
    }
}

/// A mouse hit area: the screen line of an entry's row.
#[derive(Clone, Copy, Debug, PartialEq, Eq, Structural)]
pub struct RowHitbox {
    pub y: u16,
    pub entry_index: usize,
}

/// The dashboard's state. `last_refreshed_at` is in nanoseconds of a
/// monotonic clock.
#[derive(Debug)]
pub struct AgentsDashboardState {
    pub cwd: String,
    pub entries: Vec<AgentViewEntry>,
    pub selected: usize,
    pub scroll_offset: usize,
    pub screen: AgentsDashboardScreen,
    pub row_hitboxes: Vec<RowHitbox>,
    pub last_refreshed_at: Option<u64>,
}

impl AgentsDashboardState {
    /// A dashboard of `cwd` on its list screen, with no entries yet.
    pub fn new(cwd: String) -> (r: Self)
        ensures
            r.cwd@ == cwd@,
            r.entries@.len() == 0,
            r.selected == 0,
            r.scroll_offset == 0,
            r.screen == AgentsDashboardScreen::List,
            r.row_hitboxes@.len() == 0,
            r.last_refreshed_at is None,
    {
        AgentsDashboardState {
            cwd,
            entries: Vec::new(),
            selected: 0,
            scroll_offset: 0,
            screen: AgentsDashboardScreen::List,
            row_hitboxes: Vec::new(),
            last_refreshed_at: None,
        }
    }

    /// The working directory of the dashboard.
    pub fn cwd_string(&self) -> (r: String)
        ensures
            r@ == self.cwd@,
    {
        self.cwd.clone()
    }

    /// Whether the list screen is shown.
    pub fn is_list(&self) -> (r: bool)
        ensures
            r == (self.screen == AgentsDashboardScreen::List),
    {
        self.screen == AgentsDashboardScreen::List
    }

    /// The entry indices in display order.
    pub fn ordered_entry_indices(&self) -> (r: Vec<usize>)
        ensures
            as_ints(r@) == ordered_indices(self.entries@),
    {
        let mut indices: Vec<usize> = Vec::new();
        let mut i: usize = 0;
        proof {
            assert(as_ints(indices@) =~= ordered_prefix(self.entries@, 0));
        }
        while i < 5
            invariant
                i <= 5,
                as_ints(indices@) == ordered_prefix(self.entries@, i as nat),
            decreases 5 - i,
        {
            let group = group_at(i);
            push_group_indices(&self.entries, group, &mut indices);
            i = i + 1;
        }
        indices
    }

    /// The rows of the list: each non-empty group's heading and entries,
    /// with a blank line between groups.
    pub fn render_rows(&self) -> (r: Vec<DashboardRenderRow>)
        ensures
            r@ == render_rows_spec(self.entries@),
    {
        let ghost entries = self.entries@;
        let ghost n = entries.len();
        let mut rows: Vec<DashboardRenderRow> = Vec::new();
        let mut visible_index: usize = 0;
        let mut gi: usize = 0;
        proof {
            law_display_order_is_permutation(entries);
        }
        while gi < 5
            invariant
                gi <= 5,
                entries == self.entries@,
                n == entries.len(),
                ordered_prefix(entries, 5).len() == n,
                rows@ == rows_with_spacers(entries, gi as nat),
                visible_index == ordered_prefix(entries, gi as nat).len(),
            decreases 5 - gi,
        {
            let group = group_at(gi);
            let ghost idx = group_indices(entries, group, n);
            let ghost start = visible_index as nat;
            proof {
                lemma_ordered_prefix_monotone(entries, (gi + 1) as nat, 5);
                assert(ordered_prefix(entries, (gi + 1) as nat).len() == start + idx.len());
            }
            let group_start = rows.len();
            rows.push(DashboardRenderRow::Group(group));
            let mut entry_index: usize = 0;
            while entry_index < self.entries.len()
                invariant
                    gi < 5,
                    group == group_at_spec(gi as int),
                    entries == self.entries@,
                    n == entries.len(),
                    idx == group_indices(entries, group, n),
                    start + idx.len() <= n,
                    entry_index <= n,
                    group_start == rows_with_spacers(entries, gi as nat).len(),
                    rows@ == rows_with_spacers(entries, gi as nat) + seq![DashboardRenderRow::Group(group)] + Seq::new(
                        group_indices(entries, group, entry_index as nat).len(),
                        |k: int| DashboardRenderRow::Entry {
                            visible_index: (start + k) as usize,
                            entry_index: group_indices(entries, group, entry_index as nat)[k] as usize,
                        },
                    ),
                    visible_index == start + group_indices(entries, group, entry_index as nat).len(),
                decreases n - entry_index,
            {
                let ghost before = group_indices(entries, group, entry_index as nat);
                let ghost after = group_indices(entries, group, (entry_index + 1) as nat);
                if group_for_entry(&self.entries[entry_index]) == group {
                    proof {
                        lemma_group_indices_monotone(entries, group, (entry_index + 1) as nat, n);
                        assert(after == before.push(entry_index as int));
                    }
                    rows.push(DashboardRenderRow::Entry { visible_index, entry_index });
                    visible_index = visible_index + 1;
                    proof {
                        assert(rows@ =~= rows_with_spacers(entries, gi as nat) + seq![DashboardRenderRow::Group(group)] + Seq::new(
                            after.len(),
                            |k: int| DashboardRenderRow::Entry {
                                visible_index: (start + k) as usize,
                                entry_index: after[k] as usize,
                            },
                        ));
                    }
                } else {
                    proof {
                        assert(after =~= before);
                    }
                }
                entry_index = entry_index + 1;
            }
            proof {
                assert(group_indices(entries, group, entry_index as nat) == idx);
            }
            if rows.len() - 1 == group_start {
                rows.pop();
                proof {
                    assert(idx.len() == 0);
                    assert(rows@ =~= rows_with_spacers(entries, (gi + 1) as nat));
                }
            } else {
                rows.push(DashboardRenderRow::Spacer);
                proof {
                    assert(rows@ =~= rows_with_spacers(entries, (gi + 1) as nat));
                }
            }
            gi = gi + 1;
        }
        if rows.len() > 0 {
            match rows[rows.len() - 1] {
                DashboardRenderRow::Spacer => {
                    rows.pop();
                },
                _ => {
                    proof {
                        lemma_rows_end_with_spacer(entries, 5);
                    }
                },
            }
        }
        rows
    }
}

proof fn lemma_rows_end_with_spacer(entries: Seq<AgentViewEntry>, i: nat)
    requires
        rows_with_spacers(entries, i).len() > 0,
    ensures
        rows_with_spacers(entries, i).last() == DashboardRenderRow::Spacer,
    decreases i,
{
    if i > 0 {
        let j = (i - 1) as nat;
        let idx = group_indices(entries, group_at_spec(j as int), entries.len());
        if idx.len() == 0 {
            assert(rows_with_spacers(entries, i) =~= rows_with_spacers(entries, j));
            lemma_rows_end_with_spacer(entries, j);
        }
    }
}


/// The entry rows of `rows`, in order, as pairs of visible index and entry
/// index.
pub open spec fn entry_pairs(rows: Seq<DashboardRenderRow>) -> Seq<(int, int)>
    decreases rows.len(),
{
    if rows.len() == 0 {
        Seq::empty()
    } else {
        entry_pairs(rows.drop_last()) + match rows.last() {
            DashboardRenderRow::Entry { visible_index, entry_index } => seq![(visible_index as int, entry_index as int)],
            _ => Seq::empty(),
        }
    }
}

/// The group headings of `rows`, in order.
pub open spec fn group_headings(rows: Seq<DashboardRenderRow>) -> Seq<AgentsDashboardGroup>
    decreases rows.len(),
{
    if rows.len() == 0 {
        Seq::empty()
    } else {
        group_headings(rows.drop_last()) + match rows.last() {
            DashboardRenderRow::Group(g) => seq![g],
            _ => Seq::empty(),
        }
    }
}

/// The groups among the first `i` that hold entries, in display order.
pub open spec fn nonempty_groups(entries: Seq<AgentViewEntry>, i: nat) -> Seq<AgentsDashboardGroup>
    decreases i,
{
    if i == 0 {
        Seq::empty()
    } else {
        let j = (i - 1) as nat;
        let g = group_at_spec(j as int);
        nonempty_groups(entries, j) + (if group_indices(entries, g, entries.len()).len() > 0 {
            seq![g]
        } else {
            Seq::empty()
        })
    }
}

proof fn lemma_entry_pairs_add(a: Seq<DashboardRenderRow>, b: Seq<DashboardRenderRow>)
    ensures
        entry_pairs(a + b) == entry_pairs(a) + entry_pairs(b),
        group_headings(a + b) == group_headings(a) + group_headings(b),
    decreases b.len(),
{
    if b.len() == 0 {
        assert(a + b =~= a);
        assert(entry_pairs(a) + entry_pairs(b) =~= entry_pairs(a));
        assert(group_headings(a) + group_headings(b) =~= group_headings(a));
    } else {
        lemma_entry_pairs_add(a, b.drop_last());
        assert((a + b).drop_last() =~= a + b.drop_last());
        assert((a + b).last() == b.last());
        assert(entry_pairs(a + b) =~= entry_pairs(a) + entry_pairs(b));
        assert(group_headings(a + b) =~= group_headings(a) + group_headings(b));
    }
}

proof fn lemma_entry_pairs_of_entries(s: Seq<DashboardRenderRow>, start: nat, idx: Seq<int>)
    requires
        s.len() == idx.len(),
        start + idx.len() <= usize::MAX,
        forall|k: int| 0 <= k < idx.len() ==> 0 <= #[trigger] idx[k] <= usize::MAX,
        forall|k: int| 0 <= k < s.len() ==> #[trigger] s[k] == (DashboardRenderRow::Entry {
            visible_index: (start + k) as usize,
            entry_index: idx[k] as usize,
        }),
    ensures
        entry_pairs(s) == Seq::new(s.len(), |k: int| (start + k, idx[k])),
        group_headings(s) == Seq::<AgentsDashboardGroup>::empty(),
    decreases s.len(),
{
    if s.len() > 0 {
        let m = (s.len() - 1) as int;
        lemma_entry_pairs_of_entries(s.drop_last(), start, idx.drop_last());
        assert(s[m] == DashboardRenderRow::Entry { visible_index: (start + m) as usize, entry_index: idx[m] as usize });
        assert(entry_pairs(s) =~= Seq::new(s.len(), |k: int| (start + k, idx[k])));
        assert(group_headings(s) =~= Seq::<AgentsDashboardGroup>::empty());
    } else {
        assert(entry_pairs(s) =~= Seq::new(s.len(), |k: int| (start + k, idx[k])));
    }
}

proof fn lemma_single_row(r: DashboardRenderRow)
    ensures
        entry_pairs(seq![r]) == (match r {
            DashboardRenderRow::Entry { visible_index, entry_index } => seq![(visible_index as int, entry_index as int)],
            _ => Seq::<(int, int)>::empty(),
        }),
        group_headings(seq![r]) == (match r {
            DashboardRenderRow::Group(g) => seq![g],
            _ => Seq::<AgentsDashboardGroup>::empty(),
        }),
{
    let s = seq![r];
    assert(s.drop_last() =~= Seq::<DashboardRenderRow>::empty());
    assert(entry_pairs(Seq::<DashboardRenderRow>::empty()) == Seq::<(int, int)>::empty());
    assert(group_headings(Seq::<DashboardRenderRow>::empty()) == Seq::<AgentsDashboardGroup>::empty());
    assert(s.last() == r);
    assert(entry_pairs(s) =~= (match r {
        DashboardRenderRow::Entry { visible_index, entry_index } => seq![(visible_index as int, entry_index as int)],
        _ => Seq::<(int, int)>::empty(),
    }));
    assert(group_headings(s) =~= (match r {
        DashboardRenderRow::Group(g) => seq![g],
        _ => Seq::<AgentsDashboardGroup>::empty(),
    }));
}

proof fn lemma_rows_with_spacers_pairs(entries: Seq<AgentViewEntry>, i: nat)
    requires
        i <= 5,
        entries.len() <= usize::MAX,
    ensures
        entry_pairs(rows_with_spacers(entries, i)) == Seq::new(
            ordered_prefix(entries, i).len(),
            |k: int| (k, ordered_prefix(entries, i)[k]),
        ),
        group_headings(rows_with_spacers(entries, i)) == nonempty_groups(entries, i),
    decreases i,
{
    if i == 0 {
        assert(entry_pairs(rows_with_spacers(entries, 0)) =~= Seq::new(
            ordered_prefix(entries, 0).len(),
            |k: int| (k, ordered_prefix(entries, 0)[k]),
        ));
    } else {
        let j = (i - 1) as nat;
        lemma_rows_with_spacers_pairs(entries, j);
        lemma_ordered_prefix(entries, i);
        law_display_order_is_permutation(entries);
        lemma_ordered_prefix_monotone(entries, i, 5);
        let g = group_at_spec(j as int);
        let idx = group_indices(entries, g, entries.len());
        lemma_group_indices(entries, g, entries.len());
        let start = ordered_prefix(entries, j).len();
        let prev = rows_with_spacers(entries, j);
        assert(ordered_prefix(entries, i) == ordered_prefix(entries, j) + idx);
        if idx.len() > 0 {
            let ents = Seq::new(
                idx.len(),
                |k: int| DashboardRenderRow::Entry { visible_index: (start + k) as usize, entry_index: idx[k] as usize },
            );
            let head = seq![DashboardRenderRow::Group(g)];
            let sp = seq![DashboardRenderRow::Spacer];
            assert(group_block(entries, j, start) == head + ents);
            assert(rows_with_spacers(entries, i) == prev + (head + ents + sp));
            lemma_entry_pairs_of_entries(ents, start, idx);
            lemma_entry_pairs_add(head, ents);
            lemma_entry_pairs_add(head + ents, sp);
            lemma_entry_pairs_add(prev, head + ents + sp);
            lemma_single_row(DashboardRenderRow::Group(g));
            lemma_single_row(DashboardRenderRow::Spacer);
            assert(entry_pairs(rows_with_spacers(entries, i)) =~= Seq::new(
                ordered_prefix(entries, i).len(),
                |k: int| (k, ordered_prefix(entries, i)[k]),
            ));
            assert(group_headings(rows_with_spacers(entries, i)) =~= nonempty_groups(entries, i));
        } else {
            assert(rows_with_spacers(entries, i) =~= prev);
            assert(ordered_prefix(entries, i) =~= ordered_prefix(entries, j));
            assert(nonempty_groups(entries, i) =~= nonempty_groups(entries, j));
        }
    }
}

/// Law: the entry rows of the list are the entries in display order, each
/// once, numbered 0, 1, ... by their visible index; the group headings are
/// exactly the groups that hold entries, in display order.
pub proof fn law_render_rows_follow_display_order(entries: Seq<AgentViewEntry>)
    requires
        entries.len() <= usize::MAX,
    ensures
        entry_pairs(render_rows_spec(entries)) == Seq::new(entries.len(), |k: int| (k, ordered_indices(entries)[k])),
        group_headings(render_rows_spec(entries)) == nonempty_groups(entries, 5),
{
    lemma_rows_with_spacers_pairs(entries, 5);
    law_display_order_is_permutation(entries);
    let r = rows_with_spacers(entries, 5);
    if r.len() > 0 {
        lemma_rows_end_with_spacer(entries, 5);
        assert(r == r.drop_last() + seq![DashboardRenderRow::Spacer]);
        lemma_entry_pairs_add(r.drop_last(), seq![DashboardRenderRow::Spacer]);
        lemma_single_row(DashboardRenderRow::Spacer);
        assert(entry_pairs(r.drop_last()) =~= entry_pairs(r));
        assert(group_headings(r.drop_last()) =~= group_headings(r));
    }
}


/// Whether rows have the shape of the list: every heading is followed by an
/// entry, and every blank line lies between an entry and a heading, so that
/// no blank line is first, last, or next to another.
pub open spec fn rows_shaped(rows: Seq<DashboardRenderRow>) -> bool {
    &&& forall|k: int| 0 <= k < rows.len() && (#[trigger] rows[k]) is Group ==> k + 1 < rows.len()
        && rows[k + 1] is Entry
    &&& forall|k: int| 0 <= k < rows.len() && (#[trigger] rows[k]) is Spacer ==> 0 < k < rows.len() - 1
        && rows[k - 1] is Entry && rows[k + 1] is Group
}

/// The shape of the rows before the last blank line is dropped: they end in
/// a blank line, every heading is followed by an entry, and every blank line
/// follows an entry and precedes a heading or the end.
pub open spec fn spaced_rows_shaped(rows: Seq<DashboardRenderRow>) -> bool {
    &&& rows.len() > 0 ==> rows.last() is Spacer
    &&& forall|k: int| 0 <= k < rows.len() && (#[trigger] rows[k]) is Group ==> k + 1 < rows.len()
        && rows[k + 1] is Entry
    &&& forall|k: int| 0 <= k < rows.len() && (#[trigger] rows[k]) is Spacer ==> 0 < k && rows[k - 1] is Entry
        && (k + 1 < rows.len() ==> rows[k + 1] is Group)
}

proof fn lemma_rows_with_spacers_shaped(entries: Seq<AgentViewEntry>, i: nat)
    ensures
        spaced_rows_shaped(rows_with_spacers(entries, i)),
    decreases i,
{
    if i > 0 {
        let j = (i - 1) as nat;
        lemma_rows_with_spacers_shaped(entries, j);
        let g = group_at_spec(j as int);
        let idx = group_indices(entries, g, entries.len());
        let prev = rows_with_spacers(entries, j);
        if idx.len() > 0 {
            let start = ordered_prefix(entries, j).len();
            let block = group_block(entries, j, start);
            let new = rows_with_spacers(entries, i);
            let a = prev.len() as int;
            let n = idx.len() as int;
            assert(new == prev + block + seq![DashboardRenderRow::Spacer]);
            assert(new.len() == a + n + 2);
            assert forall|k: int| 0 <= k < a implies new[k] == prev[k] by {}
            assert(new[a] == DashboardRenderRow::Group(g));
            assert forall|k: int| a < k <= a + n implies (#[trigger] new[k]) is Entry by {
                assert(new[k] == block[k - a]);
            }
            assert(new[a + n + 1] == DashboardRenderRow::Spacer);
            assert(new[a + 1] is Entry);
            assert(new[a + n] is Entry);
            assert forall|k: int| 0 <= k < new.len() && (#[trigger] new[k]) is Group implies k + 1 < new.len()
                && new[k + 1] is Entry by {
                if k < a {
                    assert(prev[k] is Group);
                    if k + 1 == a {
                        assert(prev.last() is Spacer);
                    }
                    assert(new[k + 1] == prev[k + 1]);
                } else if a < k <= a + n {
                    assert(new[k] is Entry);
                }
            }
            assert forall|k: int| 0 <= k < new.len() && (#[trigger] new[k]) is Spacer implies 0 < k
                && new[k - 1] is Entry && (k + 1 < new.len() ==> new[k + 1] is Group) by {
                if k < a {
                    assert(prev[k] is Spacer);
                    assert(new[k - 1] == prev[k - 1]);
                    if k + 1 < a {
                        assert(new[k + 1] == prev[k + 1]);
                    }
                } else if a < k <= a + n {
                    assert(new[k] is Entry);
                } else if k == a + n + 1 {
                    assert(new[k - 1] is Entry);
                }
            }
        } else {
            assert(rows_with_spacers(entries, i) =~= prev);
        }
    }
}

proof fn lemma_nonempty_groups_ranked(entries: Seq<AgentViewEntry>, i: nat)
    requires
        i <= 5,
    ensures
        forall|a: int| 0 <= a < nonempty_groups(entries, i).len() ==> group_rank(
            #[trigger] nonempty_groups(entries, i)[a],
        ) < i,
        forall|a: int, b: int| 0 <= a < b < nonempty_groups(entries, i).len() ==> group_rank(
            #[trigger] nonempty_groups(entries, i)[a],
        ) < group_rank(#[trigger] nonempty_groups(entries, i)[b]),
    decreases i,
{
    if i > 0 {
        let j = (i - 1) as nat;
        lemma_nonempty_groups_ranked(entries, j);
        lemma_group_rank_at(j as int);
        let prev = nonempty_groups(entries, j);
        let cur = nonempty_groups(entries, i);
        assert forall|a: int| 0 <= a < prev.len() implies cur[a] == prev[a] by {}
    }
}

proof fn lemma_no_entries_no_rows(entries: Seq<AgentViewEntry>, i: nat)
    requires
        entries.len() == 0,
    ensures
        rows_with_spacers(entries, i).len() == 0,
    decreases i,
{
    if i > 0 {
        lemma_no_entries_no_rows(entries, (i - 1) as nat);
    }
}

/// Law: the list has the shape that the dashboard draws: each heading is
/// followed by an entry; each blank line lies between an entry and the
/// next heading, so none is first, last, or next to another; the headings
/// come in display order with no group twice; and a dashboard without
/// entries has no rows.
pub proof fn law_render_rows_shape(entries: Seq<AgentViewEntry>)
    requires
        entries.len() <= usize::MAX,
    ensures
        rows_shaped(render_rows_spec(entries)),
        forall|a: int, b: int| 0 <= a < b < group_headings(render_rows_spec(entries)).len() ==> group_rank(
            #[trigger] group_headings(render_rows_spec(entries))[a],
        ) < group_rank(#[trigger] group_headings(render_rows_spec(entries))[b]),
        entries.len() == 0 ==> render_rows_spec(entries).len() == 0,
{
    law_render_rows_follow_display_order(entries);
    lemma_nonempty_groups_ranked(entries, 5);
    lemma_rows_with_spacers_shaped(entries, 5);
    let r = rows_with_spacers(entries, 5);
    if entries.len() == 0 {
        lemma_no_entries_no_rows(entries, 5);
    }
    if r.len() > 0 {
        let d = r.drop_last();
        assert(render_rows_spec(entries) == d);
        assert forall|k: int| 0 <= k < d.len() && (#[trigger] d[k]) is Group implies k + 1 < d.len()
            && d[k + 1] is Entry by {
            assert(r[k] is Group);
            assert(r[k + 1] is Entry);
        }
        assert forall|k: int| 0 <= k < d.len() && (#[trigger] d[k]) is Spacer implies 0 < k < d.len() - 1
            && d[k - 1] is Entry && d[k + 1] is Group by {
            assert(r[k] is Spacer);
            assert(r[k - 1] is Entry);
            assert(r[k + 1] is Group);
        }
    }
}

/// The minimum time between two refreshes of the list, in nanoseconds.
pub const REFRESH_INTERVAL_NANOS: u64 = 2_000_000_000;

/// Whether `new` differs from `old` at most in its selection and scroll.
pub open spec fn same_but_selection(old: AgentsDashboardState, new: AgentsDashboardState) -> bool {
    &&& new.cwd == old.cwd
    &&& new.entries == old.entries
    &&& new.screen == old.screen
    &&& new.row_hitboxes == old.row_hitboxes
    &&& new.last_refreshed_at == old.last_refreshed_at
}

/// The selection and scroll after clamping to `len` visible entries.
pub open spec fn clamped(selected: usize, scroll_offset: usize, len: int) -> (usize, usize) {
    if len == 0 {
        (0, 0)
    } else if selected >= len {
        ((len - 1) as usize, scroll_offset)
    } else {
        (selected, scroll_offset)
    }
}

/// The selection after moving by `delta` among `len` visible entries.
pub open spec fn moved(selected: usize, scroll_offset: usize, len: int, delta: int) -> (usize, usize) {
    if len == 0 {
        (0, 0)
    } else {
        let current = if selected < len - 1 { selected as int } else { len - 1 };
        let target = current + delta;
        let clamped_target = if target < 0 { 0 } else if target > len - 1 { len - 1 } else { target };
        (clamped_target as usize, scroll_offset)
    }
}

impl AgentsDashboardState {
    /// The entry index of the selected row, if the selection is in range.
    pub fn selected_entry_index(&self) -> (r: Option<usize>)
        ensures
            match r {
                Some(i) => selected_index(*self) == Some(i as int),
                None => selected_index(*self) is None,
            },
    {
        let indices = self.ordered_entry_indices();
        if self.selected < indices.len() {
            proof {
                assert(as_ints(indices@)[self.selected as int] == indices@[self.selected as int] as int);
            }
            Some(indices[self.selected])
        } else {
            None
        }
    }

    /// Keeps the selection on a visible entry: none selected when there are
    /// no entries, else the last one when the selection is past the end.
    pub fn clamp_selection(&mut self)
        ensures
            same_but_selection(*old(self), *final(self)),
            (final(self).selected, final(self).scroll_offset) == clamped(
                old(self).selected,
                old(self).scroll_offset,
                old(self).entries@.len() as int,
            ),
    {
        let len = self.ordered_entry_indices().len();
        proof {
            law_display_order_is_permutation(self.entries@);
        }
        if len == 0 {
            self.selected = 0;
            self.scroll_offset = 0;
        } else if self.selected >= len {
            self.selected = len - 1;
        }
    }

    /// Moves the selection by `delta` rows, stopping at the first and last
    /// entries.
    pub fn move_selection(&mut self, delta: isize)
        ensures
            same_but_selection(*old(self), *final(self)),
            (final(self).selected, final(self).scroll_offset) == moved(
                old(self).selected,
                old(self).scroll_offset,
                old(self).entries@.len() as int,
                delta as int,
            ),
    {
        let len = self.ordered_entry_indices().len();
        proof {
            law_display_order_is_permutation(self.entries@);
        }
        if len == 0 {
            self.selected = 0;
            self.scroll_offset = 0;
            return;
        }
        let current: i128 = if self.selected < len - 1 { self.selected as i128 } else { (len - 1) as i128 };
        let target: i128 = current + delta as i128;
        let last: i128 = (len - 1) as i128;
        let clamped_target: i128 = if target < 0 { 0 } else if target > last { last } else { target };
        self.selected = clamped_target as usize;
    }

    /// Law: from a selection inside `len` entries, moving by `delta` lands on
/// the selection plus `delta`, clamped to the first and last entries, and
/// leaves the scroll alone; so one step up from `k > 0` gives `k - 1`, one
/// step down from `k < len - 1` gives `k + 1`, and a step and its reverse
/// return to the start when the step stays inside.
pub proof fn law_move_lands_on_clamped_target(selected: usize, offset: usize, len: int, delta: int)
    requires
        0 <= selected < len <= usize::MAX,
    ensures
        moved(selected, offset, len, delta).0 as int == (if selected + delta < 0 {
            0
        } else if selected + delta >= len {
            len - 1
        } else {
            selected + delta
        }),
        moved(selected, offset, len, delta).1 == offset,
        selected > 0 ==> moved(selected, offset, len, -1).0 == selected - 1,
        selected + 1 < len ==> moved(selected, offset, len, 1).0 == selected + 1,
        0 <= selected + delta < len ==> moved(moved(selected, offset, len, delta).0, offset, len, -delta).0 == selected,
{
}

/// Selects the row of entry `entry_index`, if it is shown.
    pub fn select_entry_index(&mut self, entry_index: usize)
        ensures
            same_but_selection(*old(self), *final(self)),
            final(self).scroll_offset == old(self).scroll_offset,
            (exists|p: int| 0 <= p < ordered_indices(old(self).entries@).len()
                && ordered_indices(old(self).entries@)[p] == entry_index) ==> {
                &&& final(self).selected < ordered_indices(old(self).entries@).len()
                &&& ordered_indices(old(self).entries@)[final(self).selected as int] == entry_index
                &&& forall|q: int| 0 <= q < final(self).selected ==> ordered_indices(old(self).entries@)[q] != entry_index
            },
            !(exists|p: int| 0 <= p < ordered_indices(old(self).entries@).len()
                && ordered_indices(old(self).entries@)[p] == entry_index) ==> final(self).selected == old(self).selected,
    {
        let indices = self.ordered_entry_indices();
        let ghost ord = ordered_indices(self.entries@);
        let mut p: usize = 0;
        while p < indices.len()
            invariant
                p <= indices@.len(),
                as_ints(indices@) == ord,
                ord == ordered_indices(old(self).entries@),
                *self == *old(self),
                forall|q: int| 0 <= q < p ==> ord[q] != entry_index,
            decreases indices@.len() - p,
        {
            proof {
                assert(as_ints(indices@)[p as int] == indices@[p as int] as int);
            }
            if indices[p] == entry_index {
                self.selected = p;
                return;
            }
            p = p + 1;
        }
    }

    /// Scrolls the list so that the selected entry's row lies within the
    /// `height` lines shown, scrolling no further than the rows go: the
    /// offset is first kept within the rows, then moved only as far as the
    /// first row of the selected entry needs.
    pub fn ensure_selected_row_visible(&mut self, rows: &Vec<DashboardRenderRow>, height: usize)
        ensures
            same_but_selection(*old(self), *final(self)),
            final(self).selected == old(self).selected,
            final(self).scroll_offset as int == scroll_to_selected(rows@, old(self).selected, old(self).scroll_offset, height),
            height > 0 && first_selected_row(rows@, old(self).selected) < rows@.len() ==> final(self).scroll_offset
                <= first_selected_row(rows@, old(self).selected) < final(self).scroll_offset + height,
    {
        if height == 0 || rows.len() == 0 {
            self.scroll_offset = 0;
            return;
        }
        let max_offset: usize = if rows.len() > height { rows.len() - height } else { 0 };
        if self.scroll_offset > max_offset {
            self.scroll_offset = max_offset;
        }
        let mut p: usize = 0;
        let mut found = false;
        while !found && p < rows.len()
            invariant
                p <= rows@.len(),
                same_but_selection(*old(self), *self),
                self.selected == old(self).selected,
                self.scroll_offset <= max_offset,
                max_offset as int == (if rows@.len() > height { rows@.len() - height } else { 0 }),
                self.scroll_offset as int == (if old(self).scroll_offset > max_offset { max_offset } else { old(self).scroll_offset }),
                forall|q: int| 0 <= q < p ==> !is_selected_row(rows@[q], self.selected),
                found ==> p < rows@.len() && is_selected_row(rows@[p as int], self.selected),
            decreases rows@.len() - p + (if found { 0int } else { 1int }),
        {
            let is_sel = match rows[p] {
                DashboardRenderRow::Entry { visible_index, .. } => visible_index == self.selected,
                _ => false,
            };
            if is_sel {
                found = true;
            } else {
                p = p + 1;
            }
        }
        proof {
            lemma_first_selected_row(rows@, self.selected);
            if found {
                assert(first_selected_row(rows@, self.selected) == p);
            } else {
                assert(first_selected_row(rows@, self.selected) == rows@.len());
            }
        }
        if !found {
            return;
        }
        let selected_row = p;
        if selected_row < self.scroll_offset {
            self.scroll_offset = selected_row;
        } else if selected_row - self.scroll_offset >= height {
            self.scroll_offset = selected_row + 1 - height;
        }
        if self.scroll_offset > max_offset {
            self.scroll_offset = max_offset;
        }
    }
}

/// The first of `rows` that shows the `selected`-th entry, or `rows.len()`
/// when none does.
pub open spec fn first_selected_row(rows: Seq<DashboardRenderRow>, selected: usize) -> int
    decreases rows.len(),
{
    if rows.len() == 0 {
        0
    } else if is_selected_row(rows[0], selected) {
        0
    } else {
        1 + first_selected_row(rows.drop_first(), selected)
    }
}

proof fn lemma_first_selected_row(rows: Seq<DashboardRenderRow>, selected: usize)
    ensures
        0 <= first_selected_row(rows, selected) <= rows.len(),
        forall|q: int| 0 <= q < first_selected_row(rows, selected) ==> !is_selected_row(#[trigger] rows[q], selected),
        first_selected_row(rows, selected) < rows.len() ==> is_selected_row(
            rows[first_selected_row(rows, selected)],
            selected,
        ),
    decreases rows.len(),
{
    if rows.len() > 0 && !is_selected_row(rows[0], selected) {
        let t = rows.drop_first();
        lemma_first_selected_row(t, selected);
        assert forall|q: int| 0 <= q < first_selected_row(rows, selected) implies !is_selected_row(
            #[trigger] rows[q],
            selected,
        ) by {
            if q > 0 {
                assert(rows[q] == t[q - 1]);
            }
        }
    }
}

/// The scroll offset that shows the selected entry within `height` lines:
/// zero for no lines or no rows; else the offset kept within the rows,
/// moved back to the first selected row when that lies above it, or forward
/// so that row is the last line when it lies below the window, and kept
/// within the rows again.
pub open spec fn scroll_to_selected(rows: Seq<DashboardRenderRow>, selected: usize, offset: usize, height: usize) -> int {
    if height == 0 || rows.len() == 0 {
        0
    } else {
        let max = if rows.len() > height { rows.len() - height } else { 0 };
        let o1 = if offset > max { max } else { offset as int };
        let p = first_selected_row(rows, selected);
        if p >= rows.len() {
            o1
        } else {
            let o2 = if p < o1 { p } else if p >= o1 + height { p + 1 - height } else { o1 };
            if o2 > max { max } else { o2 }
        }
    }
}

/// Whether a row is the entry row shown `selected`-th.
pub open spec fn is_selected_row(row: DashboardRenderRow, selected: usize) -> bool {
    match row {
        DashboardRenderRow::Entry { visible_index, .. } => visible_index == selected,
        _ => false,
    }
}


/// Whether the list is due for a refresh at time `now`: it is shown and was
/// never refreshed, or the last refresh is at least two seconds old.
pub open spec fn refresh_wanted(screen: AgentsDashboardScreen, last: Option<u64>, now: u64) -> bool {
    screen == AgentsDashboardScreen::List && match last {
        None => true,
        Some(t) => (if now >= t { now - t } else { 0 }) >= REFRESH_INTERVAL_NANOS,
    }
}

impl AgentsDashboardState {
    /// Whether the list is due for a refresh at time `now`.
    pub fn should_refresh(&self, now: u64) -> (r: bool)
        ensures
            r == refresh_wanted(self.screen, self.last_refreshed_at, now),
    {
        self.is_list() && match self.last_refreshed_at {
            None => true,
            Some(last) => now.saturating_sub(last) >= REFRESH_INTERVAL_NANOS,
        }
    }

    /// Shows the list, as when leaving a session.
    pub fn show_list(&mut self)
        ensures
            *final(self) == (AgentsDashboardState { screen: AgentsDashboardScreen::List, ..*old(self) }),
    {
        self.screen = AgentsDashboardScreen::List;
    }

    /// Shows a session in place of the list, as when opening an entry.
    pub fn show_thread(&mut self)
        ensures
            *final(self) == (AgentsDashboardState { screen: AgentsDashboardScreen::Thread, ..*old(self) }),
    {
        self.screen = AgentsDashboardScreen::Thread;
    }

    /// Records a refresh attempt at time `now`.
    pub fn mark_refresh_attempted(&mut self, now: u64)
        ensures
            final(self).last_refreshed_at == Some(now),
            final(self).cwd == old(self).cwd,
            final(self).entries == old(self).entries,
            final(self).selected == old(self).selected,
            final(self).scroll_offset == old(self).scroll_offset,
            final(self).screen == old(self).screen,
            final(self).row_hitboxes == old(self).row_hitboxes,
    {
        self.last_refreshed_at = Some(now);
    }

    /// Whether to refresh now; a due refresh is recorded as attempted, so
    /// that the next one waits two seconds.
    pub fn refresh_due(&mut self, now: u64) -> (r: bool)
        ensures
            r == refresh_wanted(old(self).screen, old(self).last_refreshed_at, now),
            final(self).last_refreshed_at == (if r { Some(now) } else { old(self).last_refreshed_at }),
            final(self).cwd == old(self).cwd,
            final(self).entries == old(self).entries,
            final(self).selected == old(self).selected,
            final(self).scroll_offset == old(self).scroll_offset,
            final(self).screen == old(self).screen,
            final(self).row_hitboxes == old(self).row_hitboxes,
    {
        if !self.should_refresh(now) {
            return false;
        }
        self.mark_refresh_attempted(now);
        true
    }

    /// Shows a fresh list of entries, refreshed at time `now`, keeping the
    /// selection in range.
    pub fn set_entries(&mut self, entries: Vec<AgentViewEntry>, now: u64)
        ensures
            final(self).entries == entries,
            final(self).last_refreshed_at == Some(now),
            final(self).cwd == old(self).cwd,
            final(self).screen == old(self).screen,
            final(self).row_hitboxes == old(self).row_hitboxes,
            (final(self).selected, final(self).scroll_offset) == clamped(
                old(self).selected,
                old(self).scroll_offset,
                entries@.len() as int,
            ),
    {
        self.entries = entries;
        self.last_refreshed_at = Some(now);
        self.clamp_selection();
    }

    /// Drops entry `entry_index` after the server hid it, keeping the
    /// selection in range.
    pub fn remove_entry(&mut self, entry_index: usize)
        requires
            entry_index < old(self).entries@.len(),
        ensures
            final(self).entries@ == old(self).entries@.remove(entry_index as int),
            final(self).last_refreshed_at == old(self).last_refreshed_at,
            final(self).cwd == old(self).cwd,
            final(self).screen == old(self).screen,
            final(self).row_hitboxes == old(self).row_hitboxes,
            (final(self).selected, final(self).scroll_offset) == clamped(
                old(self).selected,
                old(self).scroll_offset,
                old(self).entries@.len() - 1,
            ),
    {
        self.entries.remove(entry_index);
        self.clamp_selection();
    }

    /// Puts an updated entry in place of the first entry of the same thread,
    /// keeping the selection in range; nothing changes if no entry has that
    /// thread.
    pub fn replace_entry(&mut self, entry: AgentViewEntry)
        ensures
            final(self).last_refreshed_at == old(self).last_refreshed_at,
            final(self).cwd == old(self).cwd,
            final(self).screen == old(self).screen,
            final(self).row_hitboxes == old(self).row_hitboxes,
            first_entry_of_thread(old(self).entries@, entry.thread_id@) < old(self).entries@.len() ==> {
                &&& final(self).entries@ == old(self).entries@.update(
                    first_entry_of_thread(old(self).entries@, entry.thread_id@),
                    entry,
                )
                &&& (final(self).selected, final(self).scroll_offset) == clamped(
                    old(self).selected,
                    old(self).scroll_offset,
                    old(self).entries@.len() as int,
                )
            },
            first_entry_of_thread(old(self).entries@, entry.thread_id@) == old(self).entries@.len() ==> *final(self)
                == *old(self),
    {
        proof {
            lemma_first_entry_of_thread(self.entries@, entry.thread_id@);
        }
        let ghost first = first_entry_of_thread(self.entries@, entry.thread_id@);
        let mut i: usize = 0;
        while i < self.entries.len()
            invariant
                i <= self.entries@.len(),
                *self == *old(self),
                first == first_entry_of_thread(old(self).entries@, entry.thread_id@),
                0 <= first <= old(self).entries@.len(),
                forall|q: int| 0 <= q < first ==> old(self).entries@[q].thread_id@ != entry.thread_id@,
                first < old(self).entries@.len() ==> old(self).entries@[first].thread_id@ == entry.thread_id@,
                forall|j: int| 0 <= j < i ==> self.entries@[j].thread_id@ != entry.thread_id@,
            decreases self.entries@.len() - i,
        {
            if self.entries[i].thread_id == entry.thread_id {
                proof {
                    assert(first == i as int) by {
                        if first > i {
                            assert(old(self).entries@[i as int].thread_id@ == entry.thread_id@);
                        }
                    }
                }
                self.entries.set(i, entry);
                self.clamp_selection();
                return;
            }
            i = i + 1;
        }
    }
}

/// The place of the first of `entries` whose thread is `thread_id`, or
/// `entries.len()` when none is.
pub open spec fn first_entry_of_thread(entries: Seq<AgentViewEntry>, thread_id: Seq<char>) -> int
    decreases entries.len(),
{
    if entries.len() == 0 {
        0
    } else if entries[0].thread_id@ == thread_id {
        0
    } else {
        1 + first_entry_of_thread(entries.drop_first(), thread_id)
    }
}

/// What `first_entry_of_thread` gives: a place no further than the end,
/// no entry of the thread before it, and an entry of the thread at it
/// unless it is the end.
pub proof fn lemma_first_entry_of_thread(entries: Seq<AgentViewEntry>, thread_id: Seq<char>)
    ensures
        0 <= first_entry_of_thread(entries, thread_id) <= entries.len(),
        forall|q: int| 0 <= q < first_entry_of_thread(entries, thread_id) ==> (#[trigger] entries[q]).thread_id@
            != thread_id,
        first_entry_of_thread(entries, thread_id) < entries.len() ==> entries[first_entry_of_thread(
            entries,
            thread_id,
        )].thread_id@ == thread_id,
    decreases entries.len(),
{
    if entries.len() > 0 && entries[0].thread_id@ != thread_id {
        let t = entries.drop_first();
        lemma_first_entry_of_thread(t, thread_id);
        assert forall|q: int| 0 <= q < first_entry_of_thread(entries, thread_id) implies (#[trigger] entries[q]).thread_id@
            != thread_id by {
            if q > 0 {
                assert(entries[q] == t[q - 1]);
            }
        }
    }
}


/// The entry index of the selected row, if the selection is in range.
pub open spec fn selected_index(d: AgentsDashboardState) -> Option<int> {
    if d.selected < ordered_indices(d.entries@).len() {
        Some(ordered_indices(d.entries@)[d.selected as int])
    } else {
        None
    }
}

impl AgentsDashboardState {
    fn selected_entry(&self) -> (r: Option<usize>)
        ensures
            match r {
                Some(i) => selected_index(*self) == Some(i as int) && i < self.entries@.len(),
                None => selected_index(*self) is None,
            },
    {
        proof {
            law_display_order_is_permutation(self.entries@);
        }
        match self.selected_entry_index() {
            Some(i) => {
                proof {
                    let x = ordered_indices(self.entries@)[self.selected as int];
                    assert(0 <= x < self.entries@.len());
                }
                Some(i)
            },
            None => None,
        }
    }

    /// The thread of the selected entry, if its id parses.
    pub fn selected_thread_id(&self) -> (r: Option<ThreadId>)
        ensures
            match selected_index(*self) {
                Some(i) => match spec_parse_thread_id(self.entries@[i].thread_id@) {
                    Ok(id) => r == Some(id),
                    Err(_) => r is None,
                },
                None => r is None,
            },
    {
        match self.selected_entry() {
            Some(i) => match ThreadId::from_string(self.entries[i].thread_id.as_str()) {
                Ok(id) => Some(id),
                Err(_) => None,
            },
            None => None,
        }
    }

    /// The pin state that toggling the selected entry asks for.
    pub fn selected_pin_toggle(&self) -> (r: Option<bool>)
        ensures
            match selected_index(*self) {
                Some(i) => r == Some(!self.entries@[i].pinned),
                None => r is None,
            },
    {
        match self.selected_entry() {
            Some(i) => Some(!self.entries[i].pinned),
            None => None,
        }
    }

    /// The update request for the selected entry that sets `view_state`
    /// and `pinned` where given.
    pub fn selected_update_params(
        &self,
        view_state: Option<AgentViewWorkflowState>,
        pinned: Option<bool>,
    ) -> (r: Option<AgentViewUpdateEntryParams>)
        ensures
            match selected_index(*self) {
                Some(i) => r matches Some(p) && p.cwd@ == self.cwd@ && p.thread_id@ == self.entries@[i].thread_id@
                    && p.view_state == view_state && p.pinned == pinned && p.position is None
                    && p.title_override is None,
                None => r is None,
            },
    {
        match self.selected_entry() {
            Some(i) => Some(AgentViewUpdateEntryParams {
                cwd: self.cwd_string(),
                thread_id: self.entries[i].thread_id.clone(),
                view_state,
                pinned,
                position: None,
                title_override: None,
            }),
            None => None,
        }
    }

    /// What hiding the selected entry asks the server: the entry's index and
    /// thread, or the message of a thread id that does not parse.
    pub fn selected_hide_request(&self) -> (r: Option<Result<(usize, ThreadId), String>>)
        ensures
            match selected_index(*self) {
                Some(i) => match spec_parse_thread_id(self.entries@[i].thread_id@) {
                    Ok(id) => r == Some(Ok::<(usize, ThreadId), String>((i as usize, id))),
                    Err(msg) => r matches Some(Err(m)) && m@ == "invalid dashboard thread id: "@ + msg,
                },
                None => r is None,
            },
    {
        match self.selected_entry() {
            Some(i) => match ThreadId::from_string(self.entries[i].thread_id.as_str()) {
                Ok(id) => Some(Ok((i, id))),
                Err(e) => {
                    let mut m = String::from_str("invalid dashboard thread id: ");
                    m.append(e.message.as_str());
                    Some(Err(m))
                },
            },
            None => None,
        }
    }
}


/// The title of an entry: its override, else its thread's name, else the
/// first line of its prompt.
pub open spec fn entry_title_text(e: AgentViewEntry) -> Seq<char> {
    match e.title_override {
        Some(t) => t@,
        None => match e.thread {
            Some(th) => match th.name {
                Some(n) => n@,
                None => first_line_text(e.initial_prompt@),
            },
            None => first_line_text(e.initial_prompt@),
        },
    }
}

/// The title shown for an entry.
pub fn entry_title(entry: &AgentViewEntry) -> (r: String)
    ensures
        r@ == entry_title_text(*entry),
{
    match &entry.title_override {
        Some(t) => t.clone(),
        None => match &entry.thread {
            Some(th) => match &th.name {
                Some(n) => n.clone(),
                None => first_line(entry.initial_prompt.as_str()),
            },
            None => first_line(entry.initial_prompt.as_str()),
        },
    }
}

/// The preview of an entry: its thread's preview unless blank, else the
/// first line of its prompt.
pub open spec fn entry_preview_text(e: AgentViewEntry) -> Seq<char> {
    match e.thread {
        Some(th) => if trimmed(th.preview@).len() > 0 {
            th.preview@
        } else {
            first_line_text(e.initial_prompt@)
        },
        None => first_line_text(e.initial_prompt@),
    }
}

/// The preview shown for an entry.
pub fn entry_preview(entry: &AgentViewEntry) -> (r: String)
    ensures
        r@ == entry_preview_text(*entry),
{
    match &entry.thread {
        Some(th) => {
            let t = trim_text(th.preview.as_str());
            if t.unicode_len() > 0 {
                th.preview.clone()
            } else {
                first_line(entry.initial_prompt.as_str())
            }
        },
        None => first_line(entry.initial_prompt.as_str()),
    }
}

/// The prompt recorded for a new session: the message's text, trimmed;
/// `Image task` for a message of images only; or nothing.
pub open spec fn initial_prompt_text(text: Seq<char>, has_images: bool) -> Seq<char> {
    if trimmed(text).len() > 0 {
        trimmed(text)
    } else if has_images {
        "Image task"@
    } else {
        Seq::empty()
    }
}

/// The prompt recorded for a session started from a message with `text`,
/// which has attached or linked images when `has_images`.
pub fn initial_prompt_for_user_message(text: &str, has_images: bool) -> (r: String)
    ensures
        r@ == initial_prompt_text(text@, has_images),
{
    let t = trim_text(text);
    if t.unicode_len() > 0 {
        t
    } else if has_images {
        String::from_str("Image task")
    } else {
        String::new()
    }
}

/// `a - b`, held within the range of `i64`.
pub open spec fn saturating_diff(a: i64, b: i64) -> int {
    let d = a - b;
    if d > i64::MAX { i64::MAX as int } else if d < i64::MIN { i64::MIN as int } else { d }
}

/// The time an entry last saw activity: its thread's recency, else the
/// later of its update and creation times.
pub open spec fn entry_activity_time(e: AgentViewEntry) -> i64 {
    let fallback = if e.updated_at >= e.created_at { e.updated_at } else { e.created_at };
    match e.thread {
        Some(th) => match th.recency_at {
            Some(t) => t,
            None => fallback,
        },
        None => fallback,
    }
}

/// How long ago an entry was active, at `now` seconds since the epoch:
/// whole days, hours or minutes, or `now` under a minute.
pub open spec fn entry_age_text(e: AgentViewEntry, now: i64) -> Seq<char> {
    let elapsed = saturating_diff(now, entry_activity_time(e));
    if elapsed >= 86_400 {
        decimal((elapsed / 86_400) as nat) + "d"@
    } else if elapsed >= 3_600 {
        decimal((elapsed / 3_600) as nat) + "h"@
    } else if elapsed >= 60 {
        decimal((elapsed / 60) as nat) + "m"@
    } else {
        "now"@
    }
}

/// The age shown for an entry at `now` seconds since the epoch.
pub fn entry_age(entry: &AgentViewEntry, now: i64) -> (r: String)
    ensures
        r@ == entry_age_text(*entry, now),
{
    let fallback = if entry.updated_at >= entry.created_at { entry.updated_at } else { entry.created_at };
    let timestamp = match &entry.thread {
        Some(th) => match th.recency_at {
            Some(t) => t,
            None => fallback,
        },
        None => fallback,
    };
    let elapsed: i64 = match now.checked_sub(timestamp) {
        Some(d) => d,
        None => if timestamp < 0 { i64::MAX } else { i64::MIN },
    };
    if elapsed >= 86_400 {
        let mut s = decimal_text((elapsed / 86_400) as u64);
        s.append("d");
        s
    } else if elapsed >= 3_600 {
        let mut s = decimal_text((elapsed / 3_600) as u64);
        s.append("h");
        s
    } else if elapsed >= 60 {
        let mut s = decimal_text((elapsed / 60) as u64);
        s.append("m");
        s
    } else {
        String::from_str("now")
    }
}

/// The counts line of the header: entries awaiting input, working, ready
/// for review, and completed.
pub open spec fn header_counts_spec(entries: Seq<AgentViewEntry>) -> Seq<char> {
    decimal(group_indices(entries, AgentsDashboardGroup::NeedsInput, entries.len()).len()) + " awaiting input · "@
        + decimal(group_indices(entries, AgentsDashboardGroup::Working, entries.len()).len()) + " working · "@
        + decimal(group_indices(entries, AgentsDashboardGroup::ReadyForReview, entries.len()).len())
        + " ready for review · "@
        + decimal(group_indices(entries, AgentsDashboardGroup::Completed, entries.len()).len()) + " completed"@
}

/// The counts line of the header.
pub fn header_counts_text(entries: &Vec<AgentViewEntry>) -> (r: String)
    ensures
        r@ == header_counts_spec(entries@),
{
    let mut s = decimal_text(count_group(entries, AgentsDashboardGroup::NeedsInput) as u64);
    s.append(" awaiting input · ");
    let w = decimal_text(count_group(entries, AgentsDashboardGroup::Working) as u64);
    s.append(w.as_str());
    s.append(" working · ");
    let ready = decimal_text(count_group(entries, AgentsDashboardGroup::ReadyForReview) as u64);
    s.append(ready.as_str());
    s.append(" ready for review · ");
    let c = decimal_text(count_group(entries, AgentsDashboardGroup::Completed) as u64);
    s.append(c.as_str());
    s.append(" completed");
    s
}


/// The colors the dashboard uses.
#[derive(Clone, Copy, Debug, PartialEq, Eq, Structural)]
pub enum DashboardColor {
    Yellow,
    Green,
    Red,
    Blue,
    DarkGray,
}

/// The color of a row's status marker.
pub fn marker_color(group: AgentsDashboardGroup) -> (r: DashboardColor)
    ensures
        r == (match group {
            AgentsDashboardGroup::NeedsInput => DashboardColor::Yellow,
            AgentsDashboardGroup::Working => DashboardColor::Green,
            AgentsDashboardGroup::Completed => DashboardColor::Red,
            _ => DashboardColor::Blue,
        }),
{
    match group {
        AgentsDashboardGroup::NeedsInput => DashboardColor::Yellow,
        AgentsDashboardGroup::Working => DashboardColor::Green,
        AgentsDashboardGroup::Completed => DashboardColor::Red,
        AgentsDashboardGroup::Pinned | AgentsDashboardGroup::ReadyForReview => DashboardColor::Blue,
    }
}

/// The color of a row's status text.
pub fn status_color(group: AgentsDashboardGroup) -> (r: DashboardColor)
    ensures
        r == (match group {
            AgentsDashboardGroup::NeedsInput => DashboardColor::Yellow,
            AgentsDashboardGroup::Working => DashboardColor::Green,
            AgentsDashboardGroup::Completed => DashboardColor::Red,
            _ => DashboardColor::DarkGray,
        }),
{
    match group {
        AgentsDashboardGroup::NeedsInput => DashboardColor::Yellow,
        AgentsDashboardGroup::Working => DashboardColor::Green,
        AgentsDashboardGroup::Completed => DashboardColor::Red,
        AgentsDashboardGroup::Pinned | AgentsDashboardGroup::ReadyForReview => DashboardColor::DarkGray,
    }
}

/// The marker of a row: a star for pinned entries, a dot for others.
pub fn entry_marker(entry: &AgentViewEntry) -> (r: &'static str)
    ensures
        r@ == (if entry.pinned { "✻"@ } else { "•"@ }),
{
    if entry.pinned { "✻" } else { "•" }
}

/// How a row of the given width is laid out: on narrow rows marker, title
/// and status run together; wide rows have a title column, a preview, and a
/// right-aligned status and age column.
#[derive(Clone, Copy, Debug, PartialEq, Eq, Structural)]
pub enum EntryRowLayout {
    Narrow,
    Wide { title_width: u16, meta_width: u16 },
}

/// The layout of a row `width` cells wide.
pub open spec fn entry_row_layout_spec(width: u16) -> EntryRowLayout {
    if width < 28 {
        EntryRowLayout::Narrow
    } else {
        let third = width / 3;
        let m0 = if third < 22 { third } else { 22 };
        let meta = if m0 > 10 { m0 } else { 10 };
        let rest = if width >= meta + 2 { width - (meta + 2) } else { 0 };
        let t0 = if rest > 12 { rest } else { 12 };
        let title = if t0 < 38 { t0 } else { 38 };
        EntryRowLayout::Wide { title_width: title as u16, meta_width: meta as u16 }
    }
}

/// The layout of a row `width` cells wide.
pub fn entry_row_layout(width: u16) -> (r: EntryRowLayout)
    ensures
        r == entry_row_layout_spec(width),
{
    if width < 28 {
        return EntryRowLayout::Narrow;
    }
    let third = width / 3;
    let m0 = if third < 22 { third } else { 22 };
    let meta_width = if m0 > 10 { m0 } else { 10 };
    let rest = width.saturating_sub(meta_width + 2);
    let t0 = if rest > 12 { rest } else { 12 };
    let title_width = if t0 < 38 { t0 } else { 38 };
    EntryRowLayout::Wide { title_width, meta_width }
}

/// A key of the keyboard, as the dashboard tells keys apart.
#[derive(Clone, Copy, Debug, PartialEq, Eq, Structural)]
pub enum DashboardKeyCode {
    Up,
    Down,
    Left,
    Right,
    Enter,
    Esc,
    Char(char),
    Other,
}

/// Whether a key event is a press, a repeat or a release.
#[derive(Clone, Copy, Debug, PartialEq, Eq, Structural)]
pub enum DashboardKeyKind {
    Press,
    Repeat,
    Release,
}

/// A key event: the key, its kind, whether Control was held, and whether
/// no modifier at all was held.
#[derive(Clone, Copy, Debug, PartialEq, Eq, Structural)]
pub struct DashboardKey {
    pub code: DashboardKeyCode,
    pub kind: DashboardKeyKind,
    pub control: bool,
    pub no_modifiers: bool,
}

/// What the dashboard does with a key.
#[derive(Clone, Copy, Debug, PartialEq, Eq, Structural)]
pub enum DashboardKeyAction {
    /// Not the dashboard's key.
    NotHandled,
    /// Back from a session to the list.
    ReturnToList,
    MoveUp,
    MoveDown,
    OpenSelected,
    HideSelected,
    TogglePin,
    MarkCompleted,
    MarkReady,
    /// The key goes to the composer at the bottom.
    ToComposer,
}

/// Whether a key leaves a session for the list: Left, or Esc for terminals
/// that send no reliable Left.
pub open spec fn is_return_key(code: DashboardKeyCode) -> bool {
    code == DashboardKeyCode::Left || code == DashboardKeyCode::Esc
}

/// What a key does, given the screen, whether a modal or popup is open, and
/// whether the composer is empty. A session is left for the list only while
/// its composer is idle: no popup and no draft.
pub open spec fn key_action_spec(
    showing_thread: bool,
    showing_list: bool,
    key: DashboardKey,
    no_modal_or_popup: bool,
    composer_empty: bool,
) -> DashboardKeyAction {
    let press = key.kind == DashboardKeyKind::Press;
    let press_or_repeat = press || key.kind == DashboardKeyKind::Repeat;
    if showing_thread && press && is_return_key(key.code) && no_modal_or_popup && composer_empty {
        DashboardKeyAction::ReturnToList
    } else if !showing_list {
        DashboardKeyAction::NotHandled
    } else if !no_modal_or_popup {
        DashboardKeyAction::ToComposer
    } else if key.code == DashboardKeyCode::Up && press_or_repeat {
        DashboardKeyAction::MoveUp
    } else if key.code == DashboardKeyCode::Down && press_or_repeat {
        DashboardKeyAction::MoveDown
    } else if key.code == DashboardKeyCode::Right && press {
        DashboardKeyAction::OpenSelected
    } else if key.code == DashboardKeyCode::Enter && press && composer_empty {
        DashboardKeyAction::OpenSelected
    } else if key.code == DashboardKeyCode::Char(' ') && press && key.no_modifiers && composer_empty {
        DashboardKeyAction::OpenSelected
    } else if key.code == DashboardKeyCode::Char('x') && press && key.control {
        DashboardKeyAction::HideSelected
    } else if key.code == DashboardKeyCode::Char('p') && press && key.no_modifiers && composer_empty {
        DashboardKeyAction::TogglePin
    } else if key.code == DashboardKeyCode::Char('c') && press && key.no_modifiers && composer_empty {
        DashboardKeyAction::MarkCompleted
    } else if key.code == DashboardKeyCode::Char('r') && press && key.no_modifiers && composer_empty {
        DashboardKeyAction::MarkReady
    } else {
        DashboardKeyAction::ToComposer
    }
}

/// Law: while the composer holds a draft, every character key but ctrl+x
/// goes to the composer, on the list and on a session alike; so p, c, r
/// and space are typed, not acted on.
pub proof fn law_draft_takes_character_keys(
    showing_thread: bool,
    showing_list: bool,
    key: DashboardKey,
    no_modal_or_popup: bool,
    c: char,
)
    requires
        showing_list,
        key.code == DashboardKeyCode::Char(c),
        !(c == 'x' && key.control),
    ensures
        key_action_spec(showing_thread, showing_list, key, no_modal_or_popup, false) == DashboardKeyAction::ToComposer,
{
}

/// Law: on the list, with no popup and an empty composer, a plain press of
/// p pins or unpins, c marks completed, r marks ready for review, space
/// opens, and ctrl+x hides, whatever the composer holds.
pub proof fn law_list_letters_act_on_selection(showing_thread: bool, key: DashboardKey, composer_empty: bool)
    requires
        key.kind == DashboardKeyKind::Press,
    ensures
        key.no_modifiers && composer_empty ==> {
            &&& key.code == DashboardKeyCode::Char('p') ==> key_action_spec(showing_thread, true, key, true, true)
                == DashboardKeyAction::TogglePin
            &&& key.code == DashboardKeyCode::Char('c') ==> key_action_spec(showing_thread, true, key, true, true)
                == DashboardKeyAction::MarkCompleted
            &&& key.code == DashboardKeyCode::Char('r') ==> key_action_spec(showing_thread, true, key, true, true)
                == DashboardKeyAction::MarkReady
            &&& key.code == DashboardKeyCode::Char(' ') ==> key_action_spec(showing_thread, true, key, true, true)
                == DashboardKeyAction::OpenSelected
        },
        key.code == DashboardKeyCode::Char('x') && key.control ==> key_action_spec(
            showing_thread,
            true,
            key,
            true,
            composer_empty,
        ) == DashboardKeyAction::HideSelected,
{
}

/// What a key does on the dashboard.
pub fn dashboard_key_action(
    showing_thread: bool,
    showing_list: bool,
    key: DashboardKey,
    no_modal_or_popup: bool,
    composer_empty: bool,
) -> (r: DashboardKeyAction)
    ensures
        r == key_action_spec(showing_thread, showing_list, key, no_modal_or_popup, composer_empty),
{
    let press = key.kind == DashboardKeyKind::Press;
    let press_or_repeat = press || key.kind == DashboardKeyKind::Repeat;
    let return_key = key.code == DashboardKeyCode::Left || key.code == DashboardKeyCode::Esc;
    if showing_thread && press && return_key && no_modal_or_popup && composer_empty {
        return DashboardKeyAction::ReturnToList;
    }
    if !showing_list {
        return DashboardKeyAction::NotHandled;
    }
    if no_modal_or_popup {
        match key.code {
            DashboardKeyCode::Up if press_or_repeat => {
                return DashboardKeyAction::MoveUp;
            },
            DashboardKeyCode::Down if press_or_repeat => {
                return DashboardKeyAction::MoveDown;
            },
            DashboardKeyCode::Right if press => {
                return DashboardKeyAction::OpenSelected;
            },
            DashboardKeyCode::Enter if press && composer_empty => {
                return DashboardKeyAction::OpenSelected;
            },
            DashboardKeyCode::Char(c) => {
                if c == ' ' && press && key.no_modifiers && composer_empty {
                    return DashboardKeyAction::OpenSelected;
                }
                if c == 'x' && press && key.control {
                    return DashboardKeyAction::HideSelected;
                }
                if c == 'p' && press && key.no_modifiers && composer_empty {
                    return DashboardKeyAction::TogglePin;
                }
                if c == 'c' && press && key.no_modifiers && composer_empty {
                    return DashboardKeyAction::MarkCompleted;
                }
                if c == 'r' && press && key.no_modifiers && composer_empty {
                    return DashboardKeyAction::MarkReady;
                }
            },
            _ => {},
        }
    }
    DashboardKeyAction::ToComposer
}

/// A mouse event, as the dashboard tells them apart.
#[derive(Clone, Copy, Debug, PartialEq, Eq, Structural)]
pub enum DashboardMouseKind {
    ScrollUp,
    ScrollDown,
    LeftDown,
    Other,
}

/// What the dashboard does with a mouse event.
#[derive(Clone, Copy, Debug, PartialEq, Eq, Structural)]
pub enum DashboardMouseAction {
    NotHandled,
    MoveUp,
    MoveDown,
    /// Select the entry and open it.
    Open { entry_index: usize },
}

/// What a mouse event on screen line `row` does; a left click opens the
/// entry of the first hit area on that line.
pub fn dashboard_mouse_action(
    showing_list: bool,
    kind: DashboardMouseKind,
    row: u16,
    hitboxes: &Vec<RowHitbox>,
) -> (r: DashboardMouseAction)
    ensures
        !showing_list ==> r == DashboardMouseAction::NotHandled,
        showing_list && kind == DashboardMouseKind::ScrollUp ==> r == DashboardMouseAction::MoveUp,
        showing_list && kind == DashboardMouseKind::ScrollDown ==> r == DashboardMouseAction::MoveDown,
        showing_list && kind == DashboardMouseKind::Other ==> r == DashboardMouseAction::NotHandled,
        showing_list && kind == DashboardMouseKind::LeftDown ==> match r {
            DashboardMouseAction::Open { entry_index } => exists|i: int| 0 <= i < hitboxes@.len()
                && hitboxes@[i].y == row && hitboxes@[i].entry_index == entry_index
                && forall|j: int| 0 <= j < i ==> hitboxes@[j].y != row,
            DashboardMouseAction::NotHandled => forall|j: int| 0 <= j < hitboxes@.len() ==> hitboxes@[j].y != row,
            _ => false,
        },
{
    if !showing_list {
        return DashboardMouseAction::NotHandled;
    }
    match kind {
        DashboardMouseKind::ScrollUp => DashboardMouseAction::MoveUp,
        DashboardMouseKind::ScrollDown => DashboardMouseAction::MoveDown,
        DashboardMouseKind::Other => DashboardMouseAction::NotHandled,
        DashboardMouseKind::LeftDown => {
            let mut i: usize = 0;
            while i < hitboxes.len()
                invariant
                    i <= hitboxes@.len(),
                    showing_list,
                    kind == DashboardMouseKind::LeftDown,
                    forall|j: int| 0 <= j < i ==> hitboxes@[j].y != row,
                decreases hitboxes@.len() - i,
            {
                if hitboxes[i].y == row {
                    return DashboardMouseAction::Open { entry_index: hitboxes[i].entry_index };
                }
                i = i + 1;
            }
            DashboardMouseAction::NotHandled
        },
    }
}

/// Whether the dashboard shows its list.
pub fn agents_dashboard_showing_list(dashboard: Option<&AgentsDashboardState>) -> (r: bool)
    ensures
        r == (dashboard matches Some(d) && d.screen == AgentsDashboardScreen::List),
{
    match dashboard {
        Some(d) => d.is_list(),
        None => false,
    }
}

/// Whether the dashboard shows one of its sessions.
pub fn agents_dashboard_showing_thread(dashboard: Option<&AgentsDashboardState>) -> (r: bool)
    ensures
        r == (dashboard matches Some(d) && d.screen == AgentsDashboardScreen::Thread),
{
    match dashboard {
        Some(d) => d.screen == AgentsDashboardScreen::Thread,
        None => false,
    }
}

/// The footer hint of the list: keys and what they do.
pub fn apply_agents_dashboard_footer_hint() -> (r: Vec<(String, String)>)
    ensures
        r@.len() == 5,
        r@[0].0@ == "enter"@ && r@[0].1@ == "to open"@,
        r@[1].0@ == "space"@ && r@[1].1@ == "to reply"@,
        r@[2].0@ == "p"@ && r@[2].1@ == "to pin"@,
        r@[3].0@ == "ctrl+x"@ && r@[3].1@ == "to hide"@,
        r@[4].0@ == "?"@ && r@[4].1@ == "for shortcuts"@,
{
    let mut hints: Vec<(String, String)> = Vec::new();
    hints.push((String::from_str("enter"), String::from_str("to open")));
    hints.push((String::from_str("space"), String::from_str("to reply")));
    hints.push((String::from_str("p"), String::from_str("to pin")));
    hints.push((String::from_str("ctrl+x"), String::from_str("to hide")));
    hints.push((String::from_str("?"), String::from_str("for shortcuts")));
    hints
}


/// Whether the dashboard, if any, is due for a refresh at time `now`; a due
/// refresh is recorded as attempted.
pub fn agents_dashboard_refresh_due(dashboard: &mut Option<AgentsDashboardState>, now: u64) -> (r: bool)
    ensures
        match *old(dashboard) {
            None => !r && *final(dashboard) == *old(dashboard),
            Some(d) => r == refresh_wanted(d.screen, d.last_refreshed_at, now) && (*final(dashboard) matches Some(e)
                && e.last_refreshed_at == (if r { Some(now) } else { d.last_refreshed_at }) && e.cwd == d.cwd
                && e.entries == d.entries && e.selected == d.selected && e.scroll_offset == d.scroll_offset
                && e.screen == d.screen && e.row_hitboxes == d.row_hitboxes),
        },
{
    match dashboard {
        Some(d) => d.refresh_due(now),
        None => false,
    }
}


/// A row of the list placed on a screen line.
#[derive(Clone, Copy, Debug, PartialEq, Eq, Structural)]
pub struct PlacedRow {
    pub y: u16,
    pub row: DashboardRenderRow,
}

impl AgentsDashboardState {
    /// Places the list rows on the screen lines from `top` up to `bottom`:
    /// scrolls the selected row into view, then gives each row from the
    /// scroll offset on its own line while lines remain, and records a hit
    /// area for each entry row placed.
    pub fn place_list_rows(&mut self, rows: &Vec<DashboardRenderRow>, top: u16, bottom: u16) -> (r: Vec<PlacedRow>)
        ensures
            final(self).cwd == old(self).cwd,
            final(self).entries == old(self).entries,
            final(self).selected == old(self).selected,
            final(self).screen == old(self).screen,
            final(self).last_refreshed_at == old(self).last_refreshed_at,
            final(self).scroll_offset as int == scroll_to_selected(
                rows@,
                old(self).selected,
                old(self).scroll_offset,
                (if bottom > top { bottom - top } else { 0 }) as usize,
            ),
            top < bottom && first_selected_row(rows@, old(self).selected) < rows@.len() ==> final(self).scroll_offset
                <= first_selected_row(rows@, old(self).selected) < final(self).scroll_offset + (bottom - top),
            r@.len() == (if final(self).scroll_offset >= rows@.len() || top >= bottom {
                0
            } else if rows@.len() - final(self).scroll_offset < bottom - top {
                rows@.len() - final(self).scroll_offset
            } else {
                bottom - top
            }),
            forall|k: int| 0 <= k < r@.len() ==> r@[k].y == top + k
                && r@[k].row == rows@[final(self).scroll_offset + k],
            final(self).row_hitboxes@ == placed_hitboxes(r@),
    {
        let height: usize = if bottom > top { (bottom - top) as usize } else { 0 };
        self.ensure_selected_row_visible(rows, height);
        let ghost s0 = self.scroll_offset;
        proof {
            assert(s0 <= rows@.len());
        }
        self.row_hitboxes = Vec::new();
        let mut placed: Vec<PlacedRow> = Vec::new();
        let mut y: u16 = top;
        let mut i: usize = self.scroll_offset;
        proof {
            assert(placed_hitboxes(placed@) =~= self.row_hitboxes@);
        }
        while i < rows.len() && y < bottom
            invariant
                self.scroll_offset == s0,
                s0 <= rows@.len(),
                height == 0 || rows@.len() == 0 ==> s0 == 0,
                height as int == (if bottom > top { bottom - top } else { 0 }),
                top < bottom ==> y <= bottom,
                self.scroll_offset <= i,
                i <= rows@.len(),
                y as int == top + placed@.len(),
                i as int == self.scroll_offset + placed@.len(),
                forall|k: int| 0 <= k < placed@.len() ==> placed@[k].y == top + k
                    && placed@[k].row == rows@[self.scroll_offset + k],
                self.row_hitboxes@ == placed_hitboxes(placed@),
                self.cwd == old(self).cwd,
                self.entries == old(self).entries,
                self.selected == old(self).selected,
                self.screen == old(self).screen,
                self.last_refreshed_at == old(self).last_refreshed_at,
                top < bottom || placed@.len() == 0,
            decreases rows@.len() - i,
        {
            let row = rows[i];
            let pr = PlacedRow { y, row };
            let ghost old_placed = placed@;
            let ghost old_hb = self.row_hitboxes@;
            proof {
                lemma_placed_hitboxes_push(old_placed, pr);
            }
            match row {
                DashboardRenderRow::Entry { entry_index, .. } => {
                    self.row_hitboxes.push(RowHitbox { y, entry_index });
                    proof {
                        assert(self.row_hitboxes@ =~= placed_hitboxes(old_placed.push(pr)));
                    }
                },
                _ => {
                    proof {
                        assert(self.row_hitboxes@ =~= placed_hitboxes(old_placed.push(pr)));
                    }
                },
            }
            placed.push(pr);
            y = y + 1;
            i = i + 1;
        }
        placed
    }
}

/// The hit areas of the entry rows among placed rows, in order.
pub open spec fn placed_hitboxes(placed: Seq<PlacedRow>) -> Seq<RowHitbox>
    decreases placed.len(),
{
    if placed.len() == 0 {
        Seq::empty()
    } else {
        placed_hitboxes(placed.drop_last()) + match placed.last().row {
            DashboardRenderRow::Entry { entry_index, .. } => seq![RowHitbox { y: placed.last().y, entry_index }],
            _ => Seq::empty(),
        }
    }
}

proof fn lemma_placed_hitboxes_push(s: Seq<PlacedRow>, p: PlacedRow)
    ensures
        placed_hitboxes(s.push(p)) == placed_hitboxes(s) + match p.row {
            DashboardRenderRow::Entry { entry_index, .. } => seq![RowHitbox { y: p.y, entry_index }],
            _ => Seq::<RowHitbox>::empty(),
        },
{
    assert(s.push(p).drop_last() == s);
}

} // verus!
