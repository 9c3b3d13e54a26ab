//! The application state: the hosts and their collectors, the host shown, and what the keys do.
//! The program around it reads the keys, talks to the collectors and measures time; this state
//! decides what follows from each of those events.
use vstd::prelude::*;
use crate::config::{AppConfig, KeyBindings};
use crate::model::{HostDescriptor, HostInfo, HostStatus, HostType};
use crate::text::{chars_of, eq_ignore_case, eq_ignore_case_chars, lower, lower_seq};

verus! {

/// A key as the application reads it.
#[derive(Clone, Copy, Debug, PartialEq, Eq, Structural)]
pub enum KeyCode {
    Char(char),
    Esc,
    Enter,
    Left,
    Right,
    Up,
    Down,
    /// Any other key.
    Other,
}

/// The key `code` is the one named by `binding` (ASCII case ignored). A character key is
/// named by itself; `Esc`, `Enter`, `Left` and `Right` by `esc`, `enter`, `left` and `right`.
pub open spec fn key_matches_spec(binding: Seq<char>, code: KeyCode) -> bool {
    match code {
        KeyCode::Char(c) => eq_ignore_case(binding, seq![c]),
        KeyCode::Esc => eq_ignore_case(binding, "esc"@),
        KeyCode::Enter => eq_ignore_case(binding, "enter"@),
        KeyCode::Left => eq_ignore_case(binding, "left"@),
        KeyCode::Right => eq_ignore_case(binding, "right"@),
        _ => false,
    }
}

/// Whether `code` is the key named by `binding`.
pub fn key_matches(binding: &str, code: &KeyCode) -> (b: bool)
    ensures
        b == key_matches_spec(binding@, *code),
{
    let bind = chars_of(binding);
    let name = match code {
        KeyCode::Char(c) => {
            let mut v: Vec<char> = Vec::new();
            v.push(*c);
            assert(v@ =~= seq![*c]);
            v
        },
        KeyCode::Esc => chars_of("esc"),
        KeyCode::Enter => chars_of("enter"),
        KeyCode::Left => chars_of("left"),
        KeyCode::Right => chars_of("right"),
        _ => {
            return false;
        },
    };
    eq_ignore_case_chars(&bind, &name)
}

/// What a key asks for.
#[derive(Clone, Copy, Debug, PartialEq, Eq, Structural)]
pub enum KeyAction {
    Quit,
    ToggleHelp,
    Refresh,
    NextHost,
    PrevHost,
    Ignored,
}

/// The command bound to `code`: quit, help, refresh, next, previous, in this order of
/// precedence; the arrow keys Right and Down also go to the next host, Left and Up to the previous.
pub open spec fn key_action_of(keys: KeyBindings, code: KeyCode) -> KeyAction {
    if key_matches_spec(keys.quit@, code) {
        KeyAction::Quit
    } else if key_matches_spec(keys.help@, code) {
        KeyAction::ToggleHelp
    } else if key_matches_spec(keys.refresh@, code) {
        KeyAction::Refresh
    } else if key_matches_spec(keys.next_page@, code) || code == KeyCode::Right || code
        == KeyCode::Down {
        KeyAction::NextHost
    } else if key_matches_spec(keys.prev_page@, code) || code == KeyCode::Left || code
        == KeyCode::Up {
        KeyAction::PrevHost
    } else {
        KeyAction::Ignored
    }
}

/// The command bound to `code`.
pub fn key_action(keys: &KeyBindings, code: &KeyCode) -> (a: KeyAction)
    ensures
        a == key_action_of(*keys, *code),
{
    if key_matches(keys.quit.as_str(), code) {
        KeyAction::Quit
    } else if key_matches(keys.help.as_str(), code) {
        KeyAction::ToggleHelp
    } else if key_matches(keys.refresh.as_str(), code) {
        KeyAction::Refresh
    } else if key_matches(keys.next_page.as_str(), code) || *code == KeyCode::Right || *code
        == KeyCode::Down {
        KeyAction::NextHost
    } else if key_matches(keys.prev_page.as_str(), code) || *code == KeyCode::Left || *code
        == KeyCode::Up {
        KeyAction::PrevHost
    } else {
        KeyAction::Ignored
    }
}

} // verus!

verus! {

/// Where a host comes in the list when unreachable hosts go last: the local host, then remote
/// hosts that answer or are loading, then unreachable ones, then those in error.
pub open spec fn rank_of(host_type: HostType, status: HostStatus) -> nat {
    match (host_type, status) {
        (HostType::Local, _) => 0,
        (HostType::Remote, HostStatus::Online) => 1,
        (HostType::Remote, HostStatus::Loading) => 1,
        (HostType::Remote, HostStatus::Unreachable) => 2,
        (HostType::Remote, HostStatus::Error) => 3,
    }
}

pub fn rank(host_type: HostType, status: HostStatus) -> (r: u8)
    ensures
        r == rank_of(host_type, status),
{
    match (host_type, status) {
        (HostType::Local, _) => 0,
        (HostType::Remote, HostStatus::Online) => 1,
        (HostType::Remote, HostStatus::Loading) => 1,
        (HostType::Remote, HostStatus::Unreachable) => 2,
        (HostType::Remote, HostStatus::Error) => 3,
    }
}

/// The indices below `upto` whose rank is `r`, in increasing order.
pub open spec fn bucket(ranks: Seq<nat>, r: nat, upto: int) -> Seq<usize>
    decreases upto,
{
    if upto <= 0 {
        Seq::empty()
    } else if ranks[upto - 1] == r {
        bucket(ranks, r, upto - 1).push((upto - 1) as usize)
    } else {
        bucket(ranks, r, upto - 1)
    }
}

/// The indices `0..n` in increasing order.
pub open spec fn identity(n: nat) -> Seq<usize> {
    Seq::new(n, |i: int| i as usize)
}

/// The display order of hosts with ranks `ranks`: as given, or, when unreachable hosts go
/// last, stably sorted by rank.
pub open spec fn display_order(ranks: Seq<nat>, unreachable_to_end: bool) -> Seq<usize> {
    if !unreachable_to_end {
        identity(ranks.len())
    } else {
        bucket(ranks, 0, ranks.len() as int) + bucket(ranks, 1, ranks.len() as int) + bucket(
            ranks,
            2,
            ranks.len() as int,
        ) + bucket(ranks, 3, ranks.len() as int)
    }
}

/// The order in which hosts of the given types and statuses are listed.
pub fn sorted_order(kinds: &Vec<(HostType, HostStatus)>, unreachable_to_end: bool) -> (order: Vec<usize>)
    ensures
        order@ == display_order(
            kinds@.map_values(|k: (HostType, HostStatus)| rank_of(k.0, k.1)),
            unreachable_to_end,
        ),
{
    let ghost ranks = kinds@.map_values(|k: (HostType, HostStatus)| rank_of(k.0, k.1));
    let n = kinds.len();
    let mut order: Vec<usize> = Vec::new();
    if !unreachable_to_end {
        let mut i: usize = 0;
        while i < n
            invariant
                n == kinds@.len(),
                i <= n,
                order@ == identity(i as nat),
            decreases n - i,
        {
            order.push(i);
            i += 1;
            assert(order@ =~= identity(i as nat));
        }
        return order;
    }
    let mut r: u8 = 0;
    while r < 4
        invariant
            n == kinds@.len(),
            ranks == kinds@.map_values(|k: (HostType, HostStatus)| rank_of(k.0, k.1)),
            r <= 4,
            r == 0 ==> order@ == Seq::<usize>::empty(),
            r == 1 ==> order@ == bucket(ranks, 0, n as int),
            r == 2 ==> order@ == bucket(ranks, 0, n as int) + bucket(ranks, 1, n as int),
            r == 3 ==> order@ == bucket(ranks, 0, n as int) + bucket(ranks, 1, n as int) + bucket(
                ranks,
                2,
                n as int,
            ),
            r == 4 ==> order@ == display_order(ranks, true),
        decreases 4 - r,
    {
        let ghost base = order@;
        let mut i: usize = 0;
        while i < n
            invariant
                n == kinds@.len(),
                ranks == kinds@.map_values(|k: (HostType, HostStatus)| rank_of(k.0, k.1)),
                i <= n,
                r < 4,
                order@ == base + bucket(ranks, r as nat, i as int),
            decreases n - i,
        {
            if rank(kinds[i].0, kinds[i].1) == r {
                order.push(i);
            }
            i += 1;
            assert(order@ =~= base + bucket(ranks, r as nat, i as int));
        }
        r += 1;
    }
    order
}

/// The first position of `id` in `ids`.
pub open spec fn first_index(ids: Seq<Seq<char>>, id: Seq<char>) -> Option<nat>
    decreases ids.len(),
{
    if ids.len() == 0 {
        None
    } else {
        match first_index(ids.drop_last(), id) {
            Some(k) => Some(k),
            None => if ids.last() == id {
                Some((ids.len() - 1) as nat)
            } else {
                None
            },
        }
    }
}

/// The position of the selected host in the list: where its id first occurs, else 0.
pub open spec fn selected_index_of(ids: Seq<Seq<char>>, selected: Option<Seq<char>>) -> nat {
    match selected {
        None => 0,
        Some(s) => match first_index(ids, s) {
            Some(k) => k,
            None => 0,
        },
    }
}

/// The selection after moving to the next host, from the last back to the first.
pub open spec fn next_selection(ids: Seq<Seq<char>>, selected: Option<Seq<char>>) -> Option<Seq<char>> {
    if ids.len() == 0 {
        None
    } else {
        Some(ids[((selected_index_of(ids, selected) + 1) % ids.len()) as int])
    }
}

/// The selection after moving to the previous host, from the first to the last.
pub open spec fn prev_selection(ids: Seq<Seq<char>>, selected: Option<Seq<char>>) -> Option<Seq<char>> {
    if ids.len() == 0 {
        None
    } else if selected_index_of(ids, selected) == 0 {
        Some(ids.last())
    } else {
        Some(ids[selected_index_of(ids, selected) - 1])
    }
}

/// The selection after the list changed: kept if its host is still listed, else the first host.
pub open spec fn clamped_selection(ids: Seq<Seq<char>>, selected: Option<Seq<char>>) -> Option<Seq<char>> {
    if ids.len() == 0 {
        None
    } else {
        match selected {
            Some(s) => if ids.contains(s) {
                Some(s)
            } else {
                Some(ids[0])
            },
            None => Some(ids[0]),
        }
    }
}

pub open spec fn opt_str(o: Option<String>) -> Option<Seq<char>> {
    match o {
        Some(s) => Some(s@),
        None => None,
    }
}

/// The monotonic time in nanoseconds that `interval_ms` milliseconds make.
pub open spec fn interval_ns(interval_ms: u64) -> int {
    interval_ms * 1_000_000
}

/// One collector as the application tracks it: what it measures, its last result, when that
/// arrived (nanoseconds on a monotonic clock) and whether a refresh is under way.
pub struct CollectorState<D> {
    pub descriptor: HostDescriptor,
    pub host: HostInfo<D>,
    pub last_refresh_at: Option<u128>,
    pub pending: bool,
}

/// The outcome of asking a collector to refresh.
#[derive(Clone, Copy, Debug, PartialEq, Eq, Structural)]
pub enum SendOutcome {
    /// The request was queued.
    Sent,
    /// A request is already queued.
    Full,
    /// The collector has stopped.
    Disconnected,
}

impl<D> CollectorState<D> {
    /// The refresh interval of this collector's kind of host.
    pub open spec fn interval_ms(&self, config: AppConfig) -> u64 {
        match self.descriptor.host_type {
            HostType::Local => config.local_refresh_interval_ms,
            HostType::Remote => config.remote_refresh_interval_ms,
        }
    }

    /// Due: no refresh under way, and never refreshed or refreshed at least one interval ago
    /// (a clock reading before the last refresh counts as no time passed).
    pub open spec fn due(&self, now: u128, config: AppConfig) -> bool {
        !self.pending && match self.last_refresh_at {
            None => true,
            Some(last) => (if now >= last {
                now - last
            } else {
                0
            }) >= interval_ns(self.interval_ms(config)),
        }
    }

    /// Whether the collector should be refreshed at time `now`.
    pub fn is_due(&self, now: u128, config: &AppConfig) -> (b: bool)
        ensures
            b == self.due(now, *config),
    {
        if self.pending {
            return false;
        }
        let interval_ms = match self.descriptor.host_type {
            HostType::Local => config.local_refresh_interval_ms,
            HostType::Remote => config.remote_refresh_interval_ms,
        };
        let interval = (interval_ms as u128) * 1_000_000;
        match self.last_refresh_at {
            None => true,
            Some(last) => {
                let elapsed = if now >= last {
                    now - last
                } else {
                    0
                };
                elapsed >= interval
            },
        }
    }

    /// Records how a refresh request went: the collector is busy unless it has stopped.
    pub fn record_send(&mut self, outcome: SendOutcome)
        ensures
            final(self).pending == (outcome != SendOutcome::Disconnected),
            final(self).descriptor == old(self).descriptor,
            final(self).host == old(self).host,
            final(self).last_refresh_at == old(self).last_refresh_at,
    {
        match outcome {
            SendOutcome::Sent => {
                self.pending = true;
            },
            SendOutcome::Full => {
                self.pending = true;
            },
            SendOutcome::Disconnected => {
                self.pending = false;
            },
        }
    }
}

} // verus!

verus! {

/// A measurement that a collector sends back.
pub struct WorkerResult<D> {
    pub host_id: String,
    pub host: HostInfo<D>,
}

/// The ids of the collectors' descriptors, in collector order.
pub open spec fn descriptor_ids<D>(cs: Seq<CollectorState<D>>) -> Seq<Seq<char>> {
    cs.map_values(|c: CollectorState<D>| c.descriptor.id@)
}

/// The collectors after the result for `id` arrived at `now`: the first collector with that
/// id takes the host, the time, and is no longer busy; with no such collector nothing changes.
pub open spec fn apply_result<D>(cs: Seq<CollectorState<D>>, id: Seq<char>, host: HostInfo<D>, now: u128) -> Seq<
    CollectorState<D>,
> {
    match first_index(descriptor_ids(cs), id) {
        Some(j) => cs.update(
            j as int,
            CollectorState {
                descriptor: cs[j as int].descriptor,
                host,
                last_refresh_at: Some(now),
                pending: false,
            },
        ),
        None => cs,
    }
}

/// The collectors after the results arrived, in order, at `now`.
pub open spec fn apply_results<D>(cs: Seq<CollectorState<D>>, results: Seq<WorkerResult<D>>, now: u128) -> Seq<
    CollectorState<D>,
>
    decreases results.len(),
{
    if results.len() == 0 {
        cs
    } else {
        apply_results(
            apply_result(cs, results[0].host_id@, results[0].host, now),
            results.drop_first(),
            now,
        )
    }
}

/// Some result is for a collector there is.
pub open spec fn any_known<D>(cs: Seq<CollectorState<D>>, results: Seq<WorkerResult<D>>) -> bool {
    exists|i: int| 0 <= i < results.len() && descriptor_ids(cs).contains(#[trigger] results[i].host_id@)
}

/// The ranks of the collectors' hosts.
pub open spec fn host_ranks<D>(cs: Seq<CollectorState<D>>) -> Seq<nat> {
    cs.map_values(|c: CollectorState<D>| rank_of(c.host.host_type, c.host.status))
}

/// The hosts as shown, their collectors, which host is selected, and the overlay and quit flags.
pub struct App<D> {
    config: AppConfig,
    selected_host_id: Option<String>,
    show_help: bool,
    order: Vec<usize>,
    collectors: Vec<CollectorState<D>>,
    should_quit: bool,
}

impl<D> App<D> {
    /// The collectors, in the order they were given.
    pub closed spec fn states(&self) -> Seq<CollectorState<D>> {
        self.collectors@
    }

    /// The listed hosts as indices into the collectors, in display order.
    pub closed spec fn order(&self) -> Seq<usize> {
        self.order@
    }

    pub closed spec fn quitting(&self) -> bool {
        self.should_quit
    }

    pub closed spec fn cfg(&self) -> AppConfig {
        self.config
    }

    /// The id of the selected host, if any.
    pub closed spec fn selection(&self) -> Option<Seq<char>> {
        opt_str(self.selected_host_id)
    }

    pub closed spec fn help_shown(&self) -> bool {
        self.show_help
    }

    /// The settings.
    pub fn config(&self) -> (c: &AppConfig)
        ensures
            *c == self.cfg(),
    {
        &self.config
    }

    /// Whether the help overlay is shown.
    pub fn show_help(&self) -> (b: bool)
        ensures
            b == self.help_shown(),
    {
        self.show_help
    }

    /// The id of the selected host, if any.
    pub fn selected_host_id(&self) -> (s: Option<&String>)
        ensures
            match s {
                Some(x) => self.selection() == Some(x@),
                None => self.selection() is None,
            },
    {
        match &self.selected_host_id {
            Some(x) => Some(x),
            None => None,
        }
    }

    /// Every listed host is one of the collectors'.
    pub open spec fn wf(&self) -> bool {
        forall|k: int| 0 <= k < self.order().len() ==> (#[trigger] self.order()[k]) < self.states().len()
    }

    /// The ids of the listed hosts, in display order.
    pub open spec fn host_ids(&self) -> Seq<Seq<char>> {
        Seq::new(self.order().len(), |k: int| self.states()[self.order()[k] as int].host.id@)
    }

    /// The display order the collectors' current hosts call for.
    pub open spec fn sorted(&self) -> Seq<usize> {
        display_order(host_ranks(self.states()), self.cfg().ssh.unreachable_to_end)
    }

    fn kinds(&self) -> (k: Vec<(HostType, HostStatus)>)
        ensures
            k@.map_values(|x: (HostType, HostStatus)| rank_of(x.0, x.1)) == host_ranks(
                self.states(),
            ),
    {
        let mut k: Vec<(HostType, HostStatus)> = Vec::new();
        let mut i: usize = 0;
        while i < self.collectors.len()
            invariant
                i <= self.collectors@.len(),
                k@.map_values(|x: (HostType, HostStatus)| rank_of(x.0, x.1)) == host_ranks(
                    self.collectors@,
                ).take(i as int),
            decreases self.collectors@.len() - i,
        {
            let ghost before = k@.map_values(|x: (HostType, HostStatus)| rank_of(x.0, x.1));
            let item = (self.collectors[i].host.host_type, self.collectors[i].host.status);
            k.push(item);
            assert(k@.map_values(|x: (HostType, HostStatus)| rank_of(x.0, x.1)) =~= before.push(
                rank_of(item.0, item.1),
            ));
            assert(host_ranks(self.collectors@).take(i + 1) =~= host_ranks(self.collectors@).take(
                i as int,
            ).push(rank_of(item.0, item.1)));
            i += 1;
            assert(k@.map_values(|x: (HostType, HostStatus)| rank_of(x.0, x.1)) =~= host_ranks(
                self.collectors@,
            ).take(i as int));
        }
        assert(host_ranks(self.collectors@).take(i as int) =~= host_ranks(self.collectors@));
        k
    }

    /// The application over the given collectors: hosts in display order, the first selected.
    pub fn new(config: AppConfig, collectors: Vec<CollectorState<D>>) -> (app: Self)
        ensures
            app.wf(),
            app.cfg() == config,
            app.states() == collectors@,
            app.order() == app.sorted(),
            app.selection() == if app.host_ids().len() > 0 {
                Some(app.host_ids()[0])
            } else {
                None::<Seq<char>>
            },
            !app.help_shown(),
            !app.quitting(),
    {
        let mut app = App {
            config,
            selected_host_id: None,
            show_help: false,
            order: Vec::new(),
            collectors,
            should_quit: false,
        };
        let kinds = app.kinds();
        app.order = sorted_order(&kinds, app.config.ssh.unreachable_to_end);
        proof {
            lemma_display_order_in_range(host_ranks(app.collectors@), app.config.ssh.unreachable_to_end);
        }
        if app.order.len() > 0 {
            let first = app.order[0];
            app.selected_host_id = Some(app.collectors[first].host.id.clone());
        }
        app
    }

    /// The number of listed hosts.
    pub fn host_count(&self) -> (n: usize)
        ensures
            n == self.host_ids().len(),
    {
        self.order.len()
    }

    /// The `k`-th listed host.
    pub fn host(&self, k: usize) -> (h: &HostInfo<D>)
        requires
            self.wf(),
            k < self.host_ids().len(),
        ensures
            *h == self.states()[self.order()[k as int] as int].host,
    {
        &self.collectors[self.order[k]]
            .host
    }

    /// Whether a quit was asked for.
    pub fn should_quit(&self) -> (b: bool)
        ensures
            b == self.quitting(),
    {
        self.should_quit
    }

    /// The position of the selected host in the list (0 when it is not listed).
    pub fn selected_host_index(&self) -> (i: usize)
        requires
            self.wf(),
        ensures
            i == selected_index_of(self.host_ids(), self.selection()),
    {
        match &self.selected_host_id {
            None => 0,
            Some(sel) => match self.position_of(sel) {
                Some(k) => k,
                None => 0,
            },
        }
    }

    /// The first position of `id` among the listed hosts.
    fn position_of(&self, id: &String) -> (r: Option<usize>)
        requires
            self.wf(),
        ensures
            match r {
                Some(k) => first_index(self.host_ids(), id@) == Some(k as nat),
                None => first_index(self.host_ids(), id@) is None,
            },
    {
        let ghost ids = self.host_ids();
        let mut k: usize = 0;
        while k < self.order.len()
            invariant
                self.wf(),
                ids == self.host_ids(),
                k <= ids.len(),
                first_index(ids.take(k as int), id@) is None,
            decreases ids.len() - k,
        {
            assert(ids.take(k + 1).drop_last() =~= ids.take(k as int));
            if self.collectors[self.order[k]].host.id == *id {
                assert(first_index(ids.take(k + 1), id@) == Some(k as nat));
                proof {
                    lemma_first_index_prefix(ids, id@, k + 1);
                }
                return Some(k);
            }
            k += 1;
        }
        assert(ids.take(ids.len() as int) =~= ids);
        None
    }

    /// The selected host, if it is listed.
    pub fn selected_host(&self) -> (h: Option<&HostInfo<D>>)
        requires
            self.wf(),
        ensures
            match self.selection() {
                Some(s) => match first_index(self.host_ids(), s) {
                    Some(k) => h == Some(&self.states()[self.order()[k as int] as int].host),
                    None => h is None,
                },
                None => h is None,
            },
    {
        match &self.selected_host_id {
            None => None,
            Some(sel) => match self.position_of(sel) {
                Some(k) => {
                    proof {
                        lemma_first_index_bound(self.host_ids(), sel@);
                    }
                    Some(&self.collectors[self.order[k]].host)
                },
                None => None,
            },
        }
    }

    /// Moves the selection to the next host, from the last back to the first.
    pub fn select_next_host(&mut self)
        requires
            old(self).wf(),
        ensures
            final(self).wf(),
            final(self).selection() == next_selection(
                old(self).host_ids(),
                old(self).selection(),
            ),
            final(self).states() == old(self).states(),
            final(self).order() == old(self).order(),
            final(self).cfg() == old(self).cfg(),
            final(self).help_shown() == old(self).help_shown(),
            final(self).quitting() == old(self).quitting(),
    {
        if self.order.len() == 0 {
            self.selected_host_id = None;
            return;
        }
        let idx = self.selected_host_index();
        proof {
            lemma_selected_index_bound(self.host_ids(), opt_str(self.selected_host_id));
        }
        let next = (idx + 1) % self.order.len();
        let id = self.collectors[self.order[next]].host.id.clone();
        self.selected_host_id = Some(id);
    }

    /// Moves the selection to the previous host, from the first to the last.
    pub fn select_prev_host(&mut self)
        requires
            old(self).wf(),
        ensures
            final(self).wf(),
            final(self).selection() == prev_selection(
                old(self).host_ids(),
                old(self).selection(),
            ),
            final(self).states() == old(self).states(),
            final(self).order() == old(self).order(),
            final(self).cfg() == old(self).cfg(),
            final(self).help_shown() == old(self).help_shown(),
            final(self).quitting() == old(self).quitting(),
    {
        if self.order.len() == 0 {
            self.selected_host_id = None;
            return;
        }
        let idx = self.selected_host_index();
        proof {
            lemma_selected_index_bound(self.host_ids(), opt_str(self.selected_host_id));
        }
        let prev = if idx == 0 {
            self.order.len() - 1
        } else {
            idx - 1
        };
        let id = self.collectors[self.order[prev]].host.id.clone();
        self.selected_host_id = Some(id);
    }

    /// Keeps the selection on a listed host: unchanged if its host is listed, else the first.
    pub fn clamp_selection(&mut self)
        requires
            old(self).wf(),
        ensures
            final(self).wf(),
            final(self).selection() == clamped_selection(
                old(self).host_ids(),
                old(self).selection(),
            ),
            final(self).states() == old(self).states(),
            final(self).order() == old(self).order(),
            final(self).cfg() == old(self).cfg(),
            final(self).help_shown() == old(self).help_shown(),
            final(self).quitting() == old(self).quitting(),
    {
        if self.order.len() == 0 {
            self.selected_host_id = None;
            return;
        }
        let ghost ids = self.host_ids();
        let found = match &self.selected_host_id {
            Some(sel) => {
                let r = self.position_of(sel);
                proof {
                    lemma_first_index_contains(ids, sel@);
                }
                r.is_some()
            },
            None => false,
        };
        if found {
            return;
        }
        let id = self.collectors[self.order[0]].host.id.clone();
        self.selected_host_id = Some(id);
    }

    /// Lists the hosts again in display order and keeps the selection on a listed host.
    pub fn rebuild_hosts(&mut self)
        requires
            old(self).wf(),
        ensures
            final(self).wf(),
            final(self).order() == old(self).sorted(),
            final(self).states() == old(self).states(),
            final(self).selection() == clamped_selection(
                final(self).host_ids(),
                old(self).selection(),
            ),
            final(self).cfg() == old(self).cfg(),
            final(self).help_shown() == old(self).help_shown(),
            final(self).quitting() == old(self).quitting(),
    {
        let kinds = self.kinds();
        self.order = sorted_order(&kinds, self.config.ssh.unreachable_to_end);
        proof {
            lemma_display_order_in_range(host_ranks(self.collectors@), self.config.ssh.unreachable_to_end);
        }
        self.clamp_selection();
    }

    /// Takes in one result: the first collector with its host's id gets the host, the time
    /// `now`, and is no longer busy. Whether such a collector was found.
    fn apply_one(&mut self, r: WorkerResult<D>, now: u128) -> (found: bool)
        requires
            old(self).wf(),
        ensures
            final(self).wf(),
            final(self).states() == apply_result(old(self).states(), r.host_id@, r.host, now),
            found == descriptor_ids(old(self).states()).contains(r.host_id@),
            final(self).order() == old(self).order(),
            final(self).cfg() == old(self).cfg(),
            final(self).selection() == old(self).selection(),
            final(self).help_shown() == old(self).help_shown(),
            final(self).quitting() == old(self).quitting(),
    {
        let ghost ids = descriptor_ids(self.collectors@);
        let mut j: usize = 0;
        while j < self.collectors.len()
            invariant
                *self == *old(self),
                old(self).wf(),
                ids == descriptor_ids(self.collectors@),
                j <= ids.len(),
                first_index(ids.take(j as int), r.host_id@) is None,
            decreases ids.len() - j,
        {
            assert(ids.take(j + 1).drop_last() =~= ids.take(j as int));
            assert(ids[j as int] == self.collectors@[j as int].descriptor.id@);
            if self.collectors[j].descriptor.id == r.host_id {
                assert(first_index(ids.take(j + 1), r.host_id@) == Some(j as nat));
                proof {
                    lemma_first_index_prefix(ids, r.host_id@, j + 1);
                    lemma_first_index_contains(ids, r.host_id@);
                }
                let ghost before = self.collectors@;
                let st = self.collectors.remove(j);
                let updated = CollectorState {
                    descriptor: st.descriptor,
                    host: r.host,
                    last_refresh_at: Some(now),
                    pending: false,
                };
                self.collectors.insert(j, updated);
                assert(self.collectors@ =~= before.update(j as int, updated));
                assert(self.collectors@.len() == before.len());
                assert forall|k: int| 0 <= k < self.order@.len() implies #[trigger] self.order@[k]
                    < self.collectors@.len() by {
                    assert(old(self).order()[k] < old(self).states().len());
                }
                return true;
            }
            j += 1;
        }
        assert(ids.take(ids.len() as int) =~= ids);
        proof {
            lemma_first_index_contains(ids, r.host_id@);
        }
        false
    }

    /// Takes in the results that arrived, in order, at time `now`; if any was for a known
    /// collector, lists the hosts again in display order and keeps the selection on a listed host.
    pub fn poll_updates(&mut self, results: Vec<WorkerResult<D>>, now: u128)
        requires
            old(self).wf(),
        ensures
            final(self).wf(),
            final(self).states() == apply_results(old(self).states(), results@, now),
            any_known(old(self).states(), results@) ==> {
                &&& final(self).order() == final(self).sorted()
                &&& final(self).selection() == clamped_selection(
                    final(self).host_ids(),
                    old(self).selection(),
                )
            },
            !any_known(old(self).states(), results@) ==> {
                &&& final(self).order() == old(self).order()
                &&& final(self).selection() == old(self).selection()
            },
            final(self).cfg() == old(self).cfg(),
            final(self).help_shown() == old(self).help_shown(),
            final(self).quitting() == old(self).quitting(),
    {
        let ghost orig = self.collectors@;
        let ghost all = results@;
        let mut results = results;
        let mut changed = false;
        while results.len() > 0
            invariant
                self.wf(),
                apply_results(orig, all, now) == apply_results(self.collectors@, results@, now),
                descriptor_ids(self.collectors@) == descriptor_ids(orig),
                any_known(orig, all) == (changed || any_known(orig, results@)),
                !changed ==> self.order() == old(self).order() && self.selection() == old(
                    self,
                ).selection(),
                self.order() == old(self).order(),
                self.selection() == old(self).selection(),
                self.cfg() == old(self).cfg(),
                self.help_shown() == old(self).help_shown(),
                self.quitting() == old(self).quitting(),
            decreases results@.len(),
        {
            let ghost rest = results@;
            let r = results.remove(0);
            assert(results@ =~= rest.drop_first());
            let ghost before = self.collectors@;
            let found = self.apply_one(r, now);
            proof {
                lemma_apply_keeps_ids(before, r.host_id@, r.host, now);
                assert(rest[0] == r);
                if any_known(orig, rest) {
                    let i = choose|i: int|
                        0 <= i < rest.len() && descriptor_ids(orig).contains(#[trigger] rest[i].host_id@);
                    if i > 0 {
                        assert(rest.drop_first()[i - 1] == rest[i]);
                    }
                }
                if any_known(orig, rest.drop_first()) {
                    let i = choose|i: int|
                        0 <= i < rest.drop_first().len() && descriptor_ids(orig).contains(
                            #[trigger] rest.drop_first()[i].host_id@,
                        );
                    assert(rest[i + 1] == rest.drop_first()[i]);
                }
                if found {
                    assert(descriptor_ids(orig).contains(rest[0].host_id@));
                }
            }
            if found {
                changed = true;
            }
        }
        assert(results@ =~= Seq::<WorkerResult<D>>::empty());
        if changed {
            self.rebuild_hosts();
        }
    }

    /// The collectors (by index) to ask for a refresh at time `now`: those not busy that are
    /// due, or all those not busy when `force`.
    pub fn refresh_targets(&self, now: u128, force: bool) -> (t: Vec<usize>)
        ensures
            t@ == refresh_targets_of(self.states(), now, self.cfg(), force, self.states().len() as int),
    {
        let mut t: Vec<usize> = Vec::new();
        let mut i: usize = 0;
        while i < self.collectors.len()
            invariant
                i <= self.collectors@.len(),
                t@ == refresh_targets_of(self.collectors@, now, self.config, force, i as int),
            decreases self.collectors@.len() - i,
        {
            let c = &self.collectors[i];
            if !c.pending && (force || c.is_due(now, &self.config)) {
                t.push(i);
            }
            i += 1;
        }
        t
    }

    /// The collectors (by index) to ask for their first measurement: the remote ones not busy.
    pub fn initial_refresh_targets(&self) -> (t: Vec<usize>)
        ensures
            t@ == initial_targets_of(self.states(), self.states().len() as int),
    {
        let mut t: Vec<usize> = Vec::new();
        let mut i: usize = 0;
        while i < self.collectors.len()
            invariant
                i <= self.collectors@.len(),
                t@ == initial_targets_of(self.collectors@, i as int),
            decreases self.collectors@.len() - i,
        {
            let c = &self.collectors[i];
            if c.descriptor.host_type == HostType::Remote && !c.pending {
                t.push(i);
            }
            i += 1;
        }
        t
    }

    /// Records how asking collector `i` for a refresh went: busy unless it has stopped.
    pub fn record_send(&mut self, i: usize, outcome: SendOutcome)
        requires
            old(self).wf(),
            i < old(self).states().len(),
        ensures
            final(self).wf(),
            final(self).states() == old(self).states().update(
                i as int,
                CollectorState {
                    descriptor: old(self).states()[i as int].descriptor,
                    host: old(self).states()[i as int].host,
                    last_refresh_at: old(self).states()[i as int].last_refresh_at,
                    pending: outcome != SendOutcome::Disconnected,
                },
            ),
            final(self).order() == old(self).order(),
            final(self).cfg() == old(self).cfg(),
            final(self).selection() == old(self).selection(),
            final(self).help_shown() == old(self).help_shown(),
            final(self).quitting() == old(self).quitting(),
    {
        let ghost before = self.collectors@;
        let mut st = self.collectors.remove(i);
        st.record_send(outcome);
        self.collectors.insert(i, st);
        assert(self.collectors@ =~= before.update(i as int, st));
        assert(self.collectors@.len() == before.len());
        assert forall|k: int| 0 <= k < self.order@.len() implies #[trigger] self.order@[k]
            < self.collectors@.len() by {
            assert(old(self).order()[k] < old(self).states().len());
        }
    }

    /// Takes in the results that arrived and names the collectors to ask for a refresh: the
    /// due ones, or all not busy when `force`.
    pub fn refresh_due(&mut self, results: Vec<WorkerResult<D>>, now: u128, force: bool) -> (t: Vec<usize>)
        requires
            old(self).wf(),
        ensures
            final(self).wf(),
            final(self).states() == apply_results(old(self).states(), results@, now),
            t@ == refresh_targets_of(
                final(self).states(),
                now,
                final(self).cfg(),
                force,
                final(self).states().len() as int,
            ),
            any_known(old(self).states(), results@) ==> {
                &&& final(self).order() == final(self).sorted()
                &&& final(self).selection() == clamped_selection(
                    final(self).host_ids(),
                    old(self).selection(),
                )
            },
            !any_known(old(self).states(), results@) ==> {
                &&& final(self).order() == old(self).order()
                &&& final(self).selection() == old(self).selection()
            },
            final(self).cfg() == old(self).cfg(),
            final(self).help_shown() == old(self).help_shown(),
            final(self).quitting() == old(self).quitting(),
    {
        self.poll_updates(results, now);
        self.refresh_targets(now, force)
    }

    /// Takes in the results that arrived and names every collector not busy for a refresh.
    pub fn refresh_all(&mut self, results: Vec<WorkerResult<D>>, now: u128) -> (t: Vec<usize>)
        requires
            old(self).wf(),
        ensures
            final(self).wf(),
            final(self).states() == apply_results(old(self).states(), results@, now),
            t@ == refresh_targets_of(
                final(self).states(),
                now,
                final(self).cfg(),
                true,
                final(self).states().len() as int,
            ),
            any_known(old(self).states(), results@) ==> {
                &&& final(self).order() == final(self).sorted()
                &&& final(self).selection() == clamped_selection(
                    final(self).host_ids(),
                    old(self).selection(),
                )
            },
            !any_known(old(self).states(), results@) ==> {
                &&& final(self).order() == old(self).order()
                &&& final(self).selection() == old(self).selection()
            },
            final(self).cfg() == old(self).cfg(),
            final(self).help_shown() == old(self).help_shown(),
            final(self).quitting() == old(self).quitting(),
    {
        self.refresh_due(results, now, true)
    }

    /// Does what the key asks for and says what it was: quitting, toggling the help, or moving
    /// the selection; a refresh is left to the caller, which then calls `refresh_all`.
    pub fn handle_key(&mut self, code: KeyCode) -> (a: KeyAction)
        requires
            old(self).wf(),
        ensures
            final(self).wf(),
            a == key_action_of(old(self).cfg().keys, code),
            final(self).quitting() == (old(self).quitting() || a == KeyAction::Quit),
            final(self).help_shown() == (if a == KeyAction::ToggleHelp {
                !old(self).help_shown()
            } else {
                old(self).help_shown()
            }),
            final(self).selection() == match a {
                KeyAction::NextHost => next_selection(old(self).host_ids(), old(self).selection()),
                KeyAction::PrevHost => prev_selection(old(self).host_ids(), old(self).selection()),
                _ => old(self).selection(),
            },
            final(self).states() == old(self).states(),
            final(self).order() == old(self).order(),
            final(self).cfg() == old(self).cfg(),
    {
        let a = key_action(&self.config.keys, &code);
        match a {
            KeyAction::Quit => {
                self.should_quit = true;
            },
            KeyAction::ToggleHelp => {
                self.show_help = !self.show_help;
            },
            KeyAction::NextHost => {
                self.select_next_host();
            },
            KeyAction::PrevHost => {
                self.select_prev_host();
            },
            _ => {},
        }
        a
    }
}

/// The indices below `upto` of collectors to refresh: not busy, and due or forced.
pub open spec fn refresh_targets_of<D>(cs: Seq<CollectorState<D>>, now: u128, config: AppConfig, force: bool, upto: int) -> Seq<usize>
    decreases upto,
{
    if upto <= 0 {
        Seq::empty()
    } else if !cs[upto - 1].pending && (force || cs[upto - 1].due(now, config)) {
        refresh_targets_of(cs, now, config, force, upto - 1).push((upto - 1) as usize)
    } else {
        refresh_targets_of(cs, now, config, force, upto - 1)
    }
}

/// The indices below `upto` of remote collectors that are not busy.
pub open spec fn initial_targets_of<D>(cs: Seq<CollectorState<D>>, upto: int) -> Seq<usize>
    decreases upto,
{
    if upto <= 0 {
        Seq::empty()
    } else if cs[upto - 1].descriptor.host_type == HostType::Remote && !cs[upto - 1].pending {
        initial_targets_of(cs, upto - 1).push((upto - 1) as usize)
    } else {
        initial_targets_of(cs, upto - 1)
    }
}

/// Taking in a result keeps every collector's descriptor.
proof fn lemma_apply_keeps_ids<D>(cs: Seq<CollectorState<D>>, id: Seq<char>, host: HostInfo<D>, now: u128)
    ensures
        descriptor_ids(apply_result(cs, id, host, now)) == descriptor_ids(cs),
{
    lemma_first_index_bound(descriptor_ids(cs), id);
    assert(descriptor_ids(apply_result(cs, id, host, now)) =~= descriptor_ids(cs));
}

/// A position found in a prefix is the position in the whole list.
proof fn lemma_first_index_prefix(ids: Seq<Seq<char>>, id: Seq<char>, k: int)
    requires
        0 <= k <= ids.len(),
        first_index(ids.take(k), id) is Some,
    ensures
        first_index(ids, id) == first_index(ids.take(k), id),
    decreases ids.len() - k,
{
    if k < ids.len() {
        assert(ids.drop_last().take(k) =~= ids.take(k));
        lemma_first_index_prefix(ids.drop_last(), id, k);
    } else {
        assert(ids.take(k) =~= ids);
    }
}

/// A position found lies in the list and holds the id; the id occurs iff a position is found.
proof fn lemma_first_index_bound(ids: Seq<Seq<char>>, id: Seq<char>)
    ensures
        first_index(ids, id) matches Some(k) ==> k < ids.len() && ids[k as int] == id,
    decreases ids.len(),
{
    if ids.len() > 0 {
        lemma_first_index_bound(ids.drop_last(), id);
    }
}

proof fn lemma_first_index_contains(ids: Seq<Seq<char>>, id: Seq<char>)
    ensures
        (first_index(ids, id) is Some) == ids.contains(id),
    decreases ids.len(),
{
    lemma_first_index_bound(ids, id);
    if ids.len() > 0 {
        lemma_first_index_contains(ids.drop_last(), id);
        if ids.drop_last().contains(id) {
            let j = choose|j: int| 0 <= j < ids.drop_last().len() && ids.drop_last()[j] == id;
            assert(ids[j] == id);
        }
        if ids.contains(id) {
            let j = choose|j: int| 0 <= j < ids.len() && ids[j] == id;
            if j < ids.len() - 1 {
                assert(ids.drop_last()[j] == id);
            }
        }
    }
}

proof fn lemma_selected_index_bound(ids: Seq<Seq<char>>, selected: Option<Seq<char>>)
    requires
        ids.len() > 0,
    ensures
        selected_index_of(ids, selected) < ids.len(),
{
    if let Some(s) = selected {
        lemma_first_index_bound(ids, s);
    }
}

proof fn lemma_bucket_in_range(ranks: Seq<nat>, r: nat, upto: int)
    requires
        upto <= ranks.len(),
    ensures
        forall|k: int| 0 <= k < bucket(ranks, r, upto).len() ==> #[trigger] bucket(ranks, r, upto)[k] < ranks.len()
            && bucket(ranks, r, upto)[k] < upto,
    decreases upto,
{
    if upto > 0 {
        lemma_bucket_in_range(ranks, r, upto - 1);
        let prev = bucket(ranks, r, upto - 1);
        if ranks[upto - 1] == r {
            assert forall|k: int| 0 <= k < prev.push((upto - 1) as usize).len() implies #[trigger] prev.push(
                (upto - 1) as usize,
            )[k] < ranks.len() && prev.push((upto - 1) as usize)[k] < upto by {
                if k < prev.len() {
                    assert(prev.push((upto - 1) as usize)[k] == prev[k]);
                }
            }
        }
    }
}

/// Every position of the display order is an index of a host.
proof fn lemma_display_order_in_range(ranks: Seq<nat>, unreachable_to_end: bool)
    ensures
        forall|k: int|
            0 <= k < display_order(ranks, unreachable_to_end).len() ==> #[trigger] display_order(
                ranks,
                unreachable_to_end,
            )[k] < ranks.len(),
{
    let n = ranks.len() as int;
    if unreachable_to_end {
        lemma_bucket_in_range(ranks, 0, n);
        lemma_bucket_in_range(ranks, 1, n);
        lemma_bucket_in_range(ranks, 2, n);
        lemma_bucket_in_range(ranks, 3, n);
        let b0 = bucket(ranks, 0, n);
        let b1 = bucket(ranks, 1, n);
        let b2 = bucket(ranks, 2, n);
        let b3 = bucket(ranks, 3, n);
        let all = b0 + b1 + b2 + b3;
        assert forall|k: int| 0 <= k < all.len() implies #[trigger] all[k] < ranks.len() by {
            if k < b0.len() {
                assert(all[k] == b0[k]);
            } else if k < b0.len() + b1.len() {
                assert(all[k] == b1[k - b0.len()]);
            } else if k < b0.len() + b1.len() + b2.len() {
                assert(all[k] == b2[k - b0.len() - b1.len()]);
            } else {
                assert(all[k] == b3[k - b0.len() - b1.len() - b2.len()]);
            }
        }
    }
}

} // verus!

verus! {

/// `order` lists each of the indices `0..n` exactly once.
pub open spec fn is_permutation(order: Seq<usize>, n: nat) -> bool {
    &&& order.len() == n
    &&& forall|k: int| 0 <= k < order.len() ==> (#[trigger] order[k]) < n
    &&& forall|p: int, q: int| 0 <= p < q < order.len() ==> #[trigger] order[p] != #[trigger] order[q]
    &&& forall|i: int| 0 <= i < n ==> #[trigger] order.contains(i as usize)
}

/// Along `order` the ranks never decrease.
pub open spec fn sorted_by_rank(order: Seq<usize>, ranks: Seq<nat>) -> bool {
    forall|p: int, q: int|
        0 <= p < q < order.len() ==> ranks[#[trigger] order[p] as int] <= ranks[#[trigger] order[q] as int]
}

/// Along `order`, indices of equal rank keep their relative order.
pub open spec fn stable(order: Seq<usize>, ranks: Seq<nat>) -> bool {
    forall|p: int, q: int|
        0 <= p < q < order.len() && ranks[#[trigger] order[p] as int] == ranks[#[trigger] order[q] as int]
            ==> order[p] < order[q]
}

/// The buckets of ranks `r..4`, concatenated.
pub open spec fn buckets_from(ranks: Seq<nat>, r: nat) -> Seq<usize>
    decreases 4 - r,
{
    if r >= 4 {
        Seq::empty()
    } else {
        bucket(ranks, r, ranks.len() as int) + buckets_from(ranks, r + 1)
    }
}

proof fn lemma_bucket_facts(ranks: Seq<nat>, r: nat, upto: int)
    requires
        0 <= upto <= ranks.len(),
        ranks.len() <= usize::MAX,
    ensures
        forall|k: int| 0 <= k < bucket(ranks, r, upto).len() ==> {
            &&& (#[trigger] bucket(ranks, r, upto)[k]) < upto
            &&& ranks[bucket(ranks, r, upto)[k] as int] == r
        },
        forall|p: int, q: int|
            0 <= p < q < bucket(ranks, r, upto).len() ==> #[trigger] bucket(ranks, r, upto)[p]
                < #[trigger] bucket(ranks, r, upto)[q],
        forall|i: int|
            0 <= i < upto && ranks[i] == r ==> #[trigger] bucket(ranks, r, upto).contains(i as usize),
    decreases upto,
{
    if upto > 0 {
        lemma_bucket_facts(ranks, r, upto - 1);
        let prev = bucket(ranks, r, upto - 1);
        let cur = bucket(ranks, r, upto);
        if ranks[upto - 1] == r {
            assert(cur == prev.push((upto - 1) as usize));
            assert forall|k: int| 0 <= k < cur.len() implies (#[trigger] cur[k]) < upto && ranks[cur[k] as int] == r by {
                if k < prev.len() {
                    assert(cur[k] == prev[k]);
                }
            }
            assert forall|p: int, q: int| 0 <= p < q < cur.len() implies #[trigger] cur[p] < #[trigger] cur[q] by {
                assert(cur[p] == prev[p]);
                if q < prev.len() {
                    assert(cur[q] == prev[q]);
                }
            }
            assert forall|i: int| 0 <= i < upto && ranks[i] == r implies #[trigger] cur.contains(i as usize) by {
                if i < upto - 1 {
                    assert(prev.contains(i as usize));
                    let k = choose|k: int| 0 <= k < prev.len() && prev[k] == i as usize;
                    assert(cur[k] == prev[k]);
                } else {
                    assert(cur[cur.len() - 1] == i as usize);
                }
            }
        } else {
            assert forall|i: int| 0 <= i < upto && ranks[i] == r implies #[trigger] cur.contains(i as usize) by {
                assert(i < upto - 1);
                assert(prev.contains(i as usize));
            }
        }
    }
}

/// The buckets of ranks `r..4` hold each index of rank `r..4` below `upto` once.
proof fn lemma_bucket_count(ranks: Seq<nat>, upto: int)
    requires
        0 <= upto <= ranks.len(),
        forall|i: int| 0 <= i < ranks.len() ==> #[trigger] ranks[i] <= 3,
    ensures
        bucket(ranks, 0, upto).len() + bucket(ranks, 1, upto).len() + bucket(ranks, 2, upto).len()
            + bucket(ranks, 3, upto).len() == upto,
    decreases upto,
{
    if upto > 0 {
        lemma_bucket_count(ranks, upto - 1);
        assert(ranks[upto - 1] <= 3);
    }
}

proof fn lemma_buckets_from(ranks: Seq<nat>, r: nat)
    requires
        r <= 4,
        ranks.len() <= usize::MAX,
        forall|i: int| 0 <= i < ranks.len() ==> #[trigger] ranks[i] <= 3,
    ensures
        forall|k: int| 0 <= k < buckets_from(ranks, r).len() ==> {
            &&& (#[trigger] buckets_from(ranks, r)[k]) < ranks.len()
            &&& ranks[buckets_from(ranks, r)[k] as int] >= r
        },
        forall|p: int, q: int|
            0 <= p < q < buckets_from(ranks, r).len() ==> #[trigger] buckets_from(ranks, r)[p]
                != #[trigger] buckets_from(ranks, r)[q],
        sorted_by_rank(buckets_from(ranks, r), ranks),
        stable(buckets_from(ranks, r), ranks),
        forall|i: int|
            0 <= i < ranks.len() && ranks[i] >= r ==> #[trigger] buckets_from(ranks, r).contains(i as usize),
    decreases 4 - r,
{
    if r < 4 {
        lemma_buckets_from(ranks, r + 1);
        lemma_bucket_facts(ranks, r, ranks.len() as int);
        let b = bucket(ranks, r, ranks.len() as int);
        let t = buckets_from(ranks, r + 1);
        let s = buckets_from(ranks, r);
        assert(s == b + t);
        assert forall|k: int| 0 <= k < s.len() implies (#[trigger] s[k]) < ranks.len() && ranks[s[k] as int] >= r by {
            if k < b.len() {
                assert(s[k] == b[k]);
            } else {
                assert(s[k] == t[k - b.len()]);
            }
        }
        assert forall|p: int, q: int| 0 <= p < q < s.len() implies #[trigger] s[p] != #[trigger] s[q] by {
            if q < b.len() {
                assert(s[p] == b[p] && s[q] == b[q]);
            } else if p < b.len() {
                assert(s[p] == b[p] && s[q] == t[q - b.len()]);
            } else {
                assert(s[p] == t[p - b.len()] && s[q] == t[q - b.len()]);
            }
        }
        assert forall|p: int, q: int| 0 <= p < q < s.len() implies ranks[#[trigger] s[p] as int] <= ranks[#[trigger] s[q] as int] by {
            if q < b.len() {
                assert(s[p] == b[p] && s[q] == b[q]);
            } else if p < b.len() {
                assert(s[p] == b[p] && s[q] == t[q - b.len()]);
            } else {
                assert(s[p] == t[p - b.len()] && s[q] == t[q - b.len()]);
            }
        }
        assert forall|p: int, q: int| 0 <= p < q < s.len() && ranks[#[trigger] s[p] as int] == ranks[#[trigger] s[q] as int] implies s[p] < s[q] by {
            if q < b.len() {
                assert(s[p] == b[p] && s[q] == b[q]);
            } else if p < b.len() {
                assert(s[p] == b[p] && s[q] == t[q - b.len()]);
            } else {
                assert(s[p] == t[p - b.len()] && s[q] == t[q - b.len()]);
            }
        }
        assert forall|i: int| 0 <= i < ranks.len() && ranks[i] >= r implies #[trigger] s.contains(i as usize) by {
            if ranks[i] == r {
                assert(b.contains(i as usize));
                let k = choose|k: int| 0 <= k < b.len() && b[k] == i as usize;
                assert(s[k] == b[k]);
            } else {
                assert(t.contains(i as usize));
                let k = choose|k: int| 0 <= k < t.len() && t[k] == i as usize;
                assert(s[k + b.len()] == t[k]);
            }
        }
    }
}

/// The display order lists every host exactly once; when unreachable hosts go last, it is
/// sorted by rank (local host, answering or loading remote hosts, unreachable, in error) and
/// keeps the given order among hosts of equal rank; otherwise it is the given order.
pub proof fn lemma_display_order_is_stable_sort(ranks: Seq<nat>, unreachable_to_end: bool)
    requires
        ranks.len() <= usize::MAX,
        forall|i: int| 0 <= i < ranks.len() ==> #[trigger] ranks[i] <= 3,
    ensures
        is_permutation(display_order(ranks, unreachable_to_end), ranks.len()),
        unreachable_to_end ==> sorted_by_rank(display_order(ranks, unreachable_to_end), ranks),
        unreachable_to_end ==> stable(display_order(ranks, unreachable_to_end), ranks),
        !unreachable_to_end ==> display_order(ranks, unreachable_to_end) == identity(ranks.len()),
{
    let n = ranks.len() as int;
    let d = display_order(ranks, unreachable_to_end);
    if unreachable_to_end {
        let b0 = bucket(ranks, 0, n);
        let b1 = bucket(ranks, 1, n);
        let b2 = bucket(ranks, 2, n);
        let b3 = bucket(ranks, 3, n);
        assert(buckets_from(ranks, 4) =~= Seq::<usize>::empty());
        assert(buckets_from(ranks, 3) =~= b3);
        assert(buckets_from(ranks, 2) =~= b2 + b3);
        assert(buckets_from(ranks, 1) =~= b1 + (b2 + b3));
        assert(buckets_from(ranks, 0) =~= b0 + (b1 + (b2 + b3)));
        assert(d =~= buckets_from(ranks, 0));
        lemma_buckets_from(ranks, 0);
        lemma_bucket_count(ranks, n);
    } else {
        assert forall|i: int| 0 <= i < n implies #[trigger] d.contains(i as usize) by {
            assert(d[i] == i as usize);
        }
    }
}

/// Host ranks lie in `0..=3`.
pub proof fn lemma_host_ranks_bounded<D>(cs: Seq<CollectorState<D>>)
    ensures
        forall|i: int| 0 <= i < host_ranks(cs).len() ==> #[trigger] host_ranks(cs)[i] <= 3,
{
}

} // verus!

verus! {

/// No id is listed twice.
pub open spec fn distinct_ids(ids: Seq<Seq<char>>) -> bool {
    forall|i: int, j: int| 0 <= i < j < ids.len() ==> #[trigger] ids[i] != #[trigger] ids[j]
}

proof fn lemma_first_index_of_distinct(ids: Seq<Seq<char>>, k: int)
    requires
        distinct_ids(ids),
        0 <= k < ids.len(),
    ensures
        first_index(ids, ids[k]) == Some(k as nat),
    decreases ids.len(),
{
    if k < ids.len() - 1 {
        assert(ids.drop_last()[k] == ids[k]);
        lemma_first_index_of_distinct(ids.drop_last(), k);
    } else {
        lemma_first_index_bound(ids.drop_last(), ids[k]);
        if first_index(ids.drop_last(), ids[k]) is Some {
            let j = first_index(ids.drop_last(), ids[k])->0;
            assert(ids.drop_last()[j as int] == ids[j as int]);
        }
    }
}

/// With distinct ids and a listed selection, moving to the next host and then back to the
/// previous one (or back, then forward) returns to the host selected before.
pub proof fn lemma_next_prev_selection_inverse(ids: Seq<Seq<char>>, k: int)
    requires
        distinct_ids(ids),
        0 <= k < ids.len(),
    ensures
        prev_selection(ids, next_selection(ids, Some(ids[k]))) == Some(ids[k]),
        next_selection(ids, prev_selection(ids, Some(ids[k]))) == Some(ids[k]),
{
    let n = ids.len() as int;
    lemma_first_index_of_distinct(ids, k);
    let nk = (k + 1) % n;
    assert(0 <= nk < n);
    lemma_first_index_of_distinct(ids, nk);
    if k + 1 == n {
        assert(nk == 0) by (nonlinear_arith)
            requires
                nk == (k + 1) % n,
                k + 1 == n,
                n > 0,
        ;
    } else {
        assert(nk == k + 1) by (nonlinear_arith)
            requires
                nk == (k + 1) % n,
                k + 1 < n,
                k >= 0,
        ;
    }
    let pk = if k == 0 {
        n - 1
    } else {
        k - 1
    };
    assert(prev_selection(ids, Some(ids[k])) == Some(ids[pk]));
    lemma_first_index_of_distinct(ids, pk);
    if k == 0 {
        assert((pk + 1) % n == 0) by (nonlinear_arith)
            requires
                pk == n - 1,
                n > 0,
        ;
    } else {
        assert((pk + 1) % n == k) by (nonlinear_arith)
            requires
                pk == k - 1,
                0 < k < n,
        ;
    }
}

/// Whenever there are hosts, moving or clamping the selection leaves it on a listed host, and
/// clamping keeps a selection whose host is listed.
pub proof fn lemma_selection_stays_listed(ids: Seq<Seq<char>>, selected: Option<Seq<char>>)
    requires
        ids.len() > 0,
    ensures
        next_selection(ids, selected) matches Some(s) && ids.contains(s),
        prev_selection(ids, selected) matches Some(s) && ids.contains(s),
        clamped_selection(ids, selected) matches Some(s) && ids.contains(s),
        (selected matches Some(s) && ids.contains(s)) ==> clamped_selection(ids, selected) == selected,
{
    lemma_selected_index_bound(ids, selected);
    let i = selected_index_of(ids, selected);
    let n = ids.len() as int;
    let nk = ((i + 1) % (n as nat)) as int;
    assert(ids[nk] == ids[nk]);
    assert(ids.contains(ids[nk]));
    assert(ids.contains(ids[n - 1]));
    if i > 0 {
        assert(ids.contains(ids[i - 1]));
    }
    assert(ids.contains(ids[0]));
}

} // verus!

verus! {

/// A refresh is only ever asked of a collector that is not already busy, and each collector
/// is asked at most once per round, in collector order.
pub proof fn lemma_targets_not_busy<D>(cs: Seq<CollectorState<D>>, now: u128, config: AppConfig, force: bool, upto: int)
    requires
        0 <= upto <= cs.len(),
        cs.len() <= usize::MAX,
    ensures
        forall|k: int|
            0 <= k < refresh_targets_of(cs, now, config, force, upto).len() ==> {
                &&& (#[trigger] refresh_targets_of(cs, now, config, force, upto)[k]) < upto
                &&& !cs[refresh_targets_of(cs, now, config, force, upto)[k] as int].pending
            },
        forall|p: int, q: int|
            0 <= p < q < refresh_targets_of(cs, now, config, force, upto).len()
                ==> #[trigger] refresh_targets_of(cs, now, config, force, upto)[p]
                < #[trigger] refresh_targets_of(cs, now, config, force, upto)[q],
    decreases upto,
{
    if upto > 0 {
        lemma_targets_not_busy(cs, now, config, force, upto - 1);
        let prev = refresh_targets_of(cs, now, config, force, upto - 1);
        let cur = refresh_targets_of(cs, now, config, force, upto);
        if cur.len() > prev.len() {
            assert(cur == prev.push((upto - 1) as usize));
            assert forall|k: int| 0 <= k < cur.len() implies (#[trigger] cur[k]) < upto && !cs[cur[k] as int].pending by {
                if k < prev.len() {
                    assert(cur[k] == prev[k]);
                }
            }
            assert forall|p: int, q: int| 0 <= p < q < cur.len() implies #[trigger] cur[p] < #[trigger] cur[q] by {
                assert(cur[p] == prev[p]);
                if q < prev.len() {
                    assert(cur[q] == prev[q]);
                }
            }
        }
    }
}

/// A collector whose result arrived at `at` is not due again before its interval has passed.
pub proof fn lemma_not_due_before_interval<D>(c: CollectorState<D>, at: u128, now: u128, config: AppConfig)
    requires
        c.last_refresh_at == Some(at),
        now >= at,
        now - at < interval_ns(c.interval_ms(config)),
    ensures
        !c.due(now, config),
{
}

/// Taking in a result for a known collector leaves it not busy, with the new host and time.
pub proof fn lemma_result_clears_busy<D>(cs: Seq<CollectorState<D>>, id: Seq<char>, host: HostInfo<D>, now: u128)
    requires
        descriptor_ids(cs).contains(id),
    ensures
        first_index(descriptor_ids(cs), id) matches Some(j) && {
            &&& !apply_result(cs, id, host, now)[j as int].pending
            &&& apply_result(cs, id, host, now)[j as int].host == host
            &&& apply_result(cs, id, host, now)[j as int].last_refresh_at == Some(now)
        },
{
    lemma_first_index_contains(descriptor_ids(cs), id);
    lemma_first_index_bound(descriptor_ids(cs), id);
}

} // verus!

verus! {

/// The host to record after a collection: the host collected, or, when collecting failed,
/// the host in error with the failure's message and `no_data` as its data.
pub fn collect_with_fallback<D>(descriptor: HostDescriptor, outcome: Result<HostInfo<D>, String>, no_data: D) -> (h: HostInfo<D>)
    ensures
        match outcome {
            Ok(host) => h == host,
            Err(message) => {
                &&& h.id == descriptor.id
                &&& h.alias == descriptor.alias
                &&& h.display_name == descriptor.display_name
                &&& h.host_type == descriptor.host_type
                &&& h.status == HostStatus::Error
                &&& h.data == no_data
                &&& h.last_error == Some(message)
            },
        },
{
    match outcome {
        Ok(host) => host,
        Err(message) => {
            let mut failed = HostInfo::loading(descriptor, no_data);
            failed.status = HostStatus::Error;
            failed.last_error = Some(message);
            failed
        },
    }
}

} // verus!

verus! {

/// A character key matches exactly the one-character binding equal to it up to ASCII case;
/// `Esc`, `Enter`, `Left` and `Right` match their names up to ASCII case; `Up`, `Down` and any
/// other key match no binding.
pub proof fn lemma_key_matching_literal(binding: Seq<char>, c: char)
    ensures
        key_matches_spec(binding, KeyCode::Char(c)) <==> (binding.len() == 1 && lower(binding[0])
            == lower(c)),
        key_matches_spec(binding, KeyCode::Esc) <==> lower_seq(binding) == "esc"@,
        key_matches_spec(binding, KeyCode::Enter) <==> lower_seq(binding) == "enter"@,
        key_matches_spec(binding, KeyCode::Left) <==> lower_seq(binding) == "left"@,
        key_matches_spec(binding, KeyCode::Right) <==> lower_seq(binding) == "right"@,
        !key_matches_spec(binding, KeyCode::Up),
        !key_matches_spec(binding, KeyCode::Down),
        !key_matches_spec(binding, KeyCode::Other),
{
    reveal_strlit("esc");
    reveal_strlit("enter");
    reveal_strlit("left");
    reveal_strlit("right");
    assert(lower_seq("esc"@) =~= "esc"@);
    assert(lower_seq("enter"@) =~= "enter"@);
    assert(lower_seq("left"@) =~= "left"@);
    assert(lower_seq("right"@) =~= "right"@);
    assert(lower_seq(seq![c]) =~= seq![lower(c)]);
    if binding.len() == 1 && lower(binding[0]) == lower(c) {
        assert(lower_seq(binding) =~= seq![lower(c)]);
    }
    if lower_seq(binding) == seq![lower(c)] {
        assert(lower_seq(binding).len() == binding.len());
        assert(lower_seq(binding)[0] == lower(binding[0]));
    }
}

} // verus!
