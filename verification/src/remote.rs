//! Remote hosts: reading the SSH client configuration, the probe commands, and the
//! classification of what the probes report.
use vstd::prelude::*;
use crate::config::{join_path, path_join, AppConfig, PathError};
use crate::model::{HostDescriptor, HostInfo, HostStatus, HostType};
use crate::text::{
    chars_of, contains, contains_chars, decimal, eq_ignore_case, eq_ignore_case_chars, find_char,
    has_char, lines, lower_seq, lowercased, parse_u64_chars, parse_u64_spec, slice_vec,
    split_lines, split_words, starts_with, starts_with_chars, str_eq, string_of, trim, trim_range,
    trimmed, u64_to_string, views, words, IntErrorKind,
};

verus! {

/// A host named in the SSH client configuration.
#[derive(Clone, Debug)]
pub struct SshHostEntry {
    pub alias: String,
    pub host_name: Option<String>,
}

/// An entry as plain values: its alias and its `HostName`, if any.
pub type EntryView = (Seq<char>, Option<Seq<char>>);

impl SshHostEntry {
    pub open spec fn view_entry(&self) -> EntryView {
        (
            self.alias@,
            match self.host_name {
                Some(h) => Some(h@),
                None => None,
            },
        )
    }
}

pub open spec fn entries_view(hosts: Seq<SshHostEntry>) -> Seq<EntryView> {
    hosts.map_values(|h: SshHostEntry| h.view_entry())
}

/// The part of a line before its first `#`.
pub open spec fn before_hash(line: Seq<char>) -> Seq<char> {
    if has_char(line, '#') {
        line.take(choose|i: int| 0 <= i < line.len() && line[i] == '#' && !has_char(line.take(i), '#'))
    } else {
        line
    }
}

/// An alias that names one host: not empty, no wildcard, not negated.
pub open spec fn explicit_alias(a: Seq<char>) -> bool {
    a.len() > 0 && !has_char(a, '*') && !has_char(a, '?') && a[0] != '!'
}

/// The explicit aliases among `ws`, in order.
pub open spec fn explicit_only(ws: Seq<Seq<char>>) -> Seq<Seq<char>>
    decreases ws.len(),
{
    if ws.len() == 0 {
        Seq::empty()
    } else if explicit_alias(ws.last()) {
        explicit_only(ws.drop_last()).push(ws.last())
    } else {
        explicit_only(ws.drop_last())
    }
}

/// The words joined with single spaces.
pub open spec fn join_words(ws: Seq<Seq<char>>) -> Seq<char>
    decreases ws.len(),
{
    if ws.len() == 0 {
        Seq::empty()
    } else if ws.len() == 1 {
        ws[0]
    } else {
        join_words(ws.drop_last()).push(' ') + ws.last()
    }
}

/// Some entry already has alias `a`.
pub open spec fn has_alias(hosts: Seq<EntryView>, a: Seq<char>) -> bool {
    exists|j: int| 0 <= j < hosts.len() && hosts[j].0 == a
}

/// The entries with one entry added per alias not seen before, all with `host_name`.
pub open spec fn flush(hosts: Seq<EntryView>, aliases: Seq<Seq<char>>, host_name: Option<Seq<char>>) -> Seq<
    EntryView,
>
    decreases aliases.len(),
{
    if aliases.len() == 0 {
        hosts
    } else {
        let next = if has_alias(hosts, aliases[0]) {
            hosts
        } else {
            hosts.push((aliases[0], host_name))
        };
        flush(next, aliases.drop_first(), host_name)
    }
}

/// What has been read so far: the finished entries, the aliases of the open `Host` block,
/// and the `HostName` given in it.
pub type ScanState = (Seq<EntryView>, Seq<Seq<char>>, Option<Seq<char>>);

/// One line of the configuration read into the state: a `Host` line closes the open block
/// and opens one for its explicit aliases; a `HostName` line sets the name of the open block;
/// comments, blank lines, keys without a value and other keys change nothing.
pub open spec fn scan_line(st: ScanState, line: Seq<char>) -> ScanState {
    let parts = words(trim(before_hash(line)));
    if parts.len() < 2 {
        st
    } else if eq_ignore_case(parts[0], "host"@) {
        (flush(st.0, st.1, st.2), explicit_only(parts.drop_first()), None)
    } else if eq_ignore_case(parts[0], "hostname"@) {
        (st.0, st.1, Some(join_words(parts.drop_first())))
    } else {
        st
    }
}

pub open spec fn scan_lines(ls: Seq<Seq<char>>) -> ScanState
    decreases ls.len(),
{
    if ls.len() == 0 {
        (Seq::empty(), Seq::empty(), None)
    } else {
        scan_line(scan_lines(ls.drop_last()), ls.last())
    }
}

/// The hosts an SSH client configuration names, in order of first appearance.
pub open spec fn ssh_hosts(raw: Seq<char>) -> Seq<EntryView> {
    let st = scan_lines(lines(raw));
    flush(st.0, st.1, st.2)
}

/// The part of `line` before its first `#`.
pub fn strip_comments(line: &Vec<char>) -> (r: Vec<char>)
    ensures
        r@ == before_hash(line@),
{
    match find_char(line, '#') {
        Some(i) => {
            let ghost j = choose|j: int|
                0 <= j < line@.len() && line@[j] == '#' && !has_char(line@.take(j), '#');
            assert(j == i) by {
                if j < i {
                    assert(line@.take(i as int)[j] == '#');
                } else if i < j {
                    assert(line@.take(j)[i as int] == '#');
                }
            }
            slice_vec(line, 0, i)
        },
        None => {
            let r = slice_vec(line, 0, line.len());
            assert(r@ =~= line@);
            r
        },
    }
}

/// The alias names exactly one host.
pub fn is_explicit_alias(alias: &Vec<char>) -> (b: bool)
    ensures
        b == explicit_alias(alias@),
{
    alias.len() > 0 && find_char(alias, '*').is_none() && find_char(alias, '?').is_none()
        && alias[0] != '!'
}

} // verus!

verus! {

/// A copy of `v`.
fn copy_chars(v: &Vec<char>) -> (r: Vec<char>)
    ensures
        r@ == v@,
{
    let r = slice_vec(v, 0, v.len());
    assert(r@ =~= v@);
    r
}

/// The two character sequences are equal.
fn same_chars(a: &Vec<char>, b: &Vec<char>) -> (r: bool)
    ensures
        r == (a@ == b@),
{
    if a.len() != b.len() {
        return false;
    }
    let mut i: usize = 0;
    while i < a.len()
        invariant
            a@.len() == b@.len(),
            i <= a@.len(),
            forall|k: int| 0 <= k < i ==> a@[k] == b@[k],
        decreases a@.len() - i,
    {
        if a[i] != b[i] {
            return false;
        }
        i += 1;
    }
    assert(a@ =~= b@);
    true
}

pub open spec fn opt_view(o: Option<Vec<char>>) -> Option<Seq<char>> {
    match o {
        Some(v) => Some(v@),
        None => None,
    }
}

pub open spec fn pairs_view(s: Seq<(Vec<char>, Option<Vec<char>>)>) -> Seq<EntryView> {
    s.map_values(|p: (Vec<char>, Option<Vec<char>>)| (p.0@, opt_view(p.1)))
}

fn copy_opt(o: &Option<Vec<char>>) -> (r: Option<Vec<char>>)
    ensures
        opt_view(r) == opt_view(*o),
{
    match o {
        Some(v) => Some(copy_chars(v)),
        None => None,
    }
}

/// Some entry already has alias `a`.
fn alias_taken(hosts: &Vec<(Vec<char>, Option<Vec<char>>)>, a: &Vec<char>) -> (r: bool)
    ensures
        r == has_alias(pairs_view(hosts@), a@),
{
    let mut j: usize = 0;
    while j < hosts.len()
        invariant
            j <= hosts@.len(),
            forall|k: int| 0 <= k < j ==> pairs_view(hosts@)[k].0 != a@,
        decreases hosts@.len() - j,
    {
        if same_chars(&hosts[j].0, a) {
            assert(pairs_view(hosts@)[j as int].0 == a@);
            return true;
        }
        j += 1;
    }
    false
}

/// Closes a `Host` block: one entry per alias not seen before.
fn flush_block(
    hosts: &mut Vec<(Vec<char>, Option<Vec<char>>)>,
    aliases: &Vec<Vec<char>>,
    host_name: &Option<Vec<char>>,
)
    ensures
        pairs_view(final(hosts)@) == flush(
            pairs_view(old(hosts)@),
            views(aliases@),
            opt_view(*host_name),
        ),
{
    let ghost target = flush(pairs_view(hosts@), views(aliases@), opt_view(*host_name));
    let mut i: usize = 0;
    assert(views(aliases@).skip(0) =~= views(aliases@));
    while i < aliases.len()
        invariant
            i <= aliases@.len(),
            target == flush(pairs_view(hosts@), views(aliases@).skip(i as int), opt_view(*host_name)),
        decreases aliases@.len() - i,
    {
        let ghost rest = views(aliases@).skip(i as int);
        assert(rest[0] == aliases@[i as int]@);
        assert(rest.drop_first() =~= views(aliases@).skip(i + 1));
        if !alias_taken(hosts, &aliases[i]) {
            let ghost before = pairs_view(hosts@);
            let entry = (copy_chars(&aliases[i]), copy_opt(host_name));
            hosts.push(entry);
            assert(pairs_view(hosts@) =~= before.push((rest[0], opt_view(*host_name))));
        }
        i += 1;
    }
    assert(views(aliases@).skip(aliases@.len() as int) =~= Seq::<Seq<char>>::empty());
}

/// The explicit aliases among the words after the first.
fn explicit_after_first(parts: &Vec<Vec<char>>) -> (r: Vec<Vec<char>>)
    requires
        parts@.len() >= 1,
    ensures
        views(r@) == explicit_only(views(parts@).drop_first()),
{
    let mut r: Vec<Vec<char>> = Vec::new();
    let mut i: usize = 1;
    assert(views(parts@).subrange(1, 1) =~= Seq::<Seq<char>>::empty());
    while i < parts.len()
        invariant
            1 <= i <= parts@.len(),
            views(r@) == explicit_only(views(parts@).subrange(1, i as int)),
        decreases parts@.len() - i,
    {
        assert(views(parts@).subrange(1, i + 1).drop_last() =~= views(parts@).subrange(1, i as int));
        if is_explicit_alias(&parts[i]) {
            let ghost before = views(r@);
            r.push(copy_chars(&parts[i]));
            assert(views(r@) =~= before.push(parts@[i as int]@));
        }
        i += 1;
    }
    assert(views(parts@).subrange(1, parts@.len() as int) =~= views(parts@).drop_first());
    r
}

/// The words after the first, joined with single spaces.
fn join_after_first(parts: &Vec<Vec<char>>) -> (r: Vec<char>)
    requires
        parts@.len() >= 2,
    ensures
        r@ == join_words(views(parts@).drop_first()),
{
    let mut r = copy_chars(&parts[1]);
    let mut i: usize = 2;
    assert(views(parts@).subrange(1, 2) =~= seq![parts@[1]@]);
    while i < parts.len()
        invariant
            2 <= i <= parts@.len(),
            r@ == join_words(views(parts@).subrange(1, i as int)),
        decreases parts@.len() - i,
    {
        assert(views(parts@).subrange(1, i + 1).drop_last() =~= views(parts@).subrange(1, i as int));
        r.push(' ');
        let w = &parts[i];
        let mut k: usize = 0;
        let ghost base = r@;
        while k < w.len()
            invariant
                k <= w@.len(),
                r@ == base + w@.take(k as int),
            decreases w@.len() - k,
        {
            r.push(w[k]);
            k += 1;
            assert(r@ =~= base + w@.take(k as int));
        }
        assert(w@.take(w@.len() as int) =~= w@);
        i += 1;
    }
    assert(views(parts@).subrange(1, parts@.len() as int) =~= views(parts@).drop_first());
    r
}

/// The hosts that an SSH client configuration names, each alias once, in order of first
/// appearance, with the `HostName` of its block. Wildcard and negated patterns name no host.
pub fn parse_ssh_config(raw: &str) -> (hosts: Vec<SshHostEntry>)
    ensures
        entries_view(hosts@) == ssh_hosts(raw@),
{
    let text = chars_of(raw);
    let ls = split_lines(&text);
    let host_key = chars_of("host");
    let host_name_key = chars_of("hostname");
    let mut hosts: Vec<(Vec<char>, Option<Vec<char>>)> = Vec::new();
    let mut aliases: Vec<Vec<char>> = Vec::new();
    let mut host_name: Option<Vec<char>> = None;
    let mut i: usize = 0;
    while i < ls.len()
        invariant
            i <= ls@.len(),
            views(ls@) == lines(raw@),
            host_key@ == "host"@,
            host_name_key@ == "hostname"@,
            (pairs_view(hosts@), views(aliases@), opt_view(host_name)) == scan_lines(
                views(ls@).take(i as int),
            ),
        decreases ls@.len() - i,
    {
        assert(views(ls@).take(i + 1).drop_last() =~= views(ls@).take(i as int));
        assert(views(ls@).take(i + 1).last() == ls@[i as int]@);
        let body = trimmed(&strip_comments(&ls[i]));
        let parts = split_words(&body);
        if parts.len() >= 2 {
            assert(views(parts@)[0] == parts@[0]@);
            if eq_ignore_case_chars(&parts[0], &host_key) {
                flush_block(&mut hosts, &aliases, &host_name);
                aliases = explicit_after_first(&parts);
                host_name = None;
            } else if eq_ignore_case_chars(&parts[0], &host_name_key) {
                host_name = Some(join_after_first(&parts));
            }
        }
        i += 1;
    }
    assert(views(ls@).take(ls@.len() as int) =~= views(ls@));
    flush_block(&mut hosts, &aliases, &host_name);
    let mut out: Vec<SshHostEntry> = Vec::new();
    let mut k: usize = 0;
    while k < hosts.len()
        invariant
            k <= hosts@.len(),
            entries_view(out@) == pairs_view(hosts@).take(k as int),
        decreases hosts@.len() - k,
    {
        let ghost before = entries_view(out@);
        let alias = string_of(hosts[k].0.as_slice());
        let host_name: Option<String> = match &hosts[k].1 {
            Some(h) => Some(string_of(h.as_slice())),
            None => None,
        };
        let entry = SshHostEntry { alias, host_name };
        let ghost ev = entry.view_entry();
        assert(ev == pairs_view(hosts@)[k as int]);
        out.push(entry);
        assert(entries_view(out@) =~= before.push(ev));
        assert(pairs_view(hosts@).take(k + 1) =~= pairs_view(hosts@).take(k as int).push(ev));
        k += 1;
    }
    assert(pairs_view(hosts@).take(hosts@.len() as int) =~= pairs_view(hosts@));
    out
}

} // verus!

verus! {

/// No alias occurs in two entries.
pub open spec fn distinct_aliases(hosts: Seq<EntryView>) -> bool {
    forall|i: int, j: int| 0 <= i < j < hosts.len() ==> hosts[i].0 != hosts[j].0
}

/// Every entry names exactly one host.
pub open spec fn all_explicit(hosts: Seq<EntryView>) -> bool {
    forall|i: int| 0 <= i < hosts.len() ==> explicit_alias(#[trigger] hosts[i].0)
}

proof fn lemma_explicit_only(ws: Seq<Seq<char>>)
    ensures
        forall|k: int|
            0 <= k < explicit_only(ws).len() ==> explicit_alias(#[trigger] explicit_only(ws)[k]),
    decreases ws.len(),
{
    if ws.len() > 0 {
        lemma_explicit_only(ws.drop_last());
        let prev = explicit_only(ws.drop_last());
        if explicit_alias(ws.last()) {
            assert forall|k: int| 0 <= k < prev.push(ws.last()).len() implies explicit_alias(
                #[trigger] prev.push(ws.last())[k],
            ) by {
                if k < prev.len() {
                    assert(prev.push(ws.last())[k] == prev[k]);
                }
            }
        }
    }
}

proof fn lemma_flush_keeps(hosts: Seq<EntryView>, aliases: Seq<Seq<char>>, host_name: Option<Seq<char>>)
    requires
        distinct_aliases(hosts),
        all_explicit(hosts),
        forall|k: int| 0 <= k < aliases.len() ==> explicit_alias(#[trigger] aliases[k]),
    ensures
        distinct_aliases(flush(hosts, aliases, host_name)),
        all_explicit(flush(hosts, aliases, host_name)),
    decreases aliases.len(),
{
    if aliases.len() > 0 {
        let next = if has_alias(hosts, aliases[0]) {
            hosts
        } else {
            hosts.push((aliases[0], host_name))
        };
        assert(explicit_alias(aliases[0]));
        assert(distinct_aliases(next));
        assert(all_explicit(next));
        assert forall|k: int| 0 <= k < aliases.drop_first().len() implies explicit_alias(
            #[trigger] aliases.drop_first()[k],
        ) by {
            assert(aliases.drop_first()[k] == aliases[k + 1]);
        }
        lemma_flush_keeps(next, aliases.drop_first(), host_name);
    }
}

proof fn lemma_scan_keeps(ls: Seq<Seq<char>>)
    ensures
        distinct_aliases(scan_lines(ls).0),
        all_explicit(scan_lines(ls).0),
        forall|k: int|
            0 <= k < scan_lines(ls).1.len() ==> explicit_alias(#[trigger] scan_lines(ls).1[k]),
    decreases ls.len(),
{
    if ls.len() > 0 {
        lemma_scan_keeps(ls.drop_last());
        let st = scan_lines(ls.drop_last());
        let parts = words(trim(before_hash(ls.last())));
        lemma_flush_keeps(st.0, st.1, st.2);
        lemma_explicit_only(parts.drop_first());
    }
}

/// Each host the configuration names is listed once, and only names of single hosts are
/// listed: no wildcard, no `?`, no negation, no empty name.
pub proof fn lemma_ssh_hosts_distinct_and_explicit(raw: Seq<char>)
    ensures
        distinct_aliases(ssh_hosts(raw)),
        all_explicit(ssh_hosts(raw)),
{
    let st = scan_lines(lines(raw));
    lemma_scan_keeps(lines(raw));
    lemma_flush_keeps(st.0, st.1, st.2);
}

} // verus!

verus! {

/// Why a remote host could not be measured.
#[derive(Debug)]
pub enum RemoteCollectError {
    /// The host did not answer; worth one more try.
    Unreachable(String),
    /// Anything else.
    Error(String),
}

impl RemoteCollectError {
    /// Only a host that did not answer is tried again.
    pub fn is_retryable(&self) -> (b: bool)
        ensures
            b == (self is Unreachable),
    {
        match self {
            RemoteCollectError::Unreachable(_) => true,
            RemoteCollectError::Error(_) => false,
        }
    }

    /// The message the error carries.
    pub open spec fn message(&self) -> Seq<char> {
        match self {
            RemoteCollectError::Unreachable(m) => m@,
            RemoteCollectError::Error(m) => m@,
        }
    }

    /// The status a host is shown with after this error, and the message shown beside it.
    pub fn into_status(self) -> (r: (HostStatus, String))
        ensures
            r.0 == if self is Unreachable {
                HostStatus::Unreachable
            } else {
                HostStatus::Error
            },
            r.1@ == self.message(),
    {
        match self {
            RemoteCollectError::Unreachable(m) => (HostStatus::Unreachable, m),
            RemoteCollectError::Error(m) => (HostStatus::Error, m),
        }
    }
}

/// Whether a failed probe is tried again: once, and only when the host did not answer.
pub fn should_retry(attempt: u32, error: &RemoteCollectError) -> (b: bool)
    ensures
        b == (attempt == 0 && error is Unreachable),
{
    attempt == 0 && error.is_retryable()
}

/// The last line of `ls` that is not blank, trimmed.
pub open spec fn last_nonblank(ls: Seq<Seq<char>>) -> Option<Seq<char>>
    decreases ls.len(),
{
    if ls.len() == 0 {
        None
    } else if trim(ls.last()).len() > 0 {
        Some(trim(ls.last()))
    } else {
        last_nonblank(ls.drop_last())
    }
}

/// The last non-blank line of `stderr`, trimmed, or `fallback` when there is none.
pub open spec fn compact_error(stderr: Seq<char>, fallback: Seq<char>) -> Seq<char> {
    match last_nonblank(lines(stderr)) {
        Some(l) => l,
        None => fallback,
    }
}

/// The last non-blank line of `stderr`, trimmed, or `fallback` when there is none.
pub fn compact_remote_error(stderr: &str, fallback: &str) -> (r: String)
    ensures
        r@ == compact_error(stderr@, fallback@),
{
    let text = chars_of(stderr);
    let ls = split_lines(&text);
    let mut i = ls.len();
    assert(views(ls@).take(i as int) =~= views(ls@));
    while i > 0
        invariant
            i <= ls@.len(),
            views(ls@) == lines(stderr@),
            last_nonblank(views(ls@)) == last_nonblank(views(ls@).take(i as int)),
        decreases i,
    {
        assert(views(ls@).take(i as int).drop_last() =~= views(ls@).take(i - 1));
        assert(views(ls@).take(i as int).last() == ls@[i - 1]@);
        let t = trimmed(&ls[i - 1]);
        if t.len() > 0 {
            return string_of(t.as_slice());
        }
        i -= 1;
    }
    assert(views(ls@).take(0) =~= Seq::<Seq<char>>::empty());
    String::from_str(fallback)
}

/// The `ssh` error output names a refused login.
pub open spec fn auth_failure(lowered: Seq<char>) -> bool {
    contains(lowered, "permission denied"@) || contains(lowered, "host key verification failed"@)
}

/// The `ssh` error output names a host that cannot be reached.
pub open spec fn unreachable_failure(lowered: Seq<char>) -> bool {
    ||| contains(lowered, "timed out"@)
    ||| contains(lowered, "no route to host"@)
    ||| contains(lowered, "name or service not known"@)
    ||| contains(lowered, "connection refused"@)
    ||| contains(lowered, "could not resolve hostname"@)
    ||| contains(lowered, "connection closed"@)
    ||| contains(lowered, "connection reset"@)
    ||| contains(lowered, "kex_exchange_identification"@)
    ||| contains(lowered, "banner exchange"@)
    ||| contains(lowered, "operation timed out"@)
}

/// How a failed `ssh` run is reported, from its error output: whether the host counts as
/// unreachable, and the message.
pub open spec fn ssh_failure(stderr: Seq<char>) -> (bool, Seq<char>) {
    let s = trim(stderr);
    let lowered = lower_seq(s);
    if auth_failure(lowered) {
        (false, compact_error(s, "ssh authentication failed"@))
    } else if unreachable_failure(lowered) {
        (true, compact_error(s, "ssh timeout"@))
    } else {
        (false, compact_error(s, "ssh failed"@))
    }
}

fn mentions(hay: &Vec<char>, needle: &str) -> (b: bool)
    ensures
        b == contains(hay@, needle@),
{
    let n = chars_of(needle);
    contains_chars(hay, &n)
}

/// Classifies the error output of a failed `ssh` run: a refused login is an error, a host
/// that could not be reached is unreachable, anything else is an error.
pub fn classify_ssh_failure(stderr: &str) -> (e: RemoteCollectError)
    ensures
        (e is Unreachable, e.message()) == ssh_failure(stderr@),
{
    let all = chars_of(stderr);
    let (a, b) = trim_range(&all);
    let trimmed_str = stderr.substring_char(a, b);
    let lowered = lowercased(&slice_vec(&all, a, b));
    if mentions(&lowered, "permission denied") || mentions(
        &lowered,
        "host key verification failed",
    ) {
        return RemoteCollectError::Error(
            compact_remote_error(trimmed_str, "ssh authentication failed"),
        );
    }
    if mentions(&lowered, "timed out") || mentions(&lowered, "no route to host") || mentions(
        &lowered,
        "name or service not known",
    ) || mentions(&lowered, "connection refused") || mentions(
        &lowered,
        "could not resolve hostname",
    ) || mentions(&lowered, "connection closed") || mentions(&lowered, "connection reset")
        || mentions(&lowered, "kex_exchange_identification") || mentions(
        &lowered,
        "banner exchange",
    ) || mentions(&lowered, "operation timed out") {
        return RemoteCollectError::Unreachable(compact_remote_error(trimmed_str, "ssh timeout"));
    }
    RemoteCollectError::Error(compact_remote_error(trimmed_str, "ssh failed"))
}

/// The outcome of the reachability check: any non-zero exit of `ping` is "No ping".
pub fn ping_outcome(success: bool) -> (r: Result<(), RemoteCollectError>)
    ensures
        success ==> r is Ok,
        !success ==> (r matches Err(e) && e is Unreachable && e.message() == "No ping"@),
{
    if success {
        Ok(())
    } else {
        Err(RemoteCollectError::Unreachable(String::from_str("No ping")))
    }
}

/// `value`, trimmed, read as a `u64`; the error names `field`.
pub fn parse_u64(value: &str, field: &str) -> (r: Result<u64, RemoteCollectError>)
    ensures
        match parse_u64_spec(trim(value@)) {
            Ok(n) => r == Ok::<u64, RemoteCollectError>(n),
            Err(k) => r matches Err(e) && e is Error && e.message() == "failed to parse "@ + field@
                + ": "@ + match k {
                IntErrorKind::Empty => "cannot parse integer from empty string"@,
                IntErrorKind::InvalidDigit => "invalid digit found in string"@,
                IntErrorKind::PosOverflow => "number too large to fit in target type"@,
            },
        },
{
    let v = trimmed(&chars_of(value));
    match parse_u64_chars(&v) {
        Ok(n) => Ok(n),
        Err(k) => {
            let mut m = String::from_str("failed to parse ");
            m.append(field);
            m.append(": ");
            m.append(k.description());
            Err(RemoteCollectError::Error(m))
        },
    }
}

/// `~` and a leading `~/` stand for the home directory.
pub open spec fn expanded_path(path: Seq<char>, home: Option<Seq<char>>) -> Result<Seq<char>, PathError> {
    if path == "~"@ {
        match home {
            Some(h) => Ok(h),
            None => Err(PathError::NoHome),
        }
    } else if starts_with(path, "~/"@) {
        match home {
            Some(h) => Ok(path_join(h, path.skip(2))),
            None => Err(PathError::NoHome),
        }
    } else {
        Ok(path)
    }
}

/// `path` with `~` or a leading `~/` replaced by the home directory `home`.
pub fn expand_home_path(path: &str, home: Option<&str>) -> (r: Result<String, PathError>)
    ensures
        match (r, expanded_path(
            path@,
            match home {
                Some(h) => Some(h@),
                None => None,
            },
        )) {
            (Ok(p), Ok(q)) => p@ == q,
            (Err(e), Err(f)) => e == f,
            _ => false,
        },
{
    let chars = chars_of(path);
    let tilde_slash = chars_of("~/");
    if str_eq(path, "~") {
        return match home {
            Some(h) => Ok(String::from_str(h)),
            None => Err(PathError::NoHome),
        };
    }
    if starts_with_chars(&chars, &tilde_slash) {
        proof {
            reveal_strlit("~/");
        }
        return match home {
            Some(h) => {
                let rest = path.substring_char(2, chars.len());
                Ok(join_path(h, rest))
            },
            None => Err(PathError::NoHome),
        };
    }
    Ok(String::from_str(path))
}

} // verus!

verus! {

/// A whole number of seconds for a timeout given in milliseconds, at least 1.
pub open spec fn timeout_secs(ms: u64) -> nat {
    if ms / 1000 >= 1 {
        (ms / 1000) as nat
    } else {
        1
    }
}

fn timeout_secs_exec(ms: u64) -> (r: u64)
    ensures
        r == timeout_secs(ms),
{
    let s = ms / 1000;
    if s >= 1 {
        s
    } else {
        1
    }
}

/// What is needed to probe one remote host.
pub struct RemoteCollector {
    pub descriptor: HostDescriptor,
    pub ssh_alias: String,
    pub ping_host: String,
    pub ssh_config_path: String,
    pub ssh_connect_timeout_ms: u64,
    pub host_ping_timeout_ms: u64,
    pub prefer_ssh_over_ping_check: bool,
}

impl RemoteCollector {
    /// The collector for one host of the SSH configuration at `ssh_config_path`: the host is
    /// known as `remote:<alias>` and pinged at its `HostName`, else at its alias.
    pub fn new(config: &AppConfig, ssh_config_path: String, host: SshHostEntry) -> (c: Self)
        ensures
            c.descriptor.id@ == "remote:"@ + host.alias@,
            c.descriptor.alias@ == host.alias@,
            c.descriptor.display_name@ == host.alias@,
            c.descriptor.host_type == HostType::Remote,
            c.ssh_alias@ == host.alias@,
            c.ping_host@ == match host.host_name {
                Some(h) => h@,
                None => host.alias@,
            },
            c.ssh_config_path == ssh_config_path,
            c.ssh_connect_timeout_ms == config.ssh.ssh_connect_timeout_ms,
            c.host_ping_timeout_ms == config.ssh.host_ping_timeout_ms,
            c.prefer_ssh_over_ping_check == config.ssh.prefer_ssh_over_ping_check,
    {
        let mut id = String::from_str("remote:");
        id.append(host.alias.as_str());
        let ping_host = match host.host_name {
            Some(h) => h,
            None => host.alias.clone(),
        };
        RemoteCollector {
            descriptor: HostDescriptor {
                id,
                alias: host.alias.clone(),
                display_name: host.alias.clone(),
                host_type: HostType::Remote,
            },
            ssh_alias: host.alias,
            ping_host,
            ssh_config_path,
            ssh_connect_timeout_ms: config.ssh.ssh_connect_timeout_ms,
            host_ping_timeout_ms: config.ssh.host_ping_timeout_ms,
            prefer_ssh_over_ping_check: config.ssh.prefer_ssh_over_ping_check,
        }
    }

    /// The host this collector measures.
    pub fn descriptor(&self) -> (d: HostDescriptor)
        ensures
            d.id@ == self.descriptor.id@,
            d.alias@ == self.descriptor.alias@,
            d.display_name@ == self.descriptor.display_name@,
            d.host_type == self.descriptor.host_type,
    {
        HostDescriptor {
            id: self.descriptor.id.clone(),
            alias: self.descriptor.alias.clone(),
            display_name: self.descriptor.display_name.clone(),
            host_type: self.descriptor.host_type,
        }
    }

    /// The arguments of `ssh` that runs a shell on the host without ever asking for a password.
    pub fn ssh_args(&self) -> (args: Vec<String>)
        ensures
            args@.len() == 11,
            args@[0]@ == "-F"@,
            args@[1]@ == self.ssh_config_path@,
            args@[2]@ == "-o"@,
            args@[3]@ == "BatchMode=yes"@,
            args@[4]@ == "-o"@,
            args@[5]@ == "NumberOfPasswordPrompts=0"@,
            args@[6]@ == "-o"@,
            args@[7]@ == "ConnectTimeout="@ + decimal(timeout_secs(self.ssh_connect_timeout_ms)),
            args@[8]@ == self.ssh_alias@,
            args@[9]@ == "sh"@,
            args@[10]@ == "-s"@,
    {
        let mut timeout = String::from_str("ConnectTimeout=");
        let secs = u64_to_string(timeout_secs_exec(self.ssh_connect_timeout_ms));
        timeout.append(secs.as_str());
        let mut args: Vec<String> = Vec::new();
        args.push(String::from_str("-F"));
        args.push(self.ssh_config_path.clone());
        args.push(String::from_str("-o"));
        args.push(String::from_str("BatchMode=yes"));
        args.push(String::from_str("-o"));
        args.push(String::from_str("NumberOfPasswordPrompts=0"));
        args.push(String::from_str("-o"));
        args.push(timeout);
        args.push(self.ssh_alias.clone());
        args.push(String::from_str("sh"));
        args.push(String::from_str("-s"));
        args
    }

    /// The arguments of `ping` that sends one probe and waits the ping timeout in seconds.
    pub fn ping_args(&self) -> (args: Vec<String>)
        ensures
            args@.len() == 5,
            args@[0]@ == "-c"@,
            args@[1]@ == "1"@,
            args@[2]@ == "-W"@,
            args@[3]@ == decimal(timeout_secs(self.host_ping_timeout_ms)),
            args@[4]@ == self.ping_host@,
    {
        let mut args: Vec<String> = Vec::new();
        args.push(String::from_str("-c"));
        args.push(String::from_str("1"));
        args.push(String::from_str("-W"));
        args.push(u64_to_string(timeout_secs_exec(self.host_ping_timeout_ms)));
        args.push(self.ping_host.clone());
        args
    }

    /// Whether the host is pinged before `ssh` is tried.
    pub fn checks_ping_first(&self) -> (b: bool)
        ensures
            b == !self.prefer_ssh_over_ping_check,
    {
        !self.prefer_ssh_over_ping_check
    }

    /// The host as measured: the descriptor's fields with `status`, `data` and `last_error`.
    pub fn host_with_status<D>(&self, status: HostStatus, data: D, last_error: Option<String>) -> (h: HostInfo<D>)
        ensures
            h.id@ == self.descriptor.id@,
            h.alias@ == self.descriptor.alias@,
            h.display_name@ == self.descriptor.display_name@,
            h.host_type == self.descriptor.host_type,
            h.status == status,
            h.data == data,
            h.last_error == last_error,
    {
        HostInfo {
            id: self.descriptor.id.clone(),
            alias: self.descriptor.alias.clone(),
            display_name: self.descriptor.display_name.clone(),
            host_type: self.descriptor.host_type,
            status,
            data,
            last_error,
        }
    }
}

/// `c` probes the host of entry `e` of the configuration at `config_path`.
pub open spec fn collector_for(c: RemoteCollector, e: EntryView, config_path: Seq<char>) -> bool {
    &&& c.ssh_alias@ == e.0
    &&& c.ping_host@ == match e.1 {
        Some(h) => h,
        None => e.0,
    }
    &&& c.descriptor.id@ == "remote:"@ + e.0
    &&& c.descriptor.alias@ == e.0
    &&& c.descriptor.host_type == HostType::Remote
    &&& c.ssh_config_path@ == config_path
}

/// One collector per host that the SSH configuration at `config_path` names; `contents` is
/// the file's text, or `None` where no file stands at that path, which gives no collector.
pub fn load_remote_collectors(config: &AppConfig, config_path: &str, contents: Option<&str>) -> (cs: Vec<
    RemoteCollector,
>)
    ensures
        contents is None ==> cs@.len() == 0,
        contents is Some ==> collectors_from(config, config_path@, contents->0@, cs@),
{
    match contents {
        None => Vec::new(),
        Some(raw) => collectors_of(config, config_path, raw),
    }
}

/// What the collectors made from the configuration text `raw` hold.
pub open spec fn collectors_from(config: &AppConfig, config_path: Seq<char>, raw: Seq<char>, cs: Seq<RemoteCollector>) -> bool {
    &&& cs.len() == ssh_hosts(raw).len()
    &&& forall|i: int| 0 <= i < cs.len() ==> collector_for(#[trigger] cs[i], ssh_hosts(raw)[i], config_path)
    &&& forall|i: int|
        0 <= i < cs.len() ==> (#[trigger] cs[i]).ssh_connect_timeout_ms
            == config.ssh.ssh_connect_timeout_ms && cs[i].host_ping_timeout_ms
            == config.ssh.host_ping_timeout_ms && cs[i].prefer_ssh_over_ping_check
            == config.ssh.prefer_ssh_over_ping_check
}

fn collectors_of(config: &AppConfig, config_path: &str, raw: &str) -> (cs: Vec<RemoteCollector>)
    ensures
        collectors_from(config, config_path@, raw@, cs@),
        cs@.len() == ssh_hosts(raw@).len(),
        forall|i: int|
            0 <= i < cs@.len() ==> collector_for(#[trigger] cs@[i], ssh_hosts(raw@)[i], config_path@),
        forall|i: int|
            0 <= i < cs@.len() ==> (#[trigger] cs@[i]).ssh_connect_timeout_ms
                == config.ssh.ssh_connect_timeout_ms && cs@[i].host_ping_timeout_ms
                == config.ssh.host_ping_timeout_ms && cs@[i].prefer_ssh_over_ping_check
                == config.ssh.prefer_ssh_over_ping_check,
{
    let hosts = parse_ssh_config(raw);
    let mut cs: Vec<RemoteCollector> = Vec::new();
    let mut i: usize = 0;
    while i < hosts.len()
        invariant
            i <= hosts@.len(),
            entries_view(hosts@) == ssh_hosts(raw@),
            cs@.len() == i,
            forall|k: int|
                0 <= k < i ==> collector_for(#[trigger] cs@[k], ssh_hosts(raw@)[k], config_path@),
            forall|k: int|
                0 <= k < i ==> (#[trigger] cs@[k]).ssh_connect_timeout_ms
                    == config.ssh.ssh_connect_timeout_ms && cs@[k].host_ping_timeout_ms
                    == config.ssh.host_ping_timeout_ms && cs@[k].prefer_ssh_over_ping_check
                    == config.ssh.prefer_ssh_over_ping_check,
        decreases hosts@.len() - i,
    {
        assert(entries_view(hosts@)[i as int] == hosts@[i as int].view_entry());
        let alias = hosts[i].alias.clone();
        let host_name: Option<String> = match &hosts[i].host_name {
            Some(h) => Some(h.clone()),
            None => None,
        };
        let entry = SshHostEntry { alias, host_name };
        assert(entry.view_entry() == hosts@[i as int].view_entry());
        let c = RemoteCollector::new(config, String::from_str(config_path), entry);
        assert(collector_for(c, ssh_hosts(raw@)[i as int], config_path@));
        cs.push(c);
        i += 1;
    }
    cs
}

} // verus!

verus! {

/// The shell script run on a remote host; it prints `key=value` lines and then the `lsblk`
/// JSON between `__LSBLK_BEGIN__` and `__LSBLK_END__` lines.
pub const REMOTE_METRICS_SCRIPT: &'static str = r#"prev_cpu="$(awk '/^cpu / {print $2+$3+$4+$5+$6+$7+$8, $5}' /proc/stat)"
prev_total="$(printf '%s\n' "$prev_cpu" | awk '{print $1}')"
prev_idle="$(printf '%s\n' "$prev_cpu" | awk '{print $2}')"
sleep 0.2
curr_cpu="$(awk '/^cpu / {print $2+$3+$4+$5+$6+$7+$8, $5}' /proc/stat)"
curr_total="$(printf '%s\n' "$curr_cpu" | awk '{print $1}')"
curr_idle="$(printf '%s\n' "$curr_cpu" | awk '{print $2}')"
delta_total=$((curr_total - prev_total))
delta_idle=$((curr_idle - prev_idle))
cpu_usage="$(awk -v total="$delta_total" -v idle="$delta_idle" 'BEGIN { if (total <= 0) printf "0.0"; else printf "%.1f", (total - idle) * 100 / total }')"
mem_total="$(awk '/^MemTotal:/ {printf "%.0f", $2 * 1024; exit}' /proc/meminfo)"
mem_available="$(awk '/^MemAvailable:/ {printf "%.0f", $2 * 1024; exit}' /proc/meminfo)"
mem_used=$((mem_total - mem_available))
cpu_temp=""
for file in /sys/class/hwmon/hwmon*/temp*_input; do
  [ -f "$file" ] || continue
  base="${file%_input}"
  dir="${base%/*}"
  label=""
  [ -f "$dir/name" ] && label="$(cat "$dir/name" 2>/dev/null)"
  [ -f "${base}_label" ] && label="$label $(cat "${base}_label" 2>/dev/null)"
  lowered="$(printf '%s' "$label" | tr '[:upper:]' '[:lower:]')"
  case "$lowered" in
    *package*|*cpu*|*core*|*tctl*|*tdie*|*ccd*|*k10temp*)
      raw="$(cat "$file" 2>/dev/null || true)"
      if [ -n "$raw" ]; then
        cpu_temp="$(awk -v value="$raw" 'BEGIN { printf "%.1f", value / 1000 }')"
        break
      fi
      ;;
  esac
done
if [ -z "$cpu_temp" ]; then
  for file in /sys/class/hwmon/hwmon*/temp*_input; do
    [ -f "$file" ] || continue
    raw="$(cat "$file" 2>/dev/null || true)"
    if [ -n "$raw" ]; then
      cpu_temp="$(awk -v value="$raw" 'BEGIN { printf "%.1f", value / 1000 }')"
      break
    fi
  done
fi
printf 'cpu_usage=%s\n' "$cpu_usage"
printf 'cpu_temp=%s\n' "$cpu_temp"
printf 'mem_used=%s\n' "$mem_used"
printf 'mem_total=%s\n' "$mem_total"
printf '__LSBLK_BEGIN__\n'
lsblk -J -b -o NAME,KNAME,PKNAME,PATH,TYPE,MOUNTPOINTS,SIZE,FSUSED 2>/dev/null || true
printf '\n__LSBLK_END__\n'
"#;

/// The script that measures a remote host.
pub fn remote_metrics_script() -> (s: &'static str)
    ensures
        s == REMOTE_METRICS_SCRIPT,
{
    REMOTE_METRICS_SCRIPT
}

/// The `key=value` lines the script prints.
#[derive(Clone, Copy, Debug, PartialEq, Eq, Structural)]
pub enum PayloadField {
    CpuUsage,
    CpuTemp,
    MemUsed,
    MemTotal,
}

/// The key that introduces a field, `=` included.
pub open spec fn field_key(f: PayloadField) -> Seq<char> {
    match f {
        PayloadField::CpuUsage => "cpu_usage="@,
        PayloadField::CpuTemp => "cpu_temp="@,
        PayloadField::MemUsed => "mem_used="@,
        PayloadField::MemTotal => "mem_total="@,
    }
}

/// What has been read of the script's output: the fields in the order they came, with the
/// text after their key; the lines of the `lsblk` block as they were; whether the block is open.
pub type PayloadState = (Seq<(PayloadField, Seq<char>)>, Seq<Seq<char>>, bool);

/// One line of output read into the state. Blank lines are skipped; the markers open and close
/// the `lsblk` block; inside it every line is kept as it is; outside it a line that starts,
/// once trimmed, with a field's key gives that field, and any other line is skipped.
pub open spec fn payload_line(st: PayloadState, raw: Seq<char>) -> PayloadState {
    let l = trim(raw);
    if l.len() == 0 {
        st
    } else if l == "__LSBLK_BEGIN__"@ {
        (st.0, st.1, true)
    } else if l == "__LSBLK_END__"@ {
        (st.0, st.1, false)
    } else if st.2 {
        (st.0, st.1.push(raw), true)
    } else if starts_with(l, field_key(PayloadField::CpuUsage)) {
        (st.0.push((PayloadField::CpuUsage, l.skip(field_key(PayloadField::CpuUsage).len() as int))), st.1, st.2)
    } else if starts_with(l, field_key(PayloadField::CpuTemp)) {
        (st.0.push((PayloadField::CpuTemp, l.skip(field_key(PayloadField::CpuTemp).len() as int))), st.1, st.2)
    } else if starts_with(l, field_key(PayloadField::MemUsed)) {
        (st.0.push((PayloadField::MemUsed, l.skip(field_key(PayloadField::MemUsed).len() as int))), st.1, st.2)
    } else if starts_with(l, field_key(PayloadField::MemTotal)) {
        (st.0.push((PayloadField::MemTotal, l.skip(field_key(PayloadField::MemTotal).len() as int))), st.1, st.2)
    } else {
        st
    }
}

pub open spec fn payload_lines(ls: Seq<Seq<char>>) -> PayloadState
    decreases ls.len(),
{
    if ls.len() == 0 {
        (Seq::empty(), Seq::empty(), false)
    } else {
        payload_line(payload_lines(ls.drop_last()), ls.last())
    }
}

/// The fields and the `lsblk` lines of the script's output.
pub struct RemotePayload {
    pub fields: Vec<(PayloadField, String)>,
    pub lsblk_lines: Vec<String>,
}

pub open spec fn fields_view(s: Seq<(PayloadField, String)>) -> Seq<(PayloadField, Seq<char>)> {
    s.map_values(|p: (PayloadField, String)| (p.0, p.1@))
}

pub open spec fn strings_view(s: Seq<String>) -> Seq<Seq<char>> {
    s.map_values(|x: String| x@)
}

/// The fields and the `lsblk` lines of the output of the script, in order.
pub fn scan_remote_payload(stdout: &str) -> (p: RemotePayload)
    ensures
        fields_view(p.fields@) == payload_lines(lines(stdout@)).0,
        strings_view(p.lsblk_lines@) == payload_lines(lines(stdout@)).1,
{
    let text = chars_of(stdout);
    let ls = split_lines(&text);
    let begin = chars_of("__LSBLK_BEGIN__");
    let end = chars_of("__LSBLK_END__");
    let k_cpu = chars_of("cpu_usage=");
    let k_temp = chars_of("cpu_temp=");
    let k_used = chars_of("mem_used=");
    let k_total = chars_of("mem_total=");
    let mut fields: Vec<(PayloadField, String)> = Vec::new();
    let mut lsblk: Vec<String> = Vec::new();
    let mut in_lsblk = false;
    let mut i: usize = 0;
    while i < ls.len()
        invariant
            i <= ls@.len(),
            views(ls@) == lines(stdout@),
            begin@ == "__LSBLK_BEGIN__"@,
            end@ == "__LSBLK_END__"@,
            k_cpu@ == field_key(PayloadField::CpuUsage),
            k_temp@ == field_key(PayloadField::CpuTemp),
            k_used@ == field_key(PayloadField::MemUsed),
            k_total@ == field_key(PayloadField::MemTotal),
            (fields_view(fields@), strings_view(lsblk@), in_lsblk) == payload_lines(
                views(ls@).take(i as int),
            ),
        decreases ls@.len() - i,
    {
        assert(views(ls@).take(i + 1).drop_last() =~= views(ls@).take(i as int));
        assert(views(ls@).take(i + 1).last() == ls@[i as int]@);
        let ghost f0 = fields_view(fields@);
        let ghost b0 = strings_view(lsblk@);
        let l = trimmed(&ls[i]);
        if l.len() == 0 {
        } else if same_chars(&l, &begin) {
            in_lsblk = true;
        } else if same_chars(&l, &end) {
            in_lsblk = false;
        } else if in_lsblk {
            lsblk.push(string_of(ls[i].as_slice()));
            assert(strings_view(lsblk@) =~= b0.push(ls@[i as int]@));
        } else if starts_with_chars(&l, &k_cpu) {
            let v = string_of(slice_vec(&l, k_cpu.len(), l.len()).as_slice());
            fields.push((PayloadField::CpuUsage, v));
            assert(fields_view(fields@) =~= f0.push((PayloadField::CpuUsage, l@.skip(k_cpu@.len() as int))));
        } else if starts_with_chars(&l, &k_temp) {
            let v = string_of(slice_vec(&l, k_temp.len(), l.len()).as_slice());
            fields.push((PayloadField::CpuTemp, v));
            assert(fields_view(fields@) =~= f0.push((PayloadField::CpuTemp, l@.skip(k_temp@.len() as int))));
        } else if starts_with_chars(&l, &k_used) {
            let v = string_of(slice_vec(&l, k_used.len(), l.len()).as_slice());
            fields.push((PayloadField::MemUsed, v));
            assert(fields_view(fields@) =~= f0.push((PayloadField::MemUsed, l@.skip(k_used@.len() as int))));
        } else if starts_with_chars(&l, &k_total) {
            let v = string_of(slice_vec(&l, k_total.len(), l.len()).as_slice());
            fields.push((PayloadField::MemTotal, v));
            assert(fields_view(fields@) =~= f0.push((PayloadField::MemTotal, l@.skip(k_total@.len() as int))));
        }
        i += 1;
    }
    assert(views(ls@).take(ls@.len() as int) =~= views(ls@));
    RemotePayload { fields, lsblk_lines: lsblk }
}

} // verus!

verus! {

/// The collectors made from one SSH configuration measure distinct hosts: no two share an id.
pub proof fn lemma_remote_ids_distinct(cs: Seq<RemoteCollector>, raw: Seq<char>, config_path: Seq<char>)
    requires
        cs.len() == ssh_hosts(raw).len(),
        forall|i: int| 0 <= i < cs.len() ==> collector_for(#[trigger] cs[i], ssh_hosts(raw)[i], config_path),
    ensures
        forall|i: int, j: int|
            0 <= i < j < cs.len() ==> (#[trigger] cs[i]).descriptor.id@ != (#[trigger] cs[j]).descriptor.id@,
{
    lemma_ssh_hosts_distinct_and_explicit(raw);
    assert forall|i: int, j: int| 0 <= i < j < cs.len() implies (#[trigger] cs[i]).descriptor.id@
        != (#[trigger] cs[j]).descriptor.id@ by {
        let p = "remote:"@;
        let a = ssh_hosts(raw)[i].0;
        let b = ssh_hosts(raw)[j].0;
        assert(a != b);
        if p + a == p + b {
            assert((p + a).skip(p.len() as int) =~= a);
            assert((p + b).skip(p.len() as int) =~= b);
        }
    }
}

} // verus!

verus! {

/// A refused login is classified as an error, never as an unreachable host (the only kind
/// `should_retry` tries again); a host that cannot be reached, and whose login was not refused,
/// is classified as unreachable.
pub proof fn lemma_refused_login_not_retried(stderr: Seq<char>)
    ensures
        auth_failure(lower_seq(trim(stderr))) ==> !ssh_failure(stderr).0,
        !auth_failure(lower_seq(trim(stderr))) && unreachable_failure(lower_seq(trim(stderr)))
            ==> ssh_failure(stderr).0,
{
}

} // verus!

verus! {

/// A failed `ssh` run whose error output, trimmed and lower-cased, names one of the network
/// failures (`timed out`, `no route to host`, `name or service not known`, `connection refused`,
/// `could not resolve hostname`, `connection closed`, `connection reset`,
/// `kex_exchange_identification`, `banner exchange`, `operation timed out`) and no refused
/// login (`permission denied`, `host key verification failed`) counts as an unreachable host;
/// one that names a refused login, or none of these, counts as an error.
pub proof fn lemma_network_failures_are_unreachable(stderr: Seq<char>)
    ensures
        ({
            let l = lower_seq(trim(stderr));
            !contains(l, "permission denied"@) && !contains(l, "host key verification failed"@)
                ==> {
                &&& contains(l, "timed out"@) ==> ssh_failure(stderr).0
                &&& contains(l, "no route to host"@) ==> ssh_failure(stderr).0
                &&& contains(l, "name or service not known"@) ==> ssh_failure(stderr).0
                &&& contains(l, "connection refused"@) ==> ssh_failure(stderr).0
                &&& contains(l, "could not resolve hostname"@) ==> ssh_failure(stderr).0
                &&& contains(l, "connection closed"@) ==> ssh_failure(stderr).0
                &&& contains(l, "connection reset"@) ==> ssh_failure(stderr).0
                &&& contains(l, "kex_exchange_identification"@) ==> ssh_failure(stderr).0
                &&& contains(l, "banner exchange"@) ==> ssh_failure(stderr).0
                &&& contains(l, "operation timed out"@) ==> ssh_failure(stderr).0
            }
        }),
        ({
            let l = lower_seq(trim(stderr));
            contains(l, "permission denied"@) || contains(l, "host key verification failed"@)
                ==> !ssh_failure(stderr).0
        }),
        ({
            let l = lower_seq(trim(stderr));
            !contains(l, "timed out"@) && !contains(l, "no route to host"@) && !contains(
                l,
                "name or service not known"@,
            ) && !contains(l, "connection refused"@) && !contains(
                l,
                "could not resolve hostname"@,
            ) && !contains(l, "connection closed"@) && !contains(l, "connection reset"@)
                && !contains(l, "kex_exchange_identification"@) && !contains(l, "banner exchange"@)
                && !contains(l, "operation timed out"@) ==> !ssh_failure(stderr).0
        }),
{
}

} // verus!

verus! {

proof fn lemma_flush_has(hosts: Seq<EntryView>, aliases: Seq<Seq<char>>, host_name: Option<Seq<char>>, a: Seq<char>)
    requires
        has_alias(hosts, a) || aliases.contains(a),
    ensures
        has_alias(flush(hosts, aliases, host_name), a),
    decreases aliases.len(),
{
    if aliases.len() > 0 {
        let next = if has_alias(hosts, aliases[0]) {
            hosts
        } else {
            hosts.push((aliases[0], host_name))
        };
        if has_alias(hosts, a) {
            let j = choose|j: int| 0 <= j < hosts.len() && hosts[j].0 == a;
            assert(next[j].0 == a);
        } else if aliases[0] == a {
            if !has_alias(hosts, a) {
                assert(next[hosts.len() as int].0 == a);
            }
        } else {
            let i = choose|i: int| 0 <= i < aliases.len() && aliases[i] == a;
            assert(aliases.drop_first()[i - 1] == a);
        }
        lemma_flush_has(next, aliases.drop_first(), host_name, a);
    }
}

proof fn lemma_scan_line_keeps(st: ScanState, line: Seq<char>, a: Seq<char>)
    requires
        has_alias(st.0, a) || st.1.contains(a),
    ensures
        has_alias(scan_line(st, line).0, a) || scan_line(st, line).1.contains(a),
{
    let parts = words(trim(before_hash(line)));
    if parts.len() >= 2 && eq_ignore_case(parts[0], "host"@) {
        lemma_flush_has(st.0, st.1, st.2, a);
    }
}

proof fn lemma_scan_take_step(ls: Seq<Seq<char>>, k: int)
    requires
        0 <= k < ls.len(),
    ensures
        scan_lines(ls.take(k + 1)) == scan_line(scan_lines(ls.take(k)), ls[k]),
{
    assert(ls.take(k + 1).drop_last() =~= ls.take(k));
    assert(ls.take(k + 1).last() == ls[k]);
}

proof fn lemma_scan_persists(ls: Seq<Seq<char>>, j: int, k: int, a: Seq<char>)
    requires
        0 <= j <= k <= ls.len(),
        has_alias(scan_lines(ls.take(j)).0, a) || scan_lines(ls.take(j)).1.contains(a),
    ensures
        has_alias(scan_lines(ls.take(k)).0, a) || scan_lines(ls.take(k)).1.contains(a),
    decreases k - j,
{
    if k > j {
        lemma_scan_persists(ls, j, k - 1, a);
        lemma_scan_take_step(ls, k - 1);
        lemma_scan_line_keeps(scan_lines(ls.take(k - 1)), ls[k - 1], a);
    }
}

proof fn lemma_explicit_only_has(ws: Seq<Seq<char>>, w: Seq<char>)
    requires
        ws.contains(w),
        explicit_alias(w),
    ensures
        explicit_only(ws).contains(w),
    decreases ws.len(),
{
    if ws.last() == w {
        assert(explicit_only(ws).last() == w);
    } else {
        let i = choose|i: int| 0 <= i < ws.len() && ws[i] == w;
        assert(ws.drop_last()[i] == w);
        lemma_explicit_only_has(ws.drop_last(), w);
        let e = explicit_only(ws.drop_last());
        let k = choose|k: int| 0 <= k < e.len() && e[k] == w;
        if explicit_alias(ws.last()) {
            assert(explicit_only(ws)[k] == w);
        }
    }
}

/// Every word after `Host` on a `Host` line of the SSH configuration (comments aside) that is
/// not empty, holds no `*` and no `?`, and does not start with `!` is the alias of one of the
/// hosts read from it.
pub proof fn lemma_explicit_aliases_listed(raw: Seq<char>, i: int, w: Seq<char>)
    requires
        0 <= i < lines(raw).len(),
        words(trim(before_hash(lines(raw)[i]))).len() >= 2,
        eq_ignore_case(words(trim(before_hash(lines(raw)[i])))[0], "host"@),
        words(trim(before_hash(lines(raw)[i]))).drop_first().contains(w),
        w.len() > 0,
        !w.contains('*'),
        !w.contains('?'),
        w[0] != '!',
    ensures
        exists|k: int| 0 <= k < ssh_hosts(raw).len() && ssh_hosts(raw)[k].0 == w,
{
    let ls = lines(raw);
    let parts = words(trim(before_hash(ls[i])));
    assert(!has_char(w, '*')) by {
        if has_char(w, '*') {
            let j = choose|j: int| 0 <= j < w.len() && w[j] == '*';
            assert(w.contains('*'));
        }
    }
    assert(!has_char(w, '?')) by {
        if has_char(w, '?') {
            let j = choose|j: int| 0 <= j < w.len() && w[j] == '?';
            assert(w.contains('?'));
        }
    }
    assert(explicit_alias(w));
    lemma_explicit_only_has(parts.drop_first(), w);
    lemma_scan_take_step(ls, i);
    assert(scan_lines(ls.take(i + 1)).1 == explicit_only(parts.drop_first()));
    lemma_scan_persists(ls, i + 1, ls.len() as int, w);
    assert(ls.take(ls.len() as int) =~= ls);
    let st = scan_lines(ls);
    assert(has_alias(st.0, w) || st.1.contains(w));
    lemma_flush_has(st.0, st.1, st.2, w);
    assert(ssh_hosts(raw) == flush(st.0, st.1, st.2));
    assert(has_alias(ssh_hosts(raw), w));
}

/// Every host read from the SSH configuration has an alias that is not empty, holds no `*`
/// and no `?`, and does not start with `!`.
pub proof fn lemma_listed_aliases_explicit(raw: Seq<char>, k: int)
    requires
        0 <= k < ssh_hosts(raw).len(),
    ensures
        ssh_hosts(raw)[k].0.len() > 0,
        !ssh_hosts(raw)[k].0.contains('*'),
        !ssh_hosts(raw)[k].0.contains('?'),
        ssh_hosts(raw)[k].0[0] != '!',
{
    lemma_ssh_hosts_distinct_and_explicit(raw);
    let a = ssh_hosts(raw)[k].0;
    assert(explicit_alias(a));
    if a.contains('*') {
        let j = choose|j: int| 0 <= j < a.len() && a[j] == '*';
        assert(has_char(a, '*'));
    }
    if a.contains('?') {
        let j = choose|j: int| 0 <= j < a.len() && a[j] == '?';
        assert(has_char(a, '?'));
    }
}

} // verus!

verus! {

proof fn lemma_last_nonblank_found(ls: Seq<Seq<char>>)
    ensures
        match last_nonblank(ls) {
            None => forall|i: int| 0 <= i < ls.len() ==> (#[trigger] trim(ls[i])).len() == 0,
            Some(l) => exists|i: int|
                0 <= i < ls.len() && l == trim(ls[i]) && l.len() > 0 && (forall|j: int|
                    i < j < ls.len() ==> (#[trigger] trim(ls[j])).len() == 0),
        },
    decreases ls.len(),
{
    if ls.len() > 0 {
        let n = ls.len() - 1;
        if trim(ls.last()).len() == 0 {
            lemma_last_nonblank_found(ls.drop_last());
            match last_nonblank(ls.drop_last()) {
                None => {
                    assert forall|i: int| 0 <= i < ls.len() implies (#[trigger] trim(ls[i])).len() == 0 by {
                        if i < n {
                            assert(ls.drop_last()[i] == ls[i]);
                        }
                    }
                },
                Some(l) => {
                    let i = choose|i: int|
                        0 <= i < ls.drop_last().len() && l == trim(ls.drop_last()[i]) && l.len() > 0
                            && (forall|j: int|
                            i < j < ls.drop_last().len() ==> (#[trigger] trim(ls.drop_last()[j])).len()
                                == 0);
                    assert(ls.drop_last()[i] == ls[i]);
                    assert forall|j: int| i < j < ls.len() implies (#[trigger] trim(ls[j])).len() == 0 by {
                        if j < n {
                            assert(ls.drop_last()[j] == ls[j]);
                        }
                    }
                },
            }
        } else {
            assert(ls.last() == ls[n]);
        }
    }
}

/// The message of a failed run is the last line of its error output that is not blank,
/// trimmed; when every line is blank it is the fallback.
pub proof fn lemma_compact_error_is_last_nonblank_line(stderr: Seq<char>, fallback: Seq<char>)
    ensures
        (forall|i: int| 0 <= i < lines(stderr).len() ==> (#[trigger] trim(lines(stderr)[i])).len() == 0)
            ==> compact_error(stderr, fallback) == fallback,
        (exists|i: int| 0 <= i < lines(stderr).len() && (#[trigger] trim(lines(stderr)[i])).len() > 0)
            ==> exists|i: int|
            0 <= i < lines(stderr).len() && compact_error(stderr, fallback) == trim(lines(stderr)[i])
                && trim(lines(stderr)[i]).len() > 0 && (forall|j: int|
                i < j < lines(stderr).len() ==> (#[trigger] trim(lines(stderr)[j])).len() == 0),
{
    lemma_last_nonblank_found(lines(stderr));
    if last_nonblank(lines(stderr)) is None {
        if exists|i: int| 0 <= i < lines(stderr).len() && (#[trigger] trim(lines(stderr)[i])).len() > 0 {
            let i = choose|i: int| 0 <= i < lines(stderr).len() && (#[trigger] trim(lines(stderr)[i])).len() > 0;
            assert(trim(lines(stderr)[i]).len() == 0);
        }
    } else {
        if forall|i: int| 0 <= i < lines(stderr).len() ==> (#[trigger] trim(lines(stderr)[i])).len() == 0 {
            let l = last_nonblank(lines(stderr))->0;
            let i = choose|i: int|
                0 <= i < lines(stderr).len() && l == trim(lines(stderr)[i]) && l.len() > 0 && (forall|j: int|
                    i < j < lines(stderr).len() ==> (#[trigger] trim(lines(stderr)[j])).len() == 0);
            assert(trim(lines(stderr)[i]).len() == 0);
        }
    }
}

} // verus!
