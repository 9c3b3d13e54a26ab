//! What the screen shows, as text and colours: labels, truncation and padding, the host list
//! cards, the disk and container lines, and the layout sizes that depend on the data.
use vstd::prelude::*;
use crate::config::KeyBindings;
use crate::model::{DockerContainerInfo, HostStatus, HostType};
use crate::text::{
    chars_of, slice_vec, contains, contains_chars, decimal, decimal_chars, lower_seq, lowercased, push_char,
    is_ws, starts_with, starts_with_chars, string_of, trim, trimmed,
};
use crate::theme::{Palette, Rgb, Severity};

verus! {

/// The label of a host type.
pub fn host_type_label(host_type: HostType) -> (s: &'static str)
    ensures
        host_type == HostType::Local ==> s@ == "local"@,
        host_type == HostType::Remote ==> s@ == "remote"@,
{
    match host_type {
        HostType::Local => "local",
        HostType::Remote => "remote",
    }
}

/// The label of a host status.
pub open spec fn status_label(status: HostStatus) -> Seq<char> {
    match status {
        HostStatus::Online => "online"@,
        HostStatus::Loading => "loading"@,
        HostStatus::Unreachable => "unreachable"@,
        HostStatus::Error => "error"@,
    }
}

pub fn host_status_label(status: HostStatus) -> (s: &'static str)
    ensures
        s@ == status_label(status),
{
    match status {
        HostStatus::Online => "online",
        HostStatus::Loading => "loading",
        HostStatus::Unreachable => "unreachable",
        HostStatus::Error => "error",
    }
}

/// `n` copies of `c`.
pub open spec fn repeat_char(c: char, n: nat) -> Seq<char> {
    Seq::new(n, |i: int| c)
}

/// At most `max` characters of `v`: `v` itself if it fits, else its beginning followed by `...`
/// (only dots when `max` is 3 or less).
pub open spec fn truncated(v: Seq<char>, max: nat) -> Seq<char> {
    if v.len() <= max {
        v
    } else if max <= 3 {
        repeat_char('.', max)
    } else {
        v.take(max - 3) + "..."@
    }
}

/// `v` followed by spaces up to `width` characters (`format!("{:<width$}")`).
pub open spec fn padded(v: Seq<char>, width: nat) -> Seq<char> {
    if v.len() >= width {
        v
    } else {
        v + repeat_char(' ', (width - v.len()) as nat)
    }
}

fn push_repeat(s: &mut String, c: char, n: usize)
    ensures
        final(s)@ == old(s)@ + repeat_char(c, n as nat),
{
    let mut i: usize = 0;
    while i < n
        invariant
            i <= n,
            s@ == old(s)@ + repeat_char(c, i as nat),
        decreases n - i,
    {
        push_char(s, c);
        i += 1;
        assert(s@ =~= old(s)@ + repeat_char(c, i as nat));
    }
}

/// `value` cut to at most `max_chars` characters, ending in `...` when cut.
pub fn truncate_text(value: &str, max_chars: usize) -> (s: String)
    ensures
        s@ == truncated(value@, max_chars as nat),
{
    let chars = chars_of(value);
    if chars.len() <= max_chars {
        return String::from_str(value);
    }
    if max_chars <= 3 {
        let mut s = String::new();
        push_repeat(&mut s, '.', max_chars);
        assert(s@ =~= repeat_char('.', max_chars as nat));
        return s;
    }
    let head = slice_vec(&chars, 0, max_chars - 3);
    let mut s = string_of(head.as_slice());
    s.append("...");
    s
}

/// `value` cut to `width` characters, or padded with spaces to `width`.
pub fn pad_or_truncate(value: &str, width: usize) -> (s: String)
    ensures
        s@ == padded(truncated(value@, width as nat), width as nat),
{
    let mut s = truncate_text(value, width);
    let n = chars_of(s.as_str()).len();
    if n < width {
        push_repeat(&mut s, ' ', width - n);
    }
    s
}

/// `value` trimmed, or `fallback` when nothing is left.
pub open spec fn fallback_of(value: Seq<char>, fallback: Seq<char>) -> Seq<char> {
    if trim(value).len() == 0 {
        fallback
    } else {
        trim(value)
    }
}

pub fn fallback_text(value: &str, fallback: &str) -> (s: String)
    ensures
        s@ == fallback_of(value@, fallback@),
{
    let t = trimmed(&chars_of(value));
    if t.len() == 0 {
        String::from_str(fallback)
    } else {
        string_of(t.as_slice())
    }
}

/// A disk's label: its name, or its mount point when it has no name.
pub fn disk_label(name: &str, mount_point: &str) -> (s: String)
    ensures
        s@ == if name@.len() == 0 {
            mount_point@
        } else {
            name@
        },
{
    if chars_of(name).len() == 0 {
        String::from_str(mount_point)
    } else {
        String::from_str(name)
    }
}

} // verus!

verus! {

/// The state of a left-to-right split at commas: finished non-empty parts and the part being read.
pub open spec fn comma_state(s: Seq<char>) -> (Seq<Seq<char>>, Seq<char>)
    decreases s.len(),
{
    if s.len() == 0 {
        (Seq::empty(), Seq::empty())
    } else {
        let (ps, cur) = comma_state(s.drop_last());
        if s.last() == ',' {
            if cur.len() > 0 {
                (ps.push(cur), Seq::empty())
            } else {
                (ps, cur)
            }
        } else {
            (ps, cur.push(s.last()))
        }
    }
}

/// The non-empty comma-separated parts of a mount point list, in order.
pub open spec fn mount_points(s: Seq<char>) -> Seq<Seq<char>> {
    let (ps, cur) = comma_state(s);
    if cur.len() > 0 {
        ps.push(cur)
    } else {
        ps
    }
}

/// What follows a disk line: nothing without mount points; one or two are shown; of more,
/// the root `/` with the count of the others, or else the first two with the count of the rest.
pub open spec fn mount_suffix(mount_point: Seq<char>) -> Seq<char> {
    let ps = mount_points(mount_point);
    if ps.len() == 0 {
        Seq::empty()
    } else if ps.len() == 1 {
        "  "@ + ps[0]
    } else if ps.len() == 2 {
        "  "@ + ps[0] + ","@ + ps[1]
    } else if ps.contains("/"@) {
        "  / +"@ + decimal((ps.len() - 1) as nat)
    } else {
        "  "@ + ps[0] + ","@ + ps[1] + " +"@ + decimal((ps.len() - 2) as nat)
    }
}

fn split_mount_points(v: &Vec<char>) -> (r: Vec<Vec<char>>)
    ensures
        r@.map_values(|w: Vec<char>| w@) == mount_points(v@),
{
    let mut ps: Vec<Vec<char>> = Vec::new();
    let mut cur: Vec<char> = Vec::new();
    let mut i: usize = 0;
    while i < v.len()
        invariant
            i <= v@.len(),
            (ps@.map_values(|w: Vec<char>| w@), cur@) == comma_state(v@.take(i as int)),
        decreases v@.len() - i,
    {
        let c = v[i];
        assert(v@.take(i + 1).drop_last() =~= v@.take(i as int));
        let ghost old_ps = ps@.map_values(|w: Vec<char>| w@);
        if c == ',' {
            if cur.len() > 0 {
                let done = cur;
                let ghost d = done@;
                cur = Vec::new();
                ps.push(done);
                assert(ps@.map_values(|w: Vec<char>| w@) =~= old_ps.push(d));
            }
        } else {
            cur.push(c);
        }
        i += 1;
    }
    assert(v@.take(v@.len() as int) =~= v@);
    if cur.len() > 0 {
        let ghost old_ps = ps@.map_values(|w: Vec<char>| w@);
        let ghost d = cur@;
        ps.push(cur);
        assert(ps@.map_values(|w: Vec<char>| w@) =~= old_ps.push(d));
    }
    ps
}

fn append_chars(s: &mut String, v: &Vec<char>)
    ensures
        final(s)@ == old(s)@ + v@,
{
    let mut i: usize = 0;
    while i < v.len()
        invariant
            i <= v@.len(),
            s@ == old(s)@ + v@.take(i as int),
        decreases v@.len() - i,
    {
        push_char(s, v[i]);
        i += 1;
        assert(s@ =~= old(s)@ + v@.take(i as int));
    }
    assert(v@.take(v@.len() as int) =~= v@);
}

fn append_decimal(s: &mut String, n: usize)
    ensures
        final(s)@ == old(s)@ + decimal(n as nat),
{
    let d = decimal_chars(n as u64);
    append_chars(s, &d);
}

/// The mount points of a disk as shown after its figures.
pub fn disk_mount_suffix(mount_point: &str) -> (s: String)
    ensures
        s@ == mount_suffix(mount_point@),
{
    let ps = split_mount_points(&chars_of(mount_point));
    let ghost pv = ps@.map_values(|w: Vec<char>| w@);
    let n = ps.len();
    if n == 0 {
        return String::new();
    }
    assert(pv[0] == ps@[0]@);
    let mut s = String::from_str("  ");
    if n == 1 {
        append_chars(&mut s, &ps[0]);
        return s;
    }
    assert(pv[1] == ps@[1]@);
    if n == 2 {
        append_chars(&mut s, &ps[0]);
        s.append(",");
        append_chars(&mut s, &ps[1]);
        return s;
    }
    let root = chars_of("/");
    let mut i: usize = 0;
    let mut has_root = false;
    while i < n
        invariant
            i <= n,
            n == ps@.len(),
            pv == ps@.map_values(|w: Vec<char>| w@),
            root@ == "/"@,
            has_root == exists|k: int| 0 <= k < i && pv[k] == "/"@,
        decreases n - i,
    {
        if ps[i].len() == 1 && ps[i][0] == '/' {
            proof {
                reveal_strlit("/");
                assert(ps@[i as int]@ =~= "/"@);
                assert(pv[i as int] == "/"@);
            }
            has_root = true;
        } else {
            proof {
                reveal_strlit("/");
                if ps@[i as int]@ == "/"@ {
                    assert(ps@[i as int]@[0] == '/');
                }
                assert(pv[i as int] != "/"@);
                if exists|k: int| 0 <= k < i + 1 && pv[k] == "/"@ {
                    let k = choose|k: int| 0 <= k < i + 1 && pv[k] == "/"@;
                    assert(k < i);
                }
            }
        }
        i += 1;
    }
    if has_root {
        let mut t = String::from_str("  / +");
        append_decimal(&mut t, n - 1);
        return t;
    }
    assert(!pv.contains("/"@));
    append_chars(&mut s, &ps[0]);
    s.append(",");
    append_chars(&mut s, &ps[1]);
    s.append(" +");
    append_decimal(&mut s, n - 2);
    s
}

} // verus!

verus! {

/// A container status that needs attention: restarting, unhealthy, dead, paused or being removed
/// (ASCII case ignored).
pub open spec fn problem_status(status: Seq<char>) -> bool {
    let l = lower_seq(status);
    ||| contains(l, "restarting"@)
    ||| contains(l, "unhealthy"@)
    ||| contains(l, "dead"@)
    ||| contains(l, "paused"@)
    ||| contains(l, "removing"@)
}

fn mentions(hay: &Vec<char>, needle: &str) -> (b: bool)
    ensures
        b == contains(hay@, needle@),
{
    contains_chars(hay, &chars_of(needle))
}

/// The container needs attention.
pub fn docker_container_is_problem(container: &DockerContainerInfo) -> (b: bool)
    ensures
        b == problem_status(container.status@),
{
    let l = lowercased(&chars_of(container.status.as_str()));
    mentions(&l, "restarting") || mentions(&l, "unhealthy") || mentions(&l, "dead") || mentions(
        &l,
        "paused",
    ) || mentions(&l, "removing")
}

/// A healthy or running container status.
pub open spec fn good_status(status: Seq<char>) -> bool {
    let l = lower_seq(status);
    contains(l, "healthy"@) || starts_with(l, "up "@) || l == "up"@
}

/// The colour of a container's status: red when it needs attention, green when healthy or
/// up, yellow otherwise.
pub fn docker_status_color(container: &DockerContainerInfo, palette: &Palette) -> (c: Rgb)
    ensures
        c == if problem_status(container.status@) {
            palette.red
        } else if good_status(container.status@) {
            palette.green
        } else {
            palette.yellow
        },
{
    let l = lowercased(&chars_of(container.status.as_str()));
    if docker_container_is_problem(container) {
        palette.red
    } else if mentions(&l, "healthy") || starts_with_chars(&l, &chars_of("up ")) || is_exactly(
        &l,
        "up",
    ) {
        proof {
            if l@.len() == "up"@.len() && starts_with(l@, "up"@) {
                assert(l@ =~= "up"@.take("up"@.len() as int));
                assert("up"@.take("up"@.len() as int) =~= "up"@);
            }
        }
        palette.green
    } else {
        proof {
            if l@ == "up"@ {
                assert(l@.take("up"@.len() as int) =~= "up"@);
            }
        }
        palette.yellow
    }
}

fn is_exactly(v: &Vec<char>, word: &str) -> (b: bool)
    ensures
        b == (v@.len() == word@.len() && starts_with(v@, word@)),
{
    let w = chars_of(word);
    v.len() == w.len() && starts_with_chars(v, &w)
}

/// Some container needs attention, or the containers could not be listed.
pub fn host_has_problem_docker(docker_error: bool, containers: &Vec<DockerContainerInfo>) -> (b: bool)
    ensures
        b == (docker_error || exists|i: int|
            0 <= i < containers@.len() && problem_status(#[trigger] containers@[i].status@)),
{
    if docker_error {
        return true;
    }
    let mut i: usize = 0;
    while i < containers.len()
        invariant
            i <= containers@.len(),
            forall|k: int| 0 <= k < i ==> !problem_status(#[trigger] containers@[k].status@),
        decreases containers@.len() - i,
    {
        if docker_container_is_problem(&containers[i]) {
            return true;
        }
        i += 1;
    }
    false
}

/// The header cells of the container table: `IMAGE`, `CREATED` and `STATUS`, each fitted to
/// its column.
pub fn docker_header_cells(image_width: usize, created_width: usize, status_width: usize) -> (cells: (
    String,
    String,
    String,
))
    ensures
        cells.0@ == padded(truncated("IMAGE"@, image_width as nat), image_width as nat),
        cells.1@ == padded(truncated("CREATED"@, created_width as nat), created_width as nat),
        cells.2@ == padded(truncated("STATUS"@, status_width as nat), status_width as nat),
{
    (
        pad_or_truncate("IMAGE", image_width),
        pad_or_truncate("CREATED", created_width),
        pad_or_truncate("STATUS", status_width),
    )
}

/// The cells of a container's row: its image (at most 35 characters), its creation time and its
/// status, each `-` when blank, each fitted to its column.
pub fn docker_container_cells(
    container: &DockerContainerInfo,
    image_width: usize,
    created_width: usize,
    status_width: usize,
) -> (cells: (String, String, String))
    ensures
        cells.0@ == padded(
            truncated(truncated(fallback_of(container.image@, "-"@), 35), image_width as nat),
            image_width as nat,
        ),
        cells.1@ == padded(
            truncated(fallback_of(container.created@, "-"@), created_width as nat),
            created_width as nat,
        ),
        cells.2@ == padded(
            truncated(fallback_of(container.status@, "-"@), status_width as nat),
            status_width as nat,
        ),
{
    let image = truncate_text(fallback_text(container.image.as_str(), "-").as_str(), 35);
    let created = fallback_text(container.created.as_str(), "-");
    let status = fallback_text(container.status.as_str(), "-");
    (
        pad_or_truncate(image.as_str(), image_width),
        pad_or_truncate(created.as_str(), created_width),
        pad_or_truncate(status.as_str(), status_width),
    )
}

/// `x` brought into `lo..=hi` (`Ord::clamp`).
pub open spec fn clamp_to(x: int, lo: int, hi: int) -> int {
    if x < lo {
        lo
    } else if x > hi {
        hi
    } else {
        x
    }
}

/// `a - b`, or 0 when `b` is larger.
pub open spec fn sat_sub(a: int, b: int) -> int {
    if a >= b {
        a - b
    } else {
        0
    }
}

pub open spec fn max_of(a: int, b: int) -> int {
    if a >= b {
        a
    } else {
        b
    }
}

/// The widths of the image, created and status columns of the container table for a panel
/// `inner_width` wide: fixed widths when narrow, else shares of 48% and 18% within bounds with
/// the rest, at least 12, for the status.
pub open spec fn column_widths(inner_width: int) -> (int, int, int) {
    let total = sat_sub(sat_sub(inner_width, 2), 2);
    if total <= 24 {
        (10, 6, max_of(sat_sub(total, 16), 8))
    } else {
        let image = clamp_to(total * 48 / 100, 16, 36);
        let created = clamp_to(total * 18 / 100, 10, 14);
        (image, created, max_of(sat_sub(total, image + created), 12))
    }
}

pub fn docker_column_widths(inner_width: usize) -> (w: (usize, usize, usize))
    requires
        sat_sub(sat_sub(inner_width as int, 2), 2) * 48 <= usize::MAX,
    ensures
        (w.0 as int, w.1 as int, w.2 as int) == column_widths(inner_width as int),
{
    let content_width = inner_width.saturating_sub(2);
    let total_width = content_width.saturating_sub(2);
    if total_width <= 24 {
        let rest = total_width.saturating_sub(16);
        return (10, 6, if rest >= 8 { rest } else { 8 });
    }
    let image = total_width * 48 / 100;
    let image = if image < 16 {
        16
    } else if image > 36 {
        36
    } else {
        image
    };
    let created = total_width * 18 / 100;
    let created = if created < 10 {
        10
    } else if created > 14 {
        14
    } else {
        created
    };
    let status = total_width.saturating_sub(image + created);
    (image, created, if status >= 12 { status } else { 12 })
}

/// When the table is wide enough, the three columns fill it exactly.
pub proof fn lemma_columns_fill_width(inner_width: int)
    requires
        inner_width >= 4,
        sat_sub(inner_width - 4, column_widths(inner_width).0 + column_widths(inner_width).1)
            >= 12,
    ensures
        column_widths(inner_width).0 + column_widths(inner_width).1 + column_widths(inner_width).2
            == inner_width - 4,
{
}

/// Two-digit decimal for `n < 100` (`{:02}`).
pub open spec fn two_digits(n: nat) -> Seq<char> {
    if n < 10 {
        seq!['0'] + decimal(n)
    } else {
        decimal(n)
    }
}

fn push_two_digits(s: &mut String, n: u64)
    requires
        n < 100,
    ensures
        final(s)@ == old(s)@ + two_digits(n as nat),
{
    if n < 10 {
        push_char(s, '0');
        let ghost mid = s@;
        append_decimal(s, n as usize);
        assert(s@ =~= old(s)@ + two_digits(n as nat));
    } else {
        append_decimal(s, n as usize);
    }
}

/// The time of day, in UTC, of a moment `secs` seconds after the Unix epoch, as `HH:MM:SS`.
pub open spec fn clock_text(secs: u64) -> Seq<char> {
    let t = secs % 86_400;
    two_digits((t / 3_600) as nat) + ":"@ + two_digits(((t % 3_600) / 60) as nat) + ":"@
        + two_digits((t % 60) as nat)
}

/// The time of day of a timestamp given as whole seconds after the Unix epoch; `invalid` for a
/// moment before the epoch (`None`).
pub fn format_timestamp(secs_since_epoch: Option<u64>) -> (s: String)
    ensures
        s@ == match secs_since_epoch {
            Some(secs) => clock_text(secs),
            None => "invalid"@,
        },
{
    match secs_since_epoch {
        None => String::from_str("invalid"),
        Some(secs) => {
            let total = secs % 86_400;
            let hours = total / 3_600;
            let minutes = (total % 3_600) / 60;
            let seconds = total % 60;
            let mut s = String::new();
            push_two_digits(&mut s, hours);
            s.append(":");
            push_two_digits(&mut s, minutes);
            s.append(":");
            push_two_digits(&mut s, seconds);
            s
        },
    }
}

/// The height of the disk panel: one line per disk (one for the "no disks" line) and the border.
pub fn disk_widget_height(disk_count: usize) -> (h: u16)
    requires
        (if disk_count == 0 { 1 } else { disk_count }) % 65536 <= 65533,
    ensures
        h == (if disk_count == 0 { 1 } else { disk_count }) % 65536 + 2,
{
    let content_lines = if disk_count == 0 {
        1
    } else {
        disk_count
    };
    (content_lines % 65536) as u16 + 2
}

/// The least height of the container panel: a header and one line per container, or one
/// message line, and the border.
pub fn docker_widget_lines(docker_error: bool, container_count: usize) -> (h: u16)
    requires
        docker_error || container_count == 0 || container_count % 65536 <= 65532,
    ensures
        h == if docker_error || container_count == 0 {
            3
        } else {
            container_count % 65536 + 3
        },
{
    if docker_error || container_count == 0 {
        3
    } else {
        (container_count % 65536) as u16 + 3
    }
}

/// The hosts shown in a list `inner_height` lines high, four lines per host: a window around
/// the selected host, kept within the list.
pub open spec fn list_window(inner_height: nat, selected: nat, count: nat) -> (nat, nat) {
    let visible = max_of(inner_height as int, 4) / 4;
    let start = sat_sub(selected as int, visible / 2);
    let end = if start + visible <= count {
        start + visible
    } else {
        count as int
    };
    (sat_sub(end, visible) as nat, end as nat)
}

pub fn host_list_window(inner_height: u16, selected_index: usize, host_count: usize) -> (w: (usize, usize))
    requires
        sat_sub(selected_index as int, max_of(inner_height as int, 4) / 4 / 2) + max_of(
            inner_height as int,
            4,
        ) / 4 <= usize::MAX,
    ensures
        (w.0 as nat, w.1 as nat) == list_window(inner_height as nat, selected_index as nat, host_count as nat),
{
    let h = inner_height as usize;
    let visible = (if h >= 4 { h } else { 4 }) / 4;
    let start = selected_index.saturating_sub(visible / 2);
    let end = if start + visible <= host_count {
        start + visible
    } else {
        host_count
    };
    (end.saturating_sub(visible), end)
}

/// The selected host always lies in the window, which holds at most as many hosts as fit and
/// ends within the list.
pub proof fn lemma_window_shows_selected(inner_height: nat, selected: nat, count: nat)
    requires
        selected < count,
    ensures
        list_window(inner_height, selected, count).0 <= selected < list_window(inner_height, selected, count).1,
        list_window(inner_height, selected, count).1 <= count,
        list_window(inner_height, selected, count).1 - list_window(inner_height, selected, count).0
            <= max_of(inner_height as int, 4) / 4,
{
}

/// Data counts as stale when its age is unknown (no measurement yet, or taken after now) or
/// greater than the timeout.
pub fn is_stale(age_ns: Option<u128>, stale_data_timeout_ms: u64) -> (b: bool)
    ensures
        b == match age_ns {
            None => true,
            Some(a) => a > stale_data_timeout_ms as int * 1_000_000,
        },
{
    match age_ns {
        None => true,
        Some(a) => a > (stale_data_timeout_ms as u128) * 1_000_000,
    }
}

} // verus!

verus! {

/// The border colour of the host panel: sapphire online, yellow while loading, red otherwise.
pub fn status_border_color(palette: &Palette, status: HostStatus) -> (c: Rgb)
    ensures
        c == match status {
            HostStatus::Online => palette.sapphire,
            HostStatus::Loading => palette.yellow,
            _ => palette.red,
        },
{
    match status {
        HostStatus::Online => palette.sapphire,
        HostStatus::Loading => palette.yellow,
        _ => palette.red,
    }
}

/// The colour of a host's name in the list: red when it cannot be measured or a container
/// needs attention, yellow while loading, else the colour of its temperature level if known,
/// else green.
pub fn host_list_name_color(
    palette: &Palette,
    status: HostStatus,
    problem_docker: bool,
    temperature: Option<Severity>,
) -> (c: Rgb)
    ensures
        c == match status {
            HostStatus::Unreachable | HostStatus::Error => palette.red,
            HostStatus::Loading => palette.yellow,
            HostStatus::Online => if problem_docker {
                palette.red
            } else {
                match temperature {
                    Some(Severity::Critical) => palette.red,
                    Some(Severity::Warning) => palette.yellow,
                    Some(Severity::Normal) => palette.green,
                    None => palette.green,
                }
            },
        },
{
    match status {
        HostStatus::Unreachable | HostStatus::Error => palette.red,
        HostStatus::Loading => palette.yellow,
        HostStatus::Online => {
            if problem_docker {
                return palette.red;
            }
            match temperature {
                Some(t) => palette.severity_color(t),
                None => palette.green,
            }
        },
    }
}

/// The colour of a host's summary line in the list.
pub fn host_list_detail_color(palette: &Palette, status: HostStatus, problem_docker: bool) -> (c: Rgb)
    ensures
        c == match status {
            HostStatus::Unreachable | HostStatus::Error => palette.red,
            HostStatus::Loading => palette.yellow,
            HostStatus::Online => if problem_docker {
                palette.red
            } else {
                palette.subtext
            },
        },
{
    match status {
        HostStatus::Unreachable | HostStatus::Error => palette.red,
        HostStatus::Loading => palette.yellow,
        HostStatus::Online => if problem_docker {
            palette.red
        } else {
            palette.subtext
        },
    }
}

/// The level the CPU gauge is drawn at: the higher of the usage level and the temperature
/// level, if the temperature is known.
pub fn cpu_gauge_severity(usage: Severity, temperature: Option<Severity>) -> (s: Severity)
    ensures
        crate::theme::level(s) == match temperature {
            Some(t) => max_of(crate::theme::level(usage) as int, crate::theme::level(t) as int),
            None => crate::theme::level(usage) as int,
        },
{
    match temperature {
        Some(t) => usage.higher(t),
        None => usage,
    }
}

/// The title of a host panel: `name | type | status`.
pub fn host_column_title(display_name: &str, host_type: HostType, status: HostStatus) -> (s: String)
    ensures
        s@ == display_name@ + " | "@ + host_type_label_spec(host_type) + " | "@ + status_label(
            status,
        ),
{
    let mut s = String::from_str(display_name);
    s.append(" | ");
    s.append(host_type_label(host_type));
    s.append(" | ");
    s.append(host_status_label(status));
    s
}

pub open spec fn host_type_label_spec(host_type: HostType) -> Seq<char> {
    match host_type {
        HostType::Local => "local"@,
        HostType::Remote => "remote"@,
    }
}

/// The position shown in the header: ` <selected + 1>/<number of hosts, at least 1>`.
pub fn header_position(selected_index: usize, host_count: usize) -> (s: String)
    requires
        selected_index < usize::MAX,
    ensures
        s@ == " "@ + decimal((selected_index + 1) as nat) + "/"@ + decimal(
            if host_count >= 1 {
                host_count as nat
            } else {
                1
            },
        ),
{
    let mut s = String::from_str(" ");
    append_decimal(&mut s, selected_index + 1);
    s.append("/");
    append_decimal(&mut s, if host_count >= 1 { host_count } else { 1 });
    s
}

/// The key hints at the bottom of the screen.
pub fn footer_hints(keys: &KeyBindings) -> (s: String)
    ensures
        s@ == keys.prev_page@ + " / Up / Left prev  "@ + keys.next_page@ + " / Down / Right next  "@
            + keys.refresh@ + " refresh  "@ + keys.help@ + " help  "@ + keys.quit@ + " quit"@,
{
    let mut s = String::from_str(keys.prev_page.as_str());
    s.append(" / Up / Left prev  ");
    s.append(keys.next_page.as_str());
    s.append(" / Down / Right next  ");
    s.append(keys.refresh.as_str());
    s.append(" refresh  ");
    s.append(keys.help.as_str());
    s.append(" help  ");
    s.append(keys.quit.as_str());
    s.append(" quit");
    s
}

/// The lines of the help overlay.
pub fn help_lines(keys: &KeyBindings) -> (lines: Vec<String>)
    ensures
        lines@.len() == 8,
        lines@[0]@ == "Navigation"@,
        lines@[1]@ == keys.prev_page@ + " / Up / Left  previous host"@,
        lines@[2]@ == keys.next_page@ + " / Down / Right  next host"@,
        lines@[3]@ == keys.refresh@ + "  refresh metrics"@,
        lines@[4]@ == keys.help@ + "  toggle help"@,
        lines@[5]@ == keys.quit@ + "  quit application"@,
        lines@[6]@ == ""@,
        lines@[7]@ == "Prepared for stage 2: the UI already paginates over a host list."@,
{
    let mut lines: Vec<String> = Vec::new();
    lines.push(String::from_str("Navigation"));
    let mut l = String::from_str(keys.prev_page.as_str());
    l.append(" / Up / Left  previous host");
    lines.push(l);
    let mut l = String::from_str(keys.next_page.as_str());
    l.append(" / Down / Right  next host");
    lines.push(l);
    let mut l = String::from_str(keys.refresh.as_str());
    l.append("  refresh metrics");
    lines.push(l);
    let mut l = String::from_str(keys.help.as_str());
    l.append("  toggle help");
    lines.push(l);
    let mut l = String::from_str(keys.quit.as_str());
    l.append("  quit application");
    lines.push(l);
    lines.push(String::from_str(""));
    lines.push(String::from_str("Prepared for stage 2: the UI already paginates over a host list."));
    lines
}

/// The summary line of a host that is not online: a waiting note while loading, else its
/// last error (or its status), trimmed, `-` when blank. Online hosts have no such line.
pub open spec fn offline_summary_of(status: HostStatus, last_error: Option<Seq<char>>) -> Option<Seq<char>> {
    match status {
        HostStatus::Online => None,
        HostStatus::Loading => Some("waiting for metrics..."@),
        _ => Some(
            fallback_of(
                match last_error {
                    Some(e) => e,
                    None => status_label(status),
                },
                "-"@,
            ),
        ),
    }
}

pub fn offline_summary(status: HostStatus, last_error: &Option<String>) -> (s: Option<String>)
    ensures
        match s {
            Some(x) => offline_summary_of(
                status,
                match last_error {
                    Some(e) => Some(e@),
                    None => None,
                },
            ) == Some(x@),
            None => offline_summary_of(
                status,
                match last_error {
                    Some(e) => Some(e@),
                    None => None,
                },
            ) is None,
        },
{
    match status {
        HostStatus::Online => None,
        HostStatus::Loading => Some(String::from_str("waiting for metrics...")),
        _ => {
            let text = match last_error {
                Some(e) => e.as_str(),
                None => host_status_label(status),
            };
            Some(fallback_text(text, "-"))
        },
    }
}

/// The four text lines of a host's card in the list, `width` characters wide: a top border,
/// the name, the summary, a bottom border; heavy lines for the selected host, light ones otherwise.
pub open spec fn card_lines(display_name: Seq<char>, summary: Seq<char>, selected: bool, width: nat) -> Seq<Seq<char>> {
    let inner = sat_sub(width as int, 2) as nat;
    let (tl, tr, bl, br, h, v) = if selected {
        ('┏', '┓', '┗', '┛', '━', '┃')
    } else {
        ('┌', '┐', '└', '┘', '─', '│')
    };
    let name = truncated(display_name, 28);
    seq![
        seq![tl] + repeat_char(h, inner) + seq![tr],
        seq![v] + padded(truncated(seq![' '] + name, inner), inner) + seq![v],
        seq![v] + padded(truncated(seq![' '] + truncated(summary, sat_sub(inner as int, 1) as nat), inner), inner) + seq![v],
        seq![bl] + repeat_char(h, inner) + seq![br],
    ]
}

fn border_line(left: char, fill: char, right: char, n: usize) -> (s: String)
    ensures
        s@ == seq![left] + repeat_char(fill, n as nat) + seq![right],
{
    let mut s = String::new();
    push_char(&mut s, left);
    push_repeat(&mut s, fill, n);
    push_char(&mut s, right);
    assert(s@ =~= seq![left] + repeat_char(fill, n as nat) + seq![right]);
    s
}

fn boxed_line(side: char, content: &str, width: usize) -> (s: String)
    ensures
        s@ == seq![side] + padded(truncated(content@, width as nat), width as nat) + seq![side],
{
    let mut s = String::new();
    push_char(&mut s, side);
    let body = pad_or_truncate(content, width);
    s.append(body.as_str());
    push_char(&mut s, side);
    assert(s@ =~= seq![side] + padded(truncated(content@, width as nat), width as nat) + seq![side]);
    s
}

fn spaced(text: &str) -> (s: String)
    ensures
        s@ == seq![' '] + text@,
{
    let mut s = String::new();
    push_char(&mut s, ' ');
    s.append(text);
    s
}

/// The text of a host's card in the list.
pub fn host_list_item_lines(display_name: &str, summary: &str, selected: bool, width: usize) -> (lines: Vec<String>)
    ensures
        lines@.len() == 4,
        forall|i: int| 0 <= i < 4 ==> (#[trigger] lines@[i])@ == card_lines(display_name@, summary@, selected, width as nat)[i],
{
    let inner = width.saturating_sub(2);
    let (tl, tr, bl, br, h, v) = if selected {
        ('┏', '┓', '┗', '┛', '━', '┃')
    } else {
        ('┌', '┐', '└', '┘', '─', '│')
    };
    let name = truncate_text(display_name, 28);
    let name_line = spaced(name.as_str());
    let short = truncate_text(summary, inner.saturating_sub(1));
    let summary_line = spaced(short.as_str());
    let l0 = border_line(tl, h, tr, inner);
    let l1 = boxed_line(v, name_line.as_str(), inner);
    let l2 = boxed_line(v, summary_line.as_str(), inner);
    let l3 = border_line(bl, h, br, inner);
    let ghost expect = card_lines(display_name@, summary@, selected, width as nat);
    assert(l0@ == expect[0]);
    assert(l1@ == expect[1]);
    assert(l2@ == expect[2]);
    assert(l3@ == expect[3]);
    let mut lines: Vec<String> = Vec::new();
    lines.push(l0);
    lines.push(l1);
    lines.push(l2);
    lines.push(l3);
    lines
}

} // verus!

verus! {

/// Cutting gives at most `max` characters, and a text that fits is kept as it is.
pub proof fn lemma_truncated_fits(v: Seq<char>, max: nat)
    ensures
        truncated(v, max).len() <= max,
        v.len() <= max ==> truncated(v, max) == v,
{
    reveal_strlit("...");
}

/// Padding after cutting gives exactly `width` characters, and keeps what fits at its start.
pub proof fn lemma_pad_or_truncate_width(v: Seq<char>, width: nat)
    ensures
        padded(truncated(v, width), width).len() == width,
        v.len() <= width ==> padded(truncated(v, width), width).take(v.len() as int) == v,
{
    lemma_truncated_fits(v, width);
    if v.len() <= width {
        assert(padded(v, width).take(v.len() as int) =~= v);
    }
}

/// Every line of a host card is `width` characters wide (for a width of at least 2).
pub proof fn lemma_card_lines_width(display_name: Seq<char>, summary: Seq<char>, selected: bool, width: nat)
    requires
        width >= 2,
    ensures
        forall|i: int| 0 <= i < 4 ==> (#[trigger] card_lines(display_name, summary, selected, width)[i]).len() == width,
{
    let inner = (width - 2) as nat;
    lemma_pad_or_truncate_width(seq![' '] + truncated(display_name, 28), inner);
    lemma_pad_or_truncate_width(seq![' '] + truncated(summary, sat_sub(inner as int, 1) as nat), inner);
}

} // verus!

verus! {

/// `b` as its leading 53 binary digits `m` times a power of two `p`; `p` is 1 when `b` has no
/// more than 53 binary digits.
pub open spec fn leading_digits(b: nat) -> (nat, nat)
    decreases b,
{
    if b < 0x20_0000_0000_0000 {
        (b, 1)
    } else {
        let (m, p) = leading_digits(b / 2);
        (m, 2 * p)
    }
}

/// The value of `b as f64`: `b` rounded to 53 binary digits, a halfway case to an even last digit.
pub open spec fn as_f64(b: nat) -> nat {
    let (m, p) = leading_digits(b);
    let rest = b - m * p;
    if 2 * rest > p || (2 * rest == p && m % 2 == 1) {
        (m + 1) * p
    } else {
        m * p
    }
}

/// `1024` to the power `k`.
pub open spec fn pow1024(k: nat) -> nat
    decreases k,
{
    if k == 0 {
        1
    } else {
        1024 * pow1024((k - 1) as nat)
    }
}

/// The unit a value is shown in, counted from `k`: the largest of B, KiB, MiB, GiB and TiB that
/// the value reaches.
pub open spec fn unit_index(v: nat, k: nat) -> nat
    decreases 4 - k,
{
    if k < 4 && v >= pow1024(k + 1) {
        unit_index(v, k + 1)
    } else {
        k
    }
}

pub open spec fn unit_name(k: nat) -> Seq<char> {
    if k == 0 {
        "B"@
    } else if k == 1 {
        "KiB"@
    } else if k == 2 {
        "MiB"@
    } else if k == 3 {
        "GiB"@
    } else {
        "TiB"@
    }
}

/// `v / d` counted in tenths and rounded to the nearest, a halfway case to an even count (`{:.1}`).
pub open spec fn rounded_tenths(v: nat, d: nat) -> nat {
    let q = (10 * v) / d;
    let r = (10 * v) % d;
    if 2 * r > d || (2 * r == d && q % 2 == 1) {
        q + 1
    } else {
        q
    }
}

/// A byte count as shown: one decimal in the largest binary unit it reaches, such as `1.5KiB`.
pub open spec fn bytes_text(bytes: nat) -> Seq<char> {
    let v = as_f64(bytes);
    let k = unit_index(v, 0);
    let t = rounded_tenths(v, pow1024(k));
    decimal(t / 10) + seq!['.'] + decimal(t % 10) + unit_name(k)
}

proof fn lemma_pow1024_values()
    ensures
        pow1024(0) == 1,
        pow1024(1) == 1024,
        pow1024(2) == 0x10_0000,
        pow1024(3) == 0x4000_0000,
        pow1024(4) == 0x100_0000_0000,
{
    reveal_with_fuel(pow1024, 5);
}

fn f64_value(bytes: u64) -> (v: u128)
    ensures
        v == as_f64(bytes as nat),
        v < 0x4_0000_0000_0000_0000,
{
    let b: u128 = bytes as u128;
    let mut m: u128 = b;
    let mut p: u128 = 1;
    while m >= 0x20_0000_0000_0000
        invariant
            b == bytes,
            p >= 1,
            m * p <= b,
            p == 1 || m >= 0x10_0000_0000_0000,
            leading_digits(b as nat).0 == leading_digits(m as nat).0,
            leading_digits(b as nat).1 == leading_digits(m as nat).1 * p,
        decreases m,
    {
        let h = m / 2;
        assert(h * 2 <= m);
        assert(h * (2 * p) <= m * p) by (nonlinear_arith)
            requires
                h * 2 <= m,
                p >= 1,
        ;
        assert(p < 0x1000) by (nonlinear_arith)
            requires
                m >= 0x20_0000_0000_0000,
                m * p <= b,
                b < 0x1_0000_0000_0000_0000,
        ;
        assert(leading_digits(m as nat).1 * p == leading_digits(h as nat).1 * (2 * p)) by (nonlinear_arith)
            requires
                leading_digits(m as nat).1 == 2 * leading_digits(h as nat).1,
        ;
        m = h;
        p = p * 2;
    }
    assert(p < 0x2000) by (nonlinear_arith)
        requires
            p == 1 || m >= 0x10_0000_0000_0000,
            m * p <= b,
            b < 0x1_0000_0000_0000_0000,
    ;
    assert((m + 1) * p < 0x4_0000_0000_0000_0000) by (nonlinear_arith)
        requires
            m < 0x20_0000_0000_0000,
            p < 0x2000,
    ;
    let rest = b - m * p;
    if 2 * rest > p || (2 * rest == p && m % 2 == 1) {
        (m + 1) * p
    } else {
        m * p
    }
}

/// The unit index of `v` and the divisor of that unit.
fn unit_of(v: u128) -> (r: (usize, u128))
    ensures
        r.0 == unit_index(v as nat, 0),
        r.1 == pow1024(r.0 as nat),
        r.0 <= 4,
        r.0 == 0 ==> v < 1024,
        r.0 > 0 ==> r.1 >= 1024,
        r.1 <= 0x100_0000_0000,
{
    proof {
        lemma_pow1024_values();
    }
    let mut k: usize = 0;
    let mut d: u128 = 1;
    while k < 4 && v >= d * 1024
        invariant
            k <= 4,
            d == pow1024(k as nat),
            d <= 0x100_0000_0000,
            k > 0 ==> d >= 1024,
            unit_index(v as nat, 0) == unit_index(v as nat, k as nat),
            pow1024(0) == 1,
            pow1024(1) == 1024,
            pow1024(2) == 0x10_0000,
            pow1024(3) == 0x4000_0000,
            pow1024(4) == 0x100_0000_0000,
        decreases 4 - k,
    {
        assert(pow1024((k + 1) as nat) == 1024 * pow1024(k as nat));
        d = d * 1024;
        k = k + 1;
    }
    assert(pow1024((k + 1) as nat) == 1024 * pow1024(k as nat));
    (k, d)
}

/// A byte count in the largest binary unit it reaches, with one decimal.
pub fn format_bytes(bytes: u64) -> (s: String)
    ensures
        s@ == bytes_text(bytes as nat),
{
    let v = f64_value(bytes);
    let (k, d) = unit_of(v);
    let q = (10 * v) / d;
    let r = (10 * v) % d;
    let t: u128 = if 2 * r > d || (2 * r == d && q % 2 == 1) {
        q + 1
    } else {
        q
    };
    assert(t == rounded_tenths(v as nat, pow1024(k as nat)));
    if k > 0 {
        let ghost tv: int = 10 * v;
        assert(q <= tv / 1024) by (nonlinear_arith)
            requires
                d >= 1024,
                tv >= 0,
                q == tv / (d as int),
        ;
    }
    assert(t / 10 < 0x1_0000_0000_0000_0000);
    let mut s = string_of(decimal_chars((t / 10) as u64).as_slice());
    push_char(&mut s, '.');
    append_chars(&mut s, &decimal_chars((t % 10) as u64));
    let unit = if k == 0 {
        "B"
    } else if k == 1 {
        "KiB"
    } else if k == 2 {
        "MiB"
    } else if k == 3 {
        "GiB"
    } else {
        "TiB"
    };
    s.append(unit);
    s
}

} // verus!

verus! {

proof fn lemma_trim_keeps_unpadded(s: Seq<char>)
    requires
        s.len() > 0,
        !is_ws(s[0]),
        !is_ws(s.last()),
    ensures
        trim(s) == s,
{
}

/// The summary line of a card that is not online: a waiting note while loading; for an
/// unreachable host or one in error, its last error trimmed when that error is not blank,
/// `-` when it is blank, and the status name (`unreachable`, `error`) when there is none.
/// An online host has no such line.
pub proof fn lemma_offline_summary_shows_error(status: HostStatus, last_error: Option<Seq<char>>)
    ensures
        status == HostStatus::Online ==> offline_summary_of(status, last_error) is None,
        status == HostStatus::Loading ==> offline_summary_of(status, last_error) == Some(
            "waiting for metrics..."@,
        ),
        (status == HostStatus::Unreachable || status == HostStatus::Error) ==> match last_error {
            Some(e) => offline_summary_of(status, last_error) == Some(
                if trim(e).len() > 0 {
                    trim(e)
                } else {
                    "-"@
                },
            ),
            None => offline_summary_of(status, last_error) == Some(
                if status == HostStatus::Unreachable {
                    "unreachable"@
                } else {
                    "error"@
                },
            ),
        },
{
    reveal_strlit("unreachable");
    reveal_strlit("error");
    lemma_trim_keeps_unpadded("unreachable"@);
    lemma_trim_keeps_unpadded("error"@);
}

} // verus!

verus! {

proof fn lemma_comma_state_append_free(p: Seq<char>, q: Seq<char>)
    requires
        !q.contains(','),
    ensures
        comma_state(p + q) == (comma_state(p).0, comma_state(p).1 + q),
    decreases q.len(),
{
    if q.len() == 0 {
        assert(p + q =~= p);
        assert(comma_state(p).1 + q =~= comma_state(p).1);
    } else {
        let q0 = q.drop_last();
        assert(!q0.contains(',')) by {
            if q0.contains(',') {
                let i = choose|i: int| 0 <= i < q0.len() && q0[i] == ',';
                assert(q[i] == ',');
            }
        }
        lemma_comma_state_append_free(p, q0);
        assert((p + q).drop_last() =~= p + q0);
        assert((p + q).last() == q.last());
        assert(q.last() != ',') by {
            if q.last() == ',' {
                assert(q[q.len() - 1] == ',');
            }
        }
        assert((comma_state(p).1 + q0).push(q.last()) =~= comma_state(p).1 + q);
    }
}

/// A disk mounted at one place `a` shows `  a`; one mounted at exactly two places `a` and
/// `b` (listed as `a,b`) shows `  a,b`, whichever of them is `/`.
pub proof fn lemma_one_or_two_mount_points_listed(a: Seq<char>, b: Seq<char>)
    requires
        a.len() > 0,
        b.len() > 0,
        !a.contains(','),
        !b.contains(','),
    ensures
        mount_suffix(a) == "  "@ + a,
        mount_suffix(a + seq![','] + b) == "  "@ + a + ","@ + b,
{
    let e = Seq::<char>::empty();
    lemma_comma_state_append_free(e, a);
    assert(e + a =~= a);
    assert(e + a == a);
    assert(comma_state(e) == (Seq::<Seq<char>>::empty(), e));
    assert(comma_state(a) == (Seq::<Seq<char>>::empty(), e + a));
    assert(mount_points(a) =~= seq![a]);
    let ac = a + seq![','];
    assert(ac.drop_last() =~= a);
    assert(ac.last() == ',');
    assert(comma_state(ac) == (Seq::<Seq<char>>::empty().push(a), e));
    lemma_comma_state_append_free(ac, b);
    assert(e + b =~= b);
    assert(mount_points(ac + b) =~= seq![a, b]);
}

} // verus!

verus! {

proof fn lemma_comma_state_part(p: Seq<char>, x: Seq<char>)
    requires
        comma_state(p).1.len() == 0,
        x.len() > 0,
        !x.contains(','),
    ensures
        comma_state(p + x + seq![',']) == (comma_state(p).0.push(x), Seq::<char>::empty()),
{
    lemma_comma_state_append_free(p, x);
    assert(comma_state(p).1 + x =~= x);
    let px = p + x;
    assert((px + seq![',']).drop_last() =~= px);
    assert((px + seq![',']).last() == ',');
}

/// A disk mounted at three places `a`, `b`, `c` (listed as `a,b,c`) shows `  / +2` when one of
/// them is the root `/`, and `  a,b +1` otherwise.
pub proof fn lemma_three_mount_points_compressed(a: Seq<char>, b: Seq<char>, c: Seq<char>)
    requires
        a.len() > 0,
        b.len() > 0,
        c.len() > 0,
        !a.contains(','),
        !b.contains(','),
        !c.contains(','),
    ensures
        (a == "/"@ || b == "/"@ || c == "/"@) ==> mount_suffix(
            a + seq![','] + b + seq![','] + c,
        ) == "  / +"@ + decimal(2),
        !(a == "/"@ || b == "/"@ || c == "/"@) ==> mount_suffix(a + seq![','] + b + seq![','] + c)
            == "  "@ + a + ","@ + b + " +"@ + decimal(1),
{
    let e = Seq::<char>::empty();
    assert(comma_state(e) == (Seq::<Seq<char>>::empty(), e));
    lemma_comma_state_part(e, a);
    assert(e + a =~= a);
    let pa = a + seq![','];
    assert(comma_state(pa) == (seq![a], e)) by {
        assert(e + a + seq![','] =~= pa);
        assert(Seq::<Seq<char>>::empty().push(a) =~= seq![a]);
    }
    lemma_comma_state_part(pa, b);
    let pb = pa + b + seq![','];
    assert(seq![a].push(b) =~= seq![a, b]);
    lemma_comma_state_append_free(pb, c);
    assert(e + c =~= c);
    assert(a + seq![','] + b + seq![','] + c =~= pb + c);
    let ps = seq![a, b, c];
    assert(mount_points(pb + c) =~= ps);
    if a == "/"@ || b == "/"@ || c == "/"@ {
        if a == "/"@ {
            assert(ps[0] == "/"@);
        } else if b == "/"@ {
            assert(ps[1] == "/"@);
        } else {
            assert(ps[2] == "/"@);
        }
        assert(ps.contains("/"@));
    } else {
        assert(!ps.contains("/"@)) by {
            if ps.contains("/"@) {
                let i = choose|i: int| 0 <= i < ps.len() && ps[i] == "/"@;
                assert(i == 0 || i == 1 || i == 2);
            }
        }
    }
}

} // verus!
