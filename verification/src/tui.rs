//! Text for the terminal dashboard: durations, the bounded log, log lines
//! and the worker panel.
use vstd::prelude::*;
use crate::minecraft::common::string_views;
use crate::sys::chars_of;
use crate::text::{decimal_chars, decimal_repr, push_all, push_str, to_string};

verus! {

/// How a number of seconds reads on the dashboard: hours, minutes and
/// seconds, leaving out leading units that are zero.
pub open spec fn duration_text(seconds: nat) -> Seq<char> {
    let hours = seconds / 3600;
    let minutes = (seconds % 3600) / 60;
    let secs = seconds % 60;
    if hours > 0 {
        decimal_repr(hours) + "h "@ + decimal_repr(minutes) + "m "@ + decimal_repr(secs) + "s"@
    } else if minutes > 0 {
        decimal_repr(minutes) + "m "@ + decimal_repr(secs) + "s"@
    } else {
        decimal_repr(secs) + "s"@
    }
}

/// Formats a number of seconds as `1h 2m 3s`, `2m 3s` or `3s`.
pub fn format_duration(seconds: u64) -> (res: String)
    ensures
        res@ == duration_text(seconds as nat),
{
    let hours = seconds / 3600;
    let minutes = (seconds % 3600) / 60;
    let secs = seconds % 60;
    let mut out: Vec<char> = Vec::new();
    if hours > 0 {
        let h = decimal_chars(hours);
        push_all(&mut out, h.as_slice());
        push_str(&mut out, "h ");
        let m = decimal_chars(minutes);
        push_all(&mut out, m.as_slice());
        push_str(&mut out, "m ");
    } else if minutes > 0 {
        let m = decimal_chars(minutes);
        push_all(&mut out, m.as_slice());
        push_str(&mut out, "m ");
    }
    let s = decimal_chars(secs);
    push_all(&mut out, s.as_slice());
    push_str(&mut out, "s");
    to_string(out.as_slice())
}

/// How many log lines the dashboard keeps.
pub const MAX_LOG_LINES: usize = 1000;

#[derive(Debug, Clone, Copy, PartialEq, Eq, Structural)]
pub enum LogLevel {
    Error,
    Warn,
    Info,
    Debug,
    Trace,
}

/// A log line: its level, its message and when it was logged (milliseconds
/// since the Unix epoch).
#[derive(Debug)]
pub struct LogEntry {
    pub level: LogLevel,
    pub message: String,
    pub timestamp_ms: i64,
}

/// The last `n` entries of `s` (all of them when there are fewer).
pub open spec fn keep_last<T>(s: Seq<T>, n: nat) -> Seq<T> {
    if s.len() > n {
        s.subrange(s.len() - n, s.len() as int)
    } else {
        s
    }
}

/// The dashboard's log: the most recent lines, oldest first, at most
/// `MAX_LOG_LINES` of them.
pub struct LogBuffer {
    pub entries: Vec<LogEntry>,
}

impl LogBuffer {
    pub open spec fn wf(&self) -> bool {
        self.entries@.len() <= MAX_LOG_LINES
    }

    /// An empty log.
    pub fn new() -> (b: LogBuffer)
        ensures
            b.wf(),
            b.entries@.len() == 0,
    {
        LogBuffer { entries: Vec::new() }
    }

    /// Appends a line, dropping the oldest ones so that at most
    /// `MAX_LOG_LINES` remain.
    pub fn push(&mut self, entry: LogEntry)
        requires
            old(self).wf(),
        ensures
            final(self).wf(),
            final(self).entries@ == keep_last(old(self).entries@.push(entry), MAX_LOG_LINES as nat),
    {
        let ghost all = old(self).entries@.push(entry);
        let ghost n = old(self).entries@.len();
        while self.entries.len() >= MAX_LOG_LINES
            invariant
                n == old(self).entries@.len(),
                n <= MAX_LOG_LINES,
                all == old(self).entries@.push(entry),
                self.entries@.len() <= n,
                n < MAX_LOG_LINES ==> self.entries@.len() == n,
                self.entries@.len() + 1 >= n,
                forall|i: int|
                    0 <= i < self.entries@.len() ==> #[trigger] self.entries@[i]
                        == old(self).entries@[n - self.entries@.len() + i],
            decreases self.entries@.len(),
        {
            let ghost before = self.entries@;
            self.entries.remove(0);
            assert forall|i: int| 0 <= i < self.entries@.len() implies #[trigger] self.entries@[i]
                == old(self).entries@[n - self.entries@.len() + i] by {
                assert(self.entries@[i] == before[i + 1]);
            }
        }
        let ghost kept = self.entries@;
        self.entries.push(entry);
        assert(self.entries@ == kept.push(entry));
        assert(self.entries@ =~= keep_last(all, MAX_LOG_LINES as nat));
    }
}

/// A level as the log panel writes it: its name, padded to five columns.
pub open spec fn level_text(level: LogLevel) -> Seq<char> {
    match level {
        LogLevel::Error => "ERROR"@,
        LogLevel::Warn => "WARN "@,
        LogLevel::Info => "INFO "@,
        LogLevel::Debug => "DEBUG"@,
        LogLevel::Trace => "TRACE"@,
    }
}

/// The level's name, padded to five columns.
pub fn level_label(level: LogLevel) -> (r: &'static str)
    ensures
        r@ == level_text(level),
{
    match level {
        LogLevel::Error => "ERROR",
        LogLevel::Warn => "WARN ",
        LogLevel::Info => "INFO ",
        LogLevel::Debug => "DEBUG",
        LogLevel::Trace => "TRACE",
    }
}

/// A line of the log panel: `[clock] LEVEL message`, where `clock` is the
/// entry's time of day as the caller renders it.
pub fn log_line(entry: &LogEntry, clock: &str) -> (r: String)
    ensures
        r@ == log_line_text(*entry, clock@),
{
    let mut out: Vec<char> = Vec::new();
    push_str(&mut out, "[");
    push_str(&mut out, clock);
    push_str(&mut out, "] ");
    push_str(&mut out, level_label(entry.level));
    push_str(&mut out, " ");
    push_str(&mut out, entry.message.as_str());
    to_string(out.as_slice())
}

/// How many lines the log panel scrolls past so that the newest of
/// `log_len` lines show in an area `height` rows high (cut to 16 bits).
pub fn log_scroll(log_len: usize, height: u16) -> (r: u16)
    ensures
        r == (if log_len > height { (log_len - height) as u16 } else { 0u16 }),
{
    let skipped: usize = log_len.saturating_sub(height as usize);
    skipped as u16
}

/// The colour the log panel gives a level's name: errors red, warnings
/// yellow, information green, debugging cyan, tracing dark gray.
pub open spec fn level_color_of(level: LogLevel) -> PanelColor {
    match level {
        LogLevel::Error => PanelColor::Red,
        LogLevel::Warn => PanelColor::Yellow,
        LogLevel::Info => PanelColor::Green,
        LogLevel::Debug => PanelColor::Cyan,
        LogLevel::Trace => PanelColor::DarkGray,
    }
}

/// The colour of a level's name on the log panel.
pub fn level_color(level: LogLevel) -> (c: PanelColor)
    ensures
        c == level_color_of(level),
{
    match level {
        LogLevel::Error => PanelColor::Red,
        LogLevel::Warn => PanelColor::Yellow,
        LogLevel::Info => PanelColor::Green,
        LogLevel::Debug => PanelColor::Cyan,
        LogLevel::Trace => PanelColor::DarkGray,
    }
}

/// A line of the log panel for `entry` logged at time of day `clock`.
pub open spec fn log_line_text(entry: LogEntry, clock: Seq<char>) -> Seq<char> {
    "["@ + clock + "] "@ + level_text(entry.level) + " "@ + entry.message@
}

/// The lines of the log panel: one per entry, in order, each with its
/// entry's clock text; a log with no entry shows the single line
/// `Waiting for logs...` (in dark gray).
pub open spec fn log_panel_text(entries: Seq<LogEntry>, clocks: Seq<Seq<char>>) -> Seq<Seq<char>> {
    if entries.len() == 0 {
        seq!["Waiting for logs..."@]
    } else {
        Seq::new(entries.len(), |i: int| log_line_text(entries[i], clocks[i]))
    }
}

/// The lines of the log panel for these entries, `clocks[i]` being the time
/// of day at which `entries[i]` was logged, as the caller renders it.
pub fn log_panel(entries: &Vec<LogEntry>, clocks: &Vec<String>) -> (lines: Vec<String>)
    requires
        clocks@.len() == entries@.len(),
    ensures
        string_views(lines@) == log_panel_text(entries@, string_views(clocks@)),
{
    let mut lines: Vec<String> = Vec::new();
    if entries.len() == 0 {
        let waiting = String::from_str("Waiting for logs...");
        lines.push(waiting);
        assert(string_views(lines@) =~= seq!["Waiting for logs..."@]);
        return lines;
    }
    let mut i: usize = 0;
    while i < entries.len()
        invariant
            clocks@.len() == entries@.len(),
            i <= entries@.len(),
            string_views(lines@) =~= Seq::new(
                i as nat,
                |j: int| log_line_text(entries@[j], string_views(clocks@)[j]),
            ),
        decreases entries@.len() - i,
    {
        let line = log_line(&entries[i], clocks[i].as_str());
        let ghost before = lines@;
        lines.push(line);
        proof {
            lemma_views_push(before, line);
        }
        i += 1;
    }
    lines
}

/// A key pressed on the dashboard, as far as the dashboard tells keys apart.
#[derive(Debug, Clone, Copy, PartialEq, Eq, Structural)]
pub enum DashboardKey {
    Char(char),
    Esc,
    Other,
}

/// The keys that close the dashboard: `q`, `Q`, Escape, and `c` or `C` with
/// Control held.
pub open spec fn quits(key: DashboardKey, control: bool) -> bool {
    match key {
        DashboardKey::Char(c) => c == 'q' || c == 'Q' || ((c == 'c' || c == 'C') && control),
        DashboardKey::Esc => true,
        DashboardKey::Other => false,
    }
}

/// Whether this key press closes the dashboard.
pub fn is_quit_key(key: DashboardKey, control: bool) -> (r: bool)
    ensures
        r == quits(key, control),
{
    match key {
        DashboardKey::Char(c) => c == 'q' || c == 'Q' || ((c == 'c' || c == 'C') && control),
        DashboardKey::Esc => true,
        DashboardKey::Other => false,
    }
}

/// What a worker is doing, as the dashboard shows it.
#[derive(Debug, Clone)]
pub enum WorkerState {
    Idle,
    Processing { host: String },
    Connecting,
}

/// The block drawn for an idle worker.
pub const IDLE_BLOCK: char = '\u{2593}';

/// The block drawn for a busy worker (working or connecting; the colour tells
/// them apart).
pub const BUSY_BLOCK: char = '\u{2588}';

pub open spec fn block_of(w: WorkerState) -> char {
    match w {
        WorkerState::Idle => IDLE_BLOCK,
        _ => BUSY_BLOCK,
    }
}

/// The colours of the dashboard.
#[derive(Debug, Clone, Copy, PartialEq, Eq, Structural)]
pub enum PanelColor {
    DarkGray,
    Red,
    Yellow,
    Green,
    Cyan,
}

/// The colour of a worker's block: dark gray when idle, green when
/// processing, yellow when connecting.
pub open spec fn block_color_of(w: WorkerState) -> PanelColor {
    match w {
        WorkerState::Idle => PanelColor::DarkGray,
        WorkerState::Processing { .. } => PanelColor::Green,
        WorkerState::Connecting => PanelColor::Yellow,
    }
}

/// The colour of a worker's block.
pub fn block_color(w: &WorkerState) -> (c: PanelColor)
    ensures
        c == block_color_of(*w),
{
    match w {
        WorkerState::Idle => PanelColor::DarkGray,
        WorkerState::Processing { .. } => PanelColor::Green,
        WorkerState::Connecting => PanelColor::Yellow,
    }
}

/// One colour per worker's block, in order.
pub open spec fn block_colors(ws: Seq<WorkerState>) -> Seq<PanelColor> {
    ws.map_values(|w: WorkerState| block_color_of(w))
}

/// The rows of colours, each as a sequence.
pub open spec fn color_rows(v: Seq<Vec<PanelColor>>) -> Seq<Seq<PanelColor>> {
    v.map_values(|r: Vec<PanelColor>| r@)
}

/// One block per worker, in order.
pub open spec fn blocks(ws: Seq<WorkerState>) -> Seq<char> {
    ws.map_values(|w: WorkerState| block_of(w))
}

/// The hosts that the workers are processing, in worker order.
pub open spec fn processing_hosts(ws: Seq<WorkerState>) -> Seq<Seq<char>>
    decreases ws.len(),
{
    if ws.len() == 0 {
        Seq::empty()
    } else {
        let rest = processing_hosts(ws.drop_last());
        match ws.last() {
            WorkerState::Processing { host } => rest.push(host@),
            _ => rest,
        }
    }
}

/// `g` cut into rows of `k` (the last row may be shorter).
pub open spec fn block_rows<A>(g: Seq<A>, k: nat) -> Seq<Seq<A>>
    decreases g.len(),
{
    if g.len() == 0 || k == 0 {
        Seq::empty()
    } else if g.len() <= k {
        seq![g]
    } else {
        seq![g.take(k as int)] + block_rows(g.skip(k as int), k)
    }
}

/// How many blocks fit on a row of a panel `width` cells wide (two cells of
/// border, two of padding), never more than there are workers; a row holds
/// one block at least.
pub open spec fn blocks_per_row(width: u16, workers: nat) -> nat {
    let avail: nat = if width >= 4 { (width - 4) as nat } else { 0 };
    let per = if avail < workers { avail } else { workers };
    if per == 0 { 1 } else { per }
}

/// How many processing hosts are listed by name on a panel `height` rows high.
pub open spec fn host_limit(height: u16) -> nat {
    if height > 10 { 5 } else { 3 }
}

pub open spec fn indented(rows: Seq<Seq<char>>) -> Seq<Seq<char>> {
    rows.map_values(|r: Seq<char>| seq![' '] + r)
}

pub open spec fn bulleted(hosts: Seq<Seq<char>>) -> Seq<Seq<char>> {
    hosts.map_values(|h: Seq<char>| " \u{2022} "@ + h)
}

/// The "Processing" section: the hosts being processed, at most `limit` by
/// name and a count of the rest, then a blank line; nothing when no worker
/// is processing.
pub open spec fn hosts_section(hosts: Seq<Seq<char>>, limit: nat) -> Seq<Seq<char>> {
    if hosts.len() == 0 {
        Seq::empty()
    } else if hosts.len() > limit {
        seq!["Processing:"@] + bulleted(hosts.take(limit as int)) + seq![
            " ... and "@ + decimal_repr((hosts.len() - limit) as nat) + " more"@,
        ] + seq![Seq::<char>::empty()]
    } else {
        seq!["Processing:"@] + bulleted(hosts) + seq![Seq::<char>::empty()]
    }
}

pub open spec fn legend_line() -> Seq<char> {
    "Legend: \u{2593} Idle  \u{2588} Working  \u{2588} Connecting"@
}

/// The lines of the worker panel of a `width` x `height` area: a header with
/// the number of workers, the workers' blocks row by row, a blank line, the
/// hosts being processed, and a legend when the area is more than 8 rows high.
pub open spec fn worker_panel_text(ws: Seq<WorkerState>, width: u16, height: u16) -> Seq<Seq<char>> {
    seq!["Workers ("@ + decimal_repr(ws.len()) + "):"@] + indented(
        block_rows(blocks(ws), blocks_per_row(width, ws.len())),
    ) + seq![Seq::<char>::empty()] + hosts_section(processing_hosts(ws), host_limit(height)) + (
    if height > 8 {
        seq![legend_line()]
    } else {
        Seq::empty()
    })
}

/// Cutting the blocks into rows loses and reorders none: read row after row,
/// the rows give back every worker's block in order, and no row is longer
/// than `k` or empty.
pub proof fn lemma_block_rows_keep_every_block<A>(g: Seq<A>, k: nat)
    requires
        k >= 1,
    ensures
        block_rows(g, k).flatten() == g,
        forall|r: int|
            0 <= r < block_rows(g, k).len() ==> 0 < #[trigger] block_rows(g, k)[r].len() <= k,
    decreases g.len(),
{
    if g.len() == 0 {
    } else if g.len() <= k {
        assert(seq![g].flatten() =~= g + seq![].flatten()) by {
            assert(seq![g].drop_first() =~= Seq::<Seq<A>>::empty());
        }
    } else {
        let rest = block_rows(g.skip(k as int), k);
        lemma_block_rows_keep_every_block(g.skip(k as int), k);
        let rows = seq![g.take(k as int)] + rest;
        assert(rows.drop_first() =~= rest);
        assert(rows.flatten() == g.take(k as int) + rest.flatten());
        assert(g.take(k as int) + g.skip(k as int) =~= g);
        assert forall|r: int| 0 <= r < rows.len() implies 0 < #[trigger] rows[r].len() <= k by {
            if r > 0 {
                assert(rows[r] == rest[r - 1]);
            }
        }
    }
}

proof fn lemma_block_rows_step<A>(g: Seq<A>, start: int, k: nat)
    requires
        k >= 1,
        0 <= start,
        start + k <= g.len(),
    ensures
        block_rows(g.skip(start), k) == seq![g.subrange(start, start + k)] + block_rows(
            g.skip(start + k),
            k,
        ),
{
    let s = g.skip(start);
    if s.len() == k {
        assert(g.skip(start + k).len() == 0);
        assert(s =~= g.subrange(start, start + k));
    } else {
        assert(s.take(k as int) =~= g.subrange(start, start + k));
        assert(s.skip(k as int) =~= g.skip(start + k));
    }
}

/// The hosts that the workers are processing, in worker order.
pub fn processing_host_list(states: &Vec<WorkerState>) -> (hosts: Vec<String>)
    ensures
        string_views(hosts@) == processing_hosts(states@),
{
    let mut hosts: Vec<String> = Vec::new();
    let mut i: usize = 0;
    while i < states.len()
        invariant
            i <= states@.len(),
            string_views(hosts@) == processing_hosts(states@.subrange(0, i as int)),
        decreases states@.len() - i,
    {
        let ghost before = hosts@;
        assert(states@.subrange(0, i + 1).drop_last() =~= states@.subrange(0, i as int));
        match &states[i] {
            WorkerState::Processing { host } => {
                let h = host.clone();
                hosts.push(h);
                assert(string_views(hosts@) =~= string_views(before).push(h@));
            },
            _ => {},
        }
        i += 1;
    }
    assert(states@.subrange(0, states@.len() as int) =~= states@);
    hosts
}

/// The rows of worker blocks, each led by a space, `per_row` blocks to a row
/// (one when `per_row` is 0), and beside each row the colours of its blocks.
fn block_lines(states: &Vec<WorkerState>, per_row: usize) -> (r: (Vec<String>, Vec<Vec<PanelColor>>))
    requires
        per_row <= states@.len(),
    ensures
        string_views(r.0@) == indented(
            block_rows(blocks(states@), if per_row == 0 { 1 } else { per_row as nat }),
        ),
        color_rows(r.1@) == block_rows(
            block_colors(states@),
            if per_row == 0 { 1 } else { per_row as nat },
        ),
{
    let ghost g = blocks(states@);
    let ghost c = block_colors(states@);
    let ghost k: nat = if per_row == 0 { 1 } else { per_row as nat };
    let mut lines: Vec<String> = Vec::new();
    let mut colors: Vec<Vec<PanelColor>> = Vec::new();
    let mut current: Vec<char> = Vec::new();
    let mut current_colors: Vec<PanelColor> = Vec::new();
    let ghost mut done: Seq<Seq<char>> = Seq::empty();
    let mut i: usize = 0;
    assert(g.skip(0) =~= g);
    assert(c.skip(0) =~= c);
    assert(Seq::<Seq<char>>::empty() + block_rows(g, k) =~= block_rows(g, k));
    assert(Seq::<Seq<PanelColor>>::empty() + block_rows(c, k) =~= block_rows(c, k));
    assert(color_rows(colors@) =~= Seq::<Seq<PanelColor>>::empty());
    while i < states.len()
        invariant
            g == blocks(states@),
            c == block_colors(states@),
            k == (if per_row == 0 { 1 } else { per_row as nat }),
            i <= states@.len(),
            current@.len() < k,
            current@.len() <= i,
            current_colors@.len() == current@.len(),
            current@ == g.subrange(i - current@.len(), i as int),
            current_colors@ == c.subrange(i - current@.len(), i as int),
            done + block_rows(g.skip(i - current@.len()), k) == block_rows(g, k),
            color_rows(colors@) + block_rows(c.skip(i - current@.len()), k) == block_rows(c, k),
            string_views(lines@) == indented(done),
        decreases states@.len() - i,
    {
        let block = match &states[i] {
            WorkerState::Idle => IDLE_BLOCK,
            _ => BUSY_BLOCK,
        };
        let color = block_color(&states[i]);
        let ghost start = i - current@.len();
        current.push(block);
        current_colors.push(color);
        i += 1;
        assert(current@ =~= g.subrange(start, i as int));
        assert(current_colors@ =~= c.subrange(start, i as int));
        if current.len() >= per_row {
            proof {
                lemma_block_rows_step(g, start, k);
                lemma_block_rows_step(c, start, k);
            }
            let mut line: Vec<char> = Vec::new();
            line.push(' ');
            push_all(&mut line, current.as_slice());
            let text = to_string(line.as_slice());
            let ghost before = lines@;
            lines.push(text);
            let ghost before_colors = colors@;
            let row_colors = current_colors;
            colors.push(row_colors);
            proof {
                assert(string_views(lines@) =~= string_views(before).push(text@));
                assert(indented(done.push(current@)) =~= indented(done).push(seq![' '] + current@));
                assert(done + block_rows(g.skip(start), k) =~= done.push(current@) + block_rows(
                    g.skip(i as int),
                    k,
                ));
                assert(color_rows(colors@) =~= color_rows(before_colors).push(row_colors@));
                assert(color_rows(before_colors) + block_rows(c.skip(start), k)
                    =~= color_rows(before_colors).push(row_colors@) + block_rows(c.skip(i as int), k));
                done = done.push(current@);
            }
            current = Vec::new();
            current_colors = Vec::new();
        }
    }
    if current.len() > 0 {
        let ghost start = i - current@.len();
        assert(g.skip(start) =~= current@);
        assert(c.skip(start) =~= current_colors@);
        let mut line: Vec<char> = Vec::new();
        line.push(' ');
        push_all(&mut line, current.as_slice());
        let text = to_string(line.as_slice());
        let ghost before = lines@;
        lines.push(text);
        let ghost before_colors = colors@;
        let row_colors = current_colors;
        colors.push(row_colors);
        proof {
            assert(string_views(lines@) =~= string_views(before).push(text@));
            assert(indented(done.push(current@)) =~= indented(done).push(seq![' '] + current@));
            assert(done + seq![current@] =~= done.push(current@));
            assert(color_rows(colors@) =~= color_rows(before_colors).push(row_colors@));
            assert(color_rows(before_colors) + seq![row_colors@] =~= color_rows(before_colors).push(
                row_colors@,
            ));
        }
    } else {
        assert(g.skip(i as int) =~= Seq::<char>::empty());
        assert(c.skip(i as int) =~= Seq::<PanelColor>::empty());
        assert(done + Seq::<Seq<char>>::empty() =~= done);
        assert(color_rows(colors@) + Seq::<Seq<PanelColor>>::empty() =~= color_rows(colors@));
    }
    (lines, colors)
}

proof fn lemma_views_concat(a: Seq<String>, b: Seq<String>)
    ensures
        string_views(a + b) == string_views(a) + string_views(b),
{
    assert(string_views(a + b) =~= string_views(a) + string_views(b));
}

proof fn lemma_views_push(a: Seq<String>, t: String)
    ensures
        string_views(a.push(t)) == string_views(a).push(t@),
{
    assert(string_views(a.push(t)) =~= string_views(a).push(t@));
}

/// The "Processing" section of the worker panel for these hosts.
fn hosts_lines(hosts: &Vec<String>, limit: usize) -> (lines: Vec<String>)
    ensures
        string_views(lines@) == hosts_section(string_views(hosts@), limit as nat),
{
    let ghost hv = string_views(hosts@);
    let mut lines: Vec<String> = Vec::new();
    if hosts.len() == 0 {
        assert(string_views(lines@) =~= Seq::<Seq<char>>::empty());
        return lines;
    }
    let title = to_string(chars_of("Processing:").as_slice());
    lines.push(title);
    proof {
        lemma_views_push(Seq::empty(), title);
    }
    let shown: usize = if hosts.len() > limit { limit } else { hosts.len() };
    let mut j: usize = 0;
    while j < shown
        invariant
            hv == string_views(hosts@),
            shown <= hosts@.len(),
            j <= shown,
            string_views(lines@) == seq!["Processing:"@] + bulleted(hv.take(j as int)),
        decreases shown - j,
    {
        let mut line: Vec<char> = Vec::new();
        push_str(&mut line, " \u{2022} ");
        let h = chars_of(hosts[j].as_str());
        push_all(&mut line, h.as_slice());
        let text = to_string(line.as_slice());
        let ghost before = lines@;
        lines.push(text);
        proof {
            lemma_views_push(before, text);
            assert(hv[j as int] == hosts@[j as int]@);
            assert(bulleted(hv.take(j + 1)) =~= bulleted(hv.take(j as int)).push(
                " \u{2022} "@ + hv[j as int],
            ));
        }
        j += 1;
    }
    if hosts.len() > limit {
        let mut line: Vec<char> = Vec::new();
        push_str(&mut line, " ... and ");
        let d = decimal_chars((hosts.len() - limit) as u64);
        push_all(&mut line, d.as_slice());
        push_str(&mut line, " more");
        let text = to_string(line.as_slice());
        let ghost before = lines@;
        lines.push(text);
        proof {
            lemma_views_push(before, text);
        }
    } else {
        assert(hv.take(shown as int) =~= hv);
    }
    let blank = String::new();
    let ghost before = lines@;
    lines.push(blank);
    proof {
        lemma_views_push(before, blank);
    }
    lines
}

/// The worker panel: its lines of text, and the colours of the blocks on
/// the rows of blocks (`block_colors[r]` colours the blocks of `lines[r + 1]`,
/// the rows coming right after the header).
pub struct WorkerPanel {
    pub lines: Vec<String>,
    pub block_colors: Vec<Vec<PanelColor>>,
}

/// The worker panel for these workers in an area `width` cells wide and
/// `height` rows high.
pub fn worker_panel(states: &Vec<WorkerState>, width: u16, height: u16) -> (panel: WorkerPanel)
    ensures
        string_views(panel.lines@) == worker_panel_text(states@, width, height),
        color_rows(panel.block_colors@) == block_rows(
            block_colors(states@),
            blocks_per_row(width, states@.len()),
        ),
{
    let mut lines: Vec<String> = Vec::new();
    let mut header: Vec<char> = Vec::new();
    push_str(&mut header, "Workers (");
    let d = decimal_chars(states.len() as u64);
    push_all(&mut header, d.as_slice());
    push_str(&mut header, "):");
    let header_text = to_string(header.as_slice());
    lines.push(header_text);
    proof {
        lemma_views_push(Seq::empty(), header_text);
    }
    let avail: usize = if width >= 4 { (width - 4) as usize } else { 0 };
    let per_row: usize = if avail < states.len() { avail } else { states.len() };
    let (mut rows, block_colors) = block_lines(states, per_row);
    let ghost l0 = lines@;
    let ghost r0 = rows@;
    lines.append(&mut rows);
    proof {
        lemma_views_concat(l0, r0);
    }
    let blank = String::new();
    let ghost l1 = lines@;
    lines.push(blank);
    proof {
        lemma_views_push(l1, blank);
    }
    let hosts = processing_host_list(states);
    let limit: usize = if height > 10 { 5 } else { 3 };
    let mut section = hosts_lines(&hosts, limit);
    let ghost l2 = lines@;
    let ghost s2 = section@;
    lines.append(&mut section);
    proof {
        lemma_views_concat(l2, s2);
    }
    if height > 8 {
        let legend = to_string(
            chars_of("Legend: \u{2593} Idle  \u{2588} Working  \u{2588} Connecting").as_slice(),
        );
        let ghost l3 = lines@;
        lines.push(legend);
        proof {
            lemma_views_push(l3, legend);
        }
    } else {
        assert(string_views(lines@) + Seq::<Seq<char>>::empty() =~= string_views(lines@));
    }
    WorkerPanel { lines, block_colors }
}

} // verus!
