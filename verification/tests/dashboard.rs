use mineping::tui::{
    is_quit_key, level_color, level_label, log_line, log_panel, log_scroll, worker_panel, DashboardKey,
    LogBuffer, LogEntry, LogLevel, PanelColor, WorkerState, MAX_LOG_LINES,
};

fn entry(i: usize) -> LogEntry {
    LogEntry { level: LogLevel::Info, message: format!("line {}", i), timestamp_ms: i as i64 }
}

#[test]
fn log_buffer_keeps_the_most_recent_lines() {
    let mut log = LogBuffer::new();
    for i in 0..(MAX_LOG_LINES + 5) {
        log.push(entry(i));
        assert!(log.entries.len() <= MAX_LOG_LINES);
    }
    assert_eq!(log.entries.len(), MAX_LOG_LINES);
    assert_eq!(log.entries[0].message, "line 5");
    assert_eq!(log.entries[MAX_LOG_LINES - 1].message, format!("line {}", MAX_LOG_LINES + 4));
}

#[test]
fn log_buffer_under_the_limit_keeps_everything() {
    let mut log = LogBuffer::new();
    log.push(entry(1));
    log.push(LogEntry { level: LogLevel::Error, message: "boom".to_string(), timestamp_ms: 7 });
    assert_eq!(log.entries.len(), 2);
    assert_eq!(log.entries[0].message, "line 1");
    assert_eq!(log.entries[1].level, LogLevel::Error);
    assert_eq!(log.entries[1].timestamp_ms, 7);
}

fn busy(host: &str) -> WorkerState {
    WorkerState::Processing { host: host.to_string() }
}

#[test]
fn worker_panel_wraps_blocks_and_lists_hosts() {
    let states = vec![
        WorkerState::Idle,
        busy("a.example"),
        WorkerState::Connecting,
        busy("b.example"),
        WorkerState::Idle,
    ];
    // 7 cells wide: 3 blocks to a row. 12 rows high: up to 5 hosts, legend shown.
    let panel = worker_panel(&states, 7, 12);
    assert_eq!(
        panel.block_colors,
        vec![
            vec![PanelColor::DarkGray, PanelColor::Green, PanelColor::Yellow],
            vec![PanelColor::Green, PanelColor::DarkGray],
        ]
    );
    let lines = panel.lines;
    assert_eq!(
        lines,
        vec![
            "Workers (5):".to_string(),
            " \u{2593}\u{2588}\u{2588}".to_string(),
            " \u{2588}\u{2593}".to_string(),
            String::new(),
            "Processing:".to_string(),
            " \u{2022} a.example".to_string(),
            " \u{2022} b.example".to_string(),
            String::new(),
            "Legend: \u{2593} Idle  \u{2588} Working  \u{2588} Connecting".to_string(),
        ]
    );
}

#[test]
fn worker_panel_counts_hosts_beyond_the_limit() {
    let states: Vec<WorkerState> = (0..6).map(|i| busy(&format!("h{}", i))).collect();
    // Wide enough for all blocks on one row; 9 rows high: 3 hosts by name, legend shown.
    let lines = worker_panel(&states, 80, 9).lines;
    assert_eq!(lines[0], "Workers (6):");
    assert_eq!(lines[1], format!(" {}", "\u{2588}".repeat(6)));
    assert_eq!(lines[2], "");
    assert_eq!(lines[3], "Processing:");
    assert_eq!(lines[4], " \u{2022} h0");
    assert_eq!(lines[6], " \u{2022} h2");
    assert_eq!(lines[7], " ... and 3 more");
    assert_eq!(lines[8], "");
    assert_eq!(lines.len(), 10);
}

#[test]
fn worker_panel_on_a_tiny_area() {
    // Narrower than the borders: one block per row. 8 rows high: no legend.
    let states = vec![WorkerState::Idle, WorkerState::Connecting];
    let panel = worker_panel(&states, 3, 8);
    assert_eq!(panel.lines, vec!["Workers (2):", " \u{2593}", " \u{2588}", ""]);
    assert_eq!(panel.block_colors, vec![vec![PanelColor::DarkGray], vec![PanelColor::Yellow]]);
    let none: Vec<WorkerState> = Vec::new();
    assert_eq!(worker_panel(&none, 40, 20).lines, vec![
        "Workers (0):".to_string(),
        String::new(),
        "Legend: \u{2593} Idle  \u{2588} Working  \u{2588} Connecting".to_string(),
    ]);
}

#[test]
fn log_lines_pad_the_level() {
    assert_eq!(level_label(LogLevel::Warn), "WARN ");
    assert_eq!(level_label(LogLevel::Error), "ERROR");
    let e = LogEntry { level: LogLevel::Info, message: "started".to_string(), timestamp_ms: 0 };
    assert_eq!(log_line(&e, "12:00:01.250"), "[12:00:01.250] INFO  started");
}

#[test]
fn log_scroll_shows_the_newest_lines() {
    assert_eq!(log_scroll(10, 20), 0);
    assert_eq!(log_scroll(20, 20), 0);
    assert_eq!(log_scroll(1000, 30), 970);
    assert_eq!(log_scroll(70_000, 0), (70_000usize - 65_536) as u16);
}

#[test]
fn log_panel_lines_and_colours() {
    assert_eq!(log_panel(&Vec::new(), &Vec::new()), vec!["Waiting for logs...".to_string()]);
    let entries = vec![
        LogEntry { level: LogLevel::Warn, message: "slow".to_string(), timestamp_ms: 0 },
        LogEntry { level: LogLevel::Debug, message: "tick".to_string(), timestamp_ms: 1 },
    ];
    let clocks = vec!["10:00:00.000".to_string(), "10:00:00.001".to_string()];
    assert_eq!(
        log_panel(&entries, &clocks),
        vec!["[10:00:00.000] WARN  slow".to_string(), "[10:00:00.001] DEBUG tick".to_string()]
    );
    assert_eq!(level_color(LogLevel::Error), PanelColor::Red);
    assert_eq!(level_color(LogLevel::Warn), PanelColor::Yellow);
    assert_eq!(level_color(LogLevel::Info), PanelColor::Green);
    assert_eq!(level_color(LogLevel::Debug), PanelColor::Cyan);
    assert_eq!(level_color(LogLevel::Trace), PanelColor::DarkGray);
}

#[test]
fn quit_keys() {
    assert!(is_quit_key(DashboardKey::Char('q'), false));
    assert!(is_quit_key(DashboardKey::Char('Q'), false));
    assert!(is_quit_key(DashboardKey::Esc, false));
    assert!(is_quit_key(DashboardKey::Char('c'), true));
    assert!(!is_quit_key(DashboardKey::Char('c'), false));
    assert!(!is_quit_key(DashboardKey::Char('x'), true));
    assert!(!is_quit_key(DashboardKey::Other, true));
}
