use feo::memory::Memory;
use feo::monitor::{cpu_load_lines, effective_delay, memory_use_lines, separator_line, uptime_line};

#[test]
fn delay_zero_means_two_seconds() {
    assert_eq!(effective_delay(0), 2);
    assert_eq!(effective_delay(1), 1);
    assert_eq!(effective_delay(5), 5);
}

#[test]
fn cpu_load_gauges() {
    let lines = cpu_load_lines(2, &[300, 112, 1000], &[100, 100, 600]);
    assert_eq!(lines.len(), 3);
    assert_eq!(lines[0].label, "CPU1");
    assert_eq!(lines[0].gauge, format!("[{:<20}]{:>3}%", "|".repeat(20), 100));
    assert_eq!(lines[1].label, "CPU2");
    assert_eq!(lines[1].gauge, "[|                   ]  6%");
    assert_eq!(lines[2].label, "CPU3");
    assert_eq!(lines[2].gauge, format!("[{}]200%", "|".repeat(40)));
}

#[test]
fn bar_rounding_goes_half_up() {
    // 7 / 5 = 1.4 rounds to 1, 8 / 5 = 1.6 rounds to 2, 12.5 rounds to 3.
    let lines = cpu_load_lines(1, &[7, 8, 13, 12], &[0, 0, 0, 0]);
    assert_eq!(lines[0].gauge, "[|                   ]  7%");
    assert_eq!(lines[1].gauge, "[||                  ]  8%");
    assert_eq!(lines[2].gauge, "[|||                 ] 13%");
    assert_eq!(lines[3].gauge, "[||                  ] 12%");
}

#[test]
fn uptime_lines() {
    assert_eq!(uptime_line(0), format!(": {:>16}:{:02}:{:02}", 0, 0, 0));
    assert_eq!(uptime_line(3725), ":                1:02:05");
    assert_eq!(uptime_line(350735), format!(": {:>16}:{:02}:{:02}", 97, 25, 35));
}

#[test]
fn memory_use_text() {
    let mut total = Memory::from_kib(16318112, 2097148);
    let available = Memory::from_kib(8159056, 2097148);
    let (ram, swap) = memory_use_lines(&available, &total);
    assert_eq!(ram, format!(":{:>26}", "7.78Gi/15.56Gi"));
    assert_eq!(swap, format!(":{:>25}", "0Ki/2.00Gi"));
    total.save_with_unit();
    let (ram2, swap2) = memory_use_lines(&available, &total);
    assert_eq!(ram, ram2);
    assert_eq!(swap, swap2);
    let used = 16318112f32 - 8159056f32;
    assert_eq!(ram, format!(":{:>26}", format!("{:.2}Gi/{:.2}Gi", used / 1048576., 16318112f32 / 1048576.)));
}

#[test]
fn separator_is_thirty_dashes() {
    assert_eq!(separator_line(), "-".repeat(30));
}
