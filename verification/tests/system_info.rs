use feo::error::InfoError;
use feo::memory::Memory;
use feo::system_info::SystemInfo;

const PROC_STAT: &str = "cpu  2255 34 2290 22625563 6290 127 456 0 0 0\ncpu0 1132 34 1441 11311718 3675 127 438 0 0 0\ncpu1 1123 0 849 11313845 2614 0 18 0 0 0\nintr 114930548 113199788 3 0 5 263 0 4 [... lots more numbers ...]\nctxt 1990473\nbtime 1062191376\n";

#[test]
fn test_get_cpu_time() {
    let times = SystemInfo::get_cpu_time(PROC_STAT, SystemInfo::get_cpus("2\n").ok().unwrap()).ok().unwrap();
    assert_eq!(times, vec![1132 + 1441, 1123 + 849]);
}

#[test]
fn test_get_uptime() {
    let field = SystemInfo::get_uptime_text("350735.47 234388.90\n");
    assert_eq!(field, "350735.47");
    let secs: f64 = field.parse().unwrap();
    assert_eq!(secs as u64, 350735);
}

#[test]
fn cpu_count_reads_nproc_output() {
    assert_eq!(SystemInfo::get_cpus("8\n").ok(), Some(8));
    assert_eq!(SystemInfo::get_cpus("+3 \t\n").ok(), Some(3));
    match SystemInfo::get_cpus("eight\n") {
        Err(InfoError::NotANumber(t)) => assert_eq!(t, "eight"),
        _ => panic!("expected NotANumber"),
    }
    assert!(SystemInfo::get_cpus("").is_err());
    assert!(SystemInfo::get_cpus(" 4").is_err());
}

#[test]
fn missing_cpu_is_reported() {
    match SystemInfo::get_cpu_time(PROC_STAT, 3) {
        Err(InfoError::NotFound(w)) => assert_eq!(w, "cpu2"),
        _ => panic!("expected NotFound"),
    }
    assert_eq!(SystemInfo::get_cpu_time(PROC_STAT, 0).ok(), Some(vec![]));
}

#[test]
fn short_cpu_line_is_reported() {
    match SystemInfo::get_cpu_time("cpu0 5 6", 1) {
        Err(InfoError::NoValue(w)) => assert_eq!(w, "cpu0"),
        _ => panic!("expected NoValue"),
    }
    match SystemInfo::get_cpu_time("cpu0 5 6 x", 1) {
        Err(InfoError::NotANumber(t)) => assert_eq!(t, "x"),
        _ => panic!("expected NotANumber"),
    }
}

#[test]
fn gpu_temperature_field() {
    assert_eq!(SystemInfo::get_gpu_temp_text("temp=45.6'C\n"), Some("45.6".to_string()));
    assert_eq!(SystemInfo::get_gpu_temp_text("no temperature"), None);
}

#[test]
fn cpu_temperature_field() {
    assert_eq!(SystemInfo::get_cpu_temp_text("45000\n"), "45000");
    assert_eq!(SystemInfo::get_cpu_temp_text("  45000 \t\n"), "  45000");
}

const MEMINFO: &str = "MemTotal:       16318112 kB\nMemFree:         1048576 kB\nMemAvailable:    8159056 kB\nSwapTotal:       2097148 kB\nSwapFree:        1000 kB\n";

#[test]
fn system_info_new_gathers_a_sample() {
    let info = SystemInfo::new(PROC_STAT, 2, MEMINFO, 350735).ok().unwrap();
    assert_eq!(info.cpu_time, vec![2573, 1972]);
    assert_eq!(info.mem_free.ram(), 8159056);
    assert_eq!(info.mem_free.swap(), 1000);
    assert_eq!(info.uptime, 350735);
    let expected = Memory::get_free(MEMINFO).ok().unwrap();
    assert_eq!(info.mem_free.ram(), expected.ram());
}

#[test]
fn system_info_new_reports_cpu_fault_first() {
    match SystemInfo::new(PROC_STAT, 5, "nothing", 0) {
        Err(InfoError::NotFound(w)) => assert_eq!(w, "cpu2"),
        _ => panic!("expected NotFound"),
    }
    match SystemInfo::new(PROC_STAT, 1, "nothing", 0) {
        Err(InfoError::NotFound(w)) => assert_eq!(w, "MemAvailable"),
        _ => panic!("expected NotFound"),
    }
}

#[test]
fn cpu_time_sum_overflow_is_reported() {
    let text = format!("cpu0 {} 0 1 0\n", usize::MAX);
    match SystemInfo::get_cpu_time(&text, 1) {
        Err(InfoError::TooLarge) => {}
        _ => panic!("expected TooLarge"),
    }
    let text = format!("cpu0 {} 0 0 0\n", usize::MAX);
    assert_eq!(SystemInfo::get_cpu_time(&text, 1).ok(), Some(vec![usize::MAX]));
}
