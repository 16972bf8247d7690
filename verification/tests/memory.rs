use feo::error::InfoError;
use feo::memory::{nearest_f32_value, Memory};

/// The monitor's own computation, in floating point.
fn float_format(mem_in_kb: f32) -> String {
    if mem_in_kb > 1000000. {
        format!("{:.2}Gi", mem_in_kb / 1048576.)
    } else if mem_in_kb > 1000. {
        format!("{:.2}Mi", mem_in_kb / 1024.)
    } else {
        format!("{mem_in_kb}Ki")
    }
}

#[test]
fn test_get_mem_with_unit() {
    let mut mem = Memory::from_kib(16000000, 100000);
    mem.save_with_unit();
    let correct_format_ram = format!("{:.2}Gi", mem.ram() as f32 / (1024.0 * 1024.0));
    let correct_format_swap = format!("{:.2}Mi", mem.swap() as f32 / (1024.0));

    assert_eq!(correct_format_ram, mem.get_ram_with_unit());
    assert_eq!(correct_format_swap, mem.get_swap_with_unit());
}

#[test]
fn format_exact_values() {
    assert_eq!(Memory::format(16000000), "15.26Gi");
    assert_eq!(Memory::format(100000), "97.66Mi");
    assert_eq!(Memory::format(1000), "1000Ki");
    assert_eq!(Memory::format(1001), "0.98Mi");
    assert_eq!(Memory::format(1000000), "976.56Mi");
    assert_eq!(Memory::format(1000001), "0.95Gi");
    assert_eq!(Memory::format(0), "0Ki");
    assert_eq!(Memory::format(-5), "-5Ki");
    assert_eq!(Memory::format(1048576 * 3), "3.00Gi");
}

#[test]
fn format_ties_go_to_even_digit() {
    // 1152 / 1024 = 1.125 and 3200 / 1024 = 3.125: exact ties.
    assert_eq!(Memory::format(1152), float_format(1152.0));
    assert_eq!(Memory::format(3200), float_format(3200.0));
    assert_eq!(Memory::format(1152), "1.12Mi");
    assert_eq!(Memory::format(1664), "1.62Mi");
}

#[test]
fn format_agrees_with_float_formatting() {
    let mut v: i128 = -20000;
    while v < 3_000_000 {
        assert_eq!(Memory::format(v), float_format(v as f32), "at {}", v);
        v += 7;
    }
    let mut v: u64 = 1;
    while v < u64::MAX / 3 {
        let f = nearest_f32_value(v as u128);
        assert_eq!(Memory::format(f as i128), float_format(v as f32), "at {}", v);
        v = v * 3 + 1;
    }
}

#[test]
fn nearest_f32_agrees_with_conversion() {
    let mut v: u64 = 0;
    while v < 40_000_000 {
        assert_eq!(nearest_f32_value(v as u128), (v as f32) as u128, "at {}", v);
        v += 1 + v / 1000;
    }
    for v in [16777217u64, 16777218, 16777219, 33554434, 33554438, u64::MAX, u64::MAX / 7] {
        assert_eq!(nearest_f32_value(v as u128), (v as f32) as u128, "at {}", v);
    }
    assert_eq!(nearest_f32_value(16777217), 16777216);
    assert_eq!(nearest_f32_value(16777219), 16777220);
}

const MEMINFO: &str = "MemTotal:       16318112 kB\nMemFree:         1048576 kB\nMemAvailable:    8159056 kB\nBuffers:          123456 kB\nSwapTotal:       2097148 kB\nSwapFree:        2097148 kB\n";

#[test]
fn get_total_and_free_read_meminfo() {
    let total = Memory::get_total(MEMINFO).ok().unwrap();
    assert_eq!(total.ram(), 16318112);
    assert_eq!(total.swap(), 2097148);
    let free = Memory::get_free(MEMINFO).ok().unwrap();
    assert_eq!(free.ram(), 8159056);
    assert_eq!(free.swap(), 2097148);
    let custom = Memory::new(MEMINFO, "MemFree", "Buffers").ok().unwrap();
    assert_eq!(custom.ram(), 1048576);
    assert_eq!(custom.swap(), 123456);
}

#[test]
fn missing_word_is_reported() {
    match Memory::new(MEMINFO, "Cached", "SwapFree") {
        Err(InfoError::NotFound(w)) => assert_eq!(w, "Cached"),
        _ => panic!("expected NotFound"),
    }
    match Memory::new(MEMINFO, "MemTotal", "SwapCached") {
        Err(InfoError::NotFound(w)) => assert_eq!(w, "SwapCached"),
        _ => panic!("expected NotFound"),
    }
}

#[test]
fn last_word_has_no_value() {
    match Memory::new("MemTotal: 5 kB\nSwapTotal: 7 kB", "MemTotal", "kB") {
        Err(InfoError::NotAnInteger(t)) => assert_eq!(t, "SwapTotal"),
        _ => panic!("expected NotAnInteger"),
    }
    match Memory::new("SwapTotal: 7\nMemTotal:", "MemTotal", "SwapTotal") {
        Err(InfoError::NoValue(w)) => assert_eq!(w, "MemTotal"),
        _ => panic!("expected NoValue"),
    }
}

#[test]
fn non_integer_numeral_is_reported() {
    match Memory::new("MemTotal: lots kB\nSwapTotal: 7 kB", "MemTotal", "SwapTotal") {
        Err(InfoError::NotAnInteger(t)) => assert_eq!(t, "lots"),
        _ => panic!("expected NotAnInteger"),
    }
    match Memory::new("MemTotal: +12 kB\nSwapTotal: 99999999999999999999 kB", "MemTotal", "SwapTotal") {
        Err(InfoError::NotAnInteger(t)) => assert_eq!(t, "99999999999999999999"),
        _ => panic!("expected NotAnInteger"),
    }
    match Memory::new("A 1.5 B 0", "A", "B") {
        Err(InfoError::NotAnInteger(t)) => assert_eq!(t, "1.5"),
        _ => panic!("expected NotAnInteger"),
    }
}

#[test]
fn fields_give_the_numerals_as_written() {
    let fields = Memory::fields("A 1.5 B 0", "A", "B").ok().unwrap();
    assert_eq!(fields.ram, "1.5");
    assert_eq!(fields.swap, "0");
    // A floating-point reader gets the amount from the numeral text.
    assert_eq!(fields.ram.parse::<f32>().unwrap(), 1.5);
    assert!(Memory::from_fields(&fields).is_err());
    let fields = Memory::fields(MEMINFO, "MemTotal", "SwapTotal").ok().unwrap();
    assert_eq!(fields.ram, "16318112");
    assert_eq!(fields.swap, "2097148");
    let m = Memory::from_fields(&fields).ok().unwrap();
    assert_eq!(m.ram(), 16318112);
    assert_eq!(m.swap(), 2097148);
    match Memory::fields("MemTotal: 5\nSwapTotal:", "MemTotal", "SwapTotal") {
        Err(InfoError::NoValue(w)) => assert_eq!(w, "SwapTotal"),
        _ => panic!("expected NoValue"),
    }
    match Memory::fields("MemTotal: 5", "MemTotal", "SwapTotal") {
        Err(InfoError::NotFound(w)) => assert_eq!(w, "SwapTotal"),
        _ => panic!("expected NotFound"),
    }
}

#[test]
fn integer_numerals_read_as_f32_would() {
    for numeral in ["16318112", "+7", "0", "16777217", "18446744073709551615"] {
        let fields = Memory::fields(&format!("R {numeral} S 1"), "R", "S").ok().unwrap();
        let m = Memory::from_fields(&fields).ok().unwrap();
        let f: f32 = numeral.parse().unwrap();
        assert_eq!(nearest_f32_value(m.ram() as u128), f as u128);
        assert_eq!(Memory::format(nearest_f32_value(m.ram() as u128) as i128), float_format(f));
    }
}

#[test]
fn saved_texts_read_back() {
    let mut mem = Memory::get_total(MEMINFO).ok().unwrap();
    mem.save_with_unit();
    assert_eq!(mem.get_ram_with_unit(), "15.56Gi");
    assert_eq!(mem.get_swap_with_unit(), "2.00Gi");
    assert_eq!(mem.get_ram_with_unit(), Memory::format(16318112));
    assert_eq!(mem.get_ram_with_unit(), float_format(16318112.0));
}

#[test]
fn held_values_are_the_nearest_f32() {
    let m = Memory::from_kib(16777217, 100);
    assert_eq!(m.ram(), 16777217);
    assert_eq!(m.ram_as_f32(), 16777216);
    assert_eq!(m.ram_as_f32(), (16777217u64 as f32) as u128);
    assert_eq!(m.swap_as_f32(), 100);
}
