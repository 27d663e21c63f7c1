use texpack::progress::{Printer, Timer, STATUS_WIDTH};

#[test]
fn printer_reserves_rows_below() {
    let mut printer = Printer::new(3);
    printer.reserve_line(0);
    assert_eq!(printer.offset, 3);
    printer.reserve_line(2);
    assert_eq!(printer.offset, 5);
}

#[test]
fn printer_pads_to_status_width() {
    let mut printer = Printer::new(0);
    assert_eq!(printer.padding(), STATUS_WIDTH);
    printer.begin("Reading a.png".to_string());
    assert_eq!(printer.text, "Reading a.png");
    assert_eq!(printer.padding(), 96 - 13);
    printer.begin("x".repeat(120));
    assert_eq!(printer.padding(), 0);
}

#[test]
fn timer_restarts_on_elapsed() {
    let mut timer = Timer::new();
    let mut spin: u64 = 0;
    for i in 0..100_000u64 {
        spin = spin.wrapping_add(i);
    }
    assert!(spin > 0);
    let first = timer.elapsed();
    timer.start();
    let second = timer.elapsed();
    assert!(first.as_nanos() < 60_000_000_000);
    assert!(second.as_nanos() < 60_000_000_000);
}
