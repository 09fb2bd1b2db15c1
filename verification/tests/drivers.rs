use pikernel::divmod::{division_qr, uint_div_qr, QR};
use pikernel::gpio::{pin_function_set, pin_output_clear, pin_output_set, GpioRegisters, PinFunction};
use pikernel::mmio::{apply_mask, read_bit_value, write_bit_value, Register};
use pikernel::spi::{set_cdiv, set_dlen, write_tx, write_tx_long, read_rx, read_rx_long,
    SpiControlStatus, SpiRegisters};
use pikernel::timer::{timer_counter, timer_counter_higher, timer_counter_lower, Timer,
    TimerRegisters};
use pikernel::uart::{uart_busy, uart_read, uart_read_blocking, uart_receive_fifo_empty,
    uart_receive_fifo_full, uart_set_fifo, uart_transmit_fifo_empty, uart_transmit_fifo_full,
    uart_write, uart_write_byte, uart_write_str, Uart, UartData};
use pikernel::watchdog::{is_watchdog_running, restart, start_watchdog, stop_watchdog,
    watchdog_timeout, WatchdogRegisters, WatchdogTimeout, PM_PASSWORD};

fn zero_gpio() -> GpioRegisters {
    GpioRegisters {
        fsel0: 0,
        fsel1: 0,
        fsel2: 0,
        fsel3: 0,
        fsel4: 0,
        fsel5: 0,
        set0: 0,
        set1: 0,
        clr0: 0,
        clr1: 0,
    }
}

fn fresh_uart(fr: u32) -> Uart {
    Uart { dr: 0, fr, lcrh: 0, sent: Vec::new() }
}

#[test]
fn peripheral_addresses_map_into_the_io_window() {
    assert_eq!(apply_mask(0x7E20_0010), 0x2020_0010);
    assert_eq!(Register::from_addr(0x7E20_1000).addr, 0x2020_1000);
    assert_eq!(Register::new(0x7E10_001C).addr, 0x2010_001C);
}

#[test]
fn bit_primitives_touch_one_bit() {
    assert!(read_bit_value(0b100, 2));
    assert!(!read_bit_value(0b100, 3));
    assert_eq!(write_bit_value(0, 5, 1), 0b10_0000);
    assert_eq!(write_bit_value(0xFFFF_FFFF, 5, 0), 0xFFFF_FFDF);
    // A value other than 0 or 1 only contributes its low bit.
    assert_eq!(write_bit_value(0, 5, 2), 0);
}

#[test]
fn pin_function_set_writes_one_field() {
    let mut regs = zero_gpio();
    pin_function_set(&mut regs, 47, PinFunction::OUTPUT);
    // Pin 47 is field 7 of the fifth select register.
    assert_eq!(regs.fsel4, 0b001 << 21);
    assert_eq!(regs.fsel0, 0);
    pin_function_set(&mut regs, 47, PinFunction::ALT3);
    assert_eq!(regs.fsel4, 0b111 << 21);
    pin_function_set(&mut regs, 40, PinFunction::ALT0);
    assert_eq!(regs.fsel4, (0b111 << 21) | 0b100);
    pin_function_set(&mut regs, 9, PinFunction::ALT5);
    assert_eq!(regs.fsel0, 0b010 << 27);
}

#[test]
fn pin_function_codes() {
    assert_eq!(PinFunction::INPUT.value(), 0b000);
    assert_eq!(PinFunction::OUTPUT.value(), 0b001);
    assert_eq!(PinFunction::ALT0.value(), 0b100);
    assert_eq!(PinFunction::ALT1.value(), 0b101);
    assert_eq!(PinFunction::ALT2.value(), 0b110);
    assert_eq!(PinFunction::ALT3.value(), 0b111);
    assert_eq!(PinFunction::ALT4.value(), 0b011);
    assert_eq!(PinFunction::ALT5.value(), 0b010);
}

#[test]
fn pin_output_set_and_clear_pick_the_right_bank() {
    let mut regs = zero_gpio();
    pin_output_set(&mut regs, 5);
    assert_eq!(regs.set0, 1 << 5);
    assert_eq!(regs.set1, 0);
    pin_output_set(&mut regs, 47);
    assert_eq!(regs.set1, 1 << 15);
    pin_output_clear(&mut regs, 5);
    assert_eq!(regs.clr0, 1 << 5);
    pin_output_clear(&mut regs, 53);
    assert_eq!(regs.clr1, 1 << 21);
}

#[test]
fn division_computes_quotient_and_remainder() {
    let mut qr = QR { q: 0, r: 0 };
    division_qr(17, 5, &mut qr);
    assert_eq!((qr.q, qr.r), (3, 2));
    uint_div_qr(0xFFFF_FFFF, 3, &mut qr);
    assert_eq!((qr.q, qr.r), (0x5555_5555, 0));
    uint_div_qr(7, 9, &mut qr);
    assert_eq!((qr.q, qr.r), (0, 7));
    uint_div_qr(0, 1, &mut qr);
    assert_eq!((qr.q, qr.r), (0, 0));
    uint_div_qr(1 << 31, 1, &mut qr);
    assert_eq!((qr.q, qr.r), (1 << 31, 0));
}

#[test]
fn division_by_zero_sets_the_marker() {
    let mut qr = QR { q: 1234, r: 0 };
    division_qr(42, 0, &mut qr);
    assert_eq!(qr.r, 0xFFFF_FFFF);
    assert_eq!(qr.q, 1234); // untouched
}

#[test]
fn uart_flags_follow_the_flag_register() {
    let uart = fresh_uart((1 << 7) | (1 << 4));
    assert!(uart_transmit_fifo_empty(&uart));
    assert!(uart_receive_fifo_empty(&uart));
    assert!(!uart_receive_fifo_full(&uart));
    assert!(!uart_transmit_fifo_full(&uart));
    assert!(!uart_busy(&uart));
}

#[test]
fn uart_writes_log_every_byte_in_order() {
    let mut uart = fresh_uart(0);
    uart_write(&mut uart, b'h');
    uart_write_byte(&mut uart, b'i');
    uart_write_str(&mut uart, " there");
    assert_eq!(uart.sent, b"hi there".to_vec());
    assert_eq!(uart.dr, b'e' as u32);
}

#[test]
fn uart_fifo_switch_touches_one_bit() {
    let mut uart = fresh_uart(0);
    uart.lcrh = 0b1000_0001;
    uart_set_fifo(&mut uart, true);
    assert_eq!(uart.lcrh, 0b1001_0001);
    uart_set_fifo(&mut uart, false);
    assert_eq!(uart.lcrh, 0b1000_0001);
}

#[test]
fn uart_data_splits_byte_and_errors() {
    let word = (1 << 11) | (1 << 8) | 0x41;
    let data = UartData(word);
    assert!(data.has_error());
    assert!(data.overrun_error());
    assert!(!data.break_error());
    assert!(!data.parity_error());
    assert!(data.framing_error());
    assert_eq!(data.data(), 0x41);

    let clean = UartData(0x42);
    assert!(!clean.has_error());
    assert_eq!(clean.data(), 0x42);
}

#[test]
fn uart_reads_hand_back_the_data_register() {
    let mut uart = fresh_uart(0);
    uart.dr = 0x55;
    assert_eq!(uart_read(&uart).0, 0x55);
    assert_eq!(uart_read_blocking(&uart).0, 0x55);
}

#[test]
fn spi_apply_stores_recorded_bits_and_keeps_the_rest() {
    let mut regs = SpiRegisters { cs: (1 << 20) | (1 << 3), fifo: 0, clk: 0, dlen: 0 };
    let mut batch = SpiControlStatus::new()
        .set_ta(true)
        .set_cpol(false)
        .set_cs(2)
        .set_ren(true);
    batch.apply(&mut regs);
    // Transfer active on, clock polarity forced off, chip select 2,
    // read enable on; the read-only FIFO-full bit survives untouched.
    assert_eq!(
        regs.cs,
        (1 << 20) | (1 << 7) | (1 << 12) | (1 << 1)
    );
    // The batch is spent: applying again changes nothing.
    let before = regs.cs;
    batch.apply(&mut regs);
    assert_eq!(regs.cs, before);
}

#[test]
fn spi_builders_cover_every_writable_bit() {
    let mut regs = SpiRegisters { cs: 0, fifo: 0, clk: 0, dlen: 0 };
    let mut batch = SpiControlStatus::new()
        .set_len_long(true)
        .set_dma_len(true)
        .set_cspol2(true)
        .set_cspol1(true)
        .set_cspol0(true)
        .set_lossi(true)
        .set_ren(true)
        .set_adcs(true)
        .set_intr(true)
        .set_intd(true)
        .set_dmaen(true)
        .set_ta(true)
        .set_cspol(true)
        .set_clear_rx(true)
        .set_clear_tx(true)
        .set_cpol(true)
        .set_cpha(true)
        .set_cs(1);
    batch.apply(&mut regs);
    // Every writable bit except the chip-select high bit is on; the
    // read-only window (16..=20) and the reserved bits stay zero.
    let expected: u32 = (1 << 25)
        | (1 << 24)
        | (1 << 23)
        | (1 << 22)
        | (1 << 21)
        | (1 << 13)
        | (1 << 12)
        | (1 << 11)
        | (1 << 10)
        | (1 << 9)
        | (1 << 8)
        | (1 << 7)
        | (1 << 6)
        | (1 << 5)
        | (1 << 4)
        | (1 << 3)
        | (1 << 2)
        | 1;
    assert_eq!(regs.cs, expected);
}

#[test]
fn spi_status_bits_read_the_register() {
    let regs = SpiRegisters { cs: (1 << 20) | (1 << 18) | (1 << 16), fifo: 0, clk: 0, dlen: 0 };
    let cs = SpiControlStatus::new();
    assert!(cs.rx_fifo_full(&regs));
    assert!(!cs.rx_fifo_needs_reading(&regs));
    assert!(cs.tx_fifo_can_accept_data(&regs));
    assert!(!cs.rx_fifo_contains_data(&regs));
    assert!(cs.transfer_done(&regs));
}

#[test]
fn spi_fifo_and_clock_registers() {
    let mut regs = SpiRegisters { cs: 0, fifo: 0, clk: 0, dlen: 0 };
    write_tx(&mut regs, 0xAB);
    assert_eq!(regs.fifo, 0xAB);
    write_tx_long(&mut regs, 0xDEAD_BEEF);
    assert_eq!(regs.fifo, 0xDEAD_BEEF);
    assert_eq!(read_rx(&regs), 0xEF);
    assert_eq!(read_rx_long(&regs), 0xDEAD_BEEF);
    set_cdiv(&mut regs, 256);
    assert_eq!(regs.clk, 256);
    set_cdiv(&mut regs, 0);
    assert_eq!(regs.clk, 0);
    set_dlen(&mut regs, 1024);
    assert_eq!(regs.dlen, 1024);
}

#[test]
fn timers_own_their_compare_register_and_match_bit() {
    let mut regs = TimerRegisters { cs: 0, clo: 100, chi: 2, c0: 0, c1: 0, c2: 0, c3: 0 };
    let t1 = Timer::new(1);
    t1.set_compare(&mut regs, 500);
    assert_eq!(regs.c1, 500);
    assert_eq!(regs.c0, 0);
    assert_eq!(t1.get_compare(&regs), 500);

    t1.set_compare_from_now(&mut regs, 50);
    assert_eq!(regs.c1, 150);
    // The offset wraps around the 32-bit counter.
    regs.clo = u32::MAX;
    t1.set_compare_from_now(&mut regs, 5);
    assert_eq!(regs.c1, 4);

    regs.cs = 0b0010;
    assert!(t1.has_triggered(&regs));
    assert!(!Timer::new(0).has_triggered(&regs));
    let t3 = Timer::new(3);
    t3.clear_interrupt(&mut regs);
    assert_eq!(regs.cs, 0b1010);
}

#[test]
fn the_counter_combines_both_words() {
    let regs = TimerRegisters { cs: 0, clo: 0x89AB_CDEF, chi: 0x1234_5678, c0: 0, c1: 0, c2: 0, c3: 0 };
    assert_eq!(timer_counter_lower(&regs), 0x89AB_CDEF);
    assert_eq!(timer_counter_higher(&regs), 0x1234_5678);
    assert_eq!(timer_counter(&regs), 0x1234_5678_89AB_CDEF);
}

#[test]
fn watchdog_timeout_conversions() {
    let t = WatchdogTimeout::from_secs(10);
    assert_eq!(t.as_ticks(), 10 << 16);
    assert_eq!(t.as_secs(), 10);
    assert_eq!(t.as_msecs(), 10_000);
    let half = WatchdogTimeout(1 << 15);
    assert_eq!(half.as_secs(), 0);
    assert_eq!(half.as_msecs(), 500);
}

#[test]
fn watchdog_start_and_stop_write_the_passworded_words() {
    let mut regs = WatchdogRegisters { rstc: 0xFF, rsts: 0, wdog: 0 };
    start_watchdog(&mut regs, WatchdogTimeout::from_secs(1));
    assert_eq!(regs.wdog, PM_PASSWORD | (1 << 16));
    assert_eq!(regs.rstc, PM_PASSWORD | 0xCF | 0x20);
    assert!(is_watchdog_running(&regs));
    assert_eq!(watchdog_timeout(&regs).as_ticks(), 1 << 16);
    stop_watchdog(&mut regs);
    assert_eq!(regs.rstc, PM_PASSWORD | 0x102);
    assert!(!is_watchdog_running(&regs));
}

#[test]
fn restart_spreads_the_partition_bits() {
    let mut regs = WatchdogRegisters { rstc: 0, rsts: 0xFFF, wdog: 0 };
    restart(&mut regs, 63);
    // Partition 63 ("halt") lands on every even bit position up to 10.
    assert_eq!(regs.rsts, PM_PASSWORD | (0xFFF & 0xFFFF_FAAA) | 0b101_0101_0101);
    assert_eq!(regs.wdog, PM_PASSWORD | 10);
    assert_eq!(regs.rstc, PM_PASSWORD | 0x20);

    let mut fresh = WatchdogRegisters { rstc: 0, rsts: 0, wdog: 0 };
    restart(&mut fresh, 2);
    assert_eq!(fresh.rsts, PM_PASSWORD | 0b100);
}
