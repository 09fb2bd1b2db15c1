//! Watchdog and power-management driver logic over a model of the
//! controller.
//!
//! A [`WatchdogRegisters`] holds the three power-management register
//! words the driver touches. Every store to them carries the hardware
//! password in the high byte; the contracts state the exact words stored.
//! These registers are undocumented; the constants follow the values the
//! platform's reference operating system uses.

use vstd::prelude::*;

verus! {

/// Password the controller demands in the high byte of every store.
pub const PM_PASSWORD: u32 = 0x5A000000;

/// Mask of the watchdog-timeout field.
pub const PM_WDOG_TIME_SET: u32 = 0x000FFFFF;

/// Mask clearing the restart-configuration bits.
pub const PM_RSTC_WRCFG_CLR: u32 = 0xFFFFFFCF;

/// Restart-configuration value for a full reset.
pub const PM_RSTC_WRCFG_FULL_RESET: u32 = 0x00000020;

/// Reset value of the restart-control register.
pub const PM_RSTC_RESET: u32 = 0x00000102;

/// Mask clearing the boot-partition bits of the restart-status register.
pub const PM_RSTS_PARTITION_CLR: u32 = 0xFFFFFAAA;

/// The power-management register words the driver touches.
pub struct WatchdogRegisters {
    /// Restart control.
    pub rstc: u32,
    /// Restart status, holding the boot-partition bits.
    pub rsts: u32,
    /// Watchdog timeout.
    pub wdog: u32,
}

/// A watchdog timeout, stored as hardware ticks: 65536 ticks per second.
pub struct WatchdogTimeout(pub u32);

impl WatchdogTimeout {
    /// A timeout of the given number of seconds.
    pub fn from_secs(secs: u32) -> (r: WatchdogTimeout)
        requires
            secs < 0x10000,
        ensures
            r.0 == secs * 0x10000,
    {
        proof {
            assert(secs << 16 == secs * 0x10000) by (bit_vector)
                requires
                    secs < 0x10000u32,
            ;
        }
        WatchdogTimeout(secs << 16)
    }

    /// The timeout in whole seconds.
    pub fn as_secs(&self) -> (r: u32)
        ensures
            r == self.0 / 0x10000,
    {
        proof {
            let v = self.0;
            assert(v >> 16 == v / 0x10000) by (bit_vector);
        }
        self.0 >> 16
    }

    /// The timeout in milliseconds.
    pub fn as_msecs(&self) -> (r: u32)
        requires
            self.0 * 1000 <= u32::MAX,
        ensures
            r == (self.0 * 1000) / 0x10000,
    {
        let prod: u32 = self.0 * 1000;
        proof {
            assert(prod >> 16 == prod / 0x10000) by (bit_vector);
        }
        prod >> 16
    }

    /// The timeout as raw hardware ticks.
    pub fn as_ticks(&self) -> (r: u32)
        ensures
            r == self.0,
    {
        self.0
    }
}

/// Whether the watchdog is running: the full-reset configuration bit of
/// the restart-control register is set.
pub fn is_watchdog_running(regs: &WatchdogRegisters) -> (r: bool)
    ensures
        r == (regs.rstc & PM_RSTC_WRCFG_FULL_RESET != 0),
{
    regs.rstc & PM_RSTC_WRCFG_FULL_RESET != 0
}

/// Arms the watchdog: stores the timeout's tick field, then rewrites the
/// restart-control word for a full reset when the timeout expires.
pub fn start_watchdog(regs: &mut WatchdogRegisters, timeout: WatchdogTimeout)
    ensures
        final(regs).wdog == PM_PASSWORD | (timeout.0 & PM_WDOG_TIME_SET),
        final(regs).rstc == PM_PASSWORD | (old(regs).rstc & PM_RSTC_WRCFG_CLR)
            | PM_RSTC_WRCFG_FULL_RESET,
        final(regs).rsts == old(regs).rsts,
{
    regs.wdog = PM_PASSWORD | (timeout.as_ticks() & PM_WDOG_TIME_SET);

    let cur = regs.rstc;
    regs.rstc = PM_PASSWORD | (cur & PM_RSTC_WRCFG_CLR)  // clear WRCFG bits
        | PM_RSTC_WRCFG_FULL_RESET;
}

/// Disarms the watchdog: stores the reset value into restart control.
pub fn stop_watchdog(regs: &mut WatchdogRegisters)
    ensures
        final(regs).rstc == PM_PASSWORD | PM_RSTC_RESET,
        final(regs).rsts == old(regs).rsts,
        final(regs).wdog == old(regs).wdog,
{
    regs.rstc = PM_PASSWORD | PM_RSTC_RESET;
}

/// The currently programmed watchdog timeout: the tick field of the
/// timeout register.
pub fn watchdog_timeout(regs: &WatchdogRegisters) -> (r: WatchdogTimeout)
    ensures
        r.0 == regs.wdog & PM_WDOG_TIME_SET,
{
    WatchdogTimeout(regs.wdog & PM_WDOG_TIME_SET)
}

/// The boot-partition bit pattern for a restart request: the partition
/// number's six bits spread to every other bit position.
pub open spec fn partition_bits_spec(p: u32) -> u32 {
    ((p & 0x01) << 0) | ((p & 0x02) << 1) | ((p & 0x04) << 2) | ((p & 0x08) << 3) | ((p & 0x10)
        << 4) | ((p & 0x20) << 5)
}

/// Requests a restart from the given boot partition (63 means "halt"):
/// writes the partition bits into restart status, arms the watchdog with
/// a ten-tick timeout, and configures a full reset.
pub fn restart(regs: &mut WatchdogRegisters, partition: u8)
    ensures
        final(regs).rsts == PM_PASSWORD | (old(regs).rsts & PM_RSTS_PARTITION_CLR)
            | partition_bits_spec(partition as u32),
        final(regs).wdog == PM_PASSWORD | 10,
        final(regs).rstc == PM_PASSWORD | (old(regs).rstc & PM_RSTC_WRCFG_CLR)
            | PM_RSTC_WRCFG_FULL_RESET,
{
    let p = partition as u32;
    let partition_bits = ((p & 0x01) << 0) | ((p & 0x02) << 1) | ((p & 0x04) << 2) | ((p & 0x08)
        << 3) | ((p & 0x10) << 4) | ((p & 0x20) << 5);

    let cur = regs.rsts;
    regs.rsts = PM_PASSWORD | (cur & PM_RSTS_PARTITION_CLR)  // Clear partition bits
        | partition_bits;

    regs.wdog = PM_PASSWORD | 10;  // timeout: 10 ticks

    let cur = regs.rstc;
    regs.rstc = PM_PASSWORD | (cur & PM_RSTC_WRCFG_CLR)  // clear WRCFG bits
        | PM_RSTC_WRCFG_FULL_RESET;
}

} // verus!
