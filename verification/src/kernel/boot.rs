//! Boot sequencing of the Moore kernel: the result codes, what each hardware
//! probe means, and the order in which the stages run.

use vstd::prelude::*;

verus! {

pub const UART0_BASE: u32 = 0xFF00_0000;
pub const UART_CTRL: u32 = 0xFF00_0000;
pub const UART_STAT: u32 = 0xFF00_0004;
pub const UART_DATA: u32 = 0xFF00_0008;
pub const UART_BAUD: u32 = 0xFF00_000C;

pub const DDR_CTRL_BASE: u32 = 0xF800_0000;
pub const GPIO_BASE: u32 = 0xFF0B_0000;
pub const SDIO_BASE: u32 = 0xFF0C_0000;

pub const CRL_APB_BASE: u32 = 0xFF5E_0000;
pub const SLCR_LOCK: u32 = 0xFF5E_0004;
pub const SLCR_UNLOCK: u32 = 0xFF5E_0008;
pub const SLCR_LOCKSTA: u32 = 0xFF5E_000C;

pub const SLCR_UNLOCK_MAGIC: u32 = 0xDF0D;
pub const SLCR_LOCK_MAGIC: u32 = 0xDF0D;

pub const BOOT_SUCCESS: u32 = 0x0D00_0000;
pub const BOOT_FAIL_CLOCKS: u32 = 0x0D00_0001;
pub const BOOT_FAIL_DDR: u32 = 0x0D00_0002;
pub const BOOT_FAIL_UART: u32 = 0x0D00_0003;
pub const BOOT_FAIL_SD: u32 = 0x0D00_0004;

/// Baud divisor written to the UART at boot.
pub const UART_BAUD_DIVISOR: u32 = 0x3B;
/// Control word that enables the UART at boot.
pub const UART_ENABLE: u32 = 0x17;

/// Outcome of a boot stage: a code and a human-readable message.
pub struct BootResult {
    pub code: u32,
    pub message: &'static str,
}

impl BootResult {
    pub fn success() -> (r: Self)
        ensures
            r.code == BOOT_SUCCESS,
            r.message@ == "Boot complete"@,
    {
        BootResult { code: BOOT_SUCCESS, message: "Boot complete" }
    }

    pub fn fail_clocks() -> (r: Self)
        ensures
            r.code == BOOT_FAIL_CLOCKS,
            r.message@ == "Clock initialization failed"@,
    {
        BootResult { code: BOOT_FAIL_CLOCKS, message: "Clock initialization failed" }
    }

    pub fn fail_ddr() -> (r: Self)
        ensures
            r.code == BOOT_FAIL_DDR,
            r.message@ == "DDR4 initialization failed"@,
    {
        BootResult { code: BOOT_FAIL_DDR, message: "DDR4 initialization failed" }
    }

    pub fn fail_uart() -> (r: Self)
        ensures
            r.code == BOOT_FAIL_UART,
            r.message@ == "UART initialization failed"@,
    {
        BootResult { code: BOOT_FAIL_UART, message: "UART initialization failed" }
    }

    pub fn fail_sd() -> (r: Self)
        ensures
            r.code == BOOT_FAIL_SD,
            r.message@ == "SD card initialization failed"@,
    {
        BootResult { code: BOOT_FAIL_SD, message: "SD card initialization failed" }
    }

    /// Whether the code is `BOOT_SUCCESS`.
    pub fn is_ok(&self) -> (b: bool)
        ensures
            b == (self.code == BOOT_SUCCESS),
    {
        self.code == BOOT_SUCCESS
    }
}

/// Clock setup (unlock, probe, relock) always succeeds.
pub fn init_clocks() -> (r: BootResult)
    ensures
        r.code == BOOT_SUCCESS,
{
    BootResult::success()
}

/// DDR4 is up unless its controller register reads zero.
pub fn init_ddr(ddr_ctrl: u32) -> (r: BootResult)
    ensures
        r.code == (if ddr_ctrl == 0 { BOOT_FAIL_DDR } else { BOOT_SUCCESS }),
{
    if ddr_ctrl == 0 {
        return BootResult::fail_ddr();
    }
    BootResult::success()
}

/// UART setup (baud divisor, then enable) always succeeds.
pub fn init_uart() -> (r: BootResult)
    ensures
        r.code == BOOT_SUCCESS,
{
    BootResult::success()
}

/// The SD card is up unless its controller register reads zero.
pub fn init_sdcard(sdio_ctrl: u32) -> (r: BootResult)
    ensures
        r.code == (if sdio_ctrl == 0 { BOOT_FAIL_SD } else { BOOT_SUCCESS }),
{
    if sdio_ctrl == 0 {
        return BootResult::fail_sd();
    }
    BootResult::success()
}

/// Whether the UART transmit FIFO is full, from its status register.
pub fn uart_tx_full(stat: u32) -> (b: bool)
    ensures
        b == (stat & 0x20 != 0),
{
    (stat & 0x20) != 0
}

/// The stages of boot, in the order they run.
#[derive(Clone, Copy, PartialEq, Eq, Structural)]
pub enum BootStage {
    Clocks,
    Ddr,
    Uart,
    Gpio,
    SdCard,
}

/// What comes after a stage.
pub enum BootStep {
    /// Run the next stage.
    Next(BootStage),
    /// Boot finished with this result.
    Finished(BootResult),
}

/// The stage that follows `stage` when it succeeded, or `None` after the last.
pub open spec fn stage_after(stage: BootStage) -> Option<BootStage> {
    match stage {
        BootStage::Clocks => Some(BootStage::Ddr),
        BootStage::Ddr => Some(BootStage::Uart),
        BootStage::Uart => Some(BootStage::Gpio),
        BootStage::Gpio => Some(BootStage::SdCard),
        BootStage::SdCard => None,
    }
}

/// The code boot ends with when `stage` fails.
pub open spec fn failure_code(stage: BootStage) -> u32 {
    match stage {
        BootStage::Clocks => BOOT_FAIL_CLOCKS,
        BootStage::Ddr => BOOT_FAIL_DDR,
        BootStage::Uart => BOOT_FAIL_UART,
        BootStage::Gpio => BOOT_SUCCESS,
        BootStage::SdCard => BOOT_FAIL_SD,
    }
}

/// The first stage of boot, after the banner lines.
pub fn boot_first_stage() -> (s: BootStage)
    ensures
        s == BootStage::Clocks,
{
    BootStage::Clocks
}

/// The banner printed before any stage runs.
pub fn boot_banner() -> (lines: (&'static str, &'static str))
    ensures
        lines.0@ == "MOORE KERNEL v0.1.0\n"@,
        lines.1@ == "Initializing hardware...\n"@,
{
    ("MOORE KERNEL v0.1.0\n", "Initializing hardware...\n")
}

/// Decides, from whether `stage` succeeded, the line to print and what comes
/// next: the following stage, or the end of boot (a failure code at the
/// first failing stage, success after the SD card). GPIO setup cannot fail
/// and prints nothing.
pub fn boot_step(stage: BootStage, ok: bool) -> (r: (&'static str, BootStep))
    ensures
        !ok && stage != BootStage::Gpio ==> (r.1 matches BootStep::Finished(res) && res.code == failure_code(stage)),
        ok || stage == BootStage::Gpio ==> match stage_after(stage) {
            Some(next) => (r.1 matches BootStep::Next(s) && s == next),
            None => (r.1 matches BootStep::Finished(res) && res.code == BOOT_SUCCESS),
        },
        stage == BootStage::Clocks ==> r.0@ == (if ok { "[OK] Clocks\n"@ } else { "FAIL: clocks\n"@ }),
        stage == BootStage::Ddr ==> r.0@ == (if ok { "[OK] DDR4\n"@ } else { "FAIL: DDR\n"@ }),
        stage == BootStage::Uart ==> r.0@ == (if ok { "[OK] UART\n"@ } else { "FAIL: UART\n"@ }),
        stage == BootStage::Gpio ==> r.0@ == ""@,
        stage == BootStage::SdCard ==> r.0@ == (if ok { "[OK] SD Card\nHardware initialized.\n\n"@ } else { "FAIL: SD\n"@ }),
{
    match stage {
        BootStage::Clocks => if ok {
            ("[OK] Clocks\n", BootStep::Next(BootStage::Ddr))
        } else {
            ("FAIL: clocks\n", BootStep::Finished(BootResult::fail_clocks()))
        },
        BootStage::Ddr => if ok {
            ("[OK] DDR4\n", BootStep::Next(BootStage::Uart))
        } else {
            ("FAIL: DDR\n", BootStep::Finished(BootResult::fail_ddr()))
        },
        BootStage::Uart => if ok {
            ("[OK] UART\n", BootStep::Next(BootStage::Gpio))
        } else {
            ("FAIL: UART\n", BootStep::Finished(BootResult::fail_uart()))
        },
        BootStage::Gpio => ("", BootStep::Next(BootStage::SdCard)),
        BootStage::SdCard => if ok {
            ("[OK] SD Card\nHardware initialized.\n\n", BootStep::Finished(BootResult::success()))
        } else {
            ("FAIL: SD\n", BootStep::Finished(BootResult::fail_sd()))
        },
    }
}

/// The UART device (its registers live at fixed addresses).
pub struct Uart;

impl Uart {
    pub fn new() -> (u: Self) {
        Uart
    }
}

} // verus!
