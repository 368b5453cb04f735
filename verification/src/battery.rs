use vstd::prelude::*;

verus! {

/// What a battery backend reports: whether a battery is there, its charge
/// in percent, and whether it is charging.
#[derive(Debug, Clone, Copy, PartialEq, Eq, Structural)]
pub struct BatteryState {
    pub present: bool,
    pub level_percent: u8,
    pub charging: bool,
}

/// A pretend battery that slowly drains and refills, for machines without
/// one.
pub struct SimBatteryBackend {
    pub level: u8,
}

/// The simulated level after an update that saw timer byte `tick`: every
/// sixteenth tick value it drops by one, wrapping from 5 back to 95.
pub open spec fn sim_next(level: u8, tick: u8) -> u8 {
    if tick % 16 == 0 {
        if level > 5 {
            (level - 1) as u8
        } else {
            95
        }
    } else {
        level
    }
}

impl SimBatteryBackend {
    /// A battery at 87%.
    pub fn new() -> (b: SimBatteryBackend)
        ensures
            b.level == 87,
    {
        SimBatteryBackend { level: 87 }
    }

    /// Back to 87%.
    pub fn init(&mut self)
        ensures
            final(self).level == 87,
    {
        self.level = 87;
    }

    /// One step, `tick` being a byte read from the timer (see `sim_next`).
    pub fn update(&mut self, tick: u8)
        ensures
            final(self).level == sim_next(old(self).level, tick),
    {
        if tick % 16 == 0 {
            if self.level > 5 {
                self.level = self.level - 1;
            } else {
                self.level = 95;
            }
        }
    }

    /// Always present, charging above 80%.
    pub fn state(&self) -> (s: BatteryState)
        ensures
            s == (BatteryState { present: true, level_percent: self.level, charging: self.level > 80 }),
    {
        BatteryState { present: true, level_percent: self.level, charging: self.level > 80 }
    }
}

/// A battery read through ACPI: whether the battery device was found, and
/// the last state read.
pub struct AcpiBatteryBackend {
    pub found: bool,
    pub last: BatteryState,
}

/// The charge in percent from the remaining and last full capacities,
/// capped at 100; 0 when the full capacity is unknown.
pub open spec fn acpi_level(remaining: u32, last_full: u32) -> u8 {
    if last_full == 0 {
        0
    } else {
        let p = remaining as int * 100 / last_full as int;
        if p > 100 { 100 } else { p as u8 }
    }
}

impl AcpiBatteryBackend {
    /// No battery known yet.
    pub fn new() -> (b: AcpiBatteryBackend)
        ensures
            !b.found,
            b.last == (BatteryState { present: false, level_percent: 0, charging: false }),
    {
        AcpiBatteryBackend { found: false, last: BatteryState { present: false, level_percent: 0, charging: false } }
    }

    /// Records whether the battery device was found in the ACPI namespace;
    /// a found battery counts as present.
    pub fn init(&mut self, found: bool)
        ensures
            final(self).found == found,
            final(self).last == (if found { BatteryState { present: true, ..old(self).last } } else { old(self).last }),
    {
        self.found = found;
        if found {
            self.last.present = true;
        }
    }

    /// Takes a reading: `bst` is the battery status (state bits and
    /// remaining capacity) and `bif` the last full capacity, when the ACPI
    /// methods answered. Without a battery or a status, none is present;
    /// else the level is computed (see `acpi_level`) and bit 1 of the state
    /// means charging.
    pub fn update(&mut self, bst: Option<(u32, u32)>, bif: Option<u32>)
        ensures
            final(self).found == old(self).found,
            !old(self).found || bst.is_none() ==> final(self).last == (BatteryState {
                present: false,
                ..old(self).last
            }),
            old(self).found && bst.is_some() ==> final(self).last == (BatteryState {
                present: true,
                level_percent: match bif {
                    Some(full) => acpi_level(bst.unwrap().1, full),
                    None => 0,
                },
                charging: bst.unwrap().0 % 4 >= 2,
            }),
    {
        if !self.found {
            self.last.present = false;
            return;
        }
        match bst {
            Some((state, remaining)) => {
                let mut level: u8 = 0;
                match bif {
                    Some(full) => {
                        if full > 0 {
                            let percent = (remaining as u64 * 100) / (full as u64);
                            level = if percent > 100 { 100 } else { percent as u8 };
                        }
                    },
                    None => {},
                }
                let charging = (state & 2) != 0;
                proof {
                    assert(((state & 2u32) != 0) == (state % 4 >= 2)) by (bit_vector);
                }
                self.last = BatteryState { present: true, level_percent: level, charging };
            },
            None => {
                self.last.present = false;
            },
        }
    }

    /// The last state read.
    pub fn state(&self) -> (s: BatteryState)
        ensures
            s == self.last,
    {
        self.last
    }
}


/// Whether the emulator's battery port reported a level: 1 to 100.
pub open spec fn emu_level_ok(level: u8) -> bool {
    0 < level <= 100
}

/// Whether the embedded controller's status byte reports a battery: it is
/// not `0xFF` and has bit 4 set.
pub open spec fn ec_has_battery(status: u8) -> bool {
    status != 0xFF && status & 0x10 != 0
}

/// Whether the CMOS status byte reports a good battery: bit 2 clear.
pub open spec fn cmos_ok(cmos: u8) -> bool {
    cmos & 0x04 == 0
}

/// The next step of the battery probe: a port to read, or its answer.
#[derive(Debug, Clone, Copy, PartialEq, Eq, Structural)]
pub enum ProbeStep {
    /// Ask the embedded controller and read its status byte.
    ReadEcStatus,
    /// Ask the embedded controller for the level and read it.
    ReadEcLevel,
    /// Read the CMOS status byte.
    ReadCmos,
    /// Whether a battery is there.
    Present(bool),
    /// The battery level in percent.
    Level(u8),
}

/// Whether there is a battery, from what the probe has read so far: the
/// emulator's port, then the embedded controller's status, then the CMOS
/// status, each read only while the ones before found nothing.
pub open spec fn detect_spec(emu: u8, ec_status: Option<u8>, cmos: Option<u8>) -> ProbeStep {
    if emu_level_ok(emu) {
        ProbeStep::Present(true)
    } else {
        match ec_status {
            None => ProbeStep::ReadEcStatus,
            Some(st) => if ec_has_battery(st) {
                ProbeStep::Present(true)
            } else {
                match cmos {
                    None => ProbeStep::ReadCmos,
                    Some(c) => ProbeStep::Present(cmos_ok(c)),
                }
            },
        }
    }
}

/// The battery level, from what the probe has read so far: the emulator's
/// level when it reports one; else the embedded controller's level when it
/// reports a battery and a level of at most 100; else 100 when the CMOS
/// reports a good battery and 10 when not.
pub open spec fn level_spec(emu: u8, ec_status: Option<u8>, ec_level: Option<u8>, cmos: Option<u8>) -> ProbeStep {
    if emu_level_ok(emu) {
        ProbeStep::Level(emu)
    } else {
        match ec_status {
            None => ProbeStep::ReadEcStatus,
            Some(st) => if ec_has_battery(st) && ec_level is None {
                ProbeStep::ReadEcLevel
            } else if ec_has_battery(st) && ec_level.unwrap() <= 100 {
                ProbeStep::Level(ec_level.unwrap())
            } else {
                match cmos {
                    None => ProbeStep::ReadCmos,
                    Some(c) => ProbeStep::Level(if cmos_ok(c) { 100u8 } else { 10u8 }),
                }
            },
        }
    }
}

/// Whether the embedded controller is ready for a command: bit 1 of its
/// status port clear.
pub fn ec_ready(status: u8) -> (r: bool)
    ensures
        r == (status & 0x02 == 0),
{
    status & 0x02 == 0
}

/// The next step of finding out whether there is a battery (see
/// `detect_spec`).
pub fn detect_step(emu: u8, ec_status: Option<u8>, cmos: Option<u8>) -> (r: ProbeStep)
    ensures
        r == detect_spec(emu, ec_status, cmos),
{
    if 0 < emu && emu <= 100 {
        return ProbeStep::Present(true);
    }
    match ec_status {
        None => ProbeStep::ReadEcStatus,
        Some(st) => {
            if st != 0xFF && st & 0x10 != 0 {
                ProbeStep::Present(true)
            } else {
                match cmos {
                    None => ProbeStep::ReadCmos,
                    Some(c) => ProbeStep::Present(c & 0x04 == 0),
                }
            }
        },
    }
}

/// The next step of reading the battery level (see `level_spec`).
pub fn level_step(emu: u8, ec_status: Option<u8>, ec_level: Option<u8>, cmos: Option<u8>) -> (r: ProbeStep)
    ensures
        r == level_spec(emu, ec_status, ec_level, cmos),
{
    if 0 < emu && emu <= 100 {
        return ProbeStep::Level(emu);
    }
    match ec_status {
        None => ProbeStep::ReadEcStatus,
        Some(st) => {
            let has = st != 0xFF && st & 0x10 != 0;
            if has {
                match ec_level {
                    None => {
                        return ProbeStep::ReadEcLevel;
                    },
                    Some(l) => {
                        if l <= 100 {
                            return ProbeStep::Level(l);
                        }
                    },
                }
            }
            match cmos {
                None => ProbeStep::ReadCmos,
                Some(c) => ProbeStep::Level(if c & 0x04 == 0 { 100 } else { 10 }),
            }
        },
    }
}

/// The battery driver's cached answer: the last level read, whether a
/// battery was found, and whether the probe has run.
#[derive(Debug, Clone, Copy, PartialEq, Eq, Structural)]
pub struct BatteryDriver {
    pub level: u8,
    pub present: bool,
    pub initialized: bool,
}

impl BatteryDriver {
    /// Before the probe: full, no battery.
    pub fn new() -> (d: BatteryDriver)
        ensures
            d == (BatteryDriver { level: 100, present: false, initialized: false }),
    {
        BatteryDriver { level: 100, present: false, initialized: false }
    }

    /// Whether the probe still has to run (see `init`).
    pub fn needs_init(&self) -> (r: bool)
        ensures
            r == !self.initialized,
    {
        !self.initialized
    }

    /// Records the probe's answer once: whether a battery is there and,
    /// when it is, its level. Later calls change nothing.
    pub fn init(&mut self, present: bool, level: u8)
        ensures
            old(self).initialized ==> *final(self) == *old(self),
            !old(self).initialized ==> *final(self) == (BatteryDriver {
                level: if present { level } else { old(self).level },
                present,
                initialized: true,
            }),
    {
        if self.initialized {
            return;
        }
        self.present = present;
        if present {
            self.level = level;
        }
        self.initialized = true;
    }

    /// Records a new level read while a battery is there; without one the
    /// level stays.
    pub fn update(&mut self, level: u8)
        requires
            old(self).initialized,
        ensures
            *final(self) == (BatteryDriver { level: if old(self).present { level } else { old(self).level }, ..*old(self) }),
    {
        if self.present {
            self.level = level;
        }
    }

    /// Whether a battery was found.
    pub fn has_battery(&self) -> (r: bool)
        requires
            self.initialized,
        ensures
            r == self.present,
    {
        self.present
    }

    /// The level in percent.
    pub fn get_level(&self) -> (r: u8)
        requires
            self.initialized,
        ensures
            r == self.level,
    {
        self.level
    }

    /// What the status bar shows: the level when a battery was found.
    pub fn shown_level(&self) -> (r: Option<u8>)
        ensures
            r == if self.initialized && self.present { Some(self.level) } else { None::<u8> },
    {
        if self.initialized && self.present {
            Some(self.level)
        } else {
            None
        }
    }
}

} // verus!
