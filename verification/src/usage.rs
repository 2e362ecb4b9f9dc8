//! Usage figures: how much of a resource is taken, as a share of the whole
//! and as a level of concern.
//!
//! Shares are whole numbers of hundredths of a percent, rounded down, so
//! that nothing here needs a fraction. A resource of size zero is used to
//! zero percent.

use vstd::prelude::*;

verus! {

/// Hundredths of a percent in a full share.
pub const FULL_SHARE: u32 = 10_000;

/// The share, in percent, from which usage is elevated.
pub const ELEVATED_PERCENT: u64 = 60;

/// The share, in percent, from which usage is critical.
pub const CRITICAL_PERCENT: u64 = 80;

/// How far a resource is used, in bytes.
#[derive(Clone, Copy, Debug, PartialEq, Eq, Structural)]
pub struct Usage {
    pub used: u64,
    pub total: u64,
}

/// The size of one disk and what is free on it, in bytes.
#[derive(Clone, Copy, Debug, PartialEq, Eq, Structural)]
pub struct DiskSpace {
    pub total: u64,
    pub available: u64,
}

/// How much concern a usage figure deserves.
#[derive(Clone, Copy, Debug, PartialEq, Eq, Structural)]
pub enum Severity {
    Normal,
    Elevated,
    Critical,
}

/// `amount` as a `u64`, or the largest `u64` where it does not fit.
pub open spec fn saturated(amount: nat) -> u64 {
    if amount <= u64::MAX {
        amount as u64
    } else {
        u64::MAX
    }
}

/// The level of concern for a share given in hundredths of a percent.
pub open spec fn spec_severity_of_share(hundredths: nat) -> Severity {
    if hundredths >= CRITICAL_PERCENT * 100 {
        Severity::Critical
    } else if hundredths >= ELEVATED_PERCENT * 100 {
        Severity::Elevated
    } else {
        Severity::Normal
    }
}

impl DiskSpace {
    /// The bytes in use on the disk: its size less what is free, and zero
    /// where more is reported free than the disk holds.
    pub open spec fn spec_used(self) -> nat {
        if self.available <= self.total {
            (self.total - self.available) as nat
        } else {
            0
        }
    }
}

/// The bytes in use on all of `disks`.
pub open spec fn used_space(disks: Seq<DiskSpace>) -> nat
    decreases disks.len(),
{
    if disks.len() == 0 {
        0
    } else {
        used_space(disks.drop_last()) + disks.last().spec_used()
    }
}

/// The size of all of `disks` together.
pub open spec fn total_space(disks: Seq<DiskSpace>) -> nat
    decreases disks.len(),
{
    if disks.len() == 0 {
        0
    } else {
        total_space(disks.drop_last()) + disks.last().total as nat
    }
}

impl Usage {
    /// The share in use, in hundredths of a percent, rounded down; zero for
    /// a resource of size zero.
    pub open spec fn spec_share(self) -> nat {
        if self.total == 0 {
            0
        } else {
            (self.used * 10_000 / self.total as int) as nat
        }
    }

    /// The share in use, in whole percent, rounded down; zero for a
    /// resource of size zero.
    pub open spec fn spec_percent(self) -> nat {
        if self.total == 0 {
            0
        } else {
            (self.used * 100 / self.total as int) as nat
        }
    }

    /// The level of concern: critical from [`CRITICAL_PERCENT`] percent in
    /// use, elevated from [`ELEVATED_PERCENT`], and normal below that and
    /// for a resource of size zero.
    pub open spec fn spec_severity(self) -> Severity {
        if self.total == 0 {
            Severity::Normal
        } else if self.used * 100 >= CRITICAL_PERCENT * self.total {
            Severity::Critical
        } else if self.used * 100 >= ELEVATED_PERCENT * self.total {
            Severity::Elevated
        } else {
            Severity::Normal
        }
    }

    /// A usage figure from two counters.
    pub fn new(used: u64, total: u64) -> (usage: Usage)
        ensures
            usage == (Usage { used, total }),
    {
        Usage { used, total }
    }

    /// The share in use, in hundredths of a percent, rounded down.
    pub fn share(&self) -> (hundredths: u128)
        ensures
            hundredths == self.spec_share(),
    {
        if self.total == 0 {
            0
        } else {
            (self.used as u128 * 10_000) / (self.total as u128)
        }
    }

    /// The share in use, in whole percent, rounded down.
    pub fn percent(&self) -> (percent: u128)
        ensures
            percent == self.spec_percent(),
    {
        if self.total == 0 {
            0
        } else {
            (self.used as u128 * 100) / (self.total as u128)
        }
    }

    /// The share to draw in a gauge, in hundredths of a percent: the share
    /// in use, and a full share where more is in use than there is.
    pub fn gauge_share(&self) -> (hundredths: u32)
        ensures
            hundredths == if self.spec_share() <= FULL_SHARE {
                self.spec_share()
            } else {
                FULL_SHARE as nat
            },
    {
        let share: u128 = self.share();
        if share <= FULL_SHARE as u128 {
            share as u32
        } else {
            FULL_SHARE
        }
    }

    /// The level of concern for this usage.
    pub fn severity(&self) -> (level: Severity)
        ensures
            level == self.spec_severity(),
    {
        if self.total == 0 {
            Severity::Normal
        } else if self.used as u128 * 100 >= CRITICAL_PERCENT as u128 * self.total as u128 {
            Severity::Critical
        } else if self.used as u128 * 100 >= ELEVATED_PERCENT as u128 * self.total as u128 {
            Severity::Elevated
        } else {
            Severity::Normal
        }
    }
}

/// The level of concern for a share given in hundredths of a percent, as
/// the processor's share is.
pub fn severity_of_share(hundredths: u32) -> (level: Severity)
    ensures
        level == spec_severity_of_share(hundredths as nat),
{
    if hundredths as u64 >= CRITICAL_PERCENT * 100 {
        Severity::Critical
    } else if hundredths as u64 >= ELEVATED_PERCENT * 100 {
        Severity::Elevated
    } else {
        Severity::Normal
    }
}

/// The usage of all disks together. A sum beyond what `u64` holds is
/// reported as `u64::MAX`.
pub fn disk_usage(disks: &[DiskSpace]) -> (usage: Usage)
    ensures
        usage.used == saturated(used_space(disks@)),
        usage.total == saturated(total_space(disks@)),
{
    let mut used: u64 = 0;
    let mut total: u64 = 0;
    let mut at: usize = 0;
    while at < disks.len()
        invariant
            at <= disks.len(),
            used == saturated(used_space(disks@.take(at as int))),
            total == saturated(total_space(disks@.take(at as int))),
        decreases disks.len() - at,
    {
        proof {
            assert(disks@.take(at + 1).drop_last() =~= disks@.take(at as int));
        }
        let disk = disks[at];
        total = total.saturating_add(disk.total);
        used = used.saturating_add(disk.total.saturating_sub(disk.available));
        at = at + 1;
    }
    proof {
        assert(disks@.take(at as int) =~= disks@);
    }
    Usage { used, total }
}

/// One reading of the machine: the processor's share in hundredths of a
/// percent, never more than a full share, and the usage of memory, swap and
/// disks.
#[derive(Clone, Copy, Debug, PartialEq, Eq, Structural)]
pub struct MetricsSnapshot {
    pub cpu_share: u32,
    pub memory: Usage,
    pub swap: Usage,
    pub disk: Usage,
}

impl MetricsSnapshot {
    /// The reading that stands in where the machine could not be read:
    /// nothing in use of nothing.
    pub fn zeroed() -> (snapshot: MetricsSnapshot)
        ensures
            snapshot.cpu_share == 0,
            snapshot.memory == (Usage { used: 0, total: 0 }),
            snapshot.swap == (Usage { used: 0, total: 0 }),
            snapshot.disk == (Usage { used: 0, total: 0 }),
    {
        let nothing = Usage { used: 0, total: 0 };
        MetricsSnapshot { cpu_share: 0, memory: nothing, swap: nothing, disk: nothing }
    }

    /// A reading from raw counters. A processor share above a full share is
    /// taken as a full share.
    pub fn from_readings(
        cpu_share: u32,
        memory: Usage,
        swap: Usage,
        disks: &[DiskSpace],
    ) -> (snapshot: MetricsSnapshot)
        ensures
            snapshot.cpu_share == if cpu_share <= FULL_SHARE {
                cpu_share
            } else {
                FULL_SHARE
            },
            snapshot.memory == memory,
            snapshot.swap == swap,
            snapshot.disk.used == saturated(used_space(disks@)),
            snapshot.disk.total == saturated(total_space(disks@)),
    {
        let cpu_share: u32 = if cpu_share <= FULL_SHARE {
            cpu_share
        } else {
            FULL_SHARE
        };
        MetricsSnapshot { cpu_share, memory, swap, disk: disk_usage(disks) }
    }
}

/// A resource of size zero is used to zero percent, whatever is counted as
/// used, and is of no concern.
pub proof fn lemma_nothing_is_used_of_nothing(used: u64)
    ensures
        (Usage { used, total: 0 }).spec_share() == 0,
        (Usage { used, total: 0 }).spec_percent() == 0,
        (Usage { used, total: 0 }).spec_severity() == Severity::Normal,
{
}

/// A resource that is used up is used to a hundred percent.
pub proof fn lemma_all_used_is_full_share(total: u64)
    requires
        total > 0,
    ensures
        (Usage { used: total, total }).spec_share() == FULL_SHARE,
        (Usage { used: total, total }).spec_percent() == 100,
        (Usage { used: total, total }).spec_severity() == Severity::Critical,
{
    let whole = total as int;
    assert(whole * 10_000 / whole == 10_000) by (nonlinear_arith)
        requires
            whole > 0,
    ;
    assert(whole * 100 / whole == 100) by (nonlinear_arith)
        requires
            whole > 0,
    ;
}

/// Where no more is used than there is, the share is at most a full share.
pub proof fn lemma_share_is_within_full(usage: Usage)
    requires
        usage.used <= usage.total,
    ensures
        usage.spec_share() <= FULL_SHARE,
        usage.spec_percent() <= 100,
{
    if usage.total != 0 {
        let used = usage.used as int;
        let whole = usage.total as int;
        assert(used * 10_000 / whole <= 10_000) by (nonlinear_arith)
            requires
                0 <= used <= whole,
                whole > 0,
        ;
        assert(used * 100 / whole <= 100) by (nonlinear_arith)
            requires
                0 <= used <= whole,
                whole > 0,
        ;
    }
}

/// Using more of the same resource never lowers the share.
pub proof fn lemma_share_grows_with_use(less: Usage, more: Usage)
    requires
        less.total == more.total,
        less.used <= more.used,
    ensures
        less.spec_share() <= more.spec_share(),
        less.spec_percent() <= more.spec_percent(),
{
    if less.total != 0 {
        let low = less.used as int;
        let high = more.used as int;
        let whole = less.total as int;
        assert(low * 10_000 / whole <= high * 10_000 / whole) by (nonlinear_arith)
            requires
                0 <= low <= high,
                whole > 0,
        ;
        assert(low * 100 / whole <= high * 100 / whole) by (nonlinear_arith)
            requires
                0 <= low <= high,
                whole > 0,
        ;
    }
}

/// The level of concern of a usage is that of its share: rounding the share
/// down moves no usage across a threshold.
pub proof fn lemma_severity_follows_share(usage: Usage)
    ensures
        usage.spec_severity() == spec_severity_of_share(usage.spec_share()),
{
    if usage.total != 0 {
        let used = usage.used as int;
        let whole = usage.total as int;
        assert((used * 10_000 / whole >= 8_000) <==> (used * 100 >= 80 * whole))
            by (nonlinear_arith)
            requires
                0 <= used,
                whole > 0,
        ;
        assert((used * 10_000 / whole >= 6_000) <==> (used * 100 >= 60 * whole))
            by (nonlinear_arith)
            requires
                0 <= used,
                whole > 0,
        ;
    }
}

/// No more is in use on the disks than they hold.
pub proof fn lemma_disks_hold_what_is_used(disks: Seq<DiskSpace>)
    ensures
        used_space(disks) <= total_space(disks),
        saturated(used_space(disks)) <= saturated(total_space(disks)),
    decreases disks.len(),
{
    if disks.len() != 0 {
        lemma_disks_hold_what_is_used(disks.drop_last());
    }
}

} // verus!
