//! Port allocation for backend instances.

use std::collections::HashSet;
use vstd::prelude::*;
use crate::config::PortRange;

verus! {

broadcast use vstd::std_specs::hash::group_hash_axioms;

/// Manages a pool of ports for backend instances.
pub struct PortAllocator {
    /// All ports currently in use.
    used: HashSet<u16>,
    /// Configured allocation strategy.
    range: PortRange,
    /// Next candidate port for the scan (range mode only).
    next: u16,
}

/// The bounds of a range that can hand out ports.
pub open spec fn usable_range(range: PortRange) -> Option<(u16, u16)> {
    match range {
        PortRange::Range { start, end } => if start <= end && start != 0 {
            Some((start, end))
        } else {
            None
        },
        PortRange::EphemeralWord(_) => None,
    }
}

/// Where a scan begins: at the cursor, or at the start where the cursor has
/// left the range.
pub open spec fn scan_first(start: u16, end: u16, cursor: u16) -> u16 {
    if start <= cursor <= end {
        cursor
    } else {
        start
    }
}

/// The candidate that a scan looks at after `k` others: upwards to the end of
/// the range, then on from its start.
pub open spec fn scan_port(start: u16, end: u16, cursor: u16, k: int) -> int {
    let p = scan_first(start, end, cursor) + k;
    if p <= end {
        p
    } else {
        p - (end - start + 1)
    }
}

/// A scan of as many steps as the range is long looks at every port in it.
pub proof fn lemma_scan_covers(start: u16, end: u16, cursor: u16, port: int)
    requires
        start <= port <= end,
    ensures
        exists|k: int|
            0 <= k <= end - start && #[trigger] scan_port(start, end, cursor, k) == port,
{
    let first = scan_first(start, end, cursor);
    let k = if port >= first {
        port - first
    } else {
        port - first + (end - start + 1)
    };
    assert(scan_port(start, end, cursor, k) == port);
}

/// `p` is in use here, or the probe reported it as taken.
pub open spec fn passed_over<F: Fn(u16) -> bool>(used: Set<u16>, port_is_free: F, p: u16) -> bool {
    used.contains(p) || call_ensures(port_is_free, (p,), false)
}

/// Every candidate that the scan looks at before it comes to `p` is passed over.
pub open spec fn found_by_scan<F: Fn(u16) -> bool>(
    start: u16,
    end: u16,
    cursor: u16,
    used: Set<u16>,
    port_is_free: F,
    p: u16,
) -> bool {
    exists|k: int|
        0 <= k <= end - start && #[trigger] scan_port(start, end, cursor, k) == p && forall|j: int|
            0 <= j < k ==> passed_over(
                used,
                port_is_free,
                #[trigger] scan_port(start, end, cursor, j) as u16,
            )
}

/// The port after `p`, with 0 after the last.
pub open spec fn after(p: u16) -> u16 {
    if p == u16::MAX {
        0
    } else {
        (p + 1) as u16
    }
}

/// Where the first scan of a strategy begins.
pub open spec fn range_start(range: PortRange) -> u16 {
    match range {
        PortRange::Range { start, .. } => start,
        PortRange::EphemeralWord(_) => 0,
    }
}

/// What an allocator holds.
#[verifier::ext_equal]
pub struct PortsView {
    pub used: Set<u16>,
    pub range: PortRange,
    pub cursor: u16,
}

impl View for PortAllocator {
    type V = PortsView;

    open spec fn view(&self) -> PortsView {
        PortsView { used: self.ports(), range: self.strategy(), cursor: self.cursor() }
    }
}

/// What an allocation from the range does: the first port in scan order that
/// is neither in use nor taken by another process is marked as used and given
/// out; the next scan begins after it. Where no port is to be had, all of the
/// range has been passed over.
pub open spec fn scanned<F: Fn(u16) -> bool>(
    before: PortsView,
    port_is_free: F,
    next: PortsView,
    r: Option<u16>,
) -> bool {
    match usable_range(before.range) {
        None => r is None && next == before,
        Some((start, end)) => match r {
            Some(p) => {
                &&& start <= p <= end
                &&& !before.used.contains(p)
                &&& call_ensures(port_is_free, (p,), true)
                &&& found_by_scan(start, end, before.cursor, before.used, port_is_free, p)
                &&& next == (PortsView {
                    used: before.used.insert(p),
                    cursor: after(p),
                    ..before
                })
            },
            None => {
                &&& next == (PortsView {
                    cursor: after(scan_port(start, end, before.cursor, end - start) as u16),
                    ..before
                })
                &&& forall|p: u16|
                    start <= p <= end ==> #[trigger] passed_over(before.used, port_is_free, p)
            },
        },
    }
}

impl PortAllocator {
    /// The ports in use.
    pub closed spec fn ports(&self) -> Set<u16> {
        self.used@
    }

    /// The allocation strategy.
    pub closed spec fn strategy(&self) -> PortRange {
        self.range
    }

    /// The port that the next scan begins at, if it is in the range.
    pub closed spec fn cursor(&self) -> u16 {
        self.next
    }

    /// Creates a new allocator for the given port range.
    pub fn new(range: PortRange) -> (r: PortAllocator)
        ensures
            r.ports() == Set::<u16>::empty(),
            r.strategy() == range,
            r.cursor() == range_start(range),
    {
        let start: u16 = match &range {
            PortRange::Range { start, .. } => *start,
            PortRange::EphemeralWord(_) => 0,
        };
        PortAllocator { used: HashSet::new(), range, next: start }
    }

    /// Replaces the strategy; ports in use stay in use.
    pub fn set_range(&mut self, range: PortRange)
        ensures
            final(self).ports() == old(self).ports(),
            final(self).strategy() == range,
            final(self).cursor() == range_start(range),
    {
        let start: u16 = match &range {
            PortRange::Range { start, .. } => *start,
            PortRange::EphemeralWord(_) => 0,
        };
        self.range = range;
        self.next = start;
    }

    /// Tries to allocate a port from the configured range. `port_is_free`
    /// tells whether a port can be bound right now. The first port in scan
    /// order that is neither in use here nor taken by another process is
    /// marked as used and returned.
    pub fn allocate_range_sync<F: Fn(u16) -> bool>(&mut self, port_is_free: F) -> (r: Option<u16>)
        requires
            forall|p: u16| call_requires(port_is_free, (p,)),
        ensures
            scanned(old(self)@, port_is_free, final(self)@, r),
    {
        let (start, end): (u16, u16) = match &self.range {
            PortRange::Range { start, end } => (*start, *end),
            PortRange::EphemeralWord(_) => {
                return None;
            },
        };
        if start > end || start == 0 {
            return None;
        }
        let ghost cur0 = self.next;
        let ghost old_used = self.used@;
        let size: u32 = end as u32 - start as u32 + 1;
        let mut step: u32 = 0;
        if self.next < start {
            self.next = start;
        }
        while step < size
            invariant
                usable_range(old(self).strategy()) == Some((start, end)),
                self.range == old(self).range,
                cur0 == old(self).next,
                old_used == old(self).used@,
                self.used@ == old_used,
                0 < start <= end,
                size == end - start + 1,
                step <= size,
                step < size ==> {
                    let c = if self.next < start || self.next > end {
                        start
                    } else {
                        self.next
                    };
                    c == scan_port(start, end, cur0, step as int)
                },
                step > 0 ==> self.next == after(scan_port(start, end, cur0, step - 1) as u16),
                forall|p: u16| call_requires(port_is_free, (p,)),
                forall|j: int|
                    0 <= j < step ==> passed_over(
                        old_used,
                        port_is_free,
                        #[trigger] scan_port(start, end, cur0, j) as u16,
                    ),
            decreases size - step,
        {
            if self.next > end || self.next < start {
                self.next = start;
            }
            let candidate: u16 = self.next;
            self.next = if candidate == u16::MAX {
                0
            } else {
                candidate + 1
            };
            assert(candidate == scan_port(start, end, cur0, step as int));
            if self.used.contains(&candidate) {
                step += 1;
                continue;
            }
            if !port_is_free(candidate) {
                step += 1;
                continue;
            }
            self.used.insert(candidate);
            assert(found_by_scan(start, end, cur0, old_used, port_is_free, candidate));
            return Some(candidate);
        }
        assert forall|p: u16| start <= p <= end implies #[trigger] passed_over(
            old_used,
            port_is_free,
            p,
        ) by {
            lemma_scan_covers(start, end, cur0, p as int);
            let k = choose|k: int|
                0 <= k <= end - start && #[trigger] scan_port(start, end, cur0, k) == p;
        }
        None
    }

    /// Whether this allocator uses ephemeral ports.
    pub fn is_ephemeral(&self) -> (r: bool)
        ensures
            r == (self.strategy() is EphemeralWord),
    {
        match &self.range {
            PortRange::Range { .. } => false,
            PortRange::EphemeralWord(_) => true,
        }
    }

    /// Releases a port back to the pool.
    pub fn free(&mut self, port: u16)
        ensures
            final(self).ports() == old(self).ports().remove(port),
            final(self).strategy() == old(self).strategy(),
            final(self).cursor() == old(self).cursor(),
    {
        self.used.remove(&port);
    }

    /// Number of ports currently in use.
    pub fn used_count(&self) -> (r: usize)
        ensures
            r == self.ports().len(),
    {
        self.used.len()
    }
}

/// Two ports that are given out one after the other differ, and both are in
/// the configured range.
pub proof fn law_ports_are_not_shared<F: Fn(u16) -> bool>(
    before: PortsView,
    port_is_free: F,
    mid: PortsView,
    next: PortsView,
    p: u16,
    q: u16,
)
    requires
        scanned(before, port_is_free, mid, Some(p)),
        scanned(mid, port_is_free, next, Some(q)),
    ensures
        p != q,
        next.used.contains(p),
        next.used.contains(q),
        usable_range(before.range) matches Some((start, end)) && start <= p <= end && start <= q
            <= end,
{
}

/// A port is given out only from the configured range, only if it is not in use
/// and was found to be free; it is in use from then on. None is given out only
/// where every port of the range is in use or was found to be taken.
pub proof fn law_which_ports_are_given_out<F: Fn(u16) -> bool>(
    before: PortsView,
    port_is_free: F,
    next: PortsView,
    r: Option<u16>,
    start: u16,
    end: u16,
)
    requires
        scanned(before, port_is_free, next, r),
        before.range == (PortRange::Range { start, end }),
        0 < start <= end,
    ensures
        r matches Some(p) ==> start <= p <= end && !before.used.contains(p) && call_ensures(
            port_is_free,
            (p,),
            true,
        ) && next.used == before.used.insert(p),
        r is None ==> next.used == before.used && (forall|p: u16|
            start <= p <= end && !before.used.contains(p) ==> #[trigger] call_ensures(
                port_is_free,
                (p,),
                false,
            )),
        next.range == before.range,
{
    if r is None {
        assert forall|p: u16| start <= p <= end && !before.used.contains(p) implies #[trigger] call_ensures(
            port_is_free,
            (p,),
            false,
        ) by {
            assert(passed_over(before.used, port_is_free, p));
        }
    }
}

/// Ports go round: after one comes the next higher one, after the last of the
/// range the first, unless that one is in use or taken.
pub proof fn law_ports_go_round<F: Fn(u16) -> bool>(
    before: PortsView,
    port_is_free: F,
    mid: PortsView,
    next: PortsView,
    p: u16,
    q: u16,
    start: u16,
    end: u16,
)
    requires
        before.range == (PortRange::Range { start, end }),
        0 < start <= end,
        scanned(before, port_is_free, mid, Some(p)),
        scanned(mid, port_is_free, next, Some(q)),
    ensures
        ({
            let follow: int = if p < end {
                p + 1
            } else {
                start as int
            };
            !mid.used.contains(follow as u16) && !call_ensures(
                port_is_free,
                (follow as u16,),
                false,
            ) ==> q == follow
        }),
{
    let follow: int = if p < end {
        p + 1
    } else {
        start as int
    };
    let k = choose|k: int|
        0 <= k <= end - start && #[trigger] scan_port(start, end, mid.cursor, k) == q && forall|
            j: int,
        |
            0 <= j < k ==> passed_over(
                mid.used,
                port_is_free,
                #[trigger] scan_port(start, end, mid.cursor, j) as u16,
            );
    assert(scan_port(start, end, mid.cursor, 0) == follow);
}

/// Ports are looked at in order from the cursor to the end of the range, and
/// then from its start; a cursor outside of the range stands for the start. The
/// first that can be had is given out, and the cursor moves on behind it.
pub proof fn law_ports_are_given_out_in_order<F: Fn(u16) -> bool>(
    before: PortsView,
    port_is_free: F,
    next: PortsView,
    p: u16,
    q: u16,
    start: u16,
    end: u16,
)
    requires
        scanned(before, port_is_free, next, Some(p)),
        before.range == (PortRange::Range { start, end }),
        start <= q <= end,
    ensures
        ({
            let from = if start <= before.cursor <= end {
                before.cursor
            } else {
                start
            };
            let earlier = if p >= from {
                from <= q < p
            } else {
                q >= from || q < p
            };
            earlier ==> before.used.contains(q) || call_ensures(port_is_free, (q,), false)
        }),
        p < u16::MAX ==> next.cursor == p + 1,
        next.range == before.range,
{
    let from = scan_first(start, end, before.cursor);
    assert(found_by_scan(start, end, before.cursor, before.used, port_is_free, p));
    let k = choose|k: int|
        0 <= k <= end - start && #[trigger] scan_port(start, end, before.cursor, k) == p && forall|
            j: int,
        |
            0 <= j < k ==> passed_over(
                before.used,
                port_is_free,
                #[trigger] scan_port(start, end, before.cursor, j) as u16,
            );
    let j = if q >= from {
        q - from
    } else {
        q - from + (end - start + 1)
    };
    assert(scan_port(start, end, before.cursor, j) == q);
    if j < k {
        assert(passed_over(
            before.used,
            port_is_free,
            scan_port(start, end, before.cursor, j) as u16,
        ));
    }
}

/// No port is given out of a range that runs backwards, begins at zero or is
/// left to the system.
pub proof fn law_no_ports_of_unusable_ranges<F: Fn(u16) -> bool>(
    before: PortsView,
    port_is_free: F,
    next: PortsView,
    r: Option<u16>,
)
    requires
        scanned(before, port_is_free, next, r),
        match before.range {
            PortRange::Range { start, end } => start > end || start == 0,
            PortRange::EphemeralWord(_) => true,
        },
    ensures
        r is None,
        next == before,
{
}

} // verus!
