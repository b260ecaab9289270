use vstd::prelude::*;

verus! {

/// A yaw, the rotation about the vertical axis, is counted in units of one
/// fifteen-billionth of a radian. Frame times are counted in nanoseconds, and
/// at this unit both rates below advance a yaw by a whole number of units per
/// nanosecond, so a yaw never drifts however the time is cut into frames.
pub const UNITS_PER_RADIAN: i128 = 15_000_000_000;

/// Nanoseconds in one second.
pub const NANOS_PER_SECOND: i128 = 1_000_000_000;

/// Spinning turns one radian per second: 15 units per nanosecond.
pub const SPIN_UNITS_PER_NANO: i128 = 15;

/// Orbiting turns minus one radian per fifteen seconds: -1 unit per
/// nanosecond.
pub const ORBIT_UNITS_PER_NANO: i128 = -1;

/// The rotation of an entity about the vertical axis, in units of
/// `1 / UNITS_PER_RADIAN` radian, not reduced to one turn.
#[derive(Clone, Copy, Debug, PartialEq, Eq, Structural)]
pub struct Yaw {
    pub units: i128,
}

/// The rates above, in radians per second.
pub proof fn lemma_rates()
    ensures
        SPIN_UNITS_PER_NANO * NANOS_PER_SECOND == 1 * UNITS_PER_RADIAN,
        15 * ORBIT_UNITS_PER_NANO * NANOS_PER_SECOND == -1 * UNITS_PER_RADIAN,
{
}

pub open spec fn fits_i128(v: int) -> bool {
    i128::MIN <= v <= i128::MAX
}

/// `y` turned by `by` units, or `y` unchanged where the sum would leave the
/// range of the representation.
pub open spec fn turned(y: Yaw, by: int) -> Yaw {
    if fits_i128(y.units + by) {
        Yaw { units: (y.units + by) as i128 }
    } else {
        y
    }
}

/// The sum of a run of frame times, in nanoseconds.
pub open spec fn total_nanos(ds: Seq<u64>) -> int
    decreases ds.len(),
{
    if ds.len() == 0 {
        0
    } else {
        total_nanos(ds.drop_last()) + ds.last()
    }
}

/// The yaw, in units, of a spinning entity that started at `y` after the
/// frames `ds`, one step per frame.
pub open spec fn spin_after(y: int, ds: Seq<u64>) -> int
    decreases ds.len(),
{
    if ds.len() == 0 {
        y
    } else {
        spin_after(y, ds.drop_last()) + SPIN_UNITS_PER_NANO * ds.last()
    }
}

/// The angle, in units, of an orbiting entity that started at `y` after the
/// frames `ds`, one step per frame.
pub open spec fn orbit_after(y: int, ds: Seq<u64>) -> int
    decreases ds.len(),
{
    if ds.len() == 0 {
        y
    } else {
        orbit_after(y, ds.drop_last()) + ORBIT_UNITS_PER_NANO * ds.last()
    }
}

impl Yaw {
    /// This yaw turned by `by` units, or `None` where the result would leave
    /// the range of the representation.
    pub fn turned_by(self, by: i128) -> (r: Option<Yaw>)
        ensures
            r == (if fits_i128(self.units + by) {
                Some(Yaw { units: (self.units + by) as i128 })
            } else {
                None
            }),
    {
        match self.units.checked_add(by) {
            Some(u) => Some(Yaw { units: u }),
            None => None,
        }
    }
}

/// Turns each yaw of `yaws` by `rate * delta_ns` units; a yaw whose sum would
/// leave the representation is left as it is.
fn turn_all(yaws: &mut Vec<Yaw>, rate: i128, delta_ns: u64)
    requires
        rate == SPIN_UNITS_PER_NANO || rate == ORBIT_UNITS_PER_NANO,
    ensures
        final(yaws)@.len() == old(yaws)@.len(),
        forall|i: int|
            0 <= i < old(yaws)@.len() ==> #[trigger] final(yaws)@[i] == turned(
                old(yaws)@[i],
                rate * delta_ns,
            ),
{
    let by: i128 = rate * (delta_ns as i128);
    let mut i: usize = 0;
    while i < yaws.len()
        invariant
            by == rate * delta_ns,
            i <= yaws@.len(),
            yaws@.len() == old(yaws)@.len(),
            forall|k: int| 0 <= k < i ==> #[trigger] yaws@[k] == turned(old(yaws)@[k], by as int),
            forall|k: int| i <= k < yaws@.len() ==> #[trigger] yaws@[k] == old(yaws)@[k],
        decreases yaws@.len() - i,
    {
        let y = yaws[i];
        match y.turned_by(by) {
            Some(t) => {
                yaws.set(i, t);
            },
            None => {},
        }
        i = i + 1;
    }
}

/// One frame of the spin animator: every spinning entity turns about the
/// vertical axis by one radian per second of the frame time `delta_ns`.
pub fn spin(spinners: &mut Vec<Yaw>, delta_ns: u64)
    ensures
        final(spinners)@.len() == old(spinners)@.len(),
        forall|i: int|
            0 <= i < old(spinners)@.len() ==> #[trigger] final(spinners)@[i] == turned(
                old(spinners)@[i],
                SPIN_UNITS_PER_NANO * delta_ns,
            ),
{
    turn_all(spinners, SPIN_UNITS_PER_NANO, delta_ns);
}

/// One frame of the orbit animator: every orbiting entity turns about the
/// vertical axis through the origin by minus one radian per fifteen seconds
/// of the frame time `delta_ns`.
pub fn orbit(orbiters: &mut Vec<Yaw>, delta_ns: u64)
    ensures
        final(orbiters)@.len() == old(orbiters)@.len(),
        forall|i: int|
            0 <= i < old(orbiters)@.len() ==> #[trigger] final(orbiters)@[i] == turned(
                old(orbiters)@[i],
                ORBIT_UNITS_PER_NANO * delta_ns,
            ),
{
    turn_all(orbiters, ORBIT_UNITS_PER_NANO, delta_ns);
}

/// Spinning is additive: after any run of frames a spinning entity has turned
/// by the sum of the frame times, one radian per second, however that time
/// was cut into frames.
pub proof fn lemma_spin_additive(y: int, ds: Seq<u64>, es: Seq<u64>)
    ensures
        spin_after(y, ds) == y + SPIN_UNITS_PER_NANO * total_nanos(ds),
        (spin_after(y, ds) - y) * NANOS_PER_SECOND == total_nanos(ds) * UNITS_PER_RADIAN,
        spin_after(y, ds + es) == spin_after(spin_after(y, ds), es),
        total_nanos(ds + es) == total_nanos(ds) + total_nanos(es),
    decreases es.len(),
{
    lemma_spin_total(y, ds);
    assert((spin_after(y, ds) - y) * NANOS_PER_SECOND == total_nanos(ds) * UNITS_PER_RADIAN)
        by (nonlinear_arith)
        requires
            spin_after(y, ds) == y + SPIN_UNITS_PER_NANO * total_nanos(ds),
    ;
    if es.len() > 0 {
        lemma_spin_additive(y, ds, es.drop_last());
        assert((ds + es).drop_last() =~= ds + es.drop_last());
    } else {
        assert(ds + es =~= ds);
    }
}

proof fn lemma_spin_total(y: int, ds: Seq<u64>)
    ensures
        spin_after(y, ds) == y + SPIN_UNITS_PER_NANO * total_nanos(ds),
    decreases ds.len(),
{
    if ds.len() > 0 {
        lemma_spin_total(y, ds.drop_last());
    }
}

/// Orbiting follows the elapsed time: after any run of frames that sums to
/// `T` seconds, an orbiting entity's angle about the origin is its initial
/// angle minus `T / 15` radians, that is, minus one unit per nanosecond.
pub proof fn lemma_orbit_angle(y: int, ds: Seq<u64>)
    ensures
        orbit_after(y, ds) == y - total_nanos(ds),
        15 * (orbit_after(y, ds) - y) * NANOS_PER_SECOND == -total_nanos(ds) * UNITS_PER_RADIAN,
    decreases ds.len(),
{
    if ds.len() > 0 {
        lemma_orbit_angle(y, ds.drop_last());
    }
    assert(15 * (orbit_after(y, ds) - y) * NANOS_PER_SECOND == -total_nanos(ds) * UNITS_PER_RADIAN)
        by (nonlinear_arith)
        requires
            orbit_after(y, ds) == y - total_nanos(ds),
    ;
}

} // verus!
