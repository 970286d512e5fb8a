//! NMEA 0183 sentence parser and fix aggregator.
//!
//! The crate decodes GGA, RMC, GSA, VTG and GSV sentences and maintains a
//! running navigation fix built from a stream of such sentences.  Use
//! [`Nmea::parse`] and [`Nmea::parse_for_fix`] to keep state between
//! sentences, and [`parse::parse`] to decode a single sentence statelessly.
//!
//! Units used throughout: degrees, knots, metres for altitude.

use vstd::prelude::*;
use vstd::string::StringSliceAdditionalSpecFns;

pub mod num;
pub mod parse;
pub mod sentence_type;
pub mod time;

pub use num::Decimal;
pub use parse::{
    parse, Coord, GgaData, GsaData, GsaMode1, GsaMode2, GsvData, NmeaSentence, ParseError,
    ParseResult, RmcData, RmcStatusOfFix, VtgData,
};
pub use sentence_type::SentenceType;
pub use time::{NaiveDate, NaiveTime};

verus! {

/// The quality of a fix, from the GGA fix-quality digit or the RMC status
/// letter.
#[derive(Clone, Copy, PartialEq, Eq, Structural, Debug)]
pub enum FixType {
    Invalid,
    Gps,
    DGps,
    Pps,
    Rtk,
    FloatRtk,
    Estimated,
    Manual,
    Simulation,
}

/// The GGA fix-quality digit each [`FixType`] comes from; any other
/// character maps to `Invalid`.
pub open spec fn spec_fix_type_of(x: char) -> FixType {
    if x == '0' {
        FixType::Invalid
    } else if x == '1' {
        FixType::Gps
    } else if x == '2' {
        FixType::DGps
    } else if x == '3' {
        FixType::Pps
    } else if x == '4' {
        FixType::Rtk
    } else if x == '5' {
        FixType::FloatRtk
    } else if x == '6' {
        FixType::Estimated
    } else if x == '7' {
        FixType::Manual
    } else if x == '8' {
        FixType::Simulation
    } else {
        FixType::Invalid
    }
}

/// The fix type named by a quality digit given as its ASCII byte.
pub open spec fn spec_fix_type_of_byte(b: u8) -> FixType {
    if b == 48 {
        FixType::Invalid
    } else if b == 49 {
        FixType::Gps
    } else if b == 50 {
        FixType::DGps
    } else if b == 51 {
        FixType::Pps
    } else if b == 52 {
        FixType::Rtk
    } else if b == 53 {
        FixType::FloatRtk
    } else if b == 54 {
        FixType::Estimated
    } else if b == 55 {
        FixType::Manual
    } else if b == 56 {
        FixType::Simulation
    } else {
        FixType::Invalid
    }
}

impl From<char> for FixType {
    /// Maps a GGA fix-quality digit to its fix type; any character outside
    /// `0`..=`8` maps to `Invalid`.
    fn from(x: char) -> (r: FixType) {
        match x {
            '0' => FixType::Invalid,
            '1' => FixType::Gps,
            '2' => FixType::DGps,
            '3' => FixType::Pps,
            '4' => FixType::Rtk,
            '5' => FixType::FloatRtk,
            '6' => FixType::Estimated,
            '7' => FixType::Manual,
            '8' => FixType::Simulation,
            _ => FixType::Invalid,
        }
    }
}

impl vstd::std_specs::convert::FromSpecImpl<char> for FixType {
    open spec fn obeys_from_spec() -> bool {
        true
    }

    open spec fn from_spec(x: char) -> FixType {
        spec_fix_type_of(x)
    }
}

/// The satellite constellation a sentence speaks of, from its talker id.
#[derive(Debug, Clone, Copy, PartialEq, Eq, Structural)]
pub enum GnssType {
    Galileo,
    Gps,
    Glonass,
}

/// One satellite of a GSV inventory.
#[derive(Debug, Clone, Copy, PartialEq)]
pub struct Satellite {
    pub gnss_type: GnssType,
    pub prn: u32,
    pub elevation: Option<i32>,
    pub azimuth: Option<i32>,
    pub snr: Option<i32>,
}

impl Satellite {
    /// The constellation this satellite belongs to.
    pub fn gnss_type(&self) -> (r: GnssType)
        ensures
            r == self.gnss_type,
    {
        self.gnss_type
    }

    /// The satellite's PRN id.
    pub fn prn(&self) -> (r: u32)
        ensures
            r == self.prn,
    {
        self.prn
    }

    /// Elevation above the horizon, in degrees, when reported.
    pub fn elevation(&self) -> (r: Option<i32>)
        ensures
            r == self.elevation,
    {
        self.elevation
    }

    /// Azimuth from true north, in degrees, when reported.
    pub fn azimuth(&self) -> (r: Option<i32>)
        ensures
            r == self.azimuth,
    {
        self.azimuth
    }

    /// Signal-to-noise ratio in dB, when reported.
    pub fn snr(&self) -> (r: Option<i32>)
        ensures
            r == self.snr,
    {
        self.snr
    }
}

/// The per-constellation table of in-progress GSV scans: one ordered
/// sequence of per-sentence satellite groups for each constellation.  Its
/// iteration order, wherever the table is walked, is Galileo, then GPS,
/// then GLONASS.
pub struct SatScan {
    pub galileo: Vec<Vec<Satellite>>,
    pub gps: Vec<Vec<Satellite>>,
    pub glonass: Vec<Vec<Satellite>>,
}

/// The groups of a scan table column as a sequence of sequences.
pub open spec fn groups_view(v: Seq<Vec<Satellite>>) -> Seq<Seq<Satellite>> {
    v.map_values(|g: Vec<Satellite>| g@)
}

/// The groups the table holds for one constellation.
pub open spec fn scan_groups(s: SatScan, g: GnssType) -> Seq<Seq<Satellite>> {
    match g {
        GnssType::Galileo => groups_view(s.galileo@),
        GnssType::Gps => groups_view(s.gps@),
        GnssType::Glonass => groups_view(s.glonass@),
    }
}

/// The flattened satellite list: every group of every constellation,
/// concatenated in table iteration order.
pub open spec fn flat_sats(s: SatScan) -> Seq<Satellite> {
    groups_view(s.galileo@).flatten() + groups_view(s.gps@).flatten() + groups_view(
        s.glonass@,
    ).flatten()
}

/// Grows a group sequence with empty groups to hold at least `m` slots.
pub open spec fn grow_groups(gs: Seq<Seq<Satellite>>, m: int) -> Seq<Seq<Satellite>> {
    if gs.len() >= m {
        gs
    } else {
        gs + Seq::new((m - gs.len()) as nat, |i: int| Seq::<Satellite>::empty())
    }
}

/// One GSV merge step on one constellation's groups: grow the sequence to
/// hold both the declared scan size and this sentence's slot, then
/// overwrite that one-based slot.
pub open spec fn merge_groups(
    gs: Seq<Seq<Satellite>>,
    n: int,
    idx: int,
    sats: Seq<Satellite>,
) -> Seq<Seq<Satellite>> {
    grow_groups(grow_groups(gs, n), idx).update(idx - 1, sats)
}

/// The satellites present in a sentence's slots, in order.
pub open spec fn some_sats(s: Seq<Option<Satellite>>) -> Seq<Satellite>
    decreases s.len(),
{
    if s.len() == 0 {
        Seq::empty()
    } else {
        let pre = some_sats(s.drop_last());
        match s.last() {
            Some(x) => pre.push(x),
            None => pre,
        }
    }
}

/// Inserting into the observed-sentence set: append unless already there.
pub open spec fn observed_insert(s: Seq<SentenceType>, x: SentenceType) -> Seq<SentenceType> {
    if s.contains(x) {
        s
    } else {
        s.push(x)
    }
}

/// Whether every element of `a` occurs in `b`.
pub open spec fn seq_subset(a: Seq<SentenceType>, b: Seq<SentenceType>) -> bool {
    forall|x: SentenceType| a.contains(x) ==> b.contains(x)
}

/// The running fix, built by merging decoded sentences one at a time.
///
/// Fields are unset until a sentence that carries them is merged; a blank
/// wire field merges as unset, never as zero.
pub struct Nmea {
    pub fix_time: Option<NaiveTime>,
    pub fix_date: Option<NaiveDate>,
    pub fix_type: Option<FixType>,
    pub latitude: Option<Coord>,
    pub longitude: Option<Coord>,
    pub altitude: Option<Decimal>,
    pub speed_over_ground: Option<Decimal>,
    pub true_course: Option<Decimal>,
    pub num_of_fix_satellites: Option<u32>,
    pub hdop: Option<Decimal>,
    pub vdop: Option<Decimal>,
    pub pdop: Option<Decimal>,
    pub geoid_height: Option<Decimal>,
    pub satellites: Vec<Satellite>,
    pub fix_satellites_prns: Option<Vec<u32>>,
    pub satellites_scan: SatScan,
    pub required_sentences_for_nav: Vec<SentenceType>,
    pub last_fix_time: Option<NaiveTime>,
    pub sentences_for_this_time: Vec<SentenceType>,
}

/// A state with no data merged yet: every fix field unset, the scan table
/// and satellite list empty, nothing observed.
pub open spec fn is_initial(n: Nmea) -> bool {
    &&& n.fix_time is None
    &&& n.fix_date is None
    &&& n.fix_type is None
    &&& n.latitude is None
    &&& n.longitude is None
    &&& n.altitude is None
    &&& n.speed_over_ground is None
    &&& n.true_course is None
    &&& n.num_of_fix_satellites is None
    &&& n.hdop is None
    &&& n.vdop is None
    &&& n.pdop is None
    &&& n.geoid_height is None
    &&& n.satellites@ == Seq::<Satellite>::empty()
    &&& n.fix_satellites_prns is None
    &&& n.satellites_scan.galileo@ == Seq::<Vec<Satellite>>::empty()
    &&& n.satellites_scan.gps@ == Seq::<Vec<Satellite>>::empty()
    &&& n.satellites_scan.glonass@ == Seq::<Vec<Satellite>>::empty()
    &&& n.last_fix_time is None
    &&& n.sentences_for_this_time@ == Seq::<SentenceType>::empty()
}

/// A GGA merge: the eight GGA-borne fields overwritten, all else kept.
pub open spec fn merged_gga(pre: Nmea, g: GgaData, post: Nmea) -> bool {
    post == (Nmea {
        fix_time: g.fix_time,
        fix_type: g.fix_type,
        latitude: g.latitude,
        longitude: g.longitude,
        num_of_fix_satellites: g.fix_satellites,
        hdop: g.hdop,
        altitude: g.altitude,
        geoid_height: g.geoid_height,
        ..pre
    })
}

/// The fix type an RMC status letter names.
pub open spec fn rmc_fix_type(s: Option<RmcStatusOfFix>) -> Option<FixType> {
    match s {
        Some(RmcStatusOfFix::Autonomous) => Some(FixType::Gps),
        Some(RmcStatusOfFix::Differential) => Some(FixType::DGps),
        Some(RmcStatusOfFix::Invalid) => Some(FixType::Invalid),
        None => None,
    }
}

/// An RMC merge: the seven RMC-borne fields overwritten, all else kept.
pub open spec fn merged_rmc(pre: Nmea, d: RmcData, post: Nmea) -> bool {
    post == (Nmea {
        fix_time: d.fix_time,
        fix_date: d.fix_date,
        fix_type: rmc_fix_type(d.status_of_fix),
        latitude: d.lat,
        longitude: d.lon,
        speed_over_ground: d.speed_over_ground,
        true_course: d.true_course,
        ..pre
    })
}

/// A GSA merge: the PRN list and the three dilution values overwritten.
pub open spec fn merged_gsa(
    pre: Nmea,
    prns: Seq<u32>,
    pdop: Option<Decimal>,
    hdop: Option<Decimal>,
    vdop: Option<Decimal>,
    post: Nmea,
) -> bool {
    &&& match post.fix_satellites_prns {
        Some(v) => v@ == prns,
        None => false,
    }
    &&& post == (Nmea {
        fix_satellites_prns: post.fix_satellites_prns,
        hdop,
        vdop,
        pdop,
        ..pre
    })
}

/// A VTG merge: speed and course overwritten, all else kept.
pub open spec fn merged_vtg(pre: Nmea, d: VtgData, post: Nmea) -> bool {
    post == (Nmea {
        speed_over_ground: d.speed_over_ground,
        true_course: d.true_course,
        ..pre
    })
}

/// A GSV merge: the sentence's slot written into its constellation's
/// groups, the other constellations kept, and the flattened satellite list
/// rebuilt from the whole table.
pub open spec fn merged_gsv(
    pre: Nmea,
    g: GnssType,
    n: u16,
    idx: u16,
    sats: Seq<Option<Satellite>>,
    post: Nmea,
) -> bool {
    &&& scan_groups(post.satellites_scan, g) == merge_groups(
        scan_groups(pre.satellites_scan, g),
        n as int,
        idx as int,
        some_sats(sats),
    )
    &&& forall|g2: GnssType|
        g2 != g ==> scan_groups(post.satellites_scan, g2) == scan_groups(pre.satellites_scan, g2)
    &&& post.satellites@ == flat_sats(post.satellites_scan)
    &&& post == (Nmea {
        satellites: post.satellites,
        satellites_scan: post.satellites_scan,
        ..pre
    })
}

/// A tick reset: every fix-defining field cleared and the per-tick
/// observed set emptied, while the satellite inventory, the flattened list,
/// the mandatory-set configuration and the stored tick time are kept.
pub open spec fn is_new_tick(pre: Nmea, post: Nmea) -> bool {
    &&& post.sentences_for_this_time@ == Seq::<SentenceType>::empty()
    &&& post == (Nmea {
        fix_time: None,
        fix_date: None,
        fix_type: None,
        latitude: None,
        longitude: None,
        altitude: None,
        speed_over_ground: None,
        true_course: None,
        num_of_fix_satellites: None,
        hdop: None,
        vdop: None,
        pdop: None,
        geoid_height: None,
        fix_satellites_prns: None,
        sentences_for_this_time: post.sentences_for_this_time,
        ..pre
    })
}

/// A full clear: a tick reset that also forgets the stored tick time.
pub open spec fn is_cleared(pre: Nmea, post: Nmea) -> bool {
    &&& post.last_fix_time is None
    &&& post.sentences_for_this_time@ == Seq::<SentenceType>::empty()
    &&& post == (Nmea {
        fix_time: None,
        fix_date: None,
        fix_type: None,
        latitude: None,
        longitude: None,
        altitude: None,
        speed_over_ground: None,
        true_course: None,
        num_of_fix_satellites: None,
        hdop: None,
        vdop: None,
        pdop: None,
        geoid_height: None,
        fix_satellites_prns: None,
        last_fix_time: None,
        sentences_for_this_time: post.sentences_for_this_time,
        ..pre
    })
}

/// The fix verdict over a merged state: the merged fix type, but only when
/// it is present, not `Invalid`, and every mandatory sentence type has been
/// observed within the current tick; otherwise no fix.
pub open spec fn spec_verdict(st: Nmea) -> FixType {
    match st.fix_type {
        Some(ft) => if ft != FixType::Invalid && seq_subset(
            st.required_sentences_for_nav@,
            st.sentences_for_this_time@,
        ) {
            ft
        } else {
            FixType::Invalid
        },
        None => FixType::Invalid,
    }
}

/// The tick-gating law: a verdict other than "no fix" is only ever
/// reported when the observed-sentence set of the current tick covers the
/// whole mandatory set.
pub proof fn lemma_verdict_requires_complete_tick(st: Nmea)
    requires
        spec_verdict(st) != FixType::Invalid,
    ensures
        seq_subset(st.required_sentences_for_nav@, st.sentences_for_this_time@),
        st.fix_type == Some(spec_verdict(st)),
{
}

/// An RMC merge inside the tick-gated path: the RMC fields merged, the
/// stored tick time set to `last`, and — when `fresh` marks a new tick —
/// every other fix field cleared and the observed set restarted, before
/// RMC is recorded as observed.
pub open spec fn rmc_fix_merged(
    pre: Nmea,
    d: RmcData,
    last: Option<NaiveTime>,
    fresh: bool,
    post: Nmea,
) -> bool {
    &&& post.sentences_for_this_time@ == observed_insert(
        if fresh {
            Seq::<SentenceType>::empty()
        } else {
            pre.sentences_for_this_time@
        },
        SentenceType::RMC,
    )
    &&& post == (Nmea {
        fix_time: d.fix_time,
        fix_date: d.fix_date,
        fix_type: rmc_fix_type(d.status_of_fix),
        latitude: d.lat,
        longitude: d.lon,
        speed_over_ground: d.speed_over_ground,
        true_course: d.true_course,
        altitude: if fresh {
            None
        } else {
            pre.altitude
        },
        num_of_fix_satellites: if fresh {
            None
        } else {
            pre.num_of_fix_satellites
        },
        hdop: if fresh {
            None
        } else {
            pre.hdop
        },
        vdop: if fresh {
            None
        } else {
            pre.vdop
        },
        pdop: if fresh {
            None
        } else {
            pre.pdop
        },
        geoid_height: if fresh {
            None
        } else {
            pre.geoid_height
        },
        fix_satellites_prns: if fresh {
            None
        } else {
            pre.fix_satellites_prns
        },
        last_fix_time: last,
        sentences_for_this_time: post.sentences_for_this_time,
        ..pre
    })
}

/// A GGA merge inside the tick-gated path, symmetric to the RMC one.
pub open spec fn gga_fix_merged(
    pre: Nmea,
    g: GgaData,
    last: Option<NaiveTime>,
    fresh: bool,
    post: Nmea,
) -> bool {
    &&& post.sentences_for_this_time@ == observed_insert(
        if fresh {
            Seq::<SentenceType>::empty()
        } else {
            pre.sentences_for_this_time@
        },
        SentenceType::GGA,
    )
    &&& post == (Nmea {
        fix_time: g.fix_time,
        fix_type: g.fix_type,
        latitude: g.latitude,
        longitude: g.longitude,
        num_of_fix_satellites: g.fix_satellites,
        hdop: g.hdop,
        altitude: g.altitude,
        geoid_height: g.geoid_height,
        fix_date: if fresh {
            None
        } else {
            pre.fix_date
        },
        speed_over_ground: if fresh {
            None
        } else {
            pre.speed_over_ground
        },
        true_course: if fresh {
            None
        } else {
            pre.true_course
        },
        vdop: if fresh {
            None
        } else {
            pre.vdop
        },
        pdop: if fresh {
            None
        } else {
            pre.pdop
        },
        fix_satellites_prns: if fresh {
            None
        } else {
            pre.fix_satellites_prns
        },
        last_fix_time: last,
        sentences_for_this_time: post.sentences_for_this_time,
        ..pre
    })
}

/// A VTG merge inside the tick-gated path: speed and course merged and VTG
/// recorded as observed.
pub open spec fn vtg_fix_merged(pre: Nmea, d: VtgData, post: Nmea) -> bool {
    &&& post.sentences_for_this_time@ == observed_insert(
        pre.sentences_for_this_time@,
        SentenceType::VTG,
    )
    &&& post == (Nmea {
        speed_over_ground: d.speed_over_ground,
        true_course: d.true_course,
        sentences_for_this_time: post.sentences_for_this_time,
        ..pre
    })
}

/// The shape of one GSV merge step: the result holds exactly the slots
/// demanded by the scan size and the sentence index, the named slot holds
/// the sentence's satellites, and every other slot keeps what it had, or
/// is empty where the sequence grew.
pub proof fn lemma_merge_groups_shape(gs: Seq<Seq<Satellite>>, n: int, idx: int, sats: Seq<Satellite>)
    requires
        1 <= idx,
    ensures
        merge_groups(gs, n, idx, sats).len() == (if gs.len() >= n && gs.len() >= idx {
            gs.len() as int
        } else if n >= idx {
            n
        } else {
            idx
        }),
        forall|j: int|
            0 <= j < merge_groups(gs, n, idx, sats).len() ==> merge_groups(gs, n, idx, sats)[j]
                == (if j == idx - 1 {
                sats
            } else if j < gs.len() {
                gs[j]
            } else {
                Seq::<Satellite>::empty()
            }),
{
    let t1 = grow_groups(gs, n);
    let t2 = grow_groups(t1, idx);
    assert forall|j: int| 0 <= j < t2.len() implies t2[j] == (if j < gs.len() {
        gs[j]
    } else {
        Seq::<Satellite>::empty()
    }) by {
        if j < t1.len() {
            if j >= gs.len() {
                assert(t1[j] == Seq::<Satellite>::empty());
            }
        }
    }
}

/// The GSV completeness law, within one constellation: two sentences of a
/// scan that name different slots merge to the same scan table in either
/// order.
pub proof fn lemma_gsv_merge_commutes(
    gs: Seq<Seq<Satellite>>,
    n: int,
    i1: int,
    s1: Seq<Satellite>,
    i2: int,
    s2: Seq<Satellite>,
)
    requires
        1 <= i1,
        1 <= i2,
        i1 != i2,
    ensures
        merge_groups(merge_groups(gs, n, i1, s1), n, i2, s2) == merge_groups(
            merge_groups(gs, n, i2, s2),
            n,
            i1,
            s1,
        ),
{
    let a1 = merge_groups(gs, n, i1, s1);
    let a2 = merge_groups(gs, n, i2, s2);
    lemma_merge_groups_shape(gs, n, i1, s1);
    lemma_merge_groups_shape(gs, n, i2, s2);
    lemma_merge_groups_shape(a1, n, i2, s2);
    lemma_merge_groups_shape(a2, n, i1, s1);
    assert(merge_groups(a1, n, i2, s2) =~= merge_groups(a2, n, i1, s1));
}

/// The GSV completeness law over the whole state: merging two sentences of
/// one constellation's scan in either order leaves every constellation's
/// groups, and therefore the flattened satellite list, the same.
pub proof fn lemma_gsv_order_irrelevant(
    pre: Nmea,
    g: GnssType,
    n: u16,
    i1: u16,
    sats1: Seq<Option<Satellite>>,
    i2: u16,
    sats2: Seq<Option<Satellite>>,
    mid1: Nmea,
    post1: Nmea,
    mid2: Nmea,
    post2: Nmea,
)
    requires
        i1 >= 1,
        i2 >= 1,
        i1 != i2,
        merged_gsv(pre, g, n, i1, sats1, mid1),
        merged_gsv(mid1, g, n, i2, sats2, post1),
        merged_gsv(pre, g, n, i2, sats2, mid2),
        merged_gsv(mid2, g, n, i1, sats1, post2),
    ensures
        forall|g2: GnssType|
            scan_groups(post1.satellites_scan, g2) == scan_groups(post2.satellites_scan, g2),
        post1.satellites@ == post2.satellites@,
{
    lemma_gsv_merge_commutes(
        scan_groups(pre.satellites_scan, g),
        n as int,
        i1 as int,
        some_sats(sats1),
        i2 as int,
        some_sats(sats2),
    );
    assert forall|g2: GnssType|
        scan_groups(post1.satellites_scan, g2) == scan_groups(post2.satellites_scan, g2) by {
        if g2 != g {
        }
    }
    assert(groups_view(post1.satellites_scan.galileo@) == groups_view(
        post2.satellites_scan.galileo@,
    ) && groups_view(post1.satellites_scan.gps@) == groups_view(post2.satellites_scan.gps@)
        && groups_view(post1.satellites_scan.glonass@) == groups_view(
        post2.satellites_scan.glonass@,
    )) by {
        assert(scan_groups(post1.satellites_scan, GnssType::Galileo) == scan_groups(
            post2.satellites_scan,
            GnssType::Galileo,
        ));
        assert(scan_groups(post1.satellites_scan, GnssType::Gps) == scan_groups(
            post2.satellites_scan,
            GnssType::Gps,
        ));
        assert(scan_groups(post1.satellites_scan, GnssType::Glonass) == scan_groups(
            post2.satellites_scan,
            GnssType::Glonass,
        ));
    }
}

/// A sequence of GSV merge steps for one constellation, applied first to
/// last: each step names its one-based slot and the satellites to write
/// there.
pub open spec fn apply_gsv_merges(
    gs: Seq<Seq<Satellite>>,
    n: int,
    ps: Seq<(int, Seq<Satellite>)>,
) -> Seq<Seq<Satellite>>
    decreases ps.len(),
{
    if ps.len() == 0 {
        gs
    } else {
        apply_gsv_merges(merge_groups(gs, n, ps[0].0, ps[0].1), n, ps.drop_first())
    }
}

/// Whether the steps of a scan name pairwise different slots, each at
/// least one — what the sentences of one complete scan look like.
pub open spec fn distinct_slots(ps: Seq<(int, Seq<Satellite>)>) -> bool {
    &&& forall|i: int| 0 <= i < ps.len() ==> #[trigger] ps[i].0 >= 1
    &&& forall|i: int, j: int|
        #![trigger ps[i], ps[j]]
        0 <= i < j < ps.len() ==> ps[i].0 != ps[j].0
}

/// Removing a step keeps the slots pairwise distinct.
proof fn lemma_distinct_slots_remove(ps: Seq<(int, Seq<Satellite>)>, k: int)
    requires
        distinct_slots(ps),
        0 <= k < ps.len(),
    ensures
        distinct_slots(ps.remove(k)),
{
    let r = ps.remove(k);
    assert forall|i: int| 0 <= i < r.len() implies #[trigger] r[i].0 >= 1 by {
        if i < k {
            assert(r[i] == ps[i]);
        } else {
            assert(r[i] == ps[i + 1]);
        }
    }
    assert forall|i: int, j: int|
        #![trigger r[i], r[j]]
        0 <= i < j < r.len() implies r[i].0 != r[j].0 by {
        let i0 = if i < k {
            i
        } else {
            i + 1
        };
        let j0 = if j < k {
            j
        } else {
            j + 1
        };
        assert(r[i] == ps[i0]);
        assert(r[j] == ps[j0]);
    }
}

/// A step anywhere in a scan may be played first instead: the remaining
/// steps then produce the same table.
proof fn lemma_gsv_step_to_front(
    gs: Seq<Seq<Satellite>>,
    n: int,
    ps: Seq<(int, Seq<Satellite>)>,
    k: int,
)
    requires
        0 <= k < ps.len(),
        distinct_slots(ps),
    ensures
        apply_gsv_merges(gs, n, ps) == apply_gsv_merges(gs, n, seq![ps[k]] + ps.remove(k)),
    decreases k,
{
    if k == 0 {
        assert(seq![ps[0]] + ps.remove(0) =~= ps);
    } else {
        let p0 = ps[0];
        let rest = ps.drop_first();
        assert(rest =~= ps.remove(0));
        lemma_distinct_slots_remove(ps, 0);
        let m1 = merge_groups(gs, n, p0.0, p0.1);
        assert(apply_gsv_merges(gs, n, ps) == apply_gsv_merges(m1, n, rest));
        assert(rest[k - 1] == ps[k]);
        lemma_gsv_step_to_front(m1, n, rest, k - 1);
        let q = ps[k];
        let tail2 = rest.remove(k - 1);
        // peel the step q off the front on the inner state
        let inner = seq![q] + tail2;
        assert(inner[0] == q);
        assert(inner.drop_first() =~= tail2);
        assert(apply_gsv_merges(m1, n, inner) == apply_gsv_merges(
            merge_groups(m1, n, q.0, q.1),
            n,
            tail2,
        ));
        // the two merges touch different slots, so they commute
        assert(p0.0 != q.0);
        lemma_gsv_merge_commutes(gs, n, p0.0, p0.1, q.0, q.1);
        let m2 = merge_groups(gs, n, q.0, q.1);
        // reassemble the right-hand side from the front
        let outer = seq![q] + ps.remove(k);
        assert(ps.remove(k) =~= seq![p0] + tail2);
        assert(outer[0] == q);
        assert(outer.drop_first() =~= seq![p0] + tail2);
        assert(apply_gsv_merges(gs, n, outer) == apply_gsv_merges(m2, n, seq![p0] + tail2));
        assert((seq![p0] + tail2)[0] == p0);
        assert((seq![p0] + tail2).drop_first() =~= tail2);
        assert(apply_gsv_merges(m2, n, seq![p0] + tail2) == apply_gsv_merges(
            merge_groups(m2, n, p0.0, p0.1),
            n,
            tail2,
        ));
    }
}

/// The GSV completeness law: merging the sentences of one scan in any
/// permutation of arrival order yields the same scan table as in-order
/// arrival — and with the table equal, the flattened satellite list,
/// which is a function of the table alone, is the same too.
pub proof fn lemma_gsv_scan_permutation(
    gs: Seq<Seq<Satellite>>,
    n: int,
    ps1: Seq<(int, Seq<Satellite>)>,
    ps2: Seq<(int, Seq<Satellite>)>,
)
    requires
        distinct_slots(ps1),
        distinct_slots(ps2),
        ps1.to_multiset() == ps2.to_multiset(),
    ensures
        apply_gsv_merges(gs, n, ps1) == apply_gsv_merges(gs, n, ps2),
    decreases ps1.len(),
{
    broadcast use vstd::seq_lib::group_to_multiset_ensures;

    ps1.to_multiset_ensures();
    ps2.to_multiset_ensures();
    if ps1.len() == 0 {
        assert(ps2.len() == 0);
    } else {
        let p = ps1[0];
        assert(ps1.contains(p));
        assert(ps2.to_multiset().count(p) > 0);
        assert(ps2.contains(p));
        let k = choose|k: int| 0 <= k < ps2.len() && ps2[k] == p;
        lemma_gsv_step_to_front(gs, n, ps2, k);
        let r1 = ps1.drop_first();
        let r2 = ps2.remove(k);
        let inner = seq![p] + r2;
        assert(inner[0] == p);
        assert(inner.drop_first() =~= r2);
        let m1 = merge_groups(gs, n, p.0, p.1);
        assert(apply_gsv_merges(gs, n, inner) == apply_gsv_merges(m1, n, r2));
        assert(apply_gsv_merges(gs, n, ps1) == apply_gsv_merges(m1, n, r1));
        assert(r1 =~= ps1.remove(0));
        assert(r1.to_multiset() =~= r2.to_multiset()) by {
            assert(ps1.remove(0).to_multiset() =~= ps1.to_multiset().remove(p));
            assert(ps2.remove(k).to_multiset() =~= ps2.to_multiset().remove(p));
        }
        lemma_distinct_slots_remove(ps1, 0);
        assert(distinct_slots(r1));
        lemma_distinct_slots_remove(ps2, k);
        lemma_gsv_scan_permutation(m1, n, r1, r2);
    }
}

/// The new-tick reset law for RMC: when an RMC sentence opens a new tick,
/// every fix field that RMC itself does not carry is cleared before its
/// own fields are merged, and the tick restarts with RMC as the only
/// observed sentence; the satellite inventory and the mandatory set
/// survive.
pub proof fn lemma_rmc_new_tick_resets(pre: Nmea, d: RmcData, ft: NaiveTime, post: Nmea)
    requires
        rmc_fix_merged(pre, d, Some(ft), true, post),
    ensures
        post.altitude is None,
        post.num_of_fix_satellites is None,
        post.hdop is None,
        post.vdop is None,
        post.pdop is None,
        post.geoid_height is None,
        post.fix_satellites_prns is None,
        post.sentences_for_this_time@ == seq![SentenceType::RMC],
        post.last_fix_time == Some(ft),
        post.satellites == pre.satellites,
        post.satellites_scan == pre.satellites_scan,
        post.required_sentences_for_nav == pre.required_sentences_for_nav,
        post.fix_time == d.fix_time,
        post.fix_date == d.fix_date,
{
    assert(observed_insert(Seq::<SentenceType>::empty(), SentenceType::RMC) =~= seq![
        SentenceType::RMC,
    ]);
}

/// The new-tick reset law for GGA, symmetric to the RMC one.
pub proof fn lemma_gga_new_tick_resets(pre: Nmea, g: GgaData, ft: NaiveTime, post: Nmea)
    requires
        gga_fix_merged(pre, g, Some(ft), true, post),
    ensures
        post.fix_date is None,
        post.speed_over_ground is None,
        post.true_course is None,
        post.vdop is None,
        post.pdop is None,
        post.fix_satellites_prns is None,
        post.sentences_for_this_time@ == seq![SentenceType::GGA],
        post.last_fix_time == Some(ft),
        post.satellites == pre.satellites,
        post.satellites_scan == pre.satellites_scan,
        post.required_sentences_for_nav == pre.required_sentences_for_nav,
        post.fix_time == g.fix_time,
        post.altitude == g.altitude,
{
    assert(observed_insert(Seq::<SentenceType>::empty(), SentenceType::GGA) =~= seq![
        SentenceType::GGA,
    ]);
}

/// Whether a sentence-type list holds `x`.
fn list_contains(v: &Vec<SentenceType>, x: SentenceType) -> (r: bool)
    ensures
        r == v@.contains(x),
{
    let mut i: usize = 0;
    while i < v.len()
        invariant
            0 <= i <= v@.len(),
            forall|j: int| 0 <= j < i ==> v@[j] != x,
        decreases v@.len() - i,
    {
        if v[i] == x {
            return true;
        }
        i = i + 1;
    }
    false
}

/// Whether every element of `a` occurs in `b`.
fn list_subset(a: &Vec<SentenceType>, b: &Vec<SentenceType>) -> (r: bool)
    ensures
        r == seq_subset(a@, b@),
{
    let mut i: usize = 0;
    while i < a.len()
        invariant
            0 <= i <= a@.len(),
            forall|j: int| 0 <= j < i ==> b@.contains(#[trigger] a@[j]),
        decreases a@.len() - i,
    {
        if !list_contains(b, a[i]) {
            return false;
        }
        i = i + 1;
    }
    proof {
        assert forall|x: SentenceType| a@.contains(x) implies b@.contains(x) by {
            let j = choose|j: int| 0 <= j < a@.len() && a@[j] == x;
            assert(b@.contains(a@[j]));
        }
    }
    true
}

/// Records a sentence type as observed, once.
fn observe(v: &mut Vec<SentenceType>, x: SentenceType)
    ensures
        final(v)@ == observed_insert(old(v)@, x),
{
    if !list_contains(v, x) {
        v.push(x);
    }
}

/// Grows one constellation's groups and writes a sentence's satellites
/// into its one-based slot.
fn merge_groups_vec(d: &mut Vec<Vec<Satellite>>, n: u16, idx: u16, sats: Vec<Satellite>)
    requires
        idx >= 1,
    ensures
        groups_view(final(d)@) == merge_groups(groups_view(old(d)@), n as int, idx as int, sats@),
{
    let ghost g0 = groups_view(old(d)@);
    let target: usize = if (n as usize) < (idx as usize) {
        idx as usize
    } else {
        n as usize
    };
    while d.len() < target
        invariant
            groups_view(d@).len() == d@.len(),
            g0.len() <= d@.len(),
            d@.len() == g0.len() || d@.len() <= target,
            forall|i: int| 0 <= i < g0.len() ==> groups_view(d@)[i] == g0[i],
            forall|i: int|
                g0.len() <= i < d@.len() ==> groups_view(d@)[i] == Seq::<Satellite>::empty(),
        decreases target - d@.len(),
    {
        let ghost prev = d@;
        let empty_group: Vec<Satellite> = Vec::new();
        d.push(empty_group);
        proof {
            assert forall|i: int| 0 <= i < prev.len() implies #[trigger] groups_view(d@)[i]
                == groups_view(prev)[i] by {
                assert(d@[i] == prev[i]);
            }
            assert(groups_view(d@)[d@.len() - 1] == Seq::<Satellite>::empty());
        }
    }
    let ghost grown = groups_view(d@);
    proof {
        assert(grown =~= grow_groups(grow_groups(g0, n as int), idx as int)) by {
            let t1 = grow_groups(g0, n as int);
            let t2 = grow_groups(t1, idx as int);
            assert(t2.len() == grown.len());
            assert forall|i: int| 0 <= i < grown.len() implies grown[i] == t2[i] by {
                if i < g0.len() {
                    assert(t1[i] == g0[i]);
                } else if i < t1.len() {
                } else {
                }
            }
        }
    }
    // write the slot: append, then swap the stale content out
    let ghost before = d@;
    let ghost satsv = sats@;
    d.push(sats);
    let _stale = d.swap_remove(idx as usize - 1);
    proof {
        assert(d@.len() == before.len());
        assert forall|i: int| 0 <= i < d@.len() implies #[trigger] groups_view(d@)[i] == (if i
            == idx - 1 {
            satsv
        } else {
            grown[i]
        }) by {
            if i != idx - 1 {
                assert(d@[i] == before[i]);
            } else {
                assert(d@[i]@ == satsv);
            }
        }
        assert(groups_view(d@) =~= grown.update(idx as int - 1, satsv));
    }
}

/// Appends every satellite of every group to `out`, in order.
fn flatten_groups_into(out: &mut Vec<Satellite>, v: &Vec<Vec<Satellite>>)
    ensures
        final(out)@ == old(out)@ + groups_view(v@).flatten(),
{
    let ghost base = old(out)@;
    let mut i: usize = 0;
    proof {
        assert(groups_view(v@.take(0)).flatten() =~= Seq::<Satellite>::empty());
        assert(base + Seq::<Satellite>::empty() =~= base);
    }
    while i < v.len()
        invariant
            0 <= i <= v@.len(),
            out@ == base + groups_view(v@.take(i as int)).flatten(),
        decreases v@.len() - i,
    {
        let g = &v[i];
        let mut j: usize = 0;
        while j < g.len()
            invariant
                0 <= j <= g@.len(),
                0 <= i < v@.len(),
                g@ == v@[i as int]@,
                out@ == base + groups_view(v@.take(i as int)).flatten() + g@.take(j as int),
            decreases g@.len() - j,
        {
            proof {
                assert((base + groups_view(v@.take(i as int)).flatten() + g@.take(j as int)).push(
                    g@[j as int],
                ) =~= base + groups_view(v@.take(i as int)).flatten() + g@.take(j + 1));
            }
            out.push(g[j]);
            j = j + 1;
        }
        proof {
            assert(g@.take(g@.len() as int) =~= g@);
            assert(v@.take(i + 1) =~= v@.take(i as int).push(v@[i as int]));
            assert(groups_view(v@.take(i + 1)) =~= groups_view(v@.take(i as int)).push(
                v@[i as int]@,
            ));
            groups_view(v@.take(i as int)).lemma_flatten_push(v@[i as int]@);
            assert(base + groups_view(v@.take(i as int)).flatten() + g@ =~= base + groups_view(
                v@.take(i + 1),
            ).flatten());
        }
        i = i + 1;
    }
    proof {
        assert(v@.take(v@.len() as int) =~= v@);
    }
}

impl Nmea {
    /// Constructs a parser with no mandatory sentence set: every field
    /// unset, the satellite table empty.
    pub fn new() -> (r: Nmea)
        ensures
            is_initial(r),
            r.required_sentences_for_nav@ == Seq::<SentenceType>::empty(),
    {
        Nmea {
            fix_time: None,
            fix_date: None,
            fix_type: None,
            latitude: None,
            longitude: None,
            altitude: None,
            speed_over_ground: None,
            true_course: None,
            num_of_fix_satellites: None,
            hdop: None,
            vdop: None,
            pdop: None,
            geoid_height: None,
            satellites: Vec::new(),
            fix_satellites_prns: None,
            satellites_scan: SatScan { galileo: Vec::new(), gps: Vec::new(), glonass: Vec::new() },
            required_sentences_for_nav: Vec::new(),
            last_fix_time: None,
            sentences_for_this_time: Vec::new(),
        }
    }

    /// Constructs a parser for navigation: the caller names the sentence
    /// types that must all be seen within one tick before a fix is
    /// reported.  An empty set is refused.
    pub fn create_for_navigation(required_sentences_for_nav: Vec<SentenceType>) -> (r: Result<
        Nmea,
        &'static str,
    >)
        ensures
            match r {
                Ok(n) => required_sentences_for_nav@.len() > 0 && is_initial(n)
                    && n.required_sentences_for_nav@ == required_sentences_for_nav@,
                Err(_) => required_sentences_for_nav@.len() == 0,
            },
    {
        if required_sentences_for_nav.len() == 0 {
            return Err("Should be at least one sentence type in required");
        }
        let mut n = Self::new();
        n.required_sentences_for_nav = required_sentences_for_nav;
        Ok(n)
    }

    /// The time of day of the current fix.
    pub fn fix_timestamp(&self) -> (r: Option<NaiveTime>)
        ensures
            r == self.fix_time,
    {
        self.fix_time
    }

    /// The current fix type.
    pub fn fix_type(&self) -> (r: Option<FixType>)
        ensures
            r == self.fix_type,
    {
        self.fix_type
    }

    /// The last fixed latitude in degrees, or unset.
    pub fn latitude(&self) -> (r: Option<Coord>)
        ensures
            r == self.latitude,
    {
        self.latitude
    }

    /// The last fixed longitude in degrees, or unset.
    pub fn longitude(&self) -> (r: Option<Coord>)
        ensures
            r == self.longitude,
    {
        self.longitude
    }

    /// The altitude above mean sea level in metres, or unset.
    pub fn altitude(&self) -> (r: Option<Decimal>)
        ensures
            r == self.altitude,
    {
        self.altitude
    }

    /// How many satellites the fix uses, or unset.
    pub fn fix_satellites(&self) -> (r: Option<u32>)
        ensures
            r == self.num_of_fix_satellites,
    {
        self.num_of_fix_satellites
    }

    /// The horizontal dilution of precision, or unset.
    pub fn hdop(&self) -> (r: Option<Decimal>)
        ensures
            r == self.hdop,
    {
        self.hdop
    }

    /// The height of the geoid above the WGS84 ellipsoid in metres, or
    /// unset.
    pub fn geoid_height(&self) -> (r: Option<Decimal>)
        ensures
            r == self.geoid_height,
    {
        self.geoid_height
    }

    /// The flattened satellite inventory, as rebuilt by the last GSV
    /// merge.
    pub fn satellites(&self) -> (r: Vec<Satellite>)
        ensures
            r@ == self.satellites@,
    {
        let mut out: Vec<Satellite> = Vec::new();
        let mut i: usize = 0;
        while i < self.satellites.len()
            invariant
                0 <= i <= self.satellites@.len(),
                out@ == self.satellites@.take(i as int),
            decreases self.satellites@.len() - i,
        {
            proof {
                assert(self.satellites@.take(i + 1) =~= self.satellites@.take(i as int).push(
                    self.satellites@[i as int],
                ));
            }
            out.push(self.satellites[i]);
            i = i + 1;
        }
        proof {
            assert(self.satellites@.take(self.satellites@.len() as int) =~= self.satellites@);
        }
        out
    }

    /// Merges a decoded GGA record into the running fix.
    fn merge_gga_data(&mut self, gga_data: GgaData)
        ensures
            merged_gga(*old(self), gga_data, *final(self)),
    {
        self.fix_time = gga_data.fix_time;
        self.latitude = gga_data.latitude;
        self.longitude = gga_data.longitude;
        self.fix_type = gga_data.fix_type;
        self.num_of_fix_satellites = gga_data.fix_satellites;
        self.hdop = gga_data.hdop;
        self.altitude = gga_data.altitude;
        self.geoid_height = gga_data.geoid_height;
    }

    /// Merges a decoded RMC record into the running fix.
    fn merge_rmc_data(&mut self, rmc_data: RmcData)
        ensures
            merged_rmc(*old(self), rmc_data, *final(self)),
    {
        self.fix_time = rmc_data.fix_time;
        self.fix_date = rmc_data.fix_date;
        self.fix_type = match rmc_data.status_of_fix {
            Some(RmcStatusOfFix::Autonomous) => Some(FixType::Gps),
            Some(RmcStatusOfFix::Differential) => Some(FixType::DGps),
            Some(RmcStatusOfFix::Invalid) => Some(FixType::Invalid),
            None => None,
        };
        self.latitude = rmc_data.lat;
        self.longitude = rmc_data.lon;
        self.speed_over_ground = rmc_data.speed_over_ground;
        self.true_course = rmc_data.true_course;
    }

    /// Merges a decoded GSA record into the running fix.
    fn merge_gsa_data(&mut self, gsa: GsaData)
        ensures
            merged_gsa(*old(self), gsa.fix_sats_prn@, gsa.pdop, gsa.hdop, gsa.vdop, *final(self)),
    {
        self.fix_satellites_prns = Some(gsa.fix_sats_prn);
        self.hdop = gsa.hdop;
        self.vdop = gsa.vdop;
        self.pdop = gsa.pdop;
    }

    /// Merges a decoded VTG record into the running fix.
    fn merge_vtg_data(&mut self, vtg: VtgData)
        ensures
            merged_vtg(*old(self), vtg, *final(self)),
    {
        self.speed_over_ground = vtg.speed_over_ground;
        self.true_course = vtg.true_course;
    }

    /// Merges a decoded GSV record: writes the sentence's slot into its
    /// constellation's scan and rebuilds the flattened satellite list.  A
    /// sentence index of zero names no slot and is refused, with the state
    /// left unchanged.
    fn merge_gsv_data(&mut self, data: GsvData) -> (r: Result<(), ParseError>)
        ensures
            match r {
                Ok(_) => data.sentence_num >= 1 && merged_gsv(
                    *old(self),
                    data.gnss_type,
                    data.number_of_sentences,
                    data.sentence_num,
                    data.sats_info@,
                    *final(self),
                ),
                Err(e) => e == ParseError::InvalidGsvSentenceNum && data.sentence_num == 0
                    && *final(self) == *old(self),
            },
    {
        if data.sentence_num == 0 {
            return Err(ParseError::InvalidGsvSentenceNum);
        }
        // the satellites this sentence reports, in slot order
        let mut sats: Vec<Satellite> = Vec::new();
        let mut i: usize = 0;
        proof {
            assert(data.sats_info@.take(0) =~= Seq::<Option<Satellite>>::empty());
        }
        while i < 4
            invariant
                0 <= i <= 4,
                data.sats_info@.len() == 4,
                sats@ == some_sats(data.sats_info@.take(i as int)),
            decreases 4 - i,
        {
            proof {
                assert(data.sats_info@.take(i + 1).drop_last() =~= data.sats_info@.take(i as int));
                assert(data.sats_info@.take(i + 1).last() == data.sats_info@[i as int]);
            }
            match data.sats_info[i] {
                Some(s) => sats.push(s),
                None => {},
            }
            i = i + 1;
        }
        proof {
            assert(data.sats_info@.take(4) =~= data.sats_info@);
        }
        match data.gnss_type {
            GnssType::Galileo => merge_groups_vec(
                &mut self.satellites_scan.galileo,
                data.number_of_sentences,
                data.sentence_num,
                sats,
            ),
            GnssType::Gps => merge_groups_vec(
                &mut self.satellites_scan.gps,
                data.number_of_sentences,
                data.sentence_num,
                sats,
            ),
            GnssType::Glonass => merge_groups_vec(
                &mut self.satellites_scan.glonass,
                data.number_of_sentences,
                data.sentence_num,
                sats,
            ),
        }
        // rebuild the flattened list in table iteration order
        let mut flat: Vec<Satellite> = Vec::new();
        flatten_groups_into(&mut flat, &self.satellites_scan.galileo);
        flatten_groups_into(&mut flat, &self.satellites_scan.gps);
        flatten_groups_into(&mut flat, &self.satellites_scan.glonass);
        proof {
            assert(Seq::<Satellite>::empty() + groups_view(
                self.satellites_scan.galileo@,
            ).flatten() =~= groups_view(self.satellites_scan.galileo@).flatten());
        }
        self.satellites = flat;
        Ok(())
    }

    /// Starts a new tick: clears every fix-defining field and the per-tick
    /// observed set, keeping the satellite inventory, the flattened list,
    /// the mandatory-set configuration and the stored tick time.
    fn new_tick(&mut self)
        ensures
            is_new_tick(*old(self), *final(self)),
    {
        self.fix_time = None;
        self.fix_date = None;
        self.fix_type = None;
        self.latitude = None;
        self.longitude = None;
        self.altitude = None;
        self.speed_over_ground = None;
        self.true_course = None;
        self.num_of_fix_satellites = None;
        self.hdop = None;
        self.vdop = None;
        self.pdop = None;
        self.geoid_height = None;
        self.fix_satellites_prns = None;
        self.sentences_for_this_time = Vec::new();
    }

    /// Clears the session on a fix-invalidating sentence: a new tick that
    /// also forgets the stored tick time.
    fn clear_position_info(&mut self)
        ensures
            is_cleared(*old(self), *final(self)),
    {
        self.last_fix_time = None;
        self.new_tick();
    }

    /// The verdict over the current state.
    fn fix_verdict(&self) -> (r: FixType)
        ensures
            r == spec_verdict(*self),
    {
        match self.fix_type {
            None => FixType::Invalid,
            Some(ft) => {
                let invalid = matches!(ft, FixType::Invalid);
                if !invalid && list_subset(
                    &self.required_sentences_for_nav,
                    &self.sentences_for_this_time,
                ) {
                    ft
                } else {
                    FixType::Invalid
                }
            },
        }
    }

    /// Parses one sentence and merges it into the running fix
    /// unconditionally: later sentences overwrite the fields they carry.
    /// Returns the sentence's type tag; a well-formed sentence of an
    /// unsupported type, and any decode failure, leaves the state
    /// unchanged.
    pub fn parse(&mut self, s: &str) -> (r: Result<SentenceType, ParseError>)
        ensures
            ({
                let pre = *old(self);
                let post = *final(self);
                match crate::parse::spec_checked_frame(s.spec_bytes()) {
                    Err(e) => r == Err::<SentenceType, ParseError>(e) && post == pre,
                    Ok((talker, message, data, cs)) => {
                        if message == seq![71u8, 71u8, 65u8] {
                            match crate::parse::spec_parse_gga(data) {
                                Ok(g) => merged_gga(pre, g, post) && r == Ok::<_, ParseError>(
                                    SentenceType::GGA,
                                ),
                                Err(e) => r == Err::<SentenceType, ParseError>(e) && post == pre,
                            }
                        } else if message == seq![82u8, 77u8, 67u8] {
                            match crate::parse::spec_parse_rmc(data) {
                                Ok(g) => merged_rmc(pre, g, post) && r == Ok::<_, ParseError>(
                                    SentenceType::RMC,
                                ),
                                Err(e) => r == Err::<SentenceType, ParseError>(e) && post == pre,
                            }
                        } else if message == seq![71u8, 83u8, 65u8] {
                            match crate::parse::spec_parse_gsa(data) {
                                Ok(t) => merged_gsa(pre, t.2, t.3, t.4, t.5, post) && r == Ok::<
                                    _,
                                    ParseError,
                                >(SentenceType::GSA),
                                Err(e) => r == Err::<SentenceType, ParseError>(e) && post == pre,
                            }
                        } else if message == seq![86u8, 84u8, 71u8] {
                            match crate::parse::spec_parse_vtg(data) {
                                Ok(g) => merged_vtg(pre, g, post) && r == Ok::<_, ParseError>(
                                    SentenceType::VTG,
                                ),
                                Err(e) => r == Err::<SentenceType, ParseError>(e) && post == pre,
                            }
                        } else if message == seq![71u8, 83u8, 86u8] {
                            match crate::parse::spec_parse_gsv(talker, data) {
                                Ok(t) => if t.2 == 0 {
                                    r == Err::<SentenceType, ParseError>(
                                        ParseError::InvalidGsvSentenceNum,
                                    ) && post == pre
                                } else {
                                    merged_gsv(pre, t.0, t.1, t.2, t.4, post) && r == Ok::<
                                        _,
                                        ParseError,
                                    >(SentenceType::GSV)
                                },
                                Err(e) => r == Err::<SentenceType, ParseError>(e) && post == pre,
                            }
                        } else {
                            r == Err::<SentenceType, ParseError>(
                                ParseError::UnsupportedSentenceType,
                            ) && post == pre
                        }
                    },
                }
            }),
    {
        match crate::parse::parse(s.as_bytes()) {
            Err(e) => Err(e),
            Ok(pr) => match pr {
                ParseResult::VTG(vtg) => {
                    self.merge_vtg_data(vtg);
                    Ok(SentenceType::VTG)
                },
                ParseResult::GGA(gga) => {
                    self.merge_gga_data(gga);
                    Ok(SentenceType::GGA)
                },
                ParseResult::GSV(gsv) => match self.merge_gsv_data(gsv) {
                    Ok(_) => Ok(SentenceType::GSV),
                    Err(e) => Err(e),
                },
                ParseResult::RMC(rmc) => {
                    self.merge_rmc_data(rmc);
                    Ok(SentenceType::RMC)
                },
                ParseResult::GSA(gsa) => {
                    self.merge_gsa_data(gsa);
                    Ok(SentenceType::GSA)
                },
                ParseResult::Unsupported(_) => Err(ParseError::UnsupportedSentenceType),
            },
        }
    }

    /// Parses one sentence and decides, under the tick-gating contract,
    /// whether a navigation-grade fix is currently available.
    ///
    /// GSA and GSV sentences always merge and report no fix.  VTG merges
    /// only if the caller declared it mandatory; one missing course or
    /// speed then clears the session.  An RMC or GGA sentence with an
    /// invalid or absent gate (status letter, quality digit) or a missing
    /// time clears the session; one whose time differs from the stored
    /// tick time starts a new tick before merging.  After a merge the fix
    /// is reported only when every mandatory sentence type has been seen
    /// within the current tick.
    pub fn parse_for_fix(&mut self, xs: &[u8]) -> (r: Result<FixType, ParseError>)
        ensures
            ({
                let pre = *old(self);
                let post = *final(self);
                match crate::parse::spec_checked_frame(xs@) {
                    Err(e) => r == Err::<FixType, ParseError>(e) && post == pre,
                    Ok((talker, message, data, cs)) => {
                        if message == seq![71u8, 83u8, 65u8] {
                            match crate::parse::spec_parse_gsa(data) {
                                Ok(t) => merged_gsa(pre, t.2, t.3, t.4, t.5, post) && r == Ok::<
                                    _,
                                    ParseError,
                                >(FixType::Invalid),
                                Err(e) => r == Err::<FixType, ParseError>(e) && post == pre,
                            }
                        } else if message == seq![71u8, 83u8, 86u8] {
                            match crate::parse::spec_parse_gsv(talker, data) {
                                Ok(t) => if t.2 == 0 {
                                    r == Err::<FixType, ParseError>(
                                        ParseError::InvalidGsvSentenceNum,
                                    ) && post == pre
                                } else {
                                    merged_gsv(pre, t.0, t.1, t.2, t.4, post) && r == Ok::<
                                        _,
                                        ParseError,
                                    >(FixType::Invalid)
                                },
                                Err(e) => r == Err::<FixType, ParseError>(e) && post == pre,
                            }
                        } else if message == seq![86u8, 84u8, 71u8] {
                            match crate::parse::spec_parse_vtg(data) {
                                Ok(v) => if !pre.required_sentences_for_nav@.contains(
                                    SentenceType::VTG,
                                ) {
                                    r == Ok::<_, ParseError>(FixType::Invalid) && post == pre
                                } else if v.true_course is None || v.speed_over_ground is None {
                                    is_cleared(pre, post) && r == Ok::<_, ParseError>(
                                        FixType::Invalid,
                                    )
                                } else {
                                    vtg_fix_merged(pre, v, post) && r == Ok::<_, ParseError>(
                                        spec_verdict(post),
                                    )
                                },
                                Err(e) => r == Err::<FixType, ParseError>(e) && post == pre,
                            }
                        } else if message == seq![82u8, 77u8, 67u8] {
                            match crate::parse::spec_parse_rmc(data) {
                                Ok(d) => match d.status_of_fix {
                                    Some(RmcStatusOfFix::Invalid) | None => is_cleared(pre, post)
                                        && r == Ok::<_, ParseError>(FixType::Invalid),
                                    _ => match (pre.last_fix_time, d.fix_time) {
                                        (Some(lt), Some(ft)) => if lt != ft {
                                            rmc_fix_merged(pre, d, Some(ft), true, post) && r
                                                == Ok::<_, ParseError>(spec_verdict(post))
                                        } else {
                                            rmc_fix_merged(pre, d, Some(lt), false, post) && r
                                                == Ok::<_, ParseError>(spec_verdict(post))
                                        },
                                        (None, Some(ft)) => rmc_fix_merged(
                                            pre,
                                            d,
                                            Some(ft),
                                            false,
                                            post,
                                        ) && r == Ok::<_, ParseError>(spec_verdict(post)),
                                        (_, None) => is_cleared(pre, post) && r == Ok::<
                                            _,
                                            ParseError,
                                        >(FixType::Invalid),
                                    },
                                },
                                Err(e) => r == Err::<FixType, ParseError>(e) && post == pre,
                            }
                        } else if message == seq![71u8, 71u8, 65u8] {
                            match crate::parse::spec_parse_gga(data) {
                                Ok(g) => match g.fix_type {
                                    Some(FixType::Invalid) | None => is_cleared(pre, post) && r
                                        == Ok::<_, ParseError>(FixType::Invalid),
                                    _ => match (pre.last_fix_time, g.fix_time) {
                                        (Some(lt), Some(ft)) => if lt != ft {
                                            gga_fix_merged(pre, g, Some(ft), true, post) && r
                                                == Ok::<_, ParseError>(spec_verdict(post))
                                        } else {
                                            gga_fix_merged(pre, g, Some(lt), false, post) && r
                                                == Ok::<_, ParseError>(spec_verdict(post))
                                        },
                                        (None, Some(ft)) => gga_fix_merged(
                                            pre,
                                            g,
                                            Some(ft),
                                            false,
                                            post,
                                        ) && r == Ok::<_, ParseError>(spec_verdict(post)),
                                        (_, None) => is_cleared(pre, post) && r == Ok::<
                                            _,
                                            ParseError,
                                        >(FixType::Invalid),
                                    },
                                },
                                Err(e) => r == Err::<FixType, ParseError>(e) && post == pre,
                            }
                        } else {
                            r == Ok::<_, ParseError>(FixType::Invalid) && post == pre
                        }
                    },
                }
            }),
    {
        match crate::parse::parse(xs) {
            Err(e) => Err(e),
            Ok(pr) => match pr {
                ParseResult::GSA(gsa) => {
                    self.merge_gsa_data(gsa);
                    Ok(FixType::Invalid)
                },
                ParseResult::GSV(gsv_data) => match self.merge_gsv_data(gsv_data) {
                    Ok(_) => Ok(FixType::Invalid),
                    Err(e) => Err(e),
                },
                ParseResult::VTG(vtg) => {
                    // VTG has no time field, so it only counts if the
                    // caller named it mandatory
                    if list_contains(&self.required_sentences_for_nav, SentenceType::VTG) {
                        let course_missing = matches!(vtg.true_course, None);
                        let speed_missing = matches!(vtg.speed_over_ground, None);
                        if course_missing || speed_missing {
                            self.clear_position_info();
                            return Ok(FixType::Invalid);
                        }
                        self.merge_vtg_data(vtg);
                        observe(&mut self.sentences_for_this_time, SentenceType::VTG);
                        Ok(self.fix_verdict())
                    } else {
                        Ok(FixType::Invalid)
                    }
                },
                ParseResult::RMC(rmc_data) => {
                    match rmc_data.status_of_fix {
                        Some(RmcStatusOfFix::Invalid) | None => {
                            self.clear_position_info();
                            return Ok(FixType::Invalid);
                        },
                        _ => {},
                    }
                    match (self.last_fix_time, rmc_data.fix_time) {
                        (Some(last_fix_time), Some(rmc_fix_time)) => {
                            if last_fix_time != rmc_fix_time {
                                self.new_tick();
                                self.last_fix_time = Some(rmc_fix_time);
                            }
                        },
                        (None, Some(rmc_fix_time)) => {
                            self.last_fix_time = Some(rmc_fix_time);
                        },
                        (_, None) => {
                            self.clear_position_info();
                            return Ok(FixType::Invalid);
                        },
                    }
                    self.merge_rmc_data(rmc_data);
                    observe(&mut self.sentences_for_this_time, SentenceType::RMC);
                    Ok(self.fix_verdict())
                },
                ParseResult::GGA(gga_data) => {
                    match gga_data.fix_type {
                        Some(FixType::Invalid) | None => {
                            self.clear_position_info();
                            return Ok(FixType::Invalid);
                        },
                        _ => {},
                    }
                    match (self.last_fix_time, gga_data.fix_time) {
                        (Some(last_fix_time), Some(gga_fix_time)) => {
                            if last_fix_time != gga_fix_time {
                                self.new_tick();
                                self.last_fix_time = Some(gga_fix_time);
                            }
                        },
                        (None, Some(gga_fix_time)) => {
                            self.last_fix_time = Some(gga_fix_time);
                        },
                        (_, None) => {
                            self.clear_position_info();
                            return Ok(FixType::Invalid);
                        },
                    }
                    self.merge_gga_data(gga_data);
                    observe(&mut self.sentences_for_this_time, SentenceType::GGA);
                    Ok(self.fix_verdict())
                },
                ParseResult::Unsupported(_) => Ok(FixType::Invalid),
            },
        }
    }
}

} // verus!
